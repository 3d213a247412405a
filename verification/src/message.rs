//! The wording of failures: the text of each root cause and of each context,
//! and the chain they form.

use crate::error::{Context, DecodeError, ErrorKind, FieldName};
use vstd::prelude::*;

verus! {

/// Appends `t` to `s` with `String::push_str`: afterwards `s` reads as it did
/// before, followed by the characters of `t`.
#[verifier::external_body]
fn push_str(s: &mut String, t: &str)
    ensures
        final(s)@ == old(s)@ + t@,
{
    s.push_str(t);
}

/// Appends `c` to `s` with `String::push`: afterwards `s` reads as it did
/// before, followed by `c`.
#[verifier::external_body]
fn push_char(s: &mut String, c: char)
    ensures
        final(s)@ == old(s)@.push(c),
{
    s.push(c);
}

/// The character of one decimal digit.
pub open spec fn digit(d: nat) -> char
    recommends
        d < 10,
{
    if d == 0 {
        '0'
    } else if d == 1 {
        '1'
    } else if d == 2 {
        '2'
    } else if d == 3 {
        '3'
    } else if d == 4 {
        '4'
    } else if d == 5 {
        '5'
    } else if d == 6 {
        '6'
    } else if d == 7 {
        '7'
    } else if d == 8 {
        '8'
    } else {
        '9'
    }
}

/// A natural number in decimal, without leading zeros.
pub open spec fn decimal(n: nat) -> Seq<char>
    decreases n,
{
    if n < 10 {
        seq![digit(n)]
    } else {
        decimal(n / 10).push(digit(n % 10))
    }
}

/// An integer in decimal, with a minus sign if it is negative.
pub open spec fn signed_decimal(v: int) -> Seq<char> {
    if v < 0 {
        seq!['-'] + decimal((-v) as nat)
    } else {
        decimal(v as nat)
    }
}

/// The text of a field's name: the name itself, or the position in decimal.
pub open spec fn name_text(name: FieldName) -> Seq<char> {
    match name {
        FieldName::Named(s) => s@,
        FieldName::Index(i) => decimal(i as nat),
    }
}

/// The text of a root cause.
pub open spec fn kind_text(kind: ErrorKind) -> Seq<char> {
    match kind {
        ErrorKind::UnexpectedEnd => "unexpected end of buffer"@,
        ErrorKind::VarIntTooLarge => "VarInt is too large"@,
        ErrorKind::UnknownDiscriminant(d) => "unexpected enum discriminant "@ + signed_decimal(
            d as int,
        ),
        ErrorKind::PacketIdMismatch { got, expected } => "unexpected packet ID "@ + signed_decimal(
            got as int,
        ) + " (expected "@ + signed_decimal(expected as int) + ")"@,
    }
}

/// The text of a context.
pub open spec fn context_text(ctx: Context) -> Seq<char> {
    match ctx {
        Context::Field { field } => "failed to decode field `"@ + name_text(field) + "`"@,
        Context::VariantField { field, variant } => "failed to decode field `"@ + name_text(field)
            + "` in variant `"@ + variant@ + "`"@,
        Context::Discriminant => "failed to decode enum discriminant"@,
        Context::PacketId => "failed to decode packet ID"@,
    }
}

/// The whole chain on one line: the outermost context first, each followed
/// by a colon and a space, and the root cause last.
pub open spec fn chain_text(kind: ErrorKind, context: Seq<Context>) -> Seq<char>
    decreases context.len(),
{
    if context.len() == 0 {
        kind_text(kind)
    } else {
        context_text(context.last()) + ": "@ + chain_text(kind, context.drop_last())
    }
}

/// The character of the digit `d`.
fn digit_char(d: u64) -> (c: char)
    requires
        d < 10,
    ensures
        c == digit(d as nat),
{
    if d == 0 {
        '0'
    } else if d == 1 {
        '1'
    } else if d == 2 {
        '2'
    } else if d == 3 {
        '3'
    } else if d == 4 {
        '4'
    } else if d == 5 {
        '5'
    } else if d == 6 {
        '6'
    } else if d == 7 {
        '7'
    } else if d == 8 {
        '8'
    } else {
        '9'
    }
}

/// Appends `n` in decimal.
fn push_decimal(s: &mut String, n: u64)
    ensures
        final(s)@ == old(s)@ + decimal(n as nat),
    decreases n,
{
    if n >= 10 {
        push_decimal(s, n / 10);
    }
    push_char(s, digit_char(n % 10));
    assert(s@ =~= old(s)@ + decimal(n as nat));
}

/// Appends `v` in decimal, with its sign.
fn push_signed(s: &mut String, v: i32)
    ensures
        final(s)@ == old(s)@ + signed_decimal(v as int),
{
    let wide: i64 = v as i64;
    if wide < 0 {
        push_char(s, '-');
        push_decimal(s, (0 - wide) as u64);
    } else {
        push_decimal(s, wide as u64);
    }
    assert(s@ =~= old(s)@ + signed_decimal(v as int));
}

/// Appends the text of a field's name.
fn push_name(s: &mut String, name: &FieldName)
    ensures
        final(s)@ == old(s)@ + name_text(*name),
{
    match name {
        FieldName::Named(n) => push_str(s, n.as_str()),
        FieldName::Index(i) => push_decimal(s, *i as u64),
    }
}

/// Appends the text of a root cause.
fn push_kind(s: &mut String, kind: &ErrorKind)
    ensures
        final(s)@ == old(s)@ + kind_text(*kind),
{
    match kind {
        ErrorKind::UnexpectedEnd => push_str(s, "unexpected end of buffer"),
        ErrorKind::VarIntTooLarge => push_str(s, "VarInt is too large"),
        ErrorKind::UnknownDiscriminant(d) => {
            push_str(s, "unexpected enum discriminant ");
            push_signed(s, *d);
        },
        ErrorKind::PacketIdMismatch { got, expected } => {
            push_str(s, "unexpected packet ID ");
            push_signed(s, *got);
            push_str(s, " (expected ");
            push_signed(s, *expected);
            push_str(s, ")");
        },
    }
    assert(s@ =~= old(s)@ + kind_text(*kind));
}

/// Appends the text of a context.
fn push_context(s: &mut String, ctx: &Context)
    ensures
        final(s)@ == old(s)@ + context_text(*ctx),
{
    match ctx {
        Context::Field { field } => {
            push_str(s, "failed to decode field `");
            push_name(s, field);
            push_str(s, "`");
        },
        Context::VariantField { field, variant } => {
            push_str(s, "failed to decode field `");
            push_name(s, field);
            push_str(s, "` in variant `");
            push_str(s, variant.as_str());
            push_str(s, "`");
        },
        Context::Discriminant => push_str(s, "failed to decode enum discriminant"),
        Context::PacketId => push_str(s, "failed to decode packet ID"),
    }
    assert(s@ =~= old(s)@ + context_text(*ctx));
}

impl ErrorKind {
    /// The text of the root cause.
    pub fn message(&self) -> (m: String)
        ensures
            m@ == kind_text(*self),
    {
        let mut m = String::new();
        push_kind(&mut m, self);
        assert(m@ =~= kind_text(*self));
        m
    }
}

impl Context {
    /// The text of the context.
    pub fn message(&self) -> (m: String)
        ensures
            m@ == context_text(*self),
    {
        let mut m = String::new();
        push_context(&mut m, self);
        assert(m@ =~= context_text(*self));
        m
    }
}

impl DecodeError {
    /// The chain as a list: the root cause first, then every context it
    /// passed through, innermost first.
    pub fn chain(&self) -> (texts: Vec<String>)
        ensures
            texts@.len() == self.context@.len() + 1,
            texts@[0]@ == kind_text(self.kind),
            forall|i: int|
                0 <= i < self.context@.len() ==> (#[trigger] texts@[i + 1])@ == context_text(
                    self.context@[i],
                ),
    {
        let mut texts: Vec<String> = Vec::new();
        texts.push(self.kind.message());
        let mut i: usize = 0;
        while i < self.context.len()
            invariant
                i <= self.context.len(),
                texts@.len() == i + 1,
                texts@[0]@ == kind_text(self.kind),
                forall|j: int|
                    0 <= j < i ==> (#[trigger] texts@[j + 1])@ == context_text(self.context@[j]),
            decreases self.context.len() - i,
        {
            texts.push(self.context[i].message());
            i = i + 1;
        }
        texts
    }

    /// The chain on one line, outermost context first and root cause last.
    pub fn message(&self) -> (m: String)
        ensures
            m@ == chain_text(self.kind, self.context@),
    {
        let mut m = String::new();
        let mut i: usize = self.context.len();
        assert(self.context@.take(i as int) =~= self.context@);
        while i > 0
            invariant
                i <= self.context.len(),
                m@ + chain_text(self.kind, self.context@.take(i as int)) == chain_text(
                    self.kind,
                    self.context@,
                ),
            decreases i,
        {
            let ghost before = m@;
            let ghost head = self.context@.take(i as int);
            i = i - 1;
            push_context(&mut m, &self.context[i]);
            push_str(&mut m, ": ");
            proof {
                assert(head.last() == self.context@[i as int]);
                assert(head.drop_last() =~= self.context@.take(i as int));
                let tail = chain_text(self.kind, self.context@.take(i as int));
                assert(m@ + tail =~= before + (context_text(head.last()) + ": "@ + tail));
            }
        }
        push_kind(&mut m, &self.kind);
        assert(self.context@.take(0).len() == 0);
        m
    }
}

} // verus!
