//! Decoding failures: a root cause and the chain of places that were being
//! decoded when it happened, innermost first.

use crate::varint::VarIntError;
use vstd::prelude::*;

verus! {

/// The root cause of a failed decode.
#[derive(Clone, Copy, Debug, PartialEq, Eq, Structural)]
pub enum ErrorKind {
    /// Fewer bytes remain than the value being read needs.
    UnexpectedEnd,
    /// A variable-length integer ran past its five-byte limit.
    VarIntTooLarge,
    /// The discriminant that was read belongs to no variant of the enum.
    UnknownDiscriminant(i32),
    /// The leading identifier is not the one of the packet type asked for.
    PacketIdMismatch { got: i32, expected: i32 },
}

/// How a field is referred to: by its name, or by its position in a tuple.
#[derive(Clone, Debug, PartialEq, Eq)]
pub enum FieldName {
    Named(String),
    Index(usize),
}

/// One link of the context chain: what was being decoded.
#[derive(Clone, Debug, PartialEq, Eq)]
pub enum Context {
    /// A field of a struct.
    Field { field: FieldName },
    /// A field of one variant of an enum.
    VariantField { field: FieldName, variant: String },
    /// The discriminant of an enum.
    Discriminant,
    /// The leading identifier of a packet.
    PacketId,
}

/// A failure as contracts speak of it.
pub struct Failure {
    pub kind: ErrorKind,
    pub context: Seq<Context>,
}

/// A failed decode: the root cause, never replaced, and the contexts it
/// passed through on its way out, innermost first.
#[derive(Clone, Debug, PartialEq, Eq)]
pub struct DecodeError {
    pub kind: ErrorKind,
    pub context: Vec<Context>,
}

impl View for DecodeError {
    type V = Failure;

    open spec fn view(&self) -> Failure {
        Failure { kind: self.kind, context: self.context@ }
    }
}

/// The root cause that a failed integer read stands for.
pub open spec fn varint_kind(e: VarIntError) -> ErrorKind {
    match e {
        VarIntError::UnexpectedEnd => ErrorKind::UnexpectedEnd,
        VarIntError::TooLarge => ErrorKind::VarIntTooLarge,
    }
}

/// A failure that has passed through no context yet.
pub open spec fn bare(kind: ErrorKind) -> Failure {
    Failure { kind, context: Seq::empty() }
}

/// The failure `f` after it has passed through `ctx`.
pub open spec fn annotate(f: Failure, ctx: Context) -> Failure {
    Failure { kind: f.kind, context: f.context.push(ctx) }
}

impl FieldName {
    /// A copy of the name.
    pub fn duplicate(&self) -> (c: FieldName)
        ensures
            c == *self,
    {
        match self {
            FieldName::Named(s) => FieldName::Named(s.clone()),
            FieldName::Index(i) => FieldName::Index(*i),
        }
    }
}

impl DecodeError {
    /// A failure with the given root cause and an empty context chain.
    pub fn new(kind: ErrorKind) -> (e: DecodeError)
        ensures
            e@ == bare(kind),
    {
        DecodeError { kind, context: Vec::new() }
    }

    /// The failure that a failed integer read stands for.
    pub fn from_varint(e: VarIntError) -> (d: DecodeError)
        ensures
            d@ == bare(varint_kind(e)),
    {
        match e {
            VarIntError::UnexpectedEnd => DecodeError::new(ErrorKind::UnexpectedEnd),
            VarIntError::TooLarge => DecodeError::new(ErrorKind::VarIntTooLarge),
        }
    }

    /// Adds one link to the outer end of the chain; the root cause stays.
    pub fn context(self, ctx: Context) -> (e: DecodeError)
        ensures
            e@ == annotate(self@, ctx),
    {
        let mut e = self;
        e.context.push(ctx);
        e
    }
}

} // verus!
