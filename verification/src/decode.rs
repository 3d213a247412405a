//! The decoders: scalars, the fields of a struct in declaration order, an
//! enum behind its discriminant, and a packet behind its identifier.

use crate::cursor::Cursor;
use crate::error::{annotate, bare, varint_kind, Context, DecodeError, ErrorKind, Failure, FieldName};
use crate::schema::{
    decoder_below, find_arm, steps_below, Arm, Decoder, FieldType, PacketDecoder, Registry, Step,
};
use crate::value::{lemma_views_empty, lemma_views_push, views_of, Value, ValueView};
use crate::varint::{decode_varint, spec_decode_varint};
use vstd::prelude::*;

verus! {

/// What a decode gives as contracts speak of it: the value with the number
/// of bytes it occupied, or the failure.
pub type Outcome = Result<(ValueView, nat), Failure>;

/// The number that the first `n` bytes spell, most significant byte first.
pub open spec fn be_value(bytes: Seq<u8>, n: nat) -> nat
    recommends
        n <= bytes.len(),
    decreases n,
{
    if n == 0 {
        0
    } else {
        be_value(bytes, (n - 1) as nat) * 256 + bytes[n - 1] as nat
    }
}

/// 256 to the power `n`.
pub open spec fn radix_power(n: nat) -> nat
    decreases n,
{
    if n == 0 {
        1
    } else {
        256 * radix_power((n - 1) as nat)
    }
}

/// How many bytes a scalar of fixed width, or a run of bytes, occupies.
pub open spec fn width(ty: FieldType) -> nat {
    match ty {
        FieldType::U8 => 1,
        FieldType::U16 => 2,
        FieldType::U32 => 4,
        FieldType::U64 => 8,
        FieldType::Bytes(n) => n as nat,
        _ => 0,
    }
}

/// The meaning of a scalar of type `ty` at the front of `bytes`.
pub open spec fn spec_decode_scalar(ty: FieldType, bytes: Seq<u8>) -> Outcome
    recommends
        !(ty is Type),
{
    match ty {
        FieldType::VarInt => match spec_decode_varint(bytes) {
            Ok((v, used)) => Ok((ValueView::VarInt(v), used)),
            Err(e) => Err(bare(varint_kind(e))),
        },
        _ => if bytes.len() < width(ty) {
            Err(bare(ErrorKind::UnexpectedEnd))
        } else {
            let n = be_value(bytes, width(ty));
            Ok(
                (
                    match ty {
                        FieldType::U8 => ValueView::U8(n as u8),
                        FieldType::U16 => ValueView::U16(n as u16),
                        FieldType::U32 => ValueView::U32(n as u32),
                        FieldType::Bytes(len) => ValueView::Bytes(bytes.take(len as int)),
                        _ => ValueView::U64(n as u64),
                    },
                    width(ty),
                ),
            )
        },
    }
}

/// The context that a failure in the field `name` passes through.
pub open spec fn step_context(name: FieldName, variant: Option<String>) -> Context {
    match variant {
        None => Context::Field { field: name },
        Some(v) => Context::VariantField { field: name, variant: v },
    }
}

/// The meaning of one field of type `ty`, inside type number `t`. A field
/// may only hold a type numbered below `t`; for one that names another, which
/// a well-formed registry does not contain, the meaning is fixed as a failure.
pub open spec fn spec_decode_field(reg: Seq<Decoder>, t: nat, ty: FieldType, bytes: Seq<u8>) -> Outcome
    decreases t, 0nat, 0nat,
{
    match ty {
        FieldType::Type(r) => if r < t {
            spec_decode_type(reg, r as nat, bytes)
        } else {
            Err(bare(ErrorKind::UnexpectedEnd))
        },
        _ => spec_decode_scalar(ty, bytes),
    }
}

/// The meaning of the fields `steps[i..]` of type number `t`, read one
/// after the other: their values in order with the sum of the bytes they
/// occupied, or the failure of the first that fails, annotated with that
/// field.
pub open spec fn spec_decode_steps(
    reg: Seq<Decoder>,
    t: nat,
    steps: Seq<Step>,
    variant: Option<String>,
    i: nat,
    bytes: Seq<u8>,
) -> Result<(Seq<ValueView>, nat), Failure>
    decreases t, 1nat, steps.len() - i,
{
    if i >= steps.len() {
        Ok((Seq::empty(), 0))
    } else {
        match spec_decode_field(reg, t, steps[i as int].ty, bytes) {
            Err(e) => Err(annotate(e, step_context(steps[i as int].name, variant))),
            Ok((v, used)) => match spec_decode_steps(
                reg,
                t,
                steps,
                variant,
                i + 1,
                bytes.skip(used as int),
            ) {
                Err(e) => Err(e),
                Ok((vs, more)) => Ok((seq![v] + vs, used + more)),
            },
        }
    }
}

/// The meaning of a value of type number `t` at the front of `bytes`. For a
/// number that the registry does not hold the meaning is fixed as a failure.
pub open spec fn spec_decode_type(reg: Seq<Decoder>, t: nat, bytes: Seq<u8>) -> Outcome
    decreases t, 2nat, 0nat,
{
    if t >= reg.len() {
        Err(bare(ErrorKind::UnexpectedEnd))
    } else {
        match reg[t as int] {
            Decoder::Struct(steps) => match spec_decode_steps(reg, t, steps@, None, 0, bytes) {
                Err(e) => Err(e),
                Ok((vs, used)) => Ok((ValueView::Struct(vs), used)),
            },
            Decoder::Enum(arms) => match spec_decode_varint(bytes) {
                Err(e) => Err(annotate(bare(varint_kind(e)), Context::Discriminant)),
                Ok((disc, used)) => match find_arm(arms@, disc, 0) {
                    None => Err(bare(ErrorKind::UnknownDiscriminant(disc))),
                    Some(a) => match spec_decode_steps(
                        reg,
                        t,
                        arms@[a as int].steps@,
                        Some(arms@[a as int].name),
                        0,
                        bytes.skip(used as int),
                    ) {
                        Err(e) => Err(e),
                        Ok((vs, more)) => Ok(
                            (ValueView::Variant { index: a as usize, fields: vs }, used + more),
                        ),
                    },
                },
            },
        }
    }
}

/// The meaning of a packet of type number `t` with the identifier that
/// `packet` expects: the identifier is read and compared first, and the
/// fields are read only if it is the expected one.
pub open spec fn spec_decode_packet(
    reg: Seq<Decoder>,
    packet: PacketDecoder,
    t: nat,
    bytes: Seq<u8>,
) -> Outcome {
    match spec_decode_varint(bytes) {
        Err(e) => Err(annotate(bare(varint_kind(e)), Context::PacketId)),
        Ok((id, used)) => if id != packet.packet_id {
            Err(bare(ErrorKind::PacketIdMismatch { got: id, expected: packet.packet_id }))
        } else {
            match spec_decode_type(reg, t, bytes.skip(used as int)) {
                Err(e) => Err(e),
                Ok((v, more)) => Ok((v, used + more)),
            }
        },
    }
}

/// Whether a decode that started on `before` ended as `expected` says: on
/// success with that value and the cursor past exactly the bytes that the
/// value occupied, on failure with that failure.
pub open spec fn ends_as<'a>(
    expected: Outcome,
    res: Result<Value<'a>, DecodeError>,
    before: Seq<u8>,
    after: Seq<u8>,
) -> bool {
    match expected {
        Ok((v, used)) => match res {
            Ok(x) => x@ == v && used <= before.len() && after == before.skip(used as int),
            Err(_) => false,
        },
        Err(f) => match res {
            Ok(_) => false,
            Err(e) => e@ == f,
        },
    }
}

/// The same for a run of fields.
pub open spec fn fields_end_as<'a>(
    expected: Result<(Seq<ValueView>, nat), Failure>,
    res: Result<Vec<Value<'a>>, DecodeError>,
    before: Seq<u8>,
    after: Seq<u8>,
) -> bool {
    match expected {
        Ok((vs, used)) => match res {
            Ok(xs) => views_of(xs) == vs && used <= before.len() && after == before.skip(
                used as int,
            ),
            Err(_) => false,
        },
        Err(f) => match res {
            Ok(_) => false,
            Err(e) => e@ == f,
        },
    }
}

/// The powers of 256 up to the eighth.
proof fn lemma_radix_powers()
    ensures
        radix_power(0) == 1,
        radix_power(1) == 0x100,
        radix_power(2) == 0x1_0000,
        radix_power(3) == 0x100_0000,
        radix_power(4) == 0x1_0000_0000,
        radix_power(5) == 0x100_0000_0000,
        radix_power(6) == 0x1_0000_0000_0000,
        radix_power(7) == 0x100_0000_0000_0000,
        radix_power(8) == 0x1_0000_0000_0000_0000,
{
    reveal_with_fuel(radix_power, 9);
}

/// Reads the number that the first `n` bytes spell and consumes them.
fn read_be(r: &mut Cursor, n: usize) -> (acc: u64)
    requires
        n <= 8,
        n <= old(r)@.len(),
    ensures
        acc == be_value(old(r)@, n as nat),
        acc < radix_power(n as nat),
        final(r)@ == old(r)@.skip(n as int),
{
    let mut acc: u64 = 0;
    let mut i: usize = 0;
    proof {
        lemma_radix_powers();
    }
    while i < n
        invariant
            i <= n <= 8,
            n <= r@.len(),
            r@ == old(r)@,
            acc == be_value(r@, i as nat),
            acc < radix_power(i as nat),
        decreases n - i,
    {
        let byte: u8 = r.peek(i);
        proof {
            lemma_radix_powers();
            assert(radix_power((i + 1) as nat) == 256 * radix_power(i as nat));
            assert(radix_power(i as nat) <= 0x100_0000_0000_0000);
        }
        acc = acc * 256 + byte as u64;
        i = i + 1;
    }
    r.advance(n);
    acc
}

/// Reads one scalar of type `ty`. A run of bytes is handed out as a part
/// of the buffer itself.
pub fn decode_scalar<'a>(ty: FieldType, r: &mut Cursor<'a>) -> (res: Result<Value<'a>, DecodeError>)
    requires
        !(ty is Type),
    ensures
        ends_as(spec_decode_scalar(ty, old(r)@), res, old(r)@, final(r)@),
{
    proof {
        lemma_radix_powers();
    }
    match ty {
        FieldType::VarInt => match decode_varint(r) {
            Ok(v) => Ok(Value::VarInt(v)),
            Err(e) => Err(DecodeError::from_varint(e)),
        },
        FieldType::U8 => {
            if r.len() < 1 {
                return Err(DecodeError::new(ErrorKind::UnexpectedEnd));
            }
            let n: u64 = read_be(r, 1);
            Ok(Value::U8(n as u8))
        },
        FieldType::U16 => {
            if r.len() < 2 {
                return Err(DecodeError::new(ErrorKind::UnexpectedEnd));
            }
            let n: u64 = read_be(r, 2);
            Ok(Value::U16(n as u16))
        },
        FieldType::U32 => {
            if r.len() < 4 {
                return Err(DecodeError::new(ErrorKind::UnexpectedEnd));
            }
            let n: u64 = read_be(r, 4);
            Ok(Value::U32(n as u32))
        },
        FieldType::Bytes(len) => {
            if r.len() < len {
                return Err(DecodeError::new(ErrorKind::UnexpectedEnd));
            }
            let head = r.take(len);
            Ok(Value::Bytes(head))
        },
        _ => {
            if r.len() < 8 {
                return Err(DecodeError::new(ErrorKind::UnexpectedEnd));
            }
            let n: u64 = read_be(r, 8);
            Ok(Value::U64(n))
        },
    }
}

/// The context of a failure in the field `name`, built from copies.
fn make_context(name: &FieldName, variant: Option<&String>) -> (ctx: Context)
    ensures
        ctx == step_context(
            *name,
            match variant {
                Some(v) => Some(*v),
                None => None,
            },
        ),
{
    match variant {
        None => Context::Field { field: name.duplicate() },
        Some(v) => Context::VariantField { field: name.duplicate(), variant: v.clone() },
    }
}

/// The first of `arms` that `disc` selects.
fn select_arm(arms: &Vec<Arm>, disc: i32) -> (res: Option<usize>)
    ensures
        match find_arm(arms@, disc, 0) {
            Some(a) => res matches Some(x) && x == a && a < arms@.len(),
            None => res is None,
        },
{
    let mut a: usize = 0;
    while a < arms.len()
        invariant
            a <= arms.len(),
            find_arm(arms@, disc, 0) == find_arm(arms@, disc, a as nat),
        decreases arms.len() - a,
    {
        if arms[a].discriminant == disc {
            return Some(a);
        }
        a = a + 1;
    }
    None
}

impl Registry {
    /// Decodes the fields `steps` of type number `t` in declaration order.
    /// Field `i` is begun only when field `i - 1` is done, and the first
    /// failure ends the decode, annotated with the field it happened in.
    fn decode_steps<'a>(
        &self,
        t: usize,
        steps: &Vec<Step>,
        variant: Option<&String>,
        r: &mut Cursor<'a>,
    ) -> (res: Result<Vec<Value<'a>>, DecodeError>)
        requires
            self.wf(),
            t < self.types@.len(),
            steps_below(steps@, t as nat),
        ensures
            fields_end_as(
                spec_decode_steps(
                    self.types@,
                    t as nat,
                    steps@,
                    match variant {
                        Some(v) => Some(*v),
                        None => None,
                    },
                    0,
                    old(r)@,
                ),
                res,
                old(r)@,
                final(r)@,
            ),
        decreases t, 1nat,
    {
        let ghost reg = self.types@;
        let ghost var: Option<String> = match variant {
            Some(v) => Some(*v),
            None => None,
        };
        let ghost start = r@;
        let ghost mut used: nat = 0;
        let mut out: Vec<Value<'a>> = Vec::new();
        let mut i: usize = 0;
        proof {
            lemma_views_empty(out);
            assert(start.skip(0) =~= start);
        }
        while i < steps.len()
            invariant
                self.wf(),
                t < self.types@.len(),
                reg == self.types@,
                steps_below(steps@, t as nat),
                start == old(r)@,
                var == (match variant {
                    Some(v) => Some(*v),
                    None => None,
                }),
                i <= steps.len(),
                used <= start.len(),
                r@ == start.skip(used as int),
                views_of(out).len() == i,
                spec_decode_steps(reg, t as nat, steps@, var, 0, start) == (match spec_decode_steps(
                    reg,
                    t as nat,
                    steps@,
                    var,
                    i as nat,
                    r@,
                ) {
                    Err(e) => Err::<(Seq<ValueView>, nat), Failure>(e),
                    Ok((vs, more)) => Ok((views_of(out) + vs, used + more)),
                }),
            decreases steps.len() - i,
        {
            let ghost here = r@;
            let ghost before = out;
            let step = &steps[i];
            assert(steps@[i as int].ty.below(t as nat));
            let field: Result<Value<'a>, DecodeError> = match step.ty {
                FieldType::Type(inner) => self.decode(inner, r),
                _ => decode_scalar(step.ty, r),
            };
            match field {
                Err(e) => {
                    return Err(e.context(make_context(&step.name, variant)));
                },
                Ok(v) => {
                    out.push(v);
                    proof {
                        lemma_views_push(before, out, v);
                        let got = spec_decode_field(reg, t as nat, step.ty, here);
                        let n = got->Ok_0.1;
                        assert(r@ == here.skip(n as int));
                        assert(here.skip(n as int) =~= start.skip((used + n) as int));
                        match spec_decode_steps(reg, t as nat, steps@, var, (i + 1) as nat, r@) {
                            Err(e) => {},
                            Ok((vs, more)) => {
                                assert(views_of(before) + (seq![v@] + vs) =~= views_of(out) + vs);
                            },
                        }
                        used = used + n;
                    }
                },
            }
            i = i + 1;
        }
        proof {
            assert(views_of(out) + Seq::<ValueView>::empty() =~= views_of(out));
        }
        Ok(out)
    }

    /// Decodes a value of type number `t` from the front of the cursor.
    /// Nothing is copied from the buffer: a run of bytes in the value is a
    /// part of the buffer, and the value lives no longer than the buffer.
    ///
    /// A struct is its fields in declaration order; one without fields
    /// consumes nothing. An enum is a discriminant, then the fields of the
    /// first variant declared with that discriminant; a discriminant of no
    /// variant fails before any field is read.
    pub fn decode<'a>(&self, t: usize, r: &mut Cursor<'a>) -> (res: Result<Value<'a>, DecodeError>)
        requires
            self.wf(),
            t < self.types@.len(),
        ensures
            ends_as(spec_decode_type(self.types@, t as nat, old(r)@), res, old(r)@, final(r)@),
        decreases t, 2nat,
    {
        assert(decoder_below(self.types@[t as int], t as nat));
        match &self.types[t] {
            Decoder::Struct(steps) => match self.decode_steps(t, steps, None, r) {
                Ok(fields) => Ok(Value::Struct(fields)),
                Err(e) => Err(e),
            },
            Decoder::Enum(arms) => {
                let ghost start = r@;
                let disc: i32 = match decode_varint(r) {
                    Ok(d) => d,
                    Err(e) => {
                        return Err(DecodeError::from_varint(e).context(Context::Discriminant));
                    },
                };
                let ghost mid = r@;
                match select_arm(arms, disc) {
                    None => Err(DecodeError::new(ErrorKind::UnknownDiscriminant(disc))),
                    Some(a) => {
                        let arm = &arms[a];
                        assert(steps_below(arms@[a as int].steps@, t as nat));
                        match self.decode_steps(t, &arm.steps, Some(&arm.name), r) {
                            Ok(fields) => {
                                proof {
                                    let used = spec_decode_varint(start)->Ok_0.1;
                                    let more = spec_decode_steps(
                                        self.types@,
                                        t as nat,
                                        arm.steps@,
                                        Some(arm.name),
                                        0,
                                        mid,
                                    )->Ok_0.1;
                                    assert(mid.skip(more as int) =~= start.skip(
                                        (used + more) as int,
                                    ));
                                }
                                Ok(Value::Variant { index: a, fields })
                            },
                            Err(e) => Err(e),
                        }
                    },
                }
            },
        }
    }

    /// Decodes a packet of type number `t`: reads the leading identifier,
    /// fails at once if it is not the one `packet` expects, and only then
    /// decodes the fields.
    pub fn decode_packet<'a>(
        &self,
        packet: &PacketDecoder,
        t: usize,
        r: &mut Cursor<'a>,
    ) -> (res: Result<Value<'a>, DecodeError>)
        requires
            self.wf(),
            t < self.types@.len(),
        ensures
            ends_as(
                spec_decode_packet(self.types@, *packet, t as nat, old(r)@),
                res,
                old(r)@,
                final(r)@,
            ),
    {
        let ghost start = r@;
        let id: i32 = match decode_varint(r) {
            Ok(d) => d,
            Err(e) => {
                return Err(DecodeError::from_varint(e).context(Context::PacketId));
            },
        };
        if id != packet.packet_id {
            return Err(
                DecodeError::new(
                    ErrorKind::PacketIdMismatch { got: id, expected: packet.packet_id },
                ),
            );
        }
        let ghost mid = r@;
        let res = self.decode(t, r);
        proof {
            if res is Ok {
                let used = spec_decode_varint(start)->Ok_0.1;
                let more = spec_decode_type(self.types@, t as nat, mid)->Ok_0.1;
                assert(mid.skip(more as int) =~= start.skip((used + more) as int));
            }
        }
        res
    }
}

} // verus!
