//! What holds of every decode, proved from the meaning of the decoders.

use crate::decode::{
    be_value, ends_as, spec_decode_field, spec_decode_packet, spec_decode_scalar, spec_decode_steps,
    spec_decode_type, step_context, width, Outcome,
};
use crate::error::{annotate, bare, varint_kind, Context, DecodeError, ErrorKind, Failure};
use crate::schema::{
    distinct_discriminants, find_arm, Arm, Decoder, FieldType, PacketDecoder, Step,
};
use crate::value::{Value, ValueView};
use crate::varint::{lemma_varint_ignores_tail, lemma_varint_shape, spec_decode_varint};
use vstd::prelude::*;

verus! {

/// Two decodes that end as the same outcome says agree: both succeed with
/// equal values and the same bytes left, or both fail with equal failures.
pub proof fn lemma_same_outcome_same_result(
    expected: Outcome,
    bytes: Seq<u8>,
    first: Result<Value, DecodeError>,
    after_first: Seq<u8>,
    second: Result<Value, DecodeError>,
    after_second: Seq<u8>,
)
    requires
        ends_as(expected, first, bytes, after_first),
        ends_as(expected, second, bytes, after_second),
    ensures
        match (first, second) {
            (Ok(a), Ok(b)) => a@ == b@ && after_first == after_second,
            (Err(a), Err(b)) => a@ == b@,
            _ => false,
        },
{
}

/// Decoding is deterministic: decoding equal bytes as the same type of the
/// same registry twice gives equal results and the same advance.
pub proof fn lemma_decode_deterministic(
    reg: Seq<Decoder>,
    t: nat,
    bytes: Seq<u8>,
    again: Seq<u8>,
    first: Result<Value, DecodeError>,
    after_first: Seq<u8>,
    second: Result<Value, DecodeError>,
    after_second: Seq<u8>,
)
    requires
        bytes == again,
        ends_as(spec_decode_type(reg, t, bytes), first, bytes, after_first),
        ends_as(spec_decode_type(reg, t, again), second, again, after_second),
    ensures
        match (first, second) {
            (Ok(a), Ok(b)) => a@ == b@ && after_first == after_second,
            (Err(a), Err(b)) => a@ == b@,
            _ => false,
        },
{
}

/// A field that decodes consumes no more bytes than there are.
pub proof fn lemma_field_within(reg: Seq<Decoder>, t: nat, ty: FieldType, bytes: Seq<u8>)
    ensures
        spec_decode_field(reg, t, ty, bytes) matches Ok((_, used)) ==> used <= bytes.len(),
    decreases t, 0nat, 0nat,
{
    match ty {
        FieldType::Type(r) => {
            if r < t {
                lemma_type_within(reg, r as nat, bytes);
            }
        },
        _ => {
            lemma_varint_shape(bytes);
        },
    }
}

/// A run of fields that decodes consumes no more bytes than there are.
pub proof fn lemma_steps_within(
    reg: Seq<Decoder>,
    t: nat,
    steps: Seq<Step>,
    variant: Option<String>,
    i: nat,
    bytes: Seq<u8>,
)
    ensures
        spec_decode_steps(reg, t, steps, variant, i, bytes) matches Ok((_, used)) ==> used
            <= bytes.len(),
    decreases t, 1nat, steps.len() - i,
{
    if i < steps.len() {
        lemma_field_within(reg, t, steps[i as int].ty, bytes);
        match spec_decode_field(reg, t, steps[i as int].ty, bytes) {
            Ok((_, used)) => {
                lemma_steps_within(reg, t, steps, variant, i + 1, bytes.skip(used as int));
            },
            Err(_) => {},
        }
    }
}

/// A value that decodes consumes no more bytes than there are: the cursor
/// never passes the end of the buffer.
pub proof fn lemma_type_within(reg: Seq<Decoder>, t: nat, bytes: Seq<u8>)
    ensures
        spec_decode_type(reg, t, bytes) matches Ok((_, used)) ==> used <= bytes.len(),
    decreases t, 2nat, 0nat,
{
    if t < reg.len() {
        match reg[t as int] {
            Decoder::Struct(steps) => {
                lemma_steps_within(reg, t, steps@, None, 0, bytes);
            },
            Decoder::Enum(arms) => {
                lemma_varint_shape(bytes);
                match spec_decode_varint(bytes) {
                    Ok((disc, used)) => match find_arm(arms@, disc, 0) {
                        Some(a) => {
                            lemma_steps_within(
                                reg,
                                t,
                                arms@[a as int].steps@,
                                Some(arms@[a as int].name),
                                0,
                                bytes.skip(used as int),
                            );
                        },
                        None => {},
                    },
                    Err(_) => {},
                }
            },
        }
    }
}

/// The number that the first `n` bytes spell does not depend on what
/// follows them.
proof fn lemma_be_value_ignores_tail(bytes: Seq<u8>, tail: Seq<u8>, n: nat)
    requires
        n <= bytes.len(),
    ensures
        be_value(bytes + tail, n) == be_value(bytes, n),
    decreases n,
{
    if n > 0 {
        lemma_be_value_ignores_tail(bytes, tail, (n - 1) as nat);
        assert((bytes + tail)[n - 1] == bytes[n - 1]);
    }
}

/// A field that decodes does so whatever follows in the buffer, to the same
/// value and over the same number of bytes.
pub proof fn lemma_field_ignores_tail(
    reg: Seq<Decoder>,
    t: nat,
    ty: FieldType,
    bytes: Seq<u8>,
    tail: Seq<u8>,
)
    requires
        spec_decode_field(reg, t, ty, bytes) is Ok,
    ensures
        spec_decode_field(reg, t, ty, bytes + tail) == spec_decode_field(reg, t, ty, bytes),
    decreases t, 0nat, 0nat,
{
    match ty {
        FieldType::Type(r) => {
            if r < t {
                lemma_type_ignores_tail(reg, r as nat, bytes, tail);
            }
        },
        FieldType::VarInt => {
            lemma_varint_ignores_tail(bytes, tail);
        },
        FieldType::Bytes(len) => {
            assert((bytes + tail).take(len as int) =~= bytes.take(len as int));
        },
        _ => {
            lemma_be_value_ignores_tail(bytes, tail, width(ty));
        },
    }
}

/// A run of fields that decodes does so whatever follows in the buffer.
pub proof fn lemma_steps_ignore_tail(
    reg: Seq<Decoder>,
    t: nat,
    steps: Seq<Step>,
    variant: Option<String>,
    i: nat,
    bytes: Seq<u8>,
    tail: Seq<u8>,
)
    requires
        spec_decode_steps(reg, t, steps, variant, i, bytes) is Ok,
    ensures
        spec_decode_steps(reg, t, steps, variant, i, bytes + tail) == spec_decode_steps(
            reg,
            t,
            steps,
            variant,
            i,
            bytes,
        ),
    decreases t, 1nat, steps.len() - i,
{
    if i < steps.len() {
        let ty = steps[i as int].ty;
        lemma_field_ignores_tail(reg, t, ty, bytes, tail);
        lemma_field_within(reg, t, ty, bytes);
        let used = spec_decode_field(reg, t, ty, bytes)->Ok_0.1;
        assert((bytes + tail).skip(used as int) =~= bytes.skip(used as int) + tail);
        lemma_steps_ignore_tail(reg, t, steps, variant, i + 1, bytes.skip(used as int), tail);
    }
}

/// A value that decodes does so whatever follows it in the buffer, to the
/// same value and over the same number of bytes: only the bytes of its own
/// encoding are read.
pub proof fn lemma_type_ignores_tail(reg: Seq<Decoder>, t: nat, bytes: Seq<u8>, tail: Seq<u8>)
    requires
        spec_decode_type(reg, t, bytes) is Ok,
    ensures
        spec_decode_type(reg, t, bytes + tail) == spec_decode_type(reg, t, bytes),
    decreases t, 2nat, 0nat,
{
    if t < reg.len() {
        match reg[t as int] {
            Decoder::Struct(steps) => {
                lemma_steps_ignore_tail(reg, t, steps@, None, 0, bytes, tail);
            },
            Decoder::Enum(arms) => {
                lemma_varint_ignores_tail(bytes, tail);
                lemma_varint_shape(bytes);
                let (disc, used) = spec_decode_varint(bytes)->Ok_0;
                let a = find_arm(arms@, disc, 0)->Some_0;
                assert((bytes + tail).skip(used as int) =~= bytes.skip(used as int) + tail);
                lemma_steps_ignore_tail(
                    reg,
                    t,
                    arms@[a as int].steps@,
                    Some(arms@[a as int].name),
                    0,
                    bytes.skip(used as int),
                    tail,
                );
            },
        }
    }
}

/// How many bytes a field of type `ty` occupies at the front of `bytes`.
pub open spec fn field_size(reg: Seq<Decoder>, t: nat, ty: FieldType, bytes: Seq<u8>) -> nat {
    match spec_decode_field(reg, t, ty, bytes) {
        Ok((_, used)) => used,
        Err(_) => 0,
    }
}

/// Where field `k` of `steps` starts: behind the fields before it, each
/// right behind the one before.
pub open spec fn field_start(reg: Seq<Decoder>, t: nat, steps: Seq<Step>, k: nat, bytes: Seq<u8>) -> nat
    decreases k,
{
    if k == 0 {
        0
    } else {
        let before = field_start(reg, t, steps, (k - 1) as nat, bytes);
        before + field_size(reg, t, steps[k - 1].ty, bytes.skip(before as int))
    }
}

/// When the fields decode, the fields from `i` on decode where field `i`
/// starts, to the values from `i` on, and consume what is left of the total.
proof fn lemma_steps_from(
    reg: Seq<Decoder>,
    t: nat,
    steps: Seq<Step>,
    variant: Option<String>,
    bytes: Seq<u8>,
    i: nat,
)
    requires
        spec_decode_steps(reg, t, steps, variant, 0, bytes) is Ok,
        i <= steps.len(),
    ensures
        field_start(reg, t, steps, i, bytes) <= bytes.len(),
        ({
            let whole = spec_decode_steps(reg, t, steps, variant, 0, bytes)->Ok_0;
            let start = field_start(reg, t, steps, i, bytes);
            let rest = spec_decode_steps(reg, t, steps, variant, i, bytes.skip(start as int));
            &&& rest is Ok
            &&& whole.0.len() == i + rest->Ok_0.0.len()
            &&& whole.0.skip(i as int) == rest->Ok_0.0
            &&& whole.1 == start + rest->Ok_0.1
        }),
    decreases i,
{
    let whole = spec_decode_steps(reg, t, steps, variant, 0, bytes)->Ok_0;
    if i == 0 {
        assert(bytes.skip(0) =~= bytes);
        assert(whole.0.skip(0) =~= whole.0);
    } else {
        let j = (i - 1) as nat;
        lemma_steps_from(reg, t, steps, variant, bytes, j);
        let start = field_start(reg, t, steps, j, bytes);
        let here = bytes.skip(start as int);
        let before = spec_decode_steps(reg, t, steps, variant, j, here)->Ok_0;
        lemma_field_within(reg, t, steps[j as int].ty, here);
        let n = spec_decode_field(reg, t, steps[j as int].ty, here)->Ok_0.1;
        let v = spec_decode_field(reg, t, steps[j as int].ty, here)->Ok_0.0;
        assert(here.skip(n as int) =~= bytes.skip((start + n) as int));
        let rest = spec_decode_steps(reg, t, steps, variant, i, here.skip(n as int))->Ok_0;
        assert(before.0 == seq![v] + rest.0);
        assert(whole.0.skip(i as int) =~= rest.0) by {
            assert(whole.0.skip(j as int) == seq![v] + rest.0);
            assert forall|x: int| 0 <= x < rest.0.len() implies whole.0.skip(i as int)[x]
                == rest.0[x] by {
                assert(whole.0.skip(j as int)[x + 1] == (seq![v] + rest.0)[x + 1]);
            }
        }
    }
}

/// A run of fields consumes exactly the sum of what its fields consume, in
/// declaration order: there is one value per field, field `k` is decoded
/// where field `k - 1` ended, and the total is where the last one ends.
pub proof fn lemma_fields_consume_their_sum(
    reg: Seq<Decoder>,
    t: nat,
    steps: Seq<Step>,
    variant: Option<String>,
    bytes: Seq<u8>,
)
    requires
        spec_decode_steps(reg, t, steps, variant, 0, bytes) is Ok,
    ensures
        ({
            let whole = spec_decode_steps(reg, t, steps, variant, 0, bytes)->Ok_0;
            &&& whole.0.len() == steps.len()
            &&& whole.1 == field_start(reg, t, steps, steps.len(), bytes)
            &&& whole.1 <= bytes.len()
            &&& forall|k: nat|
                k < steps.len() ==> spec_decode_field(
                    reg,
                    t,
                    (#[trigger] steps[k as int]).ty,
                    bytes.skip(field_start(reg, t, steps, k, bytes) as int),
                ) == Ok::<(ValueView, nat), Failure>(
                    (
                        whole.0[k as int],
                        (field_start(reg, t, steps, k + 1, bytes) - field_start(
                            reg,
                            t,
                            steps,
                            k,
                            bytes,
                        )) as nat,
                    ),
                )
        }),
{
    let whole = spec_decode_steps(reg, t, steps, variant, 0, bytes)->Ok_0;
    lemma_steps_from(reg, t, steps, variant, bytes, steps.len());
    assert forall|k: nat| k < steps.len() implies spec_decode_field(
        reg,
        t,
        (#[trigger] steps[k as int]).ty,
        bytes.skip(field_start(reg, t, steps, k, bytes) as int),
    ) == Ok::<(ValueView, nat), Failure>(
        (
            whole.0[k as int],
            (field_start(reg, t, steps, k + 1, bytes) - field_start(reg, t, steps, k, bytes)) as nat,
        ),
    ) by {
        lemma_steps_from(reg, t, steps, variant, bytes, k);
        let start = field_start(reg, t, steps, k, bytes);
        let here = bytes.skip(start as int);
        let got = spec_decode_field(reg, t, steps[k as int].ty, here)->Ok_0;
        let rest = spec_decode_steps(reg, t, steps, variant, k + 1, here.skip(got.1 as int))->Ok_0;
        assert(whole.0.skip(k as int) == seq![got.0] + rest.0);
        assert(whole.0.skip(k as int)[0] == got.0);
    }
}

/// A struct consumes exactly the sum of what its fields consume, and a
/// struct without fields consumes nothing.
pub proof fn lemma_struct_consumes_sum(reg: Seq<Decoder>, t: nat, bytes: Seq<u8>)
    requires
        t < reg.len(),
        reg[t as int] is Struct,
        spec_decode_type(reg, t, bytes) is Ok,
    ensures
        ({
            let steps = reg[t as int]->Struct_0@;
            let whole = spec_decode_type(reg, t, bytes)->Ok_0;
            &&& whole.0 is Struct
            &&& whole.0->Struct_0.len() == steps.len()
            &&& whole.1 == field_start(reg, t, steps, steps.len(), bytes)
            &&& steps.len() == 0 ==> whole.1 == 0
        }),
{
    let steps = reg[t as int]->Struct_0@;
    lemma_fields_consume_their_sum(reg, t, steps, None, bytes);
}

/// No variant of `arms` from `from` on has the discriminant `disc`.
proof fn lemma_no_arm(arms: Seq<Arm>, disc: i32, from: nat)
    requires
        forall|a: int| 0 <= a < arms.len() ==> (#[trigger] arms[a]).discriminant != disc,
    ensures
        find_arm(arms, disc, from) is None,
    decreases arms.len() - from,
{
    if from < arms.len() {
        lemma_no_arm(arms, disc, from + 1);
    }
}

/// The variant found has the discriminant asked for, and none before it.
pub proof fn lemma_find_arm(arms: Seq<Arm>, disc: i32, from: nat)
    ensures
        match find_arm(arms, disc, from) {
            Some(a) => from <= a < arms.len() && arms[a as int].discriminant == disc
                && forall|b: int| from <= b < a ==> (#[trigger] arms[b]).discriminant != disc,
            None => forall|b: int|
                from <= b < arms.len() ==> (#[trigger] arms[b]).discriminant != disc,
        },
    decreases arms.len() - from,
{
    if from < arms.len() && arms[from as int].discriminant != disc {
        lemma_find_arm(arms, disc, from + 1);
    }
}

/// Where no two variants share a discriminant, a discriminant selects the
/// one variant that has it.
pub proof fn lemma_discriminant_selects_its_variant(arms: Seq<Arm>, a: nat)
    requires
        distinct_discriminants(arms),
        a < arms.len(),
    ensures
        find_arm(arms, arms[a as int].discriminant, 0) == Some(a),
{
    lemma_find_arm(arms, arms[a as int].discriminant, 0);
}

/// Taking a new type into a registry changes the meaning of none of the
/// types that it held.
pub proof fn lemma_register_keeps_meaning(reg: Seq<Decoder>, d: Decoder, t: nat, bytes: Seq<u8>)
    requires
        t < reg.len(),
    ensures
        spec_decode_type(reg.push(d), t, bytes) == spec_decode_type(reg, t, bytes),
    decreases t, 2nat, 0nat,
{
    let more = reg.push(d);
    assert(more[t as int] == reg[t as int]);
    match reg[t as int] {
        Decoder::Struct(steps) => {
            lemma_register_keeps_steps(reg, d, t, steps@, None, 0, bytes);
        },
        Decoder::Enum(arms) => {
            match spec_decode_varint(bytes) {
                Ok((disc, used)) => match find_arm(arms@, disc, 0) {
                    Some(a) => {
                        lemma_register_keeps_steps(
                            reg,
                            d,
                            t,
                            arms@[a as int].steps@,
                            Some(arms@[a as int].name),
                            0,
                            bytes.skip(used as int),
                        );
                    },
                    None => {},
                },
                Err(_) => {},
            }
        },
    }
}

/// The same for a run of fields of one of the types that it held.
proof fn lemma_register_keeps_steps(
    reg: Seq<Decoder>,
    d: Decoder,
    t: nat,
    steps: Seq<Step>,
    variant: Option<String>,
    i: nat,
    bytes: Seq<u8>,
)
    requires
        t < reg.len(),
    ensures
        spec_decode_steps(reg.push(d), t, steps, variant, i, bytes) == spec_decode_steps(
            reg,
            t,
            steps,
            variant,
            i,
            bytes,
        ),
    decreases t, 1nat, steps.len() - i,
{
    if i < steps.len() {
        match steps[i as int].ty {
            FieldType::Type(r) => {
                if r < t {
                    lemma_register_keeps_meaning(reg, d, r as nat, bytes);
                }
            },
            _ => {},
        }
        assert(spec_decode_field(reg.push(d), t, steps[i as int].ty, bytes) == spec_decode_field(
            reg,
            t,
            steps[i as int].ty,
            bytes,
        ));
        match spec_decode_field(reg, t, steps[i as int].ty, bytes) {
            Ok((_, used)) => {
                lemma_register_keeps_steps(reg, d, t, steps, variant, i + 1, bytes.skip(used as int));
            },
            Err(_) => {},
        }
    }
}

/// A discriminant of no variant fails with that discriminant as the root
/// cause and an empty chain, whatever follows it: no variant is tried.
pub proof fn lemma_unknown_discriminant(reg: Seq<Decoder>, t: nat, bytes: Seq<u8>)
    requires
        t < reg.len(),
        reg[t as int] is Enum,
        spec_decode_varint(bytes) is Ok,
        forall|a: int|
            0 <= a < reg[t as int]->Enum_0@.len() ==> (#[trigger] reg[t as int]->Enum_0@[a]).discriminant
                != spec_decode_varint(bytes)->Ok_0.0,
    ensures
        spec_decode_type(reg, t, bytes) == Err::<(ValueView, nat), Failure>(
            bare(ErrorKind::UnknownDiscriminant(spec_decode_varint(bytes)->Ok_0.0)),
        ),
{
    lemma_no_arm(reg[t as int]->Enum_0@, spec_decode_varint(bytes)->Ok_0.0, 0);
}

/// A packet whose leading identifier is not the expected one fails with the
/// mismatch, whatever the registry, the type and the bytes behind the
/// identifier are: the fields are never looked at.
pub proof fn lemma_packet_mismatch(reg: Seq<Decoder>, packet: PacketDecoder, t: nat, bytes: Seq<u8>)
    requires
        spec_decode_varint(bytes) is Ok,
        spec_decode_varint(bytes)->Ok_0.0 != packet.packet_id,
    ensures
        spec_decode_packet(reg, packet, t, bytes) == Err::<(ValueView, nat), Failure>(
            bare(
                ErrorKind::PacketIdMismatch {
                    got: spec_decode_varint(bytes)->Ok_0.0,
                    expected: packet.packet_id,
                },
            ),
        ),
{
}

/// A packet whose leading identifier is the expected one decodes as its
/// type does on the bytes behind the identifier.
pub proof fn lemma_packet_match(reg: Seq<Decoder>, packet: PacketDecoder, t: nat, bytes: Seq<u8>)
    requires
        spec_decode_varint(bytes) is Ok,
        spec_decode_varint(bytes)->Ok_0.0 == packet.packet_id,
    ensures
        ({
            let used = spec_decode_varint(bytes)->Ok_0.1;
            match spec_decode_type(reg, t, bytes.skip(used as int)) {
                Ok((v, more)) => spec_decode_packet(reg, packet, t, bytes) == Ok::<
                    (ValueView, nat),
                    Failure,
                >((v, used + more)),
                Err(e) => spec_decode_packet(reg, packet, t, bytes) == Err::<
                    (ValueView, nat),
                    Failure,
                >(e),
            }
        }),
{
}

/// A fixed-width scalar or a run of bytes, in front of fewer bytes than it
/// is wide, fails with buffer exhaustion; in front of enough bytes it
/// succeeds and consumes its width.
pub proof fn lemma_scalar_needs_its_width(ty: FieldType, bytes: Seq<u8>)
    requires
        !(ty is Type),
        !(ty is VarInt),
    ensures
        bytes.len() < width(ty) ==> spec_decode_scalar(ty, bytes) == Err::<
            (ValueView, nat),
            Failure,
        >(bare(ErrorKind::UnexpectedEnd)),
        bytes.len() >= width(ty) ==> spec_decode_scalar(ty, bytes) is Ok && spec_decode_scalar(
            ty,
            bytes,
        )->Ok_0.1 == width(ty),
{
}

/// A failed run of fields keeps the root cause of the field that failed and
/// ends its chain with the context of one of the fields.
pub proof fn lemma_failure_names_a_field(
    reg: Seq<Decoder>,
    t: nat,
    steps: Seq<Step>,
    variant: Option<String>,
    i: nat,
    bytes: Seq<u8>,
)
    requires
        spec_decode_steps(reg, t, steps, variant, i, bytes) is Err,
    ensures
        ({
            let f = spec_decode_steps(reg, t, steps, variant, i, bytes)->Err_0;
            exists|k: int, at: Seq<u8>|
                i <= k < steps.len() && (#[trigger] spec_decode_field(reg, t, steps[k].ty, at)) is Err
                    && f == annotate(
                    spec_decode_field(reg, t, steps[k].ty, at)->Err_0,
                    step_context(steps[k].name, variant),
                )
        }),
    decreases steps.len() - i,
{
    if i < steps.len() {
        match spec_decode_field(reg, t, steps[i as int].ty, bytes) {
            Err(e) => {
                assert(spec_decode_field(reg, t, steps[i as int].ty, bytes) is Err);
            },
            Ok((_, used)) => {
                lemma_failure_names_a_field(reg, t, steps, variant, i + 1, bytes.skip(used as int));
            },
        }
    }
}

/// A failure that passes through a context keeps its root cause and its
/// chain so far, and gains that context at the outer end.
pub proof fn lemma_annotate_keeps_root(f: Failure, ctx: Context)
    ensures
        annotate(f, ctx).kind == f.kind,
        annotate(f, ctx).context.len() == f.context.len() + 1,
        annotate(f, ctx).context.last() == ctx,
        annotate(f, ctx).context.drop_last() == f.context,
{
    assert(annotate(f, ctx).context.drop_last() =~= f.context);
}

/// A failed read of an enum's discriminant is reported under the
/// discriminant's context, with the integer codec's failure as root cause.
pub proof fn lemma_discriminant_failure(reg: Seq<Decoder>, t: nat, bytes: Seq<u8>)
    requires
        t < reg.len(),
        reg[t as int] is Enum,
        spec_decode_varint(bytes) is Err,
    ensures
        spec_decode_type(reg, t, bytes) == Err::<(ValueView, nat), Failure>(
            annotate(bare(varint_kind(spec_decode_varint(bytes)->Err_0)), Context::Discriminant),
        ),
{
}

} // verus!
