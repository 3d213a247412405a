//! Decoders as data: for each declared type, the fields to read in order,
//! and for an enum the variant that each discriminant selects.

use crate::error::FieldName;
use vstd::prelude::*;

verus! {

/// What a field holds: a scalar, a run of bytes, or a value of a type
/// declared earlier.
#[derive(Clone, Copy, Debug, PartialEq, Eq, Structural)]
pub enum FieldType {
    /// One byte.
    U8,
    /// Two bytes, most significant first.
    U16,
    /// Four bytes, most significant first.
    U32,
    /// Eight bytes, most significant first.
    U64,
    /// A variable-length integer.
    VarInt,
    /// That many bytes as they stand, borrowed from the buffer.
    Bytes(usize),
    /// A value of the type registered under this number.
    Type(usize),
}

impl FieldType {
    /// Whether the field needs no type numbered `t` or above.
    pub open spec fn below(self, t: nat) -> bool {
        match self {
            FieldType::Type(r) => r < t,
            _ => true,
        }
    }
}

/// One field to decode.
#[derive(Debug, PartialEq, Eq)]
pub struct Step {
    pub name: FieldName,
    pub ty: FieldType,
}

/// One variant of an enum: its discriminant, its name and its fields.
#[derive(Debug, PartialEq, Eq)]
pub struct Arm {
    pub discriminant: i32,
    pub name: String,
    pub steps: Vec<Step>,
}

/// The decoder of one declared type.
#[derive(Debug, PartialEq, Eq)]
pub enum Decoder {
    /// The fields of a struct, in declaration order.
    Struct(Vec<Step>),
    /// The variants of an enum, in declaration order.
    Enum(Vec<Arm>),
}

/// The decoder of a packet type: the identifier that must lead the buffer.
/// The fields behind it are read by the structural decoder of the type.
#[derive(Clone, Copy, Debug, PartialEq, Eq, Structural)]
pub struct PacketDecoder {
    pub packet_id: i32,
}

/// Whether every one of `steps` needs only types numbered below `t`.
pub open spec fn steps_below(steps: Seq<Step>, t: nat) -> bool {
    forall|i: int| 0 <= i < steps.len() ==> (#[trigger] steps[i]).ty.below(t)
}

/// Whether `d` needs only types numbered below `t`.
pub open spec fn decoder_below(d: Decoder, t: nat) -> bool {
    match d {
        Decoder::Struct(steps) => steps_below(steps@, t),
        Decoder::Enum(arms) => forall|a: int|
            0 <= a < arms@.len() ==> steps_below((#[trigger] arms@[a]).steps@, t),
    }
}

/// The first of `arms`, from position `from` on, that `disc` selects.
pub open spec fn find_arm(arms: Seq<Arm>, disc: i32, from: nat) -> Option<nat>
    decreases arms.len() - from,
{
    if from >= arms.len() {
        None
    } else if arms[from as int].discriminant == disc {
        Some(from)
    } else {
        find_arm(arms, disc, from + 1)
    }
}

/// Whether no two of `arms` share a discriminant, as a declaration is
/// expected to have it. Decoding does not test this: among variants that
/// share one, the first is taken.
pub open spec fn distinct_discriminants(arms: Seq<Arm>) -> bool {
    forall|a: int, b: int|
        0 <= a < b < arms.len() ==> (#[trigger] arms[a]).discriminant != (
        #[trigger] arms[b]).discriminant
}

/// The declared types of a protocol, each numbered by its position.
#[derive(Debug, PartialEq, Eq)]
pub struct Registry {
    pub types: Vec<Decoder>,
}

/// Why a decoder was not taken into a registry.
#[derive(Clone, Copy, Debug, PartialEq, Eq, Structural)]
pub enum SchemaError {
    /// A field names a type that has not been registered yet.
    UnknownType(usize),
}

/// The first type numbered `t` or above that one of `steps` needs, from
/// position `from` on.
pub open spec fn first_unknown(steps: Seq<Step>, t: nat, from: nat) -> Option<usize>
    decreases steps.len() - from,
{
    if from >= steps.len() {
        None
    } else {
        match steps[from as int].ty {
            FieldType::Type(r) if r >= t => Some(r),
            _ => first_unknown(steps, t, from + 1),
        }
    }
}

/// The first type numbered `t` or above that a variant of `arms` needs, from
/// variant `from` on.
pub open spec fn first_unknown_in_arms(arms: Seq<Arm>, t: nat, from: nat) -> Option<usize>
    decreases arms.len() - from,
{
    if from >= arms.len() {
        None
    } else {
        match first_unknown(arms[from as int].steps@, t, 0) {
            Some(r) => Some(r),
            None => first_unknown_in_arms(arms, t, from + 1),
        }
    }
}

/// The first type numbered `t` or above that `d` needs.
pub open spec fn first_unknown_in(d: Decoder, t: nat) -> Option<usize> {
    match d {
        Decoder::Struct(steps) => first_unknown(steps@, t, 0),
        Decoder::Enum(arms) => first_unknown_in_arms(arms@, t, 0),
    }
}

/// The executable form of `first_unknown`, with what a `None` means.
fn scan_steps(steps: &Vec<Step>, t: usize) -> (res: Option<usize>)
    ensures
        res == first_unknown(steps@, t as nat, 0),
        res is None ==> steps_below(steps@, t as nat),
        res is Some ==> !steps_below(steps@, t as nat),
{
    let mut i: usize = 0;
    while i < steps.len()
        invariant
            i <= steps.len(),
            first_unknown(steps@, t as nat, 0) == first_unknown(steps@, t as nat, i as nat),
            forall|j: int| 0 <= j < i ==> (#[trigger] steps@[j]).ty.below(t as nat),
        decreases steps.len() - i,
    {
        match steps[i].ty {
            FieldType::Type(r) => {
                if r >= t {
                    assert(!steps@[i as int].ty.below(t as nat));
                    return Some(r);
                }
            },
            _ => {},
        }
        i = i + 1;
    }
    None
}

impl Registry {
    /// Types may lean only on types registered before them, so that no type
    /// contains itself and every decode ends.
    pub open spec fn wf(&self) -> bool {
        forall|t: int|
            0 <= t < self.types@.len() ==> decoder_below(#[trigger] self.types@[t], t as nat)
    }

    /// A registry without types.
    pub fn new() -> (reg: Registry)
        ensures
            reg.wf(),
            reg.types@.len() == 0,
    {
        Registry { types: Vec::new() }
    }

    /// How many types are registered.
    pub fn len(&self) -> (n: usize)
        ensures
            n == self.types@.len(),
    {
        self.types.len()
    }

    /// Takes `d` in as the next type and returns its number. A decoder that
    /// needs a type not registered yet is refused, and the registry stays as
    /// it was; the error names the first such type.
    #[verifier::loop_isolation(false)]
    pub fn register(&mut self, d: Decoder) -> (res: Result<usize, SchemaError>)
        requires
            old(self).wf(),
        ensures
            final(self).wf(),
            match first_unknown_in(d, old(self).types@.len()) {
                None => res == Ok::<usize, SchemaError>(old(self).types.len())
                    && decoder_below(d, old(self).types@.len())
                    && final(self).types@ == old(self).types@.push(d),
                Some(r) => res == Err::<usize, SchemaError>(SchemaError::UnknownType(r))
                    && !decoder_below(d, old(self).types@.len())
                    && final(self).types@ == old(self).types@,
            },
    {
        let t: usize = self.types.len();
        match &d {
            Decoder::Struct(steps) => {
                match scan_steps(steps, t) {
                    Some(r) => {
                        return Err(SchemaError::UnknownType(r));
                    },
                    None => {},
                }
            },
            Decoder::Enum(arms) => {
                let mut a: usize = 0;
                while a < arms.len()
                    invariant
                        a <= arms.len(),
                        first_unknown_in_arms(arms@, t as nat, 0) == first_unknown_in_arms(
                            arms@,
                            t as nat,
                            a as nat,
                        ),
                        forall|b: int|
                            0 <= b < a ==> steps_below((#[trigger] arms@[b]).steps@, t as nat),
                    decreases arms.len() - a,
                {
                    match scan_steps(&arms[a].steps, t) {
                        Some(r) => {
                            assert(!steps_below(arms@[a as int].steps@, t as nat));
                            return Err(SchemaError::UnknownType(r));
                        },
                        None => {},
                    }
                    a = a + 1;
                }
            },
        }
        self.types.push(d);
        assert forall|u: int| 0 <= u < self.types@.len() implies decoder_below(
            #[trigger] self.types@[u],
            u as nat,
        ) by {
            if u < t {
                assert(self.types@[u] == old(self).types@[u]);
            }
        }
        Ok(t)
    }
}

} // verus!
