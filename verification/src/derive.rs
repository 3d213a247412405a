//! From a type declaration to its decoder: the fields in declaration order,
//! each with the name it is reported under, and for an enum the discriminant
//! of every variant.

use crate::error::FieldName;
use crate::schema::{Arm, Decoder, FieldType, PacketDecoder, Step};
use vstd::prelude::*;

verus! {

/// A named field of a declaration.
#[derive(Debug, PartialEq, Eq)]
pub struct NamedField {
    pub ident: String,
    pub ty: FieldType,
}

/// The fields of a struct or of one variant.
#[derive(Debug, PartialEq, Eq)]
pub enum Fields {
    /// Fields with names, in declaration order.
    Named(Vec<NamedField>),
    /// Fields known by position, in declaration order.
    Unnamed(Vec<FieldType>),
    /// No fields.
    Unit,
}

/// One variant of a declared enum. A variant without a tag of its own takes
/// the discriminant after that of the variant before it, the first one 0.
#[derive(Debug, PartialEq, Eq)]
pub struct Variant {
    pub ident: String,
    pub tag: Option<i32>,
    pub fields: Fields,
}

/// The body of a declaration.
#[derive(Debug, PartialEq, Eq)]
pub enum Data {
    Struct(Fields),
    Enum(Vec<Variant>),
    Union,
}

/// A type declaration, as far as deriving a decoder reads it.
#[derive(Debug, PartialEq, Eq)]
pub struct DeriveInput {
    /// The name of the type.
    pub ident: String,
    /// How many lifetime parameters the type has.
    pub lifetimes: usize,
    /// The packet identifier given with the declaration, if any.
    pub packet_id: Option<i32>,
    pub data: Data,
}

/// Why no decoder can be derived for a declaration.
#[derive(Clone, Copy, Debug, PartialEq, Eq, Structural)]
pub enum DeriveError {
    /// The type has more than one lifetime parameter.
    TooManyLifetimes,
    /// The type is a union.
    Union,
    /// The discriminant of a variant does not fit in 32 bits.
    DiscriminantOverflow,
    /// A packet decoder was asked for and the declaration gives no
    /// identifier.
    MissingPacketId,
}

impl DeriveError {
    /// The message reported for the error.
    pub fn message(&self) -> (m: &'static str)
        ensures
            m@ == derive_message(*self)@,
    {
        match self {
            DeriveError::TooManyLifetimes => "type deriving `Decode` must have no more than one lifetime",
            DeriveError::Union => "cannot derive `Decode` on unions",
            DeriveError::DiscriminantOverflow => "enum discriminant does not fit in 32 bits",
            DeriveError::MissingPacketId => "cannot derive `DecodePacket` without `#[packet_id = ...]` helper attribute",
        }
    }
}

/// The message that belongs to each error.
pub open spec fn derive_message(e: DeriveError) -> &'static str {
    match e {
        DeriveError::TooManyLifetimes => "type deriving `Decode` must have no more than one lifetime",
        DeriveError::Union => "cannot derive `Decode` on unions",
        DeriveError::DiscriminantOverflow => "enum discriminant does not fit in 32 bits",
        DeriveError::MissingPacketId => "cannot derive `DecodePacket` without `#[packet_id = ...]` helper attribute",
    }
}

/// The decoding steps that `fields` stand for: one per field, in order, a
/// named field under its name and a positional one under its position.
pub open spec fn steps_of(fields: Fields) -> Seq<Step> {
    match fields {
        Fields::Named(fs) => Seq::new(
            fs@.len(),
            |i: int| Step { name: FieldName::Named(fs@[i].ident), ty: fs@[i].ty },
        ),
        Fields::Unnamed(tys) => Seq::new(
            tys@.len(),
            |i: int| Step { name: FieldName::Index(i as usize), ty: tys@[i] },
        ),
        Fields::Unit => Seq::empty(),
    }
}

/// The discriminant of variant `i`: its own tag, or one more than the
/// discriminant before it, or 0 for a first variant without a tag.
pub open spec fn discriminant_at(variants: Seq<Variant>, i: nat) -> int
    decreases i,
{
    match variants[i as int].tag {
        Some(t) => t as int,
        None => if i == 0 {
            0
        } else {
            discriminant_at(variants, (i - 1) as nat) + 1
        },
    }
}

/// Whether the discriminant of every variant fits in 32 bits.
pub open spec fn discriminants_fit(variants: Seq<Variant>) -> bool {
    forall|i: nat| i < variants.len() ==> #[trigger] discriminant_at(variants, i) <= i32::MAX
}

/// Why no decoder can be derived for `input`, if there is a reason.
pub open spec fn derive_failure(input: DeriveInput) -> Option<DeriveError> {
    if input.lifetimes > 1 {
        Some(DeriveError::TooManyLifetimes)
    } else {
        match input.data {
            Data::Struct(_) => None,
            Data::Enum(variants) => if discriminants_fit(variants@) {
                None
            } else {
                Some(DeriveError::DiscriminantOverflow)
            },
            Data::Union => Some(DeriveError::Union),
        }
    }
}

/// Whether `arm` is the decoder of variant `i` of `variants`.
pub open spec fn arm_derived(variants: Seq<Variant>, i: nat, arm: Arm) -> bool {
    &&& arm.discriminant == discriminant_at(variants, i)
    &&& arm.name == variants[i as int].ident
    &&& arm.steps@ == steps_of(variants[i as int].fields)
}

/// Whether `d` is the decoder that `data` declares.
pub open spec fn derived(data: Data, d: Decoder) -> bool {
    match data {
        Data::Struct(fields) => match d {
            Decoder::Struct(steps) => steps@ == steps_of(fields),
            Decoder::Enum(_) => false,
        },
        Data::Enum(variants) => match d {
            Decoder::Struct(_) => false,
            Decoder::Enum(arms) => arms@.len() == variants@.len() && forall|i: nat|
                i < variants@.len() ==> arm_derived(variants@, i, #[trigger] arms@[i as int]),
        },
        Data::Union => false,
    }
}

/// The decoding steps of `fields`.
fn build_steps(fields: &Fields) -> (steps: Vec<Step>)
    ensures
        steps@ == steps_of(*fields),
{
    let mut steps: Vec<Step> = Vec::new();
    match fields {
        Fields::Named(fs) => {
            let mut i: usize = 0;
            while i < fs.len()
                invariant
                    i <= fs.len(),
                    steps@.len() == i,
                    forall|j: int|
                        0 <= j < i ==> steps@[j] == (Step {
                            name: FieldName::Named(fs@[j].ident),
                            ty: fs@[j].ty,
                        }),
                decreases fs.len() - i,
            {
                steps.push(Step { name: FieldName::Named(fs[i].ident.clone()), ty: fs[i].ty });
                i = i + 1;
            }
            assert(steps@ =~= steps_of(*fields));
        },
        Fields::Unnamed(tys) => {
            let mut i: usize = 0;
            while i < tys.len()
                invariant
                    i <= tys.len(),
                    steps@.len() == i,
                    forall|j: int|
                        0 <= j < i ==> steps@[j] == (Step {
                            name: FieldName::Index(j as usize),
                            ty: tys@[j],
                        }),
                decreases tys.len() - i,
            {
                steps.push(Step { name: FieldName::Index(i), ty: tys[i] });
                i = i + 1;
            }
            assert(steps@ =~= steps_of(*fields));
        },
        Fields::Unit => {
            assert(steps@ =~= steps_of(*fields));
        },
    }
    steps
}

/// Derives the structural decoder of a declared type.
///
/// A struct gives its fields in declaration order. An enum gives one arm per
/// variant, in declaration order, each with its discriminant. A type with
/// more than one lifetime parameter is refused, then a union, then an enum
/// with a discriminant beyond 32 bits.
#[verifier::loop_isolation(false)]
pub fn derive_decode(input: &DeriveInput) -> (res: Result<Decoder, DeriveError>)
    ensures
        match derive_failure(*input) {
            Some(e) => res == Err::<Decoder, DeriveError>(e),
            None => res matches Ok(d) && derived(input.data, d),
        },
{
    if input.lifetimes > 1 {
        return Err(DeriveError::TooManyLifetimes);
    }
    match &input.data {
        Data::Struct(fields) => Ok(Decoder::Struct(build_steps(fields))),
        Data::Enum(variants) => {
            let mut arms: Vec<Arm> = Vec::new();
            let mut next: i64 = 0;
            let mut i: usize = 0;
            while i < variants.len()
                invariant
                    i <= variants.len(),
                    arms@.len() == i,
                    i == 0 ==> next == 0,
                    i > 0 ==> next == discriminant_at(variants@, (i - 1) as nat) + 1,
                    i32::MIN <= next <= i32::MAX + 1,
                    forall|j: nat|
                        j < i ==> #[trigger] discriminant_at(variants@, j) <= i32::MAX,
                    forall|j: nat| j < i ==> arm_derived(variants@, j, #[trigger] arms@[j as int]),
                decreases variants.len() - i,
            {
                let variant = &variants[i];
                let disc: i64 = match variant.tag {
                    Some(t) => t as i64,
                    None => next,
                };
                assert(disc == discriminant_at(variants@, i as nat));
                if disc > i32::MAX as i64 {
                    return Err(DeriveError::DiscriminantOverflow);
                }
                arms.push(
                    Arm {
                        discriminant: disc as i32,
                        name: variant.ident.clone(),
                        steps: build_steps(&variant.fields),
                    },
                );
                next = disc + 1;
                i = i + 1;
            }
            Ok(Decoder::Enum(arms))
        },
        Data::Union => Err(DeriveError::Union),
    }
}

/// Derives the packet decoder of a declared type: the identifier given with
/// the declaration. A declaration without one is refused.
pub fn derive_decode_packet(input: &DeriveInput) -> (res: Result<PacketDecoder, DeriveError>)
    ensures
        res == match input.packet_id {
            Some(id) => Ok::<PacketDecoder, DeriveError>(PacketDecoder { packet_id: id }),
            None => Err::<PacketDecoder, DeriveError>(DeriveError::MissingPacketId),
        },
{
    match input.packet_id {
        Some(id) => Ok(PacketDecoder { packet_id: id }),
        None => Err(DeriveError::MissingPacketId),
    }
}

} // verus!
