//! Decoded values: scalars and borrowed byte runs at the leaves, structs and
//! enum variants above. A value may borrow from the buffer it was decoded
//! from, and then lives no longer than that buffer.

use vstd::prelude::*;

verus! {

/// A decoded value.
#[derive(Debug, PartialEq, Eq)]
pub enum Value<'a> {
    U8(u8),
    U16(u16),
    U32(u32),
    U64(u64),
    VarInt(i32),
    /// A run of bytes, borrowed from the buffer and not copied.
    Bytes(&'a [u8]),
    /// The fields of a struct, in declaration order.
    Struct(Vec<Value<'a>>),
    /// The variant of an enum, by its position in the declaration, and its
    /// fields in declaration order.
    Variant { index: usize, fields: Vec<Value<'a>> },
}

/// A decoded value as contracts speak of it.
pub enum ValueView {
    U8(u8),
    U16(u16),
    U32(u32),
    U64(u64),
    VarInt(i32),
    Bytes(Seq<u8>),
    Struct(Seq<ValueView>),
    Variant { index: usize, fields: Seq<ValueView> },
}

/// The views of the values of `vs`, in the same order.
pub open spec fn views_of<'a>(vs: Vec<Value<'a>>) -> Seq<ValueView>
    decreases vs, 0nat,
{
    Seq::new(
        vs.len() as nat,
        |i: int|
            if 0 <= i < vs.len() {
                view_of(vs[i])
            } else {
                ValueView::U8(0)
            },
    )
}

/// The view of one value.
pub open spec fn view_of<'a>(v: Value<'a>) -> ValueView
    decreases v, 1nat,
{
    match v {
        Value::U8(x) => ValueView::U8(x),
        Value::U16(x) => ValueView::U16(x),
        Value::U32(x) => ValueView::U32(x),
        Value::U64(x) => ValueView::U64(x),
        Value::VarInt(x) => ValueView::VarInt(x),
        Value::Bytes(b) => ValueView::Bytes(b@),
        Value::Struct(fields) => ValueView::Struct(views_of(fields)),
        Value::Variant { index, fields } => ValueView::Variant { index, fields: views_of(fields) },
    }
}

impl<'a> View for Value<'a> {
    type V = ValueView;

    open spec fn view(&self) -> ValueView {
        view_of(*self)
    }
}

/// Appending a value appends its view.
pub proof fn lemma_views_push<'a>(before: Vec<Value<'a>>, after: Vec<Value<'a>>, v: Value<'a>)
    requires
        after@ == before@.push(v),
    ensures
        views_of(after) == views_of(before).push(v@),
{
    assert(views_of(after) =~= views_of(before).push(v@));
}

/// An empty vector has no views.
pub proof fn lemma_views_empty<'a>(vs: Vec<Value<'a>>)
    requires
        vs@.len() == 0,
    ensures
        views_of(vs) == Seq::<ValueView>::empty(),
{
    assert(views_of(vs) =~= Seq::<ValueView>::empty());
}

} // verus!
