use vstd::prelude::*;
use vstd::utf8::valid_utf8;

verus! {

broadcast use vstd::std_specs::vec::group_vec_axioms;

/// A value of the data model the encode and decode traversals walk:
/// primitives, text, fixed and variable-length groupings, optional values
/// and enum variants.
#[derive(Debug, PartialEq)]
pub enum Value {
    /// A boolean, encoded as one byte, 0 or 1.
    Bool(bool),
    /// A character, encoded as its 32-bit scalar value.
    Char(char),
    /// An 8-bit unsigned integer, encoded as one byte.
    U8(u8),
    /// A 16-bit unsigned integer, encoded in the configured byte order.
    U16(u16),
    /// A 32-bit unsigned integer, encoded in the configured byte order.
    U32(u32),
    /// A 64-bit unsigned integer, encoded in the configured byte order.
    U64(u64),
    /// A text value, held as its UTF-8 bytes and encoded as a length
    /// prefix followed by those bytes.
    Str(Vec<u8>),
    /// A variable-length sequence, encoded as a length prefix followed by
    /// its elements.
    Array(Vec<Value>),
    /// A fixed grouping (a tuple, or the fields of a record), encoded as
    /// its parts in order with no prefix.
    Tuple(Vec<Value>),
    /// An optional value, encoded as one byte for absent or present,
    /// then the payload if present.
    Option(Option<Box<Value>>),
    /// An enum variant: a 32-bit tag in the configured byte order, then
    /// the payload of that variant.
    Variant(u32, Box<Value>),
}

/// The shape a decoder expects: the format carries no type tags of its
/// own, so every decode call is directed by one of these.
#[derive(Debug, PartialEq)]
pub enum Shape {
    /// A boolean.
    Bool,
    /// A character.
    Char,
    /// An 8-bit unsigned integer.
    U8,
    /// A 16-bit unsigned integer.
    U16,
    /// A 32-bit unsigned integer.
    U32,
    /// A 64-bit unsigned integer.
    U64,
    /// A text value.
    Str,
    /// A variable-length sequence of one element shape.
    Array(Box<Shape>),
    /// A fixed grouping of field shapes.
    Tuple(Vec<Shape>),
    /// An optional value of one payload shape.
    Option(Box<Shape>),
    /// An enum: one payload shape per variant, the tag being the index.
    Enum(Vec<Shape>),
}

/// The mathematical model of a value: the same tree with sequences in
/// place of vectors, so that contracts and proofs can speak of it.
pub enum ValueV {
    /// A boolean.
    Bool(bool),
    /// A character.
    Char(char),
    /// An 8-bit unsigned integer.
    U8(u8),
    /// A 16-bit unsigned integer.
    U16(u16),
    /// A 32-bit unsigned integer.
    U32(u32),
    /// A 64-bit unsigned integer.
    U64(u64),
    /// A text value, as its UTF-8 bytes.
    Str(Seq<u8>),
    /// A variable-length sequence.
    Array(Seq<ValueV>),
    /// A fixed grouping.
    Tuple(Seq<ValueV>),
    /// An optional value.
    Option(Option<Box<ValueV>>),
    /// An enum variant: tag and payload.
    Variant(u32, Box<ValueV>),
}

/// The model of a value: the same tree, with vectors read as sequences.
pub open spec fn view_value(v: Value) -> ValueV
    decreases v, 1nat,
{
    match v {
        Value::Bool(b) => ValueV::Bool(b),
        Value::Char(c) => ValueV::Char(c),
        Value::U8(x) => ValueV::U8(x),
        Value::U16(x) => ValueV::U16(x),
        Value::U32(x) => ValueV::U32(x),
        Value::U64(x) => ValueV::U64(x),
        Value::Str(bytes) => ValueV::Str(bytes@),
        Value::Array(elems) => ValueV::Array(view_list(elems@)),
        Value::Tuple(fields) => ValueV::Tuple(view_list(fields@)),
        Value::Option(o) => match o {
            Option::None => ValueV::Option(Option::None),
            Option::Some(x) => ValueV::Option(Option::Some(Box::new(view_value(*x)))),
        },
        Value::Variant(tag, payload) => ValueV::Variant(tag, Box::new(view_value(*payload))),
    }
}

/// The models of a sequence of values, in order.
pub open spec fn view_list(vs: Seq<Value>) -> Seq<ValueV>
    decreases vs, 0nat,
{
    if vs.len() == 0 {
        Seq::empty()
    } else {
        seq![view_value(vs[0])] + view_list(vs.drop_first())
    }
}

/// The model of a list keeps its length and models each element in place.
pub proof fn lemma_view_list_index(vs: Seq<Value>)
    ensures
        view_list(vs).len() == vs.len(),
        forall|i: int| 0 <= i < vs.len() ==> view_list(vs)[i] == view_value(#[trigger] vs[i]),
    decreases vs.len(),
{
    if vs.len() > 0 {
        lemma_view_list_index(vs.drop_first());
        assert forall|i: int| 0 <= i < vs.len() implies view_list(vs)[i] == view_value(
            #[trigger] vs[i],
        ) by {
            if i > 0 {
                assert(view_list(vs)[i] == view_list(vs.drop_first())[i - 1]);
                assert(vs.drop_first()[i - 1] == vs[i]);
            }
        }
    }
}

/// Appending one value to a list appends its model to the list's model.
pub proof fn lemma_view_list_push(vs: Seq<Value>, x: Value)
    ensures
        view_list(vs.push(x)) == view_list(vs) + seq![view_value(x)],
    decreases vs.len(),
{
    if vs.len() == 0 {
        assert(vs.push(x).drop_first() =~= vs);
        assert(vs.push(x)[0] == x);
        assert(view_list(vs.push(x)) =~= view_list(vs) + seq![view_value(x)]);
    } else {
        assert(vs.push(x).drop_first() =~= vs.drop_first().push(x));
        lemma_view_list_push(vs.drop_first(), x);
        assert(view_list(vs.push(x)) =~= view_list(vs) + seq![view_value(x)]);
    }
}

/// Whether a value has the given shape, so that a shape-directed decoder
/// can reproduce it. Text must hold valid UTF-8, every element of a
/// sequence must have the element shape, a grouping must agree with the
/// field shapes pointwise, and a variant's tag must lie inside the
/// declared variant count.
pub open spec fn matches_shape(v: Value, s: Shape) -> bool
    decreases v, 1nat,
{
    match v {
        Value::Bool(_) => s is Bool,
        Value::Char(_) => s is Char,
        Value::U8(_) => s is U8,
        Value::U16(_) => s is U16,
        Value::U32(_) => s is U32,
        Value::U64(_) => s is U64,
        Value::Str(bytes) => s is Str && valid_utf8(bytes@),
        Value::Array(elems) => match s {
            Shape::Array(inner) => matches_all(elems@, *inner),
            _ => false,
        },
        Value::Tuple(vals) => match s {
            Shape::Tuple(fields) => matches_fields(vals@, fields@),
            _ => false,
        },
        Value::Option(o) => match s {
            Shape::Option(inner) => match o {
                Option::None => true,
                Option::Some(x) => matches_shape(*x, *inner),
            },
            _ => false,
        },
        Value::Variant(tag, payload) => match s {
            Shape::Enum(variants) => tag < variants@.len() && matches_shape(
                *payload,
                variants@[tag as int],
            ),
            _ => false,
        },
    }
}

/// Whether every value of a list has the given element shape.
pub open spec fn matches_all(vs: Seq<Value>, inner: Shape) -> bool
    decreases vs, 0nat,
{
    if vs.len() == 0 {
        true
    } else {
        matches_shape(vs[0], inner) && matches_all(vs.drop_first(), inner)
    }
}

/// Whether a list of values agrees with a list of field shapes pointwise.
pub open spec fn matches_fields(vs: Seq<Value>, fields: Seq<Shape>) -> bool
    decreases vs, 0nat,
{
    if vs.len() != fields.len() {
        false
    } else if vs.len() == 0 {
        true
    } else {
        matches_shape(vs[0], fields[0]) && matches_fields(vs.drop_first(), fields.drop_first())
    }
}

} // verus!
