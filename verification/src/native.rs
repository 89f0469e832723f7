//! The native side of the bridge: the values of the data model, and the shapes
//! that say which of them a host value is to be read as.

use crate::number::Double;
use vstd::prelude::*;

verus! {

/// A value of the data model. A newtype struct is the value it wraps, and a
/// unit struct is the unit; tuples and tuple structs are sequences.
#[derive(Debug, PartialEq)]
pub enum Native {
    Bool(bool),
    I8(i8),
    I16(i16),
    I32(i32),
    I64(i64),
    U8(u8),
    U16(u16),
    U32(u32),
    U64(u64),
    F64(Double),
    Char(char),
    Str(String),
    Bytes(Vec<u8>),
    /// An option without a value.
    Absent,
    /// An option with its value.
    Present(Box<Native>),
    Unit,
    /// An enum variant without a payload, by its name.
    UnitVariant(String),
    /// An enum variant that wraps one value.
    NewtypeVariant(String, Box<Native>),
    Sequence(Vec<Native>),
    /// An enum variant with positional fields.
    TupleVariant(String, Vec<Native>),
    /// The entries of a map, keys of any kind.
    Mapping(Vec<(Native, Native)>),
    /// The fields of a struct, by name, in the order of their declaration.
    Struct(Vec<(String, Native)>),
    /// An enum variant with named fields.
    StructVariant(String, Vec<(String, Native)>),
}

/// The mathematical content of a [`Native`].
pub enum NativeView {
    Bool(bool),
    I8(i8),
    I16(i16),
    I32(i32),
    I64(i64),
    U8(u8),
    U16(u16),
    U32(u32),
    U64(u64),
    F64(Double),
    Char(char),
    Str(Seq<char>),
    Bytes(Seq<u8>),
    Absent,
    Present(Box<NativeView>),
    Unit,
    UnitVariant(Seq<char>),
    NewtypeVariant(Seq<char>, Box<NativeView>),
    Sequence(Seq<NativeView>),
    TupleVariant(Seq<char>, Seq<NativeView>),
    Mapping(Seq<(NativeView, NativeView)>),
    Struct(Seq<(Seq<char>, NativeView)>),
    StructVariant(Seq<char>, Seq<(Seq<char>, NativeView)>),
}

/// The views of a sequence of values.
pub open spec fn native_views(items: Seq<Native>) -> Seq<NativeView> {
    Seq::new(items.len(), |i: int| items[i]@)
}

/// The views of the entries of a map.
pub open spec fn pair_views(entries: Seq<(Native, Native)>) -> Seq<(NativeView, NativeView)> {
    Seq::new(entries.len(), |i: int| (entries[i].0@, entries[i].1@))
}

/// The views of the fields of a struct.
pub open spec fn field_views(fields: Seq<(String, Native)>) -> Seq<(Seq<char>, NativeView)> {
    Seq::new(fields.len(), |i: int| (fields[i].0@, fields[i].1@))
}

/// The content of a value: its own, and that of its parts.
pub open spec fn native_view(v: Native) -> NativeView
    decreases v,
{
    match v {
        Native::Bool(b) => NativeView::Bool(b),
        Native::I8(k) => NativeView::I8(k),
        Native::I16(k) => NativeView::I16(k),
        Native::I32(k) => NativeView::I32(k),
        Native::I64(k) => NativeView::I64(k),
        Native::U8(k) => NativeView::U8(k),
        Native::U16(k) => NativeView::U16(k),
        Native::U32(k) => NativeView::U32(k),
        Native::U64(k) => NativeView::U64(k),
        Native::F64(d) => NativeView::F64(d),
        Native::Char(c) => NativeView::Char(c),
        Native::Str(s) => NativeView::Str(s@),
        Native::Bytes(b) => NativeView::Bytes(b@),
        Native::Absent => NativeView::Absent,
        Native::Present(inner) => NativeView::Present(Box::new(native_view(*inner))),
        Native::Unit => NativeView::Unit,
        Native::UnitVariant(tag) => NativeView::UnitVariant(tag@),
        Native::NewtypeVariant(tag, inner) => NativeView::NewtypeVariant(
            tag@,
            Box::new(native_view(*inner)),
        ),
        Native::Sequence(items) => NativeView::Sequence(
            Seq::new(
                items@.len(),
                |i: int|
                    if 0 <= i < items@.len() {
                        native_view(items@[i])
                    } else {
                        NativeView::Unit
                    },
            ),
        ),
        Native::TupleVariant(tag, items) => NativeView::TupleVariant(
            tag@,
            Seq::new(
                items@.len(),
                |i: int|
                    if 0 <= i < items@.len() {
                        native_view(items@[i])
                    } else {
                        NativeView::Unit
                    },
            ),
        ),
        Native::Mapping(entries) => NativeView::Mapping(
            Seq::new(
                entries@.len(),
                |i: int|
                    if 0 <= i < entries@.len() {
                        (native_view(entries@[i].0), native_view(entries@[i].1))
                    } else {
                        (NativeView::Unit, NativeView::Unit)
                    },
            ),
        ),
        Native::Struct(fields) => NativeView::Struct(
            Seq::new(
                fields@.len(),
                |i: int|
                    if 0 <= i < fields@.len() {
                        (fields@[i].0@, native_view(fields@[i].1))
                    } else {
                        (Seq::<char>::empty(), NativeView::Unit)
                    },
            ),
        ),
        Native::StructVariant(tag, fields) => NativeView::StructVariant(
            tag@,
            Seq::new(
                fields@.len(),
                |i: int|
                    if 0 <= i < fields@.len() {
                        (fields@[i].0@, native_view(fields@[i].1))
                    } else {
                        (Seq::<char>::empty(), NativeView::Unit)
                    },
            ),
        ),
    }
}

impl View for Native {
    type V = NativeView;

    open spec fn view(&self) -> NativeView {
        native_view(*self)
    }
}

/// A sequence's view is made of the views of its items.
pub proof fn lemma_seq_view(items: Vec<Native>)
    ensures
        Native::Sequence(items)@ == NativeView::Sequence(native_views(items@)),
{
    assert(Native::Sequence(items)@->Sequence_0 =~= native_views(items@));
}

/// A tuple variant's view is made of its name and the views of its fields.
pub proof fn lemma_tuple_variant_view(tag: String, items: Vec<Native>)
    ensures
        Native::TupleVariant(tag, items)@ == NativeView::TupleVariant(tag@, native_views(items@)),
{
    assert(Native::TupleVariant(tag, items)@->TupleVariant_1 =~= native_views(items@));
}

/// A map's view is made of the views of its entries.
pub proof fn lemma_map_view(entries: Vec<(Native, Native)>)
    ensures
        Native::Mapping(entries)@ == NativeView::Mapping(pair_views(entries@)),
{
    assert(Native::Mapping(entries)@->Mapping_0 =~= pair_views(entries@));
}

/// A struct's view is made of the views of its fields.
pub proof fn lemma_struct_view(fields: Vec<(String, Native)>)
    ensures
        Native::Struct(fields)@ == NativeView::Struct(field_views(fields@)),
{
    assert(Native::Struct(fields)@->Struct_0 =~= field_views(fields@));
}

/// A struct variant's view is made of its name and the views of its fields.
pub proof fn lemma_struct_variant_view(tag: String, fields: Vec<(String, Native)>)
    ensures
        Native::StructVariant(tag, fields)@ == NativeView::StructVariant(
            tag@,
            field_views(fields@),
        ),
{
    assert(Native::StructVariant(tag, fields)@->StructVariant_1 =~= field_views(fields@));
}

/// What a host value is to be read as.
#[derive(Debug, PartialEq)]
pub enum Shape {
    Bool,
    I8,
    I16,
    I32,
    I64,
    U8,
    U16,
    U32,
    U64,
    F64,
    Char,
    Str,
    Bytes,
    Optional(Box<Shape>),
    Unit,
    /// Any number of items of one shape.
    Sequence(Box<Shape>),
    /// One item for each shape, in order.
    Tuple(Vec<Shape>),
    /// Entries with keys of the first shape and values of the second.
    Mapping(Box<Shape>, Box<Shape>),
    /// Named fields.
    Struct(Vec<(String, Shape)>),
    /// Named variants.
    Enum(Vec<(String, VariantShape)>),
    /// The name of a field or of a variant.
    Identifier,
    /// Read and thrown away.
    IgnoredAny,
    /// Whatever the host value itself says it is.
    Any,
}

/// What the payload of an enum variant is to be read as.
#[derive(Debug, PartialEq)]
pub enum VariantShape {
    Unit,
    Newtype(Box<Shape>),
    Tuple(Vec<Shape>),
    Struct(Vec<(String, Shape)>),
}

} // verus!
