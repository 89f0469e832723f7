//! Writing host values: what each native value becomes, and the builders that
//! fill arrays and objects one child at a time.

use crate::errors::{viewed, CastError, Error, ErrorView};
use crate::native::{
    field_views, lemma_map_view, lemma_seq_view, lemma_struct_variant_view, lemma_struct_view,
    lemma_tuple_variant_view, native_views, pair_views, Native, NativeView,
};
use crate::number::Double;
use crate::value::{
    copy_bytes, entry_views, item_views, lemma_array_view, lemma_object_view, put, set_property,
    Context, HostValue, HostView,
};
use vstd::prelude::*;
use vstd::utf8::encode_utf8;

verus! {

/// A string as a host value. The host takes no string longer than `limit`
/// bytes.
pub open spec fn string_value(limit: usize, s: Seq<char>) -> Result<HostView, ErrorView> {
    if encode_utf8(s).len() > limit {
        Err(ErrorView::StringTooLong(encode_utf8(s).len() as usize))
    } else {
        Ok(HostView::String(s))
    }
}

/// A name as the key of a property. The host refuses one longer than `limit`
/// bytes.
pub open spec fn key_value(limit: usize, name: Seq<char>) -> Result<HostView, ErrorView> {
    if encode_utf8(name).len() > limit {
        Err(ErrorView::Js)
    } else {
        Ok(HostView::String(name))
    }
}

/// Bytes as a host value. A buffer has a length of 32 bits.
pub open spec fn buffer_value(bytes: Seq<u8>) -> Result<HostView, ErrorView> {
    if bytes.len() > u32::MAX {
        Err(ErrorView::NumberCastError(CastError::Overflow))
    } else {
        Ok(HostView::Buffer(bytes))
    }
}

/// An object with one property.
pub open spec fn single(key: HostView, value: HostView) -> HostView {
    HostView::Object(seq![(key, value)])
}

/// What a native value becomes on a host whose strings hold `limit` bytes.
/// The first part that cannot be written decides the error.
pub open spec fn encode(limit: usize, v: NativeView) -> Result<HostView, ErrorView>
    decreases v, 0nat,
{
    match v {
        NativeView::Bool(b) => Ok(HostView::Boolean(b)),
        NativeView::I8(k) => Ok(HostView::Number(Double::nearest(k as int))),
        NativeView::I16(k) => Ok(HostView::Number(Double::nearest(k as int))),
        NativeView::I32(k) => Ok(HostView::Number(Double::nearest(k as int))),
        NativeView::I64(k) => Ok(HostView::Number(Double::nearest(k as int))),
        NativeView::U8(k) => Ok(HostView::Number(Double::nearest(k as int))),
        NativeView::U16(k) => Ok(HostView::Number(Double::nearest(k as int))),
        NativeView::U32(k) => Ok(HostView::Number(Double::nearest(k as int))),
        NativeView::U64(k) => Ok(HostView::Number(Double::nearest(k as int))),
        NativeView::F64(d) => Ok(HostView::Number(d)),
        NativeView::Char(c) => string_value(limit, seq![c]),
        NativeView::Str(s) => string_value(limit, s),
        NativeView::Bytes(b) => buffer_value(b),
        NativeView::Absent => Ok(HostView::Null),
        NativeView::Present(inner) => encode(limit, *inner),
        NativeView::Unit => Ok(HostView::Null),
        NativeView::UnitVariant(tag) => string_value(limit, tag),
        NativeView::NewtypeVariant(tag, inner) => match encode(limit, *inner) {
            Err(e) => Err(e),
            Ok(payload) => match key_value(limit, tag) {
                Err(e) => Err(e),
                Ok(key) => Ok(single(key, payload)),
            },
        },
        NativeView::Sequence(items) => match encode_items(limit, items, items.len()) {
            Err(e) => Err(e),
            Ok(values) => Ok(HostView::Array(values)),
        },
        NativeView::TupleVariant(tag, items) => match key_value(limit, tag) {
            Err(e) => Err(e),
            Ok(key) => match encode_items(limit, items, items.len()) {
                Err(e) => Err(e),
                Ok(values) => Ok(single(key, HostView::Array(values))),
            },
        },
        NativeView::Mapping(entries) => match encode_entries(limit, entries, entries.len()) {
            Err(e) => Err(e),
            Ok(properties) => Ok(HostView::Object(properties)),
        },
        NativeView::Struct(fields) => match encode_fields(limit, fields, fields.len()) {
            Err(e) => Err(e),
            Ok(properties) => Ok(HostView::Object(properties)),
        },
        NativeView::StructVariant(tag, fields) => match key_value(limit, tag) {
            Err(e) => Err(e),
            Ok(key) => match encode_fields(limit, fields, fields.len()) {
                Err(e) => Err(e),
                Ok(properties) => Ok(single(key, HostView::Object(properties))),
            },
        },
    }
}

/// The first `n` items, written in order.
pub open spec fn encode_items(limit: usize, items: Seq<NativeView>, n: nat) -> Result<
    Seq<HostView>,
    ErrorView,
>
    decreases items, n,
{
    if n == 0 || n > items.len() {
        Ok(Seq::empty())
    } else {
        match encode_items(limit, items, (n - 1) as nat) {
            Err(e) => Err(e),
            Ok(values) => match encode(limit, items[n - 1]) {
                Err(e) => Err(e),
                Ok(value) => Ok(values.push(value)),
            },
        }
    }
}

/// The first `n` entries of a map, set in order: each key is written, then
/// its value, and the property is set.
pub open spec fn encode_entries(limit: usize, entries: Seq<(NativeView, NativeView)>, n: nat) -> Result<
    Seq<(HostView, HostView)>,
    ErrorView,
>
    decreases entries, n,
{
    if n == 0 || n > entries.len() {
        Ok(Seq::empty())
    } else {
        match encode_entries(limit, entries, (n - 1) as nat) {
            Err(e) => Err(e),
            Ok(properties) => match encode(limit, entries[n - 1].0) {
                Err(e) => Err(e),
                Ok(key) => match encode(limit, entries[n - 1].1) {
                    Err(e) => Err(e),
                    Ok(value) => Ok(put(properties, key, value)),
                },
            },
        }
    }
}

/// The first `n` fields of a struct, set in order: each value is written, and
/// the property of the field's name is set.
pub open spec fn encode_fields(limit: usize, fields: Seq<(Seq<char>, NativeView)>, n: nat) -> Result<
    Seq<(HostView, HostView)>,
    ErrorView,
>
    decreases fields, n,
{
    if n == 0 || n > fields.len() {
        Ok(Seq::empty())
    } else {
        match encode_fields(limit, fields, (n - 1) as nat) {
            Err(e) => Err(e),
            Ok(properties) => match encode(limit, fields[n - 1].1) {
                Err(e) => Err(e),
                Ok(value) => match key_value(limit, fields[n - 1].0) {
                    Err(e) => Err(e),
                    Ok(key) => Ok(put(properties, key, value)),
                },
            },
        }
    }
}

/// An item that cannot be written fails the sequence, however long.
pub proof fn lemma_encode_items_fails(limit: usize, items: Seq<NativeView>, k: nat, n: nat)
    requires
        k <= n <= items.len(),
        encode_items(limit, items, k) is Err,
    ensures
        encode_items(limit, items, n) == encode_items(limit, items, k),
    decreases n,
{
    if k < n {
        lemma_encode_items_fails(limit, items, k, (n - 1) as nat);
    }
}

/// An entry that cannot be written fails the map, however long.
pub proof fn lemma_encode_entries_fails(
    limit: usize,
    entries: Seq<(NativeView, NativeView)>,
    k: nat,
    n: nat,
)
    requires
        k <= n <= entries.len(),
        encode_entries(limit, entries, k) is Err,
    ensures
        encode_entries(limit, entries, n) == encode_entries(limit, entries, k),
    decreases n,
{
    if k < n {
        lemma_encode_entries_fails(limit, entries, k, (n - 1) as nat);
    }
}

/// A field that cannot be written fails the struct, however long.
pub proof fn lemma_encode_fields_fails(
    limit: usize,
    fields: Seq<(Seq<char>, NativeView)>,
    k: nat,
    n: nat,
)
    requires
        k <= n <= fields.len(),
        encode_fields(limit, fields, k) is Err,
    ensures
        encode_fields(limit, fields, n) == encode_fields(limit, fields, k),
    decreases n,
{
    if k < n {
        lemma_encode_fields_fails(limit, fields, k, (n - 1) as nat);
    }
}

/// `cast::u32` on a length: the length as 32 bits, or `Overflow` where it
/// has more.
#[verifier::external_body]
fn buffer_length(len: usize) -> (r: Result<u32, CastError>)
    ensures
        r == if len <= u32::MAX {
            Ok::<u32, CastError>(len as u32)
        } else {
            Err::<u32, CastError>(CastError::Overflow)
        },
{
    match cast::u32(len) {
        Ok(n) => Ok(n),
        Err(cast::Error::Infinite) => Err(CastError::Infinite),
        Err(cast::Error::NaN) => Err(CastError::NaN),
        Err(cast::Error::Overflow) => Err(CastError::Overflow),
        Err(cast::Error::Underflow) => Err(CastError::Underflow),
    }
}

/// `String::from` on a character: the string of that one character.
#[verifier::external_body]
fn char_string(c: char) -> (s: String)
    ensures
        s@ == seq![c],
{
    String::from(c)
}

/// A host string, where the host takes it.
fn new_string(cx: &Context, v: &str) -> (r: Result<HostValue, Error>)
    ensures
        viewed(r) == string_value(cx.max_string_length, v@),
{
    let len = v.as_bytes().len();
    if len > cx.max_string_length {
        Err(Error::StringTooLong(len))
    } else {
        Ok(HostValue::String(String::from_str(v)))
    }
}

/// The key of a property, from its name.
fn new_key(cx: &Context, name: &str) -> (r: Result<HostValue, Error>)
    ensures
        viewed(r) == key_value(cx.max_string_length, name@),
{
    if name.as_bytes().len() > cx.max_string_length {
        Err(Error::Js)
    } else {
        Ok(HostValue::String(String::from_str(name)))
    }
}

/// An object with one property.
fn single_property(key: HostValue, value: HostValue) -> (r: HostValue)
    ensures
        r@ == single(key@, value@),
{
    let mut entries: Vec<(HostValue, HostValue)> = Vec::new();
    entries.push((key, value));
    proof {
        lemma_object_view(entries);
        assert(entry_views(entries@) =~= seq![(key@, value@)]);
    }
    HostValue::Object(entries)
}

/// The writer of one native value.
#[derive(Clone, Copy)]
pub struct Serializer<'a> {
    cx: &'a Context,
}

/// The builder of a host array, for a sequence, a tuple or a tuple struct.
pub struct ArraySerializer<'a> {
    cx: &'a Context,
    array: Vec<HostValue>,
}

/// The builder of a tuple variant: an object whose one property, named for
/// the variant, holds the array of the fields.
pub struct TupleVariantSerializer<'a> {
    outter_object: HostValue,
    inner: ArraySerializer<'a>,
}

/// The builder of a host object from the entries of a map.
pub struct MapSerializer<'a> {
    cx: &'a Context,
    object: Vec<(HostValue, HostValue)>,
    key_holder: HostValue,
}

/// The builder of a host object from the fields of a struct.
pub struct StructSerializer<'a> {
    cx: &'a Context,
    object: Vec<(HostValue, HostValue)>,
}

/// The builder of a struct variant: an object whose one property, named for
/// the variant, holds the object of the fields.
pub struct StructVariantSerializer<'a> {
    outer_object: HostValue,
    inner: StructSerializer<'a>,
}

/// Converts a native value to a host value.
pub fn to_value(cx: &Context, value: &Native) -> (r: Result<HostValue, Error>)
    ensures
        viewed(r) == encode(cx.max_string_length, value@),
    decreases value, 0nat,
{
    let serializer = Serializer::new(cx);
    match value {
        Native::Bool(b) => serializer.serialize_bool(*b),
        Native::I8(k) => serializer.serialize_i8(*k),
        Native::I16(k) => serializer.serialize_i16(*k),
        Native::I32(k) => serializer.serialize_i32(*k),
        Native::I64(k) => serializer.serialize_i64(*k),
        Native::U8(k) => serializer.serialize_u8(*k),
        Native::U16(k) => serializer.serialize_u16(*k),
        Native::U32(k) => serializer.serialize_u32(*k),
        Native::U64(k) => serializer.serialize_u64(*k),
        Native::F64(d) => serializer.serialize_f64(*d),
        Native::Char(c) => serializer.serialize_char(*c),
        Native::Str(s) => serializer.serialize_str(s.as_str()),
        Native::Bytes(b) => serializer.serialize_bytes(b.as_slice()),
        Native::Absent => serializer.serialize_none(),
        Native::Present(inner) => serializer.serialize_some(inner),
        Native::Unit => serializer.serialize_unit(),
        Native::UnitVariant(tag) => serializer.serialize_unit_variant("", 0, tag.as_str()),
        Native::NewtypeVariant(tag, inner) => serializer.serialize_newtype_variant(
            "",
            0,
            tag.as_str(),
            inner,
        ),
        Native::Sequence(items) => {
            proof {
                lemma_seq_view(*items);
            }
            let mut builder = match serializer.serialize_seq(Some(items.len())) {
                Ok(builder) => builder,
                Err(e) => {
                    return Err(e);
                },
            };
            let ghost views = native_views(items@);
            let mut i: usize = 0;
            while i < items.len()
                invariant
                    i <= items.len(),
                    value is Sequence,
                    value->Sequence_0 == *items,
                    value@ == NativeView::Sequence(views),
                    views == native_views(items@),
                    builder.limit() == cx.max_string_length,
                    encode_items(cx.max_string_length, views, i as nat) == Ok::<
                        Seq<HostView>,
                        ErrorView,
                    >(builder.items()),
                decreases items.len() - i,
            {
                match builder.serialize_element(&items[i]) {
                    Ok(()) => {},
                    Err(e) => {
                        proof {
                            lemma_encode_items_fails(
                                cx.max_string_length,
                                views,
                                (i + 1) as nat,
                                views.len(),
                            );
                        }
                        return Err(e);
                    },
                }
                i = i + 1;
            }
            builder.end()
        },
        Native::TupleVariant(tag, items) => {
            proof {
                lemma_tuple_variant_view(*tag, *items);
            }
            let mut builder = match serializer.serialize_tuple_variant(
                "",
                0,
                tag.as_str(),
                items.len(),
            ) {
                Ok(builder) => builder,
                Err(e) => {
                    return Err(e);
                },
            };
            let ghost views = native_views(items@);
            let mut i: usize = 0;
            while i < items.len()
                invariant
                    i <= items.len(),
                    value is TupleVariant,
                    value->TupleVariant_1 == *items,
                    value@ == NativeView::TupleVariant(tag@, views),
                    key_value(cx.max_string_length, tag@) is Ok,
                    views == native_views(items@),
                    builder.limit() == cx.max_string_length,
                    builder.key() == HostView::String(tag@),
                    encode_items(cx.max_string_length, views, i as nat) == Ok::<
                        Seq<HostView>,
                        ErrorView,
                    >(builder.items()),
                decreases items.len() - i,
            {
                match builder.serialize_field(&items[i]) {
                    Ok(()) => {},
                    Err(e) => {
                        proof {
                            lemma_encode_items_fails(
                                cx.max_string_length,
                                views,
                                (i + 1) as nat,
                                views.len(),
                            );
                        }
                        return Err(e);
                    },
                }
                i = i + 1;
            }
            builder.end()
        },
        Native::Mapping(entries) => {
            proof {
                lemma_map_view(*entries);
            }
            let mut builder = match serializer.serialize_map(Some(entries.len())) {
                Ok(builder) => builder,
                Err(e) => {
                    return Err(e);
                },
            };
            let ghost views = pair_views(entries@);
            let mut i: usize = 0;
            while i < entries.len()
                invariant
                    i <= entries.len(),
                    value is Mapping,
                    value->Mapping_0 == *entries,
                    value@ == NativeView::Mapping(views),
                    views == pair_views(entries@),
                    builder.limit() == cx.max_string_length,
                    encode_entries(cx.max_string_length, views, i as nat) == Ok::<
                        Seq<(HostView, HostView)>,
                        ErrorView,
                    >(builder.entries()),
                decreases entries.len() - i,
            {
                match builder.serialize_key(&entries[i].0) {
                    Ok(()) => {},
                    Err(e) => {
                        proof {
                            lemma_encode_entries_fails(
                                cx.max_string_length,
                                views,
                                (i + 1) as nat,
                                views.len(),
                            );
                        }
                        return Err(e);
                    },
                }
                match builder.serialize_value(&entries[i].1) {
                    Ok(()) => {},
                    Err(e) => {
                        proof {
                            lemma_encode_entries_fails(
                                cx.max_string_length,
                                views,
                                (i + 1) as nat,
                                views.len(),
                            );
                        }
                        return Err(e);
                    },
                }
                i = i + 1;
            }
            builder.end()
        },
        Native::Struct(fields) => {
            proof {
                lemma_struct_view(*fields);
            }
            let mut builder = match serializer.serialize_struct("", fields.len()) {
                Ok(builder) => builder,
                Err(e) => {
                    return Err(e);
                },
            };
            let ghost views = field_views(fields@);
            let mut i: usize = 0;
            while i < fields.len()
                invariant
                    i <= fields.len(),
                    value is Struct,
                    value->Struct_0 == *fields,
                    value@ == NativeView::Struct(views),
                    views == field_views(fields@),
                    builder.limit() == cx.max_string_length,
                    encode_fields(cx.max_string_length, views, i as nat) == Ok::<
                        Seq<(HostView, HostView)>,
                        ErrorView,
                    >(builder.entries()),
                decreases fields.len() - i,
            {
                match builder.serialize_field(fields[i].0.as_str(), &fields[i].1) {
                    Ok(()) => {},
                    Err(e) => {
                        proof {
                            lemma_encode_fields_fails(
                                cx.max_string_length,
                                views,
                                (i + 1) as nat,
                                views.len(),
                            );
                        }
                        return Err(e);
                    },
                }
                i = i + 1;
            }
            builder.end()
        },
        Native::StructVariant(tag, fields) => {
            proof {
                lemma_struct_variant_view(*tag, *fields);
            }
            let mut builder = match serializer.serialize_struct_variant(
                "",
                0,
                tag.as_str(),
                fields.len(),
            ) {
                Ok(builder) => builder,
                Err(e) => {
                    return Err(e);
                },
            };
            let ghost views = field_views(fields@);
            let mut i: usize = 0;
            while i < fields.len()
                invariant
                    i <= fields.len(),
                    value is StructVariant,
                    value->StructVariant_1 == *fields,
                    value@ == NativeView::StructVariant(tag@, views),
                    key_value(cx.max_string_length, tag@) is Ok,
                    views == field_views(fields@),
                    builder.limit() == cx.max_string_length,
                    builder.key() == HostView::String(tag@),
                    encode_fields(cx.max_string_length, views, i as nat) == Ok::<
                        Seq<(HostView, HostView)>,
                        ErrorView,
                    >(builder.entries()),
                decreases fields.len() - i,
            {
                match builder.serialize_field(fields[i].0.as_str(), &fields[i].1) {
                    Ok(()) => {},
                    Err(e) => {
                        proof {
                            lemma_encode_fields_fails(
                                cx.max_string_length,
                                views,
                                (i + 1) as nat,
                                views.len(),
                            );
                        }
                        return Err(e);
                    },
                }
                i = i + 1;
            }
            builder.end()
        },
    }
}

impl<'a> Serializer<'a> {
    /// The longest string that the host holds.
    pub closed spec fn limit(&self) -> usize {
        self.cx.max_string_length
    }

    /// A writer for the host `cx`.
    pub fn new(cx: &'a Context) -> (serializer: Self)
        ensures
            serializer.limit() == cx.max_string_length,
    {
        Serializer { cx }
    }

    /// A boolean of the host.
    pub fn serialize_bool(self, v: bool) -> (r: Result<HostValue, Error>)
        ensures
            viewed(r) == encode(self.limit(), NativeView::Bool(v)),
    {
        Ok(HostValue::Boolean(v))
    }

    /// The number nearest to `v`, which is `v` itself.
    pub fn serialize_i8(self, v: i8) -> (r: Result<HostValue, Error>)
        ensures
            viewed(r) == encode(self.limit(), NativeView::I8(v)),
    {
        Ok(HostValue::Number(Double::from_i64(v as i64)))
    }

    /// The number nearest to `v`, which is `v` itself.
    pub fn serialize_i16(self, v: i16) -> (r: Result<HostValue, Error>)
        ensures
            viewed(r) == encode(self.limit(), NativeView::I16(v)),
    {
        Ok(HostValue::Number(Double::from_i64(v as i64)))
    }

    /// The number nearest to `v`, which is `v` itself.
    pub fn serialize_i32(self, v: i32) -> (r: Result<HostValue, Error>)
        ensures
            viewed(r) == encode(self.limit(), NativeView::I32(v)),
    {
        Ok(HostValue::Number(Double::from_i64(v as i64)))
    }

    /// The number nearest to `v`. Beyond 53 binary digits that may be another.
    pub fn serialize_i64(self, v: i64) -> (r: Result<HostValue, Error>)
        ensures
            viewed(r) == encode(self.limit(), NativeView::I64(v)),
    {
        Ok(HostValue::Number(Double::from_i64(v)))
    }

    /// The number nearest to `v`, which is `v` itself.
    pub fn serialize_u8(self, v: u8) -> (r: Result<HostValue, Error>)
        ensures
            viewed(r) == encode(self.limit(), NativeView::U8(v)),
    {
        Ok(HostValue::Number(Double::from_u64(v as u64)))
    }

    /// The number nearest to `v`, which is `v` itself.
    pub fn serialize_u16(self, v: u16) -> (r: Result<HostValue, Error>)
        ensures
            viewed(r) == encode(self.limit(), NativeView::U16(v)),
    {
        Ok(HostValue::Number(Double::from_u64(v as u64)))
    }

    /// The number nearest to `v`, which is `v` itself.
    pub fn serialize_u32(self, v: u32) -> (r: Result<HostValue, Error>)
        ensures
            viewed(r) == encode(self.limit(), NativeView::U32(v)),
    {
        Ok(HostValue::Number(Double::from_u64(v as u64)))
    }

    /// The number nearest to `v`. Beyond 53 binary digits that may be another.
    pub fn serialize_u64(self, v: u64) -> (r: Result<HostValue, Error>)
        ensures
            viewed(r) == encode(self.limit(), NativeView::U64(v)),
    {
        Ok(HostValue::Number(Double::from_u64(v)))
    }

    /// The number `v`.
    pub fn serialize_f64(self, v: Double) -> (r: Result<HostValue, Error>)
        ensures
            viewed(r) == encode(self.limit(), NativeView::F64(v)),
    {
        Ok(HostValue::Number(v))
    }

    /// The string of the one character, where the host takes it.
    pub fn serialize_char(self, v: char) -> (r: Result<HostValue, Error>)
        ensures
            viewed(r) == encode(self.limit(), NativeView::Char(v)),
    {
        let text = char_string(v);
        new_string(self.cx, text.as_str())
    }

    /// The string, where the host takes it.
    pub fn serialize_str(self, v: &str) -> (r: Result<HostValue, Error>)
        ensures
            viewed(r) == encode(self.limit(), NativeView::Str(v@)),
    {
        new_string(self.cx, v)
    }

    /// A buffer with a copy of the bytes.
    pub fn serialize_bytes(self, v: &[u8]) -> (r: Result<HostValue, Error>)
        ensures
            viewed(r) == encode(self.limit(), NativeView::Bytes(v@)),
    {
        match buffer_length(v.len()) {
            Ok(_) => Ok(HostValue::Buffer(copy_bytes(v))),
            Err(e) => Err(Error::NumberCastError(e)),
        }
    }

    /// Null stands for an option without a value.
    pub fn serialize_none(self) -> (r: Result<HostValue, Error>)
        ensures
            viewed(r) == encode(self.limit(), NativeView::Absent),
    {
        Ok(HostValue::Null)
    }

    /// An option with a value is written as the value.
    pub fn serialize_some(self, value: &Native) -> (r: Result<HostValue, Error>)
        ensures
            viewed(r) == encode(self.limit(), value@),
        decreases value, 1nat,
    {
        to_value(self.cx, value)
    }

    /// Null stands for the unit.
    pub fn serialize_unit(self) -> (r: Result<HostValue, Error>)
        ensures
            viewed(r) == encode(self.limit(), NativeView::Unit),
    {
        Ok(HostValue::Null)
    }

    /// Null stands for a unit struct.
    pub fn serialize_unit_struct(self, _name: &str) -> (r: Result<HostValue, Error>)
        ensures
            viewed(r) == encode(self.limit(), NativeView::Unit),
    {
        Ok(HostValue::Null)
    }

    /// A variant without payload is written as the string of its name.
    pub fn serialize_unit_variant(self, _name: &str, _variant_index: u32, variant: &str) -> (r:
        Result<HostValue, Error>)
        ensures
            viewed(r) == encode(self.limit(), NativeView::UnitVariant(variant@)),
    {
        self.serialize_str(variant)
    }

    /// A newtype struct is written as the value it wraps.
    pub fn serialize_newtype_struct(self, _name: &str, value: &Native) -> (r: Result<
        HostValue,
        Error,
    >)
        ensures
            viewed(r) == encode(self.limit(), value@),
        decreases value, 1nat,
    {
        to_value(self.cx, value)
    }

    /// An object with one property: the payload, under the name of the
    /// variant. The host may refuse the name.
    pub fn newtype_variant_value(self, variant: &str, payload: HostValue) -> (r: Result<
        HostValue,
        Error,
    >)
        ensures
            viewed(r) == match key_value(self.limit(), variant@) {
                Ok(key) => Ok(single(key, payload@)),
                Err(e) => Err(e),
            },
    {
        match new_key(self.cx, variant) {
            Ok(key) => Ok(single_property(key, payload)),
            Err(e) => Err(e),
        }
    }

    /// A newtype variant is written as an object with one property: what
    /// the wrapped value is written as, under the name of the variant.
    pub fn serialize_newtype_variant(
        self,
        _name: &str,
        _variant_index: u32,
        variant: &str,
        value: &Native,
    ) -> (r: Result<HostValue, Error>)
        ensures
            viewed(r) == encode(
                self.limit(),
                NativeView::NewtypeVariant(variant@, Box::new(value@)),
            ),
        decreases value, 1nat,
    {
        match to_value(self.cx, value) {
            Ok(value_js) => self.newtype_variant_value(variant, value_js),
            Err(e) => Err(e),
        }
    }

    /// The builder of the array for a sequence.
    pub fn serialize_seq(self, _len: Option<usize>) -> (r: Result<ArraySerializer<'a>, Error>)
        ensures
            r matches Ok(builder) && builder.items() == Seq::<HostView>::empty()
                && builder.limit() == self.limit(),
    {
        Ok(ArraySerializer::new(self.cx))
    }

    /// The builder of the array for a tuple.
    pub fn serialize_tuple(self, _len: usize) -> (r: Result<ArraySerializer<'a>, Error>)
        ensures
            r matches Ok(builder) && builder.items() == Seq::<HostView>::empty()
                && builder.limit() == self.limit(),
    {
        Ok(ArraySerializer::new(self.cx))
    }

    /// The builder of the array for a tuple struct.
    pub fn serialize_tuple_struct(self, _name: &str, _len: usize) -> (r: Result<
        ArraySerializer<'a>,
        Error,
    >)
        ensures
            r matches Ok(builder) && builder.items() == Seq::<HostView>::empty()
                && builder.limit() == self.limit(),
    {
        Ok(ArraySerializer::new(self.cx))
    }

    /// The builder for a tuple variant. The host may refuse the name.
    pub fn serialize_tuple_variant(
        self,
        _name: &str,
        _variant_index: u32,
        variant: &str,
        _len: usize,
    ) -> (r: Result<TupleVariantSerializer<'a>, Error>)
        ensures
            match r {
                Ok(builder) => {
                    &&& key_value(self.limit(), variant@) == Ok::<HostView, ErrorView>(
                        builder.key(),
                    )
                    &&& builder.items() == Seq::<HostView>::empty()
                    &&& builder.limit() == self.limit()
                },
                Err(e) => key_value(self.limit(), variant@) == Err::<HostView, ErrorView>(e@),
            },
    {
        TupleVariantSerializer::new(self.cx, variant)
    }

    /// The builder of the object for a map.
    pub fn serialize_map(self, _len: Option<usize>) -> (r: Result<MapSerializer<'a>, Error>)
        ensures
            r matches Ok(builder) && builder.entries() == Seq::<(HostView, HostView)>::empty()
                && builder.limit() == self.limit() && builder.held_key() == HostView::Undefined,
    {
        Ok(MapSerializer::new(self.cx))
    }

    /// The builder of the object for a struct.
    pub fn serialize_struct(self, _name: &str, _len: usize) -> (r: Result<
        StructSerializer<'a>,
        Error,
    >)
        ensures
            r matches Ok(builder) && builder.entries() == Seq::<(HostView, HostView)>::empty()
                && builder.limit() == self.limit(),
    {
        Ok(StructSerializer::new(self.cx))
    }

    /// The builder for a struct variant. The host may refuse the name.
    pub fn serialize_struct_variant(
        self,
        _name: &str,
        _variant_index: u32,
        variant: &str,
        _len: usize,
    ) -> (r: Result<StructVariantSerializer<'a>, Error>)
        ensures
            match r {
                Ok(builder) => {
                    &&& key_value(self.limit(), variant@) == Ok::<HostView, ErrorView>(
                        builder.key(),
                    )
                    &&& builder.entries() == Seq::<(HostView, HostView)>::empty()
                    &&& builder.limit() == self.limit()
                },
                Err(e) => key_value(self.limit(), variant@) == Err::<HostView, ErrorView>(e@),
            },
    {
        StructVariantSerializer::new(self.cx, variant)
    }
}

impl<'a> ArraySerializer<'a> {
    /// The items that the array holds so far.
    pub closed spec fn items(&self) -> Seq<HostView> {
        item_views(self.array@)
    }

    /// The longest string that the host holds.
    pub closed spec fn limit(&self) -> usize {
        self.cx.max_string_length
    }

    /// An empty array.
    pub fn new(cx: &'a Context) -> (builder: Self)
        ensures
            builder.items() == Seq::<HostView>::empty(),
            builder.limit() == cx.max_string_length,
    {
        let builder = ArraySerializer { cx, array: Vec::new() };
        assert(builder.items() =~= Seq::<HostView>::empty());
        builder
    }

    /// Appends a host value.
    pub fn append(&mut self, value: HostValue)
        ensures
            final(self).items() == old(self).items().push(value@),
            final(self).limit() == old(self).limit(),
    {
        self.array.push(value);
        assert(self.items() =~= old(self).items().push(value@));
    }

    /// Writes `value` and appends it. A value that cannot be written leaves
    /// the array as it was.
    pub fn serialize_element(&mut self, value: &Native) -> (r: Result<(), Error>)
        ensures
            final(self).limit() == old(self).limit(),
            match r {
                Ok(()) => encode(old(self).limit(), value@) matches Ok(h) && final(self).items()
                    == old(self).items().push(h),
                Err(e) => encode(old(self).limit(), value@) == Err::<HostView, ErrorView>(e@)
                    && final(self).items() == old(self).items(),
            },
        decreases value, 1nat,
    {
        match to_value(self.cx, value) {
            Ok(v) => {
                self.append(v);
                Ok(())
            },
            Err(e) => Err(e),
        }
    }

    /// Writes a field of a tuple struct and appends it.
    pub fn serialize_field(&mut self, value: &Native) -> (r: Result<(), Error>)
        ensures
            final(self).limit() == old(self).limit(),
            match r {
                Ok(()) => encode(old(self).limit(), value@) matches Ok(h) && final(self).items()
                    == old(self).items().push(h),
                Err(e) => encode(old(self).limit(), value@) == Err::<HostView, ErrorView>(e@)
                    && final(self).items() == old(self).items(),
            },
        decreases value, 2nat,
    {
        self.serialize_element(value)
    }

    /// The array.
    pub fn end(self) -> (r: Result<HostValue, Error>)
        ensures
            r matches Ok(h) && h@ == HostView::Array(self.items()),
    {
        proof {
            lemma_array_view(self.array);
        }
        Ok(HostValue::Array(self.array))
    }
}

impl<'a> TupleVariantSerializer<'a> {
    /// The key of the one property: the name of the variant.
    pub closed spec fn key(&self) -> HostView {
        self.outter_object@
    }

    /// The fields that the inner array holds so far.
    pub closed spec fn items(&self) -> Seq<HostView> {
        self.inner.items()
    }

    /// The longest string that the host holds.
    pub closed spec fn limit(&self) -> usize {
        self.inner.limit()
    }

    /// A variant named `key`, without fields yet. The host may refuse the
    /// name.
    pub fn new(cx: &'a Context, key: &str) -> (r: Result<Self, Error>)
        ensures
            match r {
                Ok(builder) => {
                    &&& key_value(cx.max_string_length, key@) == Ok::<HostView, ErrorView>(
                        builder.key(),
                    )
                    &&& builder.items() == Seq::<HostView>::empty()
                    &&& builder.limit() == cx.max_string_length
                },
                Err(e) => key_value(cx.max_string_length, key@) == Err::<HostView, ErrorView>(e@),
            },
    {
        let inner = ArraySerializer::new(cx);
        match new_key(cx, key) {
            Ok(outter_object) => Ok(TupleVariantSerializer { outter_object, inner }),
            Err(e) => Err(e),
        }
    }

    /// Appends a host value to the inner array.
    pub fn append(&mut self, value: HostValue)
        ensures
            final(self).items() == old(self).items().push(value@),
            final(self).limit() == old(self).limit(),
            final(self).key() == old(self).key(),
    {
        self.inner.append(value);
    }

    /// Writes a field and appends it to the inner array.
    pub fn serialize_field(&mut self, value: &Native) -> (r: Result<(), Error>)
        ensures
            final(self).limit() == old(self).limit(),
            final(self).key() == old(self).key(),
            match r {
                Ok(()) => encode(old(self).limit(), value@) matches Ok(h) && final(self).items()
                    == old(self).items().push(h),
                Err(e) => encode(old(self).limit(), value@) == Err::<HostView, ErrorView>(e@)
                    && final(self).items() == old(self).items(),
            },
        decreases value, 2nat,
    {
        self.inner.serialize_element(value)
    }

    /// The outer object.
    pub fn end(self) -> (r: Result<HostValue, Error>)
        ensures
            r matches Ok(h) && h@ == single(self.key(), HostView::Array(self.items())),
    {
        match self.inner.end() {
            Ok(array) => Ok(single_property(self.outter_object, array)),
            Err(e) => Err(e),
        }
    }
}

impl<'a> MapSerializer<'a> {
    /// The properties that the object holds so far.
    pub closed spec fn entries(&self) -> Seq<(HostView, HostView)> {
        entry_views(self.object@)
    }

    /// The key that waits for its value.
    pub closed spec fn held_key(&self) -> HostView {
        self.key_holder@
    }

    /// The longest string that the host holds.
    pub closed spec fn limit(&self) -> usize {
        self.cx.max_string_length
    }

    /// An empty object. Until a key is written, undefined stands for it.
    pub fn new(cx: &'a Context) -> (builder: Self)
        ensures
            builder.entries() == Seq::<(HostView, HostView)>::empty(),
            builder.held_key() == HostView::Undefined,
            builder.limit() == cx.max_string_length,
    {
        let builder = MapSerializer { cx, object: Vec::new(), key_holder: HostValue::Undefined };
        assert(builder.entries() =~= Seq::<(HostView, HostView)>::empty());
        builder
    }

    /// Holds a key for the value that follows.
    pub fn hold_key(&mut self, key: HostValue)
        ensures
            final(self).limit() == old(self).limit(),
            final(self).entries() == old(self).entries(),
            final(self).held_key() == key@,
    {
        self.key_holder = key;
    }

    /// Sets a host value under the key that is held.
    pub fn set_value(&mut self, value: HostValue)
        ensures
            final(self).limit() == old(self).limit(),
            final(self).held_key() == old(self).held_key(),
            final(self).entries() == put(old(self).entries(), old(self).held_key(), value@),
    {
        let key = self.key_holder.duplicate();
        set_property(&mut self.object, key, value);
    }

    /// Writes `key` and holds it for the value that follows.
    pub fn serialize_key(&mut self, key: &Native) -> (r: Result<(), Error>)
        ensures
            final(self).limit() == old(self).limit(),
            final(self).entries() == old(self).entries(),
            match r {
                Ok(()) => encode(old(self).limit(), key@) == Ok::<HostView, ErrorView>(
                    final(self).held_key(),
                ),
                Err(e) => encode(old(self).limit(), key@) == Err::<HostView, ErrorView>(e@)
                    && final(self).held_key() == old(self).held_key(),
            },
        decreases key, 1nat,
    {
        match to_value(self.cx, key) {
            Ok(k) => {
                self.hold_key(k);
                Ok(())
            },
            Err(e) => Err(e),
        }
    }

    /// Writes `value` and sets it under the key that is held.
    pub fn serialize_value(&mut self, value: &Native) -> (r: Result<(), Error>)
        ensures
            final(self).limit() == old(self).limit(),
            final(self).held_key() == old(self).held_key(),
            match r {
                Ok(()) => encode(old(self).limit(), value@) matches Ok(h) && final(self).entries()
                    == put(old(self).entries(), old(self).held_key(), h),
                Err(e) => encode(old(self).limit(), value@) == Err::<HostView, ErrorView>(e@)
                    && final(self).entries() == old(self).entries(),
            },
        decreases value, 1nat,
    {
        match to_value(self.cx, value) {
            Ok(v) => {
                self.set_value(v);
                Ok(())
            },
            Err(e) => Err(e),
        }
    }

    /// The object.
    pub fn end(self) -> (r: Result<HostValue, Error>)
        ensures
            r matches Ok(h) && h@ == HostView::Object(self.entries()),
    {
        proof {
            lemma_object_view(self.object);
        }
        Ok(HostValue::Object(self.object))
    }
}

impl<'a> StructSerializer<'a> {
    /// The properties that the object holds so far.
    pub closed spec fn entries(&self) -> Seq<(HostView, HostView)> {
        entry_views(self.object@)
    }

    /// The longest string that the host holds.
    pub closed spec fn limit(&self) -> usize {
        self.cx.max_string_length
    }

    /// An empty object.
    pub fn new(cx: &'a Context) -> (builder: Self)
        ensures
            builder.entries() == Seq::<(HostView, HostView)>::empty(),
            builder.limit() == cx.max_string_length,
    {
        let builder = StructSerializer { cx, object: Vec::new() };
        assert(builder.entries() =~= Seq::<(HostView, HostView)>::empty());
        builder
    }

    /// Sets a host value under the name `key`. The host may refuse the name,
    /// and the object is then left as it was.
    pub fn set_field(&mut self, key: &str, value: HostValue) -> (r: Result<(), Error>)
        ensures
            final(self).limit() == old(self).limit(),
            match r {
                Ok(()) => key_value(old(self).limit(), key@) matches Ok(k) && final(self).entries()
                    == put(old(self).entries(), k, value@),
                Err(e) => key_value(old(self).limit(), key@) == Err::<HostView, ErrorView>(e@)
                    && final(self).entries() == old(self).entries(),
            },
    {
        match new_key(self.cx, key) {
            Ok(k) => {
                set_property(&mut self.object, k, value);
                Ok(())
            },
            Err(e) => Err(e),
        }
    }

    /// Writes `value` and sets it under the name `key`. The host may refuse
    /// the name.
    pub fn serialize_field(&mut self, key: &str, value: &Native) -> (r: Result<(), Error>)
        ensures
            final(self).limit() == old(self).limit(),
            match r {
                Ok(()) => {
                    &&& encode(old(self).limit(), value@) matches Ok(h)
                    &&& key_value(old(self).limit(), key@) matches Ok(k)
                    &&& final(self).entries() == put(old(self).entries(), k, h)
                },
                Err(e) => {
                    &&& final(self).entries() == old(self).entries()
                    &&& match encode(old(self).limit(), value@) {
                        Err(cause) => cause == e@,
                        Ok(_) => key_value(old(self).limit(), key@) == Err::<
                            HostView,
                            ErrorView,
                        >(e@),
                    }
                },
            },
        decreases value, 1nat,
    {
        match to_value(self.cx, value) {
            Ok(v) => self.set_field(key, v),
            Err(e) => Err(e),
        }
    }

    /// The object.
    pub fn end(self) -> (r: Result<HostValue, Error>)
        ensures
            r matches Ok(h) && h@ == HostView::Object(self.entries()),
    {
        proof {
            lemma_object_view(self.object);
        }
        Ok(HostValue::Object(self.object))
    }
}

impl<'a> StructVariantSerializer<'a> {
    /// The key of the one property: the name of the variant.
    pub closed spec fn key(&self) -> HostView {
        self.outer_object@
    }

    /// The fields that the inner object holds so far.
    pub closed spec fn entries(&self) -> Seq<(HostView, HostView)> {
        self.inner.entries()
    }

    /// The longest string that the host holds.
    pub closed spec fn limit(&self) -> usize {
        self.inner.limit()
    }

    /// A variant named `key`, without fields yet. The host may refuse the
    /// name.
    pub fn new(cx: &'a Context, key: &str) -> (r: Result<Self, Error>)
        ensures
            match r {
                Ok(builder) => {
                    &&& key_value(cx.max_string_length, key@) == Ok::<HostView, ErrorView>(
                        builder.key(),
                    )
                    &&& builder.entries() == Seq::<(HostView, HostView)>::empty()
                    &&& builder.limit() == cx.max_string_length
                },
                Err(e) => key_value(cx.max_string_length, key@) == Err::<HostView, ErrorView>(e@),
            },
    {
        let inner = StructSerializer::new(cx);
        match new_key(cx, key) {
            Ok(outer_object) => Ok(StructVariantSerializer { outer_object, inner }),
            Err(e) => Err(e),
        }
    }

    /// Sets a host value under the name `key` in the inner object.
    pub fn set_field(&mut self, key: &str, value: HostValue) -> (r: Result<(), Error>)
        ensures
            final(self).limit() == old(self).limit(),
            final(self).key() == old(self).key(),
            match r {
                Ok(()) => key_value(old(self).limit(), key@) matches Ok(k) && final(self).entries()
                    == put(old(self).entries(), k, value@),
                Err(e) => key_value(old(self).limit(), key@) == Err::<HostView, ErrorView>(e@)
                    && final(self).entries() == old(self).entries(),
            },
    {
        self.inner.set_field(key, value)
    }

    /// Writes a field and sets it in the inner object.
    pub fn serialize_field(&mut self, key: &str, value: &Native) -> (r: Result<(), Error>)
        ensures
            final(self).limit() == old(self).limit(),
            final(self).key() == old(self).key(),
            match r {
                Ok(()) => {
                    &&& encode(old(self).limit(), value@) matches Ok(h)
                    &&& key_value(old(self).limit(), key@) matches Ok(k)
                    &&& final(self).entries() == put(old(self).entries(), k, h)
                },
                Err(e) => {
                    &&& final(self).entries() == old(self).entries()
                    &&& match encode(old(self).limit(), value@) {
                        Err(cause) => cause == e@,
                        Ok(_) => key_value(old(self).limit(), key@) == Err::<
                            HostView,
                            ErrorView,
                        >(e@),
                    }
                },
            },
        decreases value, 2nat,
    {
        self.inner.serialize_field(key, value)
    }

    /// The outer object.
    pub fn end(self) -> (r: Result<HostValue, Error>)
        ensures
            r matches Ok(h) && h@ == single(self.key(), HostView::Object(self.entries())),
    {
        match self.inner.end() {
            Ok(object) => Ok(single_property(self.outer_object, object)),
            Err(e) => Err(e),
        }
    }
}

} // verus!
