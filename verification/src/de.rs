//! Reading host values: what each kind of host value gives for each native
//! type that may be asked of it, and the cursors that walk arrays, objects and
//! enum variants.

use crate::errors::{plain, viewed, CastError, Error, ErrorView};
use crate::native::{
    field_views, lemma_map_view, lemma_seq_view, lemma_struct_variant_view, lemma_struct_view,
    lemma_tuple_variant_view, native_views, pair_views, Native, NativeView, Shape, VariantShape,
};
use crate::number::{Double, SIGN_BIT};
use crate::text::{decimal, decimal_string, signed_decimal, signed_decimal_string};
use crate::value::{
    copy_bytes, entry_views, find_property, first_index, item_views, lemma_array_view,
    lemma_first_index, lemma_object_view, lookup, HostValue, HostView,
};
use vstd::prelude::*;

verus! {

/// Null or undefined: what stands for "no value".
pub open spec fn is_absent(h: HostView) -> bool {
    h is Null || h is Undefined
}

/// A host value as a boolean. Null and undefined are false, a number is true
/// unless it is zero, and nothing else but a boolean is one.
pub open spec fn bool_of(h: HostView) -> Result<bool, ErrorView> {
    match h {
        HostView::Null => Ok(false),
        HostView::Undefined => Ok(false),
        HostView::Boolean(b) => Ok(b),
        HostView::Integer(i) => Ok(i != 0),
        HostView::Number(d) => Ok(!d.is_zero()),
        _ => Err(ErrorView::UnableToCoerce("bool"@)),
    }
}

/// A host value as an integer from `min` to `max`. It must be a number, whole
/// and in that range.
pub open spec fn integer_of(h: HostView, min: int, max: int) -> Result<int, ErrorView> {
    match h {
        HostView::Number(d) => match d.narrow(min, max) {
            Ok(k) => Ok(k),
            Err(e) => Err(ErrorView::NumberCastError(e)),
        },
        HostView::Integer(i) => if i < min {
            Err(ErrorView::NumberCastError(CastError::Underflow))
        } else if i > max {
            Err(ErrorView::NumberCastError(CastError::Overflow))
        } else {
            Ok(i as int)
        },
        _ => Err(ErrorView::Js),
    }
}

/// A host value as a double. It must be a number.
pub open spec fn double_of(h: HostView) -> Result<Double, ErrorView> {
    match h {
        HostView::Number(d) => Ok(d),
        HostView::Integer(i) => Ok(Double::nearest(i as int)),
        _ => Err(ErrorView::Js),
    }
}

/// A host value as a character. It must be a string of exactly one.
pub open spec fn char_of(h: HostView) -> Result<char, ErrorView> {
    match h {
        HostView::String(s) => if s.len() == 0 {
            Err(ErrorView::EmptyString)
        } else if s.len() > 1 {
            Err(ErrorView::StringTooLongForChar((s.len() - 1) as usize))
        } else {
            Ok(s[0])
        },
        _ => Err(ErrorView::Js),
    }
}

/// A host value as a string. It must be one.
pub open spec fn string_of(h: HostView) -> Result<Seq<char>, ErrorView> {
    match h {
        HostView::String(s) => Ok(s),
        _ => Err(ErrorView::Js),
    }
}

/// A host value as bytes. It must be a buffer.
pub open spec fn bytes_of(h: HostView) -> Result<Seq<u8>, ErrorView> {
    match h {
        HostView::Buffer(b) => Ok(b),
        _ => Err(ErrorView::Js),
    }
}

/// A host value as the unit. It must be null or undefined.
pub open spec fn unit_of(h: HostView) -> Result<(), ErrorView> {
    if is_absent(h) {
        Ok(())
    } else {
        Err(ErrorView::ExpectingNull)
    }
}

/// The items of a host value that is read as a sequence. It must be an array.
pub open spec fn items_of(h: HostView) -> Result<Seq<HostView>, ErrorView> {
    match h {
        HostView::Array(items) => Ok(items),
        _ => Err(ErrorView::Js),
    }
}

/// The properties of a host value that is read as a map. It must be an object.
pub open spec fn entries_of(h: HostView) -> Result<Seq<(HostView, HostView)>, ErrorView> {
    match h {
        HostView::Object(entries) => Ok(entries),
        _ => Err(ErrorView::Js),
    }
}

/// What is said of an object that cannot name a variant, for having other
/// than one property.
pub open spec fn property_count_text(count: nat) -> Seq<char> {
    "object key with "@ + decimal(count) + " properties"@
}

/// The variant that a host value names, and its payload. A string names a
/// variant without payload. An object names one by the key of its only
/// property, a string, and the value of that property is the payload.
pub open spec fn variant_of(h: HostView) -> Result<(Seq<char>, Option<HostView>), ErrorView> {
    match h {
        HostView::String(s) => Ok((s, None)),
        HostView::Object(entries) => if entries.len() != 1 {
            Err(ErrorView::InvalidKeyType(property_count_text(entries.len())))
        } else {
            match entries[0].0 {
                HostView::String(tag) => Ok((tag, Some(entries[0].1))),
                _ => Err(ErrorView::Js),
            }
        },
        _ => Err(ErrorView::InvalidKeyType(h.text())),
    }
}

/// The name that a host value gives to a field or a variant: a string is the
/// name, a whole number is written out, an object names what it would as an
/// enum.
pub open spec fn identifier_of(h: HostView) -> Result<Seq<char>, ErrorView> {
    match h {
        HostView::String(s) => Ok(s),
        HostView::Integer(i) => Ok(signed_decimal(i as int)),
        HostView::Number(d) => match d.narrow(i64::MIN as int, i64::MAX as int) {
            Ok(k) => Ok(signed_decimal(k)),
            Err(_) => Err(ErrorView::InvalidKeyType(h.text())),
        },
        HostView::Object(_) => match variant_of(h) {
            Ok(named) => Ok(named.0),
            Err(e) => Err(e),
        },
        _ => Err(ErrorView::InvalidKeyType(h.text())),
    }
}

/// What a host value says it is, to a reader that asks for nothing in
/// particular.
pub enum VisitView {
    Unit,
    Absent,
    Bool(bool),
    I64(i64),
    F64(Double),
    Text(Seq<char>),
    Bytes(Seq<u8>),
    Items(Seq<HostView>),
    Entries(Seq<(HostView, HostView)>),
}

/// The name under which a host value without a decoding is reported.
pub open spec fn unimplemented_text() -> Seq<char> {
    "unimplemented Deserializer::Deserializer"@
}

/// What each kind of host value says it is. A number without a fractional
/// part is a 64-bit integer, saturated; a function has no decoding.
pub open spec fn visit_of(h: HostView) -> Result<VisitView, ErrorView> {
    match h {
        HostView::Null => Ok(VisitView::Unit),
        HostView::Undefined => Ok(VisitView::Absent),
        HostView::Boolean(b) => Ok(VisitView::Bool(b)),
        HostView::Integer(i) => Ok(VisitView::I64(i)),
        HostView::Number(d) => if d.is_whole() {
            Ok(VisitView::I64(d.saturated() as i64))
        } else {
            Ok(VisitView::F64(d))
        },
        HostView::String(s) => Ok(VisitView::Text(s)),
        HostView::Array(items) => Ok(VisitView::Items(items)),
        HostView::Object(entries) => Ok(VisitView::Entries(entries)),
        HostView::Buffer(b) => Ok(VisitView::Bytes(b)),
        HostView::Function => Err(ErrorView::NotImplemented(unimplemented_text())),
        HostView::Other => Err(ErrorView::NotImplemented(unimplemented_text())),
    }
}

/// A reader of one host value.
pub struct Deserializer<'a> {
    input: &'a HostValue,
}

/// A cursor over the items of a host array, from the first to the last.
pub struct JsArrayAccess<'a> {
    input: &'a Vec<HostValue>,
    idx: usize,
    len: usize,
}

/// A cursor over the own properties of a host object, in the order of its
/// keys. Each step gives a key and then its value.
pub struct JsObjectAccess<'a> {
    input: &'a Vec<(HostValue, HostValue)>,
    idx: usize,
    len: usize,
}

/// A variant by its name, with the payload that came with it.
pub struct JsEnumAccess<'a> {
    variant: String,
    value: Option<&'a HostValue>,
}

/// The payload of a variant, if it came with one.
pub struct JsVariantAccess<'a> {
    value: Option<&'a HostValue>,
}

/// What [`Deserializer::deserialize_any`] found.
pub enum Visit<'a> {
    Unit,
    Absent,
    Bool(bool),
    I64(i64),
    F64(Double),
    Text(String),
    Bytes(Vec<u8>),
    Items(JsArrayAccess<'a>),
    Entries(JsObjectAccess<'a>),
}

impl<'a> View for Deserializer<'a> {
    type V = HostView;

    closed spec fn view(&self) -> HostView {
        self.input@
    }
}

impl<'a> Deserializer<'a> {
    /// The host value itself.
    pub closed spec fn source(&self) -> HostValue {
        *self.input
    }
}

impl<'a> JsArrayAccess<'a> {
    #[verifier::type_invariant]
    spec fn inv(self) -> bool {
        self.idx <= self.len && self.len == self.input@.len()
    }

    /// The items that the cursor walks.
    pub closed spec fn items(&self) -> Seq<HostView> {
        item_views(self.input@)
    }

    /// The host values themselves.
    pub closed spec fn source(&self) -> Seq<HostValue> {
        self.input@
    }

    /// How many items have been passed.
    pub closed spec fn position(&self) -> nat {
        self.idx as nat
    }

    /// A cursor before the first item.
    pub fn new(input: &'a Vec<HostValue>) -> (access: Self)
        ensures
            access.items() == item_views(input@),
            access.source() == input@,
            access.position() == 0,
    {
        JsArrayAccess { input, idx: 0, len: input.len() }
    }

    /// The next item, if one is left. The cursor moves past it.
    pub fn next(&mut self) -> (r: Option<&'a HostValue>)
        ensures
            final(self).items() == old(self).items(),
            final(self).source() == old(self).source(),
            old(self).source().len() == old(self).items().len(),
            match r {
                Some(v) => {
                    &&& old(self).position() < old(self).items().len()
                    &&& v@ == old(self).items()[old(self).position() as int]
                    &&& *v == old(self).source()[old(self).position() as int]
                    &&& final(self).position() == old(self).position() + 1
                },
                None => {
                    &&& old(self).position() >= old(self).items().len()
                    &&& final(self).position() == old(self).position()
                },
            },
    {
        proof {
            use_type_invariant(&*self);
        }
        if self.idx >= self.len {
            return None;
        }
        let v = &self.input[self.idx];
        self.idx = self.idx + 1;
        Some(v)
    }
}

impl<'a> JsObjectAccess<'a> {
    #[verifier::type_invariant]
    spec fn inv(self) -> bool {
        self.idx <= self.len && self.len == self.input@.len()
    }

    /// The properties that the cursor walks.
    pub closed spec fn entries(&self) -> Seq<(HostView, HostView)> {
        entry_views(self.input@)
    }

    /// The host values themselves.
    pub closed spec fn source(&self) -> Seq<(HostValue, HostValue)> {
        self.input@
    }

    /// How many properties have been passed.
    pub closed spec fn position(&self) -> nat {
        self.idx as nat
    }

    /// A cursor before the first property.
    pub fn new(input: &'a Vec<(HostValue, HostValue)>) -> (access: Self)
        ensures
            access.entries() == entry_views(input@),
            access.source() == input@,
            access.position() == 0,
    {
        JsObjectAccess { input, idx: 0, len: input.len() }
    }

    /// The key of the next property, if one is left. The cursor stays where it
    /// is, for the value to be taken.
    pub fn next_key(&mut self) -> (r: Option<&'a HostValue>)
        ensures
            final(self).entries() == old(self).entries(),
            final(self).source() == old(self).source(),
            old(self).source().len() == old(self).entries().len(),
            final(self).position() == old(self).position(),
            match r {
                Some(k) => {
                    &&& old(self).position() < old(self).entries().len()
                    &&& k@ == old(self).entries()[old(self).position() as int].0
                    &&& *k == old(self).source()[old(self).position() as int].0
                },
                None => old(self).position() >= old(self).entries().len(),
            },
    {
        proof {
            use_type_invariant(&*self);
        }
        if self.idx >= self.len {
            return None;
        }
        Some(&self.input[self.idx].0)
    }

    /// The value of the next property: what the object holds under its key.
    /// The cursor moves past the property. Past the last property there is
    /// no value to take.
    pub fn next_value(&mut self) -> (r: Result<&'a HostValue, Error>)
        ensures
            final(self).entries() == old(self).entries(),
            final(self).source() == old(self).source(),
            old(self).source().len() == old(self).entries().len(),
            match r {
                Ok(v) => {
                    &&& old(self).position() < old(self).entries().len()
                    &&& v@ == lookup(
                        old(self).entries(),
                        old(self).entries()[old(self).position() as int].0,
                    )
                    &&& exists|j: int|
                        0 <= j < old(self).source().len() && *v == (#[trigger] old(
                            self,
                        ).source()[j]).1
                    &&& final(self).position() == old(self).position() + 1
                },
                Err(e) => {
                    &&& old(self).position() >= old(self).entries().len()
                    &&& e@ == ErrorView::ArrayIndexOutOfBounds(
                        old(self).entries().len() as usize,
                        old(self).position() as usize,
                    )
                    &&& final(self).position() == old(self).position()
                },
            },
    {
        proof {
            use_type_invariant(&*self);
        }
        if self.idx >= self.len {
            return Err(Error::ArrayIndexOutOfBounds(self.len, self.idx));
        }
        let key = &self.input[self.idx].0;
        proof {
            lemma_first_index(entry_views(self.input@), key@, 0);
        }
        let at = match find_property(self.input, key) {
            Some(i) => i,
            None => self.idx,
        };
        self.idx = self.idx + 1;
        let v = &self.input[at].1;
        assert(*v == self.source()[at as int].1);
        Ok(v)
    }
}

/// The view of a payload that may not be there.
pub open spec fn payload_view(value: Option<&HostValue>) -> Option<HostView> {
    match value {
        Some(v) => Some(v@),
        None => None,
    }
}

/// The payload itself, if it is there.
pub open spec fn payload_source(value: Option<&HostValue>) -> Option<HostValue> {
    match value {
        Some(v) => Some(*v),
        None => None,
    }
}

/// The index of the first variant at or after `from` whose name is `tag`, or
/// the number of variants where there is none.
pub open spec fn variant_index(variants: Seq<(String, VariantShape)>, tag: Seq<char>, from: int) -> int
    decreases variants.len() - from,
{
    if from < 0 || from >= variants.len() {
        variants.len() as int
    } else if variants[from].0@ == tag {
        from
    } else {
        variant_index(variants, tag, from + 1)
    }
}

/// What was found where a payload of another kind was expected.
#[derive(Clone, Copy, Debug)]
pub enum Found<'a> {
    /// A variant without payload.
    UnitVariant,
    /// Something else, by a word for it.
    Other(&'a str),
}

/// The words for what was found.
pub open spec fn found_text(found: Found) -> Seq<char> {
    match found {
        Found::UnitVariant => "unit variant"@,
        Found::Other(what) => what@,
    }
}

/// The message for a payload of the wrong kind.
pub open spec fn invalid_type_text(found: Found, expected: Seq<char>) -> Seq<char> {
    "invalid type: "@ + found_text(found) + ", expected "@ + expected
}

/// The message for a payload that is a host value of the wrong kind.
pub open spec fn wrong_value_text(expected: Seq<char>) -> Seq<char> {
    invalid_type_text(Found::Other("JsValue"), expected)
}

/// The message for a payload that is not there.
pub open spec fn no_payload_text(expected: Seq<char>) -> Seq<char> {
    invalid_type_text(Found::UnitVariant, expected)
}

/// The message for a variant that the enum does not have.
pub open spec fn unknown_variant_text(tag: Seq<char>) -> Seq<char> {
    "unknown variant `"@ + tag + "`"@
}

/// The message for a field that the object does not have.
pub open spec fn missing_field_text(name: Seq<char>) -> Seq<char> {
    "missing field `"@ + name + "`"@
}

/// The message for an array that is too short for a tuple.
pub open spec fn invalid_length_text(len: nat, expected: nat) -> Seq<char> {
    "invalid length "@ + decimal(len) + ", expected a tuple of size "@ + decimal(expected)
}

/// `serde::de::Error::invalid_type`, with serde's own plain error type
/// `serde::de::value::Error`, whose text is taken. The text reads
/// "invalid type: ", then what was found ("unit variant" for a variant without
/// payload, the given word for anything else), then ", expected " and what was
/// expected.
#[verifier::external_body]
fn invalid_type(found: Found, expected: &str) -> (e: Error)
    ensures
        e@ == ErrorView::Msg(invalid_type_text(found, expected@)),
{
    let unexpected = match found {
        Found::UnitVariant => serde::de::Unexpected::UnitVariant,
        Found::Other(what) => serde::de::Unexpected::Other(what),
    };
    let error: serde::de::value::Error = serde::de::Error::invalid_type(unexpected, &expected);
    Error::Msg(error.to_string())
}

/// The payload of a unit variant: none, or null or undefined.
pub open spec fn unit_payload_of(payload: Option<HostView>) -> Result<(), ErrorView> {
    match payload {
        Some(p) => unit_of(p),
        None => Ok(()),
    }
}

/// The payload of a newtype variant: there must be one.
pub open spec fn newtype_payload_of(payload: Option<HostView>) -> Result<HostView, ErrorView> {
    match payload {
        Some(p) => Ok(p),
        None => Err(ErrorView::Msg(no_payload_text("newtype variant"@))),
    }
}

/// The payload of a tuple variant: an array.
pub open spec fn tuple_payload_of(payload: Option<HostView>) -> Result<Seq<HostView>, ErrorView> {
    match payload {
        Some(HostView::Array(items)) => Ok(items),
        Some(_) => Err(ErrorView::Msg(wrong_value_text("tuple variant"@))),
        None => Err(ErrorView::Msg(no_payload_text("tuple variant"@))),
    }
}

/// The payload of a struct variant: an object.
pub open spec fn struct_payload_of(payload: Option<HostView>) -> Result<
    Seq<(HostView, HostView)>,
    ErrorView,
> {
    match payload {
        Some(HostView::Object(entries)) => Ok(entries),
        Some(_) => Err(ErrorView::Msg(wrong_value_text("struct variant"@))),
        None => Err(ErrorView::Msg(no_payload_text("struct variant"@))),
    }
}

impl<'a> JsEnumAccess<'a> {
    /// The name of the variant.
    pub closed spec fn name(&self) -> Seq<char> {
        self.variant@
    }

    /// The payload of the variant.
    pub closed spec fn payload(&self) -> Option<HostView> {
        payload_view(self.value)
    }

    /// The payload itself.
    pub closed spec fn source(&self) -> Option<HostValue> {
        payload_source(self.value)
    }

    /// The variant named `key`, with the payload `value` if it has one.
    pub fn new(key: String, value: Option<&'a HostValue>) -> (access: Self)
        ensures
            access.name() == key@,
            access.payload() == payload_view(value),
            access.source() == payload_source(value),
    {
        JsEnumAccess { variant: key, value }
    }

    /// The name of the variant and the access to its payload.
    pub fn variant(self) -> (r: (String, JsVariantAccess<'a>))
        ensures
            r.0@ == self.name(),
            r.1.payload() == self.payload(),
            r.1.source() == self.source(),
    {
        (self.variant, JsVariantAccess::new(self.value))
    }

    /// Which of `variants` is named, and the access to its payload.
    pub fn variant_seed(self, variants: &Vec<(String, VariantShape)>) -> (r: Result<
        (usize, JsVariantAccess<'a>),
        Error,
    >)
        ensures
            match r {
                Ok((index, access)) => {
                    &&& index < variants@.len()
                    &&& index == variant_index(variants@, self.name(), 0)
                    &&& access.payload() == self.payload()
                    &&& access.source() == self.source()
                },
                Err(e) => {
                    &&& variant_index(variants@, self.name(), 0) == variants@.len()
                    &&& e@ == ErrorView::Msg(unknown_variant_text(self.name()))
                },
            },
    {
        let mut i: usize = 0;
        while i < variants.len()
            invariant
                i <= variants.len(),
                variant_index(variants@, self.name(), 0) == variant_index(
                    variants@,
                    self.name(),
                    i as int,
                ),
            decreases variants.len() - i,
        {
            if variants[i].0 == self.variant {
                return Ok((i, JsVariantAccess::new(self.value)));
            }
            i = i + 1;
        }
        let text = String::from_str("unknown variant `").concat(self.variant.as_str()).concat("`");
        Err(Error::Msg(text))
    }
}

impl<'a> JsVariantAccess<'a> {
    /// The payload.
    pub closed spec fn payload(&self) -> Option<HostView> {
        payload_view(self.value)
    }

    /// The payload itself.
    pub closed spec fn source(&self) -> Option<HostValue> {
        payload_source(self.value)
    }

    /// The access to the payload `value`, if there is one.
    pub fn new(value: Option<&'a HostValue>) -> (access: Self)
        ensures
            access.payload() == payload_view(value),
            access.source() == payload_source(value),
    {
        JsVariantAccess { value }
    }

    /// A variant without payload: where one came all the same, it must be
    /// null or undefined.
    pub fn unit_variant(self) -> (r: Result<(), Error>)
        ensures
            plain(r) == unit_payload_of(self.payload()),
    {
        match self.value {
            Some(val) => Deserializer::new(val).deserialize_unit(),
            None => Ok(()),
        }
    }

    /// The reader of the payload of a newtype variant.
    pub fn newtype_variant(self) -> (r: Result<Deserializer<'a>, Error>)
        ensures
            match r {
                Ok(de) => newtype_payload_of(self.payload()) == Ok::<HostView, ErrorView>(de@)
                    && self.source() == Some(de.source()),
                Err(e) => newtype_payload_of(self.payload()) == Err::<HostView, ErrorView>(e@),
            },
    {
        match self.value {
            Some(val) => Ok(Deserializer::new(val)),
            None => Err(invalid_type(Found::UnitVariant, "newtype variant")),
        }
    }

    /// The cursor over the fields of a tuple variant.
    pub fn tuple_variant_access(self) -> (r: Result<JsArrayAccess<'a>, Error>)
        ensures
            match r {
                Ok(access) => {
                    &&& tuple_payload_of(self.payload()) == Ok::<Seq<HostView>, ErrorView>(
                        access.items(),
                    )
                    &&& access.position() == 0
                    &&& self.source() matches Some(p) && p is Array && access.source()
                        == p->Array_0@
                },
                Err(e) => tuple_payload_of(self.payload()) == Err::<Seq<HostView>, ErrorView>(e@),
            },
    {
        match self.value {
            Some(handle) => match handle {
                HostValue::Array(items) => {
                    proof {
                        lemma_array_view(*items);
                    }
                    Ok(JsArrayAccess::new(items))
                },
                _ => Err(invalid_type(Found::Other("JsValue"), "tuple variant")),
            },
            None => Err(invalid_type(Found::UnitVariant, "tuple variant")),
        }
    }

    /// The cursor over the fields of a struct variant.
    pub fn struct_variant_access(self) -> (r: Result<JsObjectAccess<'a>, Error>)
        ensures
            match r {
                Ok(access) => {
                    &&& struct_payload_of(self.payload()) == Ok::<
                        Seq<(HostView, HostView)>,
                        ErrorView,
                    >(access.entries())
                    &&& access.position() == 0
                    &&& self.source() matches Some(p) && p is Object && access.source()
                        == p->Object_0@
                },
                Err(e) => struct_payload_of(self.payload()) == Err::<
                    Seq<(HostView, HostView)>,
                    ErrorView,
                >(e@),
            },
    {
        match self.value {
            Some(handle) => match handle {
                HostValue::Object(entries) => {
                    proof {
                        lemma_object_view(*entries);
                    }
                    Ok(JsObjectAccess::new(entries))
                },
                _ => Err(invalid_type(Found::Other("JsValue"), "struct variant")),
            },
            None => Err(invalid_type(Found::UnitVariant, "struct variant")),
        }
    }
}

/// The absolute value of a number that is not positive.
fn lower_bound(min: i64) -> (low: u64)
    requires
        min <= 0,
    ensures
        low == -(min as int),
        low <= SIGN_BIT,
{
    if min == i64::MIN {
        SIGN_BIT
    } else {
        (0 - min) as u64
    }
}

impl<'a> Deserializer<'a> {
    /// A reader of `input`.
    pub fn new(input: &'a HostValue) -> (de: Self)
        ensures
            de@ == input@,
            de.source() == *input,
    {
        Deserializer { input }
    }

    /// The host value that is read.
    pub fn input(&self) -> (v: &'a HostValue)
        ensures
            v@ == self@,
            *v == self.source(),
    {
        self.input
    }

    /// The value as a signed integer from `min` to `max`.
    fn integer_between(&self, min: i64, max: i64) -> (r: Result<i64, Error>)
        requires
            min <= 0 <= max,
        ensures
            match r {
                Ok(k) => integer_of(self@, min as int, max as int) == Ok::<int, ErrorView>(
                    k as int,
                ),
                Err(e) => integer_of(self@, min as int, max as int) == Err::<int, ErrorView>(e@),
            },
    {
        match self.input {
            HostValue::Number(d) => match d.to_signed(lower_bound(min), max as u64) {
                Ok(k) => Ok(k),
                Err(e) => Err(Error::NumberCastError(e)),
            },
            HostValue::Integer(i) => if *i < min {
                Err(Error::NumberCastError(CastError::Underflow))
            } else if *i > max {
                Err(Error::NumberCastError(CastError::Overflow))
            } else {
                Ok(*i)
            },
            _ => Err(Error::Js),
        }
    }

    /// The value as a boolean, by coercion.
    pub fn deserialize_bool(&self) -> (r: Result<bool, Error>)
        ensures
            plain(r) == bool_of(self@),
    {
        match self.input {
            HostValue::Null => Ok(false),
            HostValue::Undefined => Ok(false),
            HostValue::Boolean(b) => Ok(*b),
            HostValue::Integer(i) => Ok(*i != 0),
            HostValue::Number(d) => Ok(d.is_nonzero()),
            _ => Err(Error::UnableToCoerce("bool")),
        }
    }

    /// The value as a signed integer of 8 bits.
    pub fn deserialize_i8(&self) -> (r: Result<i8, Error>)
        ensures
            match r {
                Ok(k) => integer_of(self@, i8::MIN as int, i8::MAX as int) == Ok::<
                    int,
                    ErrorView,
                >(k as int),
                Err(e) => integer_of(self@, i8::MIN as int, i8::MAX as int) == Err::<
                    int,
                    ErrorView,
                >(e@),
            },
    {
        match self.integer_between(-128, 127) {
            Ok(k) => Ok(k as i8),
            Err(e) => Err(e),
        }
    }

    /// The value as a signed integer of 16 bits.
    pub fn deserialize_i16(&self) -> (r: Result<i16, Error>)
        ensures
            match r {
                Ok(k) => integer_of(self@, i16::MIN as int, i16::MAX as int) == Ok::<
                    int,
                    ErrorView,
                >(k as int),
                Err(e) => integer_of(self@, i16::MIN as int, i16::MAX as int) == Err::<
                    int,
                    ErrorView,
                >(e@),
            },
    {
        match self.integer_between(-0x8000, 0x7fff) {
            Ok(k) => Ok(k as i16),
            Err(e) => Err(e),
        }
    }

    /// The value as a signed integer of 32 bits.
    pub fn deserialize_i32(&self) -> (r: Result<i32, Error>)
        ensures
            match r {
                Ok(k) => integer_of(self@, i32::MIN as int, i32::MAX as int) == Ok::<
                    int,
                    ErrorView,
                >(k as int),
                Err(e) => integer_of(self@, i32::MIN as int, i32::MAX as int) == Err::<
                    int,
                    ErrorView,
                >(e@),
            },
    {
        match self.integer_between(-0x8000_0000, 0x7fff_ffff) {
            Ok(k) => Ok(k as i32),
            Err(e) => Err(e),
        }
    }

    /// The value as a signed integer of 64 bits.
    pub fn deserialize_i64(&self) -> (r: Result<i64, Error>)
        ensures
            match r {
                Ok(k) => integer_of(self@, i64::MIN as int, i64::MAX as int) == Ok::<
                    int,
                    ErrorView,
                >(k as int),
                Err(e) => integer_of(self@, i64::MIN as int, i64::MAX as int) == Err::<
                    int,
                    ErrorView,
                >(e@),
            },
    {
        self.integer_between(i64::MIN, i64::MAX)
    }

    /// The value as an unsigned integer of 8 bits.
    pub fn deserialize_u8(&self) -> (r: Result<u8, Error>)
        ensures
            match r {
                Ok(k) => integer_of(self@, 0, u8::MAX as int) == Ok::<int, ErrorView>(k as int),
                Err(e) => integer_of(self@, 0, u8::MAX as int) == Err::<int, ErrorView>(e@),
            },
    {
        match self.integer_between(0, 0xff) {
            Ok(k) => Ok(k as u8),
            Err(e) => Err(e),
        }
    }

    /// The value as an unsigned integer of 16 bits.
    pub fn deserialize_u16(&self) -> (r: Result<u16, Error>)
        ensures
            match r {
                Ok(k) => integer_of(self@, 0, u16::MAX as int) == Ok::<int, ErrorView>(k as int),
                Err(e) => integer_of(self@, 0, u16::MAX as int) == Err::<int, ErrorView>(e@),
            },
    {
        match self.integer_between(0, 0xffff) {
            Ok(k) => Ok(k as u16),
            Err(e) => Err(e),
        }
    }

    /// The value as an unsigned integer of 32 bits.
    pub fn deserialize_u32(&self) -> (r: Result<u32, Error>)
        ensures
            match r {
                Ok(k) => integer_of(self@, 0, u32::MAX as int) == Ok::<int, ErrorView>(k as int),
                Err(e) => integer_of(self@, 0, u32::MAX as int) == Err::<int, ErrorView>(e@),
            },
    {
        match self.integer_between(0, 0xffff_ffff) {
            Ok(k) => Ok(k as u32),
            Err(e) => Err(e),
        }
    }

    /// The value as an unsigned integer of 64 bits.
    pub fn deserialize_u64(&self) -> (r: Result<u64, Error>)
        ensures
            match r {
                Ok(k) => integer_of(self@, 0, u64::MAX as int) == Ok::<int, ErrorView>(k as int),
                Err(e) => integer_of(self@, 0, u64::MAX as int) == Err::<int, ErrorView>(e@),
            },
    {
        match self.input {
            HostValue::Number(d) => match d.to_u64() {
                Ok(k) => Ok(k),
                Err(e) => Err(Error::NumberCastError(e)),
            },
            HostValue::Integer(i) => if *i < 0 {
                Err(Error::NumberCastError(CastError::Underflow))
            } else {
                Ok(*i as u64)
            },
            _ => Err(Error::Js),
        }
    }

    /// The value as a double.
    pub fn deserialize_f64(&self) -> (r: Result<Double, Error>)
        ensures
            plain(r) == double_of(self@),
    {
        match self.input {
            HostValue::Number(d) => Ok(*d),
            HostValue::Integer(i) => Ok(Double::from_i64(*i)),
            _ => Err(Error::Js),
        }
    }

    /// The value as a character.
    pub fn deserialize_char(&self) -> (r: Result<char, Error>)
        ensures
            plain(r) == char_of(self@),
    {
        match self.input {
            HostValue::String(s) => {
                let n = s.as_str().unicode_len();
                if n == 0 {
                    Err(Error::EmptyString)
                } else if n > 1 {
                    Err(Error::StringTooLongForChar(n - 1))
                } else {
                    Ok(s.as_str().get_char(0))
                }
            },
            _ => Err(Error::Js),
        }
    }

    /// The value as a string, for a borrowed one and an owned one alike.
    pub fn deserialize_string(&self) -> (r: Result<String, Error>)
        ensures
            viewed(r) == string_of(self@),
    {
        match self.input {
            HostValue::String(s) => Ok(s.clone()),
            _ => Err(Error::Js),
        }
    }

    /// The value as a string, for a borrowed one and an owned one alike.
    pub fn deserialize_str(&self) -> (r: Result<String, Error>)
        ensures
            viewed(r) == string_of(self@),
    {
        self.deserialize_string()
    }

    /// The bytes of a buffer, copied.
    pub fn deserialize_bytes(&self) -> (r: Result<Vec<u8>, Error>)
        ensures
            viewed(r) == bytes_of(self@),
    {
        match self.input {
            HostValue::Buffer(b) => Ok(copy_bytes(b.as_slice())),
            _ => Err(Error::Js),
        }
    }

    /// The bytes of a buffer, copied.
    pub fn deserialize_byte_buf(&self) -> (r: Result<Vec<u8>, Error>)
        ensures
            viewed(r) == bytes_of(self@),
    {
        self.deserialize_bytes()
    }

    /// Nothing for null and undefined; for anything else the reader of the
    /// same value, for the type inside the option.
    pub fn deserialize_option(&self) -> (r: Option<Deserializer<'a>>)
        ensures
            match r {
                None => is_absent(self@),
                Some(de) => !is_absent(self@) && de@ == self@ && de.source() == self.source(),
            },
    {
        match self.input {
            HostValue::Null => None,
            HostValue::Undefined => None,
            _ => Some(Deserializer { input: self.input }),
        }
    }

    /// The unit, of a unit struct too.
    pub fn deserialize_unit(&self) -> (r: Result<(), Error>)
        ensures
            plain(r) == unit_of(self@),
    {
        match self.input {
            HostValue::Null => Ok(()),
            HostValue::Undefined => Ok(()),
            _ => Err(Error::ExpectingNull),
        }
    }

    /// The unit, for a unit struct.
    pub fn deserialize_unit_struct(&self) -> (r: Result<(), Error>)
        ensures
            plain(r) == unit_of(self@),
    {
        self.deserialize_unit()
    }

    /// The reader of the same value, for the type inside a newtype struct.
    pub fn deserialize_newtype_struct(&self) -> (de: Deserializer<'a>)
        ensures
            de@ == self@,
            de.source() == self.source(),
    {
        Deserializer { input: self.input }
    }

    /// A cursor over the items, for a sequence, a tuple or a tuple struct.
    pub fn deserialize_seq(&self) -> (r: Result<JsArrayAccess<'a>, Error>)
        ensures
            match r {
                Ok(access) => {
                    &&& items_of(self@) == Ok::<Seq<HostView>, ErrorView>(access.items())
                    &&& access.position() == 0
                    &&& self.source() is Array
                    &&& access.source() == self.source()->Array_0@
                },
                Err(e) => items_of(self@) == Err::<Seq<HostView>, ErrorView>(e@),
            },
    {
        match self.input {
            HostValue::Array(items) => {
                proof {
                    lemma_array_view(*items);
                }
                Ok(JsArrayAccess::new(items))
            },
            _ => Err(Error::Js),
        }
    }

    /// A cursor over the items, for a tuple.
    pub fn deserialize_tuple(&self) -> (r: Result<JsArrayAccess<'a>, Error>)
        ensures
            match r {
                Ok(access) => {
                    &&& items_of(self@) == Ok::<Seq<HostView>, ErrorView>(access.items())
                    &&& access.position() == 0
                    &&& self.source() is Array
                    &&& access.source() == self.source()->Array_0@
                },
                Err(e) => items_of(self@) == Err::<Seq<HostView>, ErrorView>(e@),
            },
    {
        self.deserialize_seq()
    }

    /// A cursor over the items, for a tuple struct.
    pub fn deserialize_tuple_struct(&self) -> (r: Result<JsArrayAccess<'a>, Error>)
        ensures
            match r {
                Ok(access) => {
                    &&& items_of(self@) == Ok::<Seq<HostView>, ErrorView>(access.items())
                    &&& access.position() == 0
                    &&& self.source() is Array
                    &&& access.source() == self.source()->Array_0@
                },
                Err(e) => items_of(self@) == Err::<Seq<HostView>, ErrorView>(e@),
            },
    {
        self.deserialize_seq()
    }

    /// A cursor over the properties, for a map or a struct.
    pub fn deserialize_map(&self) -> (r: Result<JsObjectAccess<'a>, Error>)
        ensures
            match r {
                Ok(access) => {
                    &&& entries_of(self@) == Ok::<Seq<(HostView, HostView)>, ErrorView>(
                        access.entries(),
                    )
                    &&& access.position() == 0
                    &&& self.source() is Object
                    &&& access.source() == self.source()->Object_0@
                },
                Err(e) => entries_of(self@) == Err::<Seq<(HostView, HostView)>, ErrorView>(e@),
            },
    {
        match self.input {
            HostValue::Object(entries) => {
                proof {
                    lemma_object_view(*entries);
                }
                Ok(JsObjectAccess::new(entries))
            },
            _ => Err(Error::Js),
        }
    }

    /// A cursor over the properties, for a struct.
    pub fn deserialize_struct(&self) -> (r: Result<JsObjectAccess<'a>, Error>)
        ensures
            match r {
                Ok(access) => {
                    &&& entries_of(self@) == Ok::<Seq<(HostView, HostView)>, ErrorView>(
                        access.entries(),
                    )
                    &&& access.position() == 0
                    &&& self.source() is Object
                    &&& access.source() == self.source()->Object_0@
                },
                Err(e) => entries_of(self@) == Err::<Seq<(HostView, HostView)>, ErrorView>(e@),
            },
    {
        self.deserialize_map()
    }

    /// The variant that the value names.
    pub fn deserialize_enum(&self) -> (r: Result<JsEnumAccess<'a>, Error>)
        ensures
            match r {
                Ok(access) => {
                    &&& variant_of(self@) == Ok::<(Seq<char>, Option<HostView>), ErrorView>(
                        (access.name(), access.payload()),
                    )
                    &&& access.source() matches Some(p) ==> self.source() is Object
                        && self.source()->Object_0@.len() == 1 && p
                        == self.source()->Object_0@[0].1
                },
                Err(e) => variant_of(self@) == Err::<(Seq<char>, Option<HostView>), ErrorView>(
                    e@,
                ),
            },
    {
        match self.input {
            HostValue::String(s) => Ok(JsEnumAccess::new(s.clone(), None)),
            HostValue::Object(entries) => {
                proof {
                    lemma_object_view(*entries);
                }
                let len = entries.len();
                if len != 1 {
                    let text = String::from_str("object key with ").concat(
                        decimal_string(len as u64).as_str(),
                    ).concat(" properties");
                    return Err(Error::InvalidKeyType(text));
                }
                match &entries[0].0 {
                    HostValue::String(key) => Ok(
                        JsEnumAccess::new(key.clone(), Some(&entries[0].1)),
                    ),
                    _ => Err(Error::Js),
                }
            },
            _ => Err(Error::InvalidKeyType(self.input.to_text())),
        }
    }

    /// The name of a field or of a variant.
    pub fn deserialize_identifier(&self) -> (r: Result<String, Error>)
        ensures
            viewed(r) == identifier_of(self@),
    {
        match self.input {
            HostValue::String(s) => Ok(s.clone()),
            HostValue::Integer(i) => Ok(signed_decimal_string(*i)),
            HostValue::Number(d) => match d.to_i64() {
                Ok(k) => Ok(signed_decimal_string(k)),
                Err(_) => Err(Error::InvalidKeyType(self.input.to_text())),
            },
            HostValue::Object(_) => match self.deserialize_enum() {
                Ok(access) => Ok(access.variant().0),
                Err(e) => Err(e),
            },
            _ => Err(Error::InvalidKeyType(self.input.to_text())),
        }
    }

    /// The value is passed over.
    pub fn deserialize_ignored_any(&self) {
    }

    /// What the value says it is.
    pub fn deserialize_any(&self) -> (r: Result<Visit<'a>, Error>)
        ensures
            match r {
                Ok(Visit::Unit) => visit_of(self@) == Ok::<VisitView, ErrorView>(VisitView::Unit),
                Ok(Visit::Absent) => visit_of(self@) == Ok::<VisitView, ErrorView>(
                    VisitView::Absent,
                ),
                Ok(Visit::Bool(b)) => visit_of(self@) == Ok::<VisitView, ErrorView>(
                    VisitView::Bool(b),
                ),
                Ok(Visit::I64(k)) => visit_of(self@) == Ok::<VisitView, ErrorView>(
                    VisitView::I64(k),
                ),
                Ok(Visit::F64(d)) => visit_of(self@) == Ok::<VisitView, ErrorView>(
                    VisitView::F64(d),
                ),
                Ok(Visit::Text(s)) => visit_of(self@) == Ok::<VisitView, ErrorView>(
                    VisitView::Text(s@),
                ),
                Ok(Visit::Bytes(b)) => visit_of(self@) == Ok::<VisitView, ErrorView>(
                    VisitView::Bytes(b@),
                ),
                Ok(Visit::Items(access)) => {
                    &&& visit_of(self@) == Ok::<VisitView, ErrorView>(
                        VisitView::Items(access.items()),
                    )
                    &&& access.position() == 0
                    &&& self.source() is Array
                    &&& access.source() == self.source()->Array_0@
                },
                Ok(Visit::Entries(access)) => {
                    &&& visit_of(self@) == Ok::<VisitView, ErrorView>(
                        VisitView::Entries(access.entries()),
                    )
                    &&& access.position() == 0
                    &&& self.source() is Object
                    &&& access.source() == self.source()->Object_0@
                },
                Err(e) => visit_of(self@) == Err::<VisitView, ErrorView>(e@),
            },
    {
        match self.input {
            HostValue::Null => Ok(Visit::Unit),
            HostValue::Undefined => Ok(Visit::Absent),
            HostValue::Boolean(b) => Ok(Visit::Bool(*b)),
            HostValue::Integer(i) => Ok(Visit::I64(*i)),
            HostValue::Number(d) => if d.has_no_fraction() {
                Ok(Visit::I64(d.to_i64_saturating()))
            } else {
                Ok(Visit::F64(*d))
            },
            HostValue::String(s) => Ok(Visit::Text(s.clone())),
            HostValue::Buffer(b) => Ok(Visit::Bytes(copy_bytes(b.as_slice()))),
            HostValue::Array(items) => {
                proof {
                    lemma_array_view(*items);
                }
                Ok(Visit::Items(JsArrayAccess::new(items)))
            },
            HostValue::Object(entries) => {
                proof {
                    lemma_object_view(*entries);
                }
                Ok(Visit::Entries(JsObjectAccess::new(entries)))
            },
            HostValue::Function => Err(
                Error::NotImplemented("unimplemented Deserializer::Deserializer"),
            ),
            HostValue::Other => Err(
                Error::NotImplemented("unimplemented Deserializer::Deserializer"),
            ),
        }
    }
}

/// The value that the object holds under the key of its property `i`.
pub open spec fn value_at(entries: Seq<(HostView, HostView)>, i: int) -> HostView {
    lookup(entries, entries[i].0)
}

/// What a host value is when it is read as `shape` says. The first part that
/// cannot be read decides the error.
pub open spec fn decode(h: HostView, shape: Shape) -> Result<NativeView, ErrorView>
    decreases h, shape, 0nat,
{
    match shape {
        Shape::Bool => match bool_of(h) {
            Ok(b) => Ok(NativeView::Bool(b)),
            Err(e) => Err(e),
        },
        Shape::I8 => match integer_of(h, i8::MIN as int, i8::MAX as int) {
            Ok(k) => Ok(NativeView::I8(k as i8)),
            Err(e) => Err(e),
        },
        Shape::I16 => match integer_of(h, i16::MIN as int, i16::MAX as int) {
            Ok(k) => Ok(NativeView::I16(k as i16)),
            Err(e) => Err(e),
        },
        Shape::I32 => match integer_of(h, i32::MIN as int, i32::MAX as int) {
            Ok(k) => Ok(NativeView::I32(k as i32)),
            Err(e) => Err(e),
        },
        Shape::I64 => match integer_of(h, i64::MIN as int, i64::MAX as int) {
            Ok(k) => Ok(NativeView::I64(k as i64)),
            Err(e) => Err(e),
        },
        Shape::U8 => match integer_of(h, 0, u8::MAX as int) {
            Ok(k) => Ok(NativeView::U8(k as u8)),
            Err(e) => Err(e),
        },
        Shape::U16 => match integer_of(h, 0, u16::MAX as int) {
            Ok(k) => Ok(NativeView::U16(k as u16)),
            Err(e) => Err(e),
        },
        Shape::U32 => match integer_of(h, 0, u32::MAX as int) {
            Ok(k) => Ok(NativeView::U32(k as u32)),
            Err(e) => Err(e),
        },
        Shape::U64 => match integer_of(h, 0, u64::MAX as int) {
            Ok(k) => Ok(NativeView::U64(k as u64)),
            Err(e) => Err(e),
        },
        Shape::F64 => match double_of(h) {
            Ok(d) => Ok(NativeView::F64(d)),
            Err(e) => Err(e),
        },
        Shape::Char => match char_of(h) {
            Ok(c) => Ok(NativeView::Char(c)),
            Err(e) => Err(e),
        },
        Shape::Str => match string_of(h) {
            Ok(s) => Ok(NativeView::Str(s)),
            Err(e) => Err(e),
        },
        Shape::Bytes => match bytes_of(h) {
            Ok(b) => Ok(NativeView::Bytes(b)),
            Err(e) => Err(e),
        },
        Shape::Optional(inner) => if is_absent(h) {
            Ok(NativeView::Absent)
        } else {
            match decode(h, *inner) {
                Ok(v) => Ok(NativeView::Present(Box::new(v))),
                Err(e) => Err(e),
            }
        },
        Shape::Unit => match unit_of(h) {
            Ok(_) => Ok(NativeView::Unit),
            Err(e) => Err(e),
        },
        Shape::Sequence(elem) => match h {
            HostView::Array(items) => match decode_items(items, *elem, items.len()) {
                Ok(values) => Ok(NativeView::Sequence(values)),
                Err(e) => Err(e),
            },
            _ => Err(ErrorView::Js),
        },
        Shape::Tuple(shapes) => match h {
            HostView::Array(items) => match decode_tuple(items, shapes@, shapes@.len()) {
                Ok(values) => Ok(NativeView::Sequence(values)),
                Err(e) => Err(e),
            },
            _ => Err(ErrorView::Js),
        },
        Shape::Mapping(key, value) => match h {
            HostView::Object(entries) => match decode_entries(
                entries,
                *key,
                *value,
                entries.len(),
            ) {
                Ok(pairs) => Ok(NativeView::Mapping(pairs)),
                Err(e) => Err(e),
            },
            _ => Err(ErrorView::Js),
        },
        Shape::Struct(fields) => match h {
            HostView::Object(entries) => match decode_fields(entries, fields@) {
                Ok(values) => Ok(NativeView::Struct(values)),
                Err(e) => Err(e),
            },
            _ => Err(ErrorView::Js),
        },
        Shape::Enum(variants) => match variant_of(h) {
            Err(e) => Err(e),
            Ok(named) => {
                let index = variant_index(variants@, named.0, 0);
                if index < 0 || index >= variants@.len() {
                    Err(ErrorView::Msg(unknown_variant_text(named.0)))
                } else {
                    match variants@[index].1 {
                        VariantShape::Unit => match unit_payload_of(named.1) {
                            Ok(_) => Ok(NativeView::UnitVariant(named.0)),
                            Err(e) => Err(e),
                        },
                        VariantShape::Newtype(inner) => match newtype_payload_of(named.1) {
                            Err(e) => Err(e),
                            Ok(p) => match decode(p, *inner) {
                                Ok(v) => Ok(NativeView::NewtypeVariant(named.0, Box::new(v))),
                                Err(e) => Err(e),
                            },
                        },
                        VariantShape::Tuple(shapes) => match tuple_payload_of(named.1) {
                            Err(e) => Err(e),
                            Ok(items) => match decode_tuple(items, shapes@, shapes@.len()) {
                                Ok(values) => Ok(NativeView::TupleVariant(named.0, values)),
                                Err(e) => Err(e),
                            },
                        },
                        VariantShape::Struct(fields) => match struct_payload_of(named.1) {
                            Err(e) => Err(e),
                            Ok(entries) => match decode_fields(entries, fields@) {
                                Ok(values) => Ok(NativeView::StructVariant(named.0, values)),
                                Err(e) => Err(e),
                            },
                        },
                    }
                }
            },
        },
        Shape::Identifier => match identifier_of(h) {
            Ok(s) => Ok(NativeView::Str(s)),
            Err(e) => Err(e),
        },
        Shape::IgnoredAny => Ok(NativeView::Unit),
        Shape::Any => match visit_of(h) {
            Err(e) => Err(e),
            Ok(VisitView::Unit) => Ok(NativeView::Unit),
            Ok(VisitView::Absent) => Ok(NativeView::Absent),
            Ok(VisitView::Bool(b)) => Ok(NativeView::Bool(b)),
            Ok(VisitView::I64(k)) => Ok(NativeView::I64(k)),
            Ok(VisitView::F64(d)) => Ok(NativeView::F64(d)),
            Ok(VisitView::Text(s)) => Ok(NativeView::Str(s)),
            Ok(VisitView::Bytes(b)) => Ok(NativeView::Bytes(b)),
            Ok(VisitView::Items(items)) => match decode_items(items, Shape::Any, items.len()) {
                Ok(values) => Ok(NativeView::Sequence(values)),
                Err(e) => Err(e),
            },
            Ok(VisitView::Entries(entries)) => match decode_entries(
                entries,
                Shape::Any,
                Shape::Any,
                entries.len(),
            ) {
                Ok(pairs) => Ok(NativeView::Mapping(pairs)),
                Err(e) => Err(e),
            },
        },
    }
}

/// The first `n` items, each read as `elem` says.
pub open spec fn decode_items(items: Seq<HostView>, elem: Shape, n: nat) -> Result<
    Seq<NativeView>,
    ErrorView,
>
    decreases items, elem, n,
{
    if n == 0 || n > items.len() {
        Ok(Seq::empty())
    } else {
        match decode_items(items, elem, (n - 1) as nat) {
            Err(e) => Err(e),
            Ok(values) => match decode(items[n - 1], elem) {
                Err(e) => Err(e),
                Ok(v) => Ok(values.push(v)),
            },
        }
    }
}

/// The first `n` items, each read as the shape of its place says. An array
/// that ends before the shapes do is too short; what it holds beyond them is
/// passed over.
pub open spec fn decode_tuple(items: Seq<HostView>, shapes: Seq<Shape>, n: nat) -> Result<
    Seq<NativeView>,
    ErrorView,
>
    decreases items, shapes, n,
{
    if n == 0 || n > shapes.len() {
        Ok(Seq::empty())
    } else {
        match decode_tuple(items, shapes, (n - 1) as nat) {
            Err(e) => Err(e),
            Ok(values) => if n > items.len() {
                Err(ErrorView::Msg(invalid_length_text(items.len(), shapes.len())))
            } else {
                match decode(items[n - 1], shapes[n - 1]) {
                    Err(e) => Err(e),
                    Ok(v) => Ok(values.push(v)),
                }
            },
        }
    }
}

/// The first `n` properties as the entries of a map: each key read as `key`
/// says, and the value that the object holds under it as `value` says.
pub open spec fn decode_entries(
    entries: Seq<(HostView, HostView)>,
    key: Shape,
    value: Shape,
    n: nat,
) -> Result<Seq<(NativeView, NativeView)>, ErrorView>
    decreases entries, key, n,
{
    if n == 0 || n > entries.len() {
        Ok(Seq::empty())
    } else {
        match decode_entries(entries, key, value, (n - 1) as nat) {
            Err(e) => Err(e),
            Ok(pairs) => match decode(entries[n - 1].0, key) {
                Err(e) => Err(e),
                Ok(k) => {
                    let at = first_index(entries, entries[n - 1].0, 0);
                    if 0 <= at < entries.len() {
                        match decode(entries[at].1, value) {
                            Err(e) => Err(e),
                            Ok(v) => Ok(pairs.push((k, v))),
                        }
                    } else {
                        Err(ErrorView::ArrayIndexOutOfBounds(entries.len() as usize, n as usize))
                    }
                },
            },
        }
    }
}

/// The index of the first field at or after `from` whose name is `name`, or
/// the number of fields where there is none.
pub open spec fn field_index(fields: Seq<(String, Shape)>, name: Seq<char>, from: int) -> int
    decreases fields.len() - from,
{
    if from < 0 || from >= fields.len() {
        fields.len() as int
    } else if fields[from].0@ == name {
        from
    } else {
        field_index(fields, name, from + 1)
    }
}

/// The message for a field that the object has twice.
pub open spec fn duplicate_field_text(name: Seq<char>) -> Seq<char> {
    "duplicate field `"@ + name + "`"@
}

/// What is known of each field of a struct after the first `n` properties of
/// the object. The key of a property is read as a name. A property that
/// names no field is passed over; one that names a field is read as the
/// shape of that field says; a second one for the same field is an error.
pub open spec fn decode_slots(
    entries: Seq<(HostView, HostView)>,
    fields: Seq<(String, Shape)>,
    n: nat,
) -> Result<Seq<Option<NativeView>>, ErrorView>
    decreases entries, fields, n,
{
    if n == 0 || n > entries.len() {
        Ok(Seq::new(fields.len(), |i: int| None))
    } else {
        match decode_slots(entries, fields, (n - 1) as nat) {
            Err(e) => Err(e),
            Ok(slots) => match identifier_of(entries[n - 1].0) {
                Err(e) => Err(e),
                Ok(name) => {
                    let index = field_index(fields, name, 0);
                    let at = first_index(entries, entries[n - 1].0, 0);
                    if index < 0 || index >= fields.len() || index >= slots.len() {
                        Ok(slots)
                    } else if slots[index] is Some {
                        Err(ErrorView::Msg(duplicate_field_text(name)))
                    } else if 0 <= at < entries.len() {
                        match decode(entries[at].1, fields[index].1) {
                            Err(e) => Err(e),
                            Ok(v) => Ok(slots.update(index, Some(v))),
                        }
                    } else {
                        Err(ErrorView::ArrayIndexOutOfBounds(entries.len() as usize, n as usize))
                    }
                },
            },
        }
    }
}

/// The first `n` fields of a struct, from what is known of each. A field of
/// which nothing is known is absent where it is optional, and missing where
/// it is not.
pub open spec fn finish_fields(
    fields: Seq<(String, Shape)>,
    slots: Seq<Option<NativeView>>,
    n: nat,
) -> Result<Seq<(Seq<char>, NativeView)>, ErrorView>
    decreases n,
{
    if n == 0 || n > fields.len() || n > slots.len() {
        Ok(Seq::empty())
    } else {
        match finish_fields(fields, slots, (n - 1) as nat) {
            Err(e) => Err(e),
            Ok(values) => {
                let name = fields[n - 1].0@;
                match slots[n - 1] {
                    Some(v) => Ok(values.push((name, v))),
                    None => if fields[n - 1].1 is Optional {
                        Ok(values.push((name, NativeView::Absent)))
                    } else {
                        Err(ErrorView::Msg(missing_field_text(name)))
                    },
                }
            },
        }
    }
}

/// The fields of a struct, read from the properties of an object in the
/// order of the properties, and given in the order of the fields.
pub open spec fn decode_fields(entries: Seq<(HostView, HostView)>, fields: Seq<(String, Shape)>) -> Result<
    Seq<(Seq<char>, NativeView)>,
    ErrorView,
>
    decreases entries, fields, entries.len() + 1,
{
    match decode_slots(entries, fields, entries.len()) {
        Err(e) => Err(e),
        Ok(slots) => finish_fields(fields, slots, fields.len()),
    }
}

/// No variant before the index has the name, and the variant at the index has
/// it.
pub proof fn lemma_variant_index(variants: Seq<(String, VariantShape)>, tag: Seq<char>, from: int)
    requires
        0 <= from <= variants.len(),
    ensures
        from <= variant_index(variants, tag, from) <= variants.len(),
        variant_index(variants, tag, from) < variants.len() ==> variants[variant_index(
            variants,
            tag,
            from,
        )].0@ == tag,
    decreases variants.len() - from,
{
    if from < variants.len() && variants[from].0@ != tag {
        lemma_variant_index(variants, tag, from + 1);
    }
}

/// An item that cannot be read fails the sequence, however long.
pub proof fn lemma_decode_items_fails(items: Seq<HostView>, elem: Shape, k: nat, n: nat)
    requires
        k <= n <= items.len(),
        decode_items(items, elem, k) is Err,
    ensures
        decode_items(items, elem, n) == decode_items(items, elem, k),
    decreases n,
{
    if k < n {
        lemma_decode_items_fails(items, elem, k, (n - 1) as nat);
    }
}

/// An item that cannot be read fails the tuple, however long.
pub proof fn lemma_decode_tuple_fails(items: Seq<HostView>, shapes: Seq<Shape>, k: nat, n: nat)
    requires
        k <= n <= shapes.len(),
        decode_tuple(items, shapes, k) is Err,
    ensures
        decode_tuple(items, shapes, n) == decode_tuple(items, shapes, k),
    decreases n,
{
    if k < n {
        lemma_decode_tuple_fails(items, shapes, k, (n - 1) as nat);
    }
}

/// An entry that cannot be read fails the map, however long.
pub proof fn lemma_decode_entries_fails(
    entries: Seq<(HostView, HostView)>,
    key: Shape,
    value: Shape,
    k: nat,
    n: nat,
)
    requires
        k <= n <= entries.len(),
        decode_entries(entries, key, value, k) is Err,
    ensures
        decode_entries(entries, key, value, n) == decode_entries(entries, key, value, k),
    decreases n,
{
    if k < n {
        lemma_decode_entries_fails(entries, key, value, k, (n - 1) as nat);
    }
}

/// A property that cannot be read fails the struct, however many follow.
pub proof fn lemma_decode_slots_fails(
    entries: Seq<(HostView, HostView)>,
    fields: Seq<(String, Shape)>,
    k: nat,
    n: nat,
)
    requires
        k <= n <= entries.len(),
        decode_slots(entries, fields, k) is Err,
    ensures
        decode_slots(entries, fields, n) == decode_slots(entries, fields, k),
    decreases n,
{
    if k < n {
        lemma_decode_slots_fails(entries, fields, k, (n - 1) as nat);
    }
}

/// A field that is missing fails the struct, however many follow.
pub proof fn lemma_finish_fields_fails(
    fields: Seq<(String, Shape)>,
    slots: Seq<Option<NativeView>>,
    k: nat,
    n: nat,
)
    requires
        k <= n <= fields.len(),
        n <= slots.len(),
        finish_fields(fields, slots, k) is Err,
    ensures
        finish_fields(fields, slots, n) == finish_fields(fields, slots, k),
    decreases n,
{
    if k < n {
        lemma_finish_fields_fails(fields, slots, k, (n - 1) as nat);
    }
}

/// No field before the index has the name, and the field at the index has it.
pub proof fn lemma_field_index(fields: Seq<(String, Shape)>, name: Seq<char>, from: int)
    requires
        0 <= from <= fields.len(),
    ensures
        from <= field_index(fields, name, from) <= fields.len(),
        field_index(fields, name, from) < fields.len() ==> fields[field_index(
            fields,
            name,
            from,
        )].0@ == name,
        forall|j: int| from <= j < field_index(fields, name, from) ==> fields[j].0@ != name,
    decreases fields.len() - from,
{
    if from < fields.len() && fields[from].0@ != name {
        lemma_field_index(fields, name, from + 1);
    }
}

/// A character as a native value.
fn character(c: char) -> (v: Native)
    ensures
        v@ == NativeView::Char(c),
{
    Native::Char(c)
}

/// Deserializes a native value of the given shape from a host value.
pub fn from_value(value: &HostValue, shape: &Shape) -> (r: Result<Native, Error>)
    ensures
        viewed(r) == decode(value@, *shape),
    decreases value, 0nat, shape,
{
    let de = Deserializer::new(value);
    match shape {
        Shape::Bool => match de.deserialize_bool() {
            Ok(b) => Ok(Native::Bool(b)),
            Err(e) => Err(e),
        },
        Shape::I8 => match de.deserialize_i8() {
            Ok(k) => Ok(Native::I8(k)),
            Err(e) => Err(e),
        },
        Shape::I16 => match de.deserialize_i16() {
            Ok(k) => Ok(Native::I16(k)),
            Err(e) => Err(e),
        },
        Shape::I32 => match de.deserialize_i32() {
            Ok(k) => Ok(Native::I32(k)),
            Err(e) => Err(e),
        },
        Shape::I64 => match de.deserialize_i64() {
            Ok(k) => Ok(Native::I64(k)),
            Err(e) => Err(e),
        },
        Shape::U8 => match de.deserialize_u8() {
            Ok(k) => Ok(Native::U8(k)),
            Err(e) => Err(e),
        },
        Shape::U16 => match de.deserialize_u16() {
            Ok(k) => Ok(Native::U16(k)),
            Err(e) => Err(e),
        },
        Shape::U32 => match de.deserialize_u32() {
            Ok(k) => Ok(Native::U32(k)),
            Err(e) => Err(e),
        },
        Shape::U64 => match de.deserialize_u64() {
            Ok(k) => Ok(Native::U64(k)),
            Err(e) => Err(e),
        },
        Shape::F64 => match de.deserialize_f64() {
            Ok(d) => Ok(Native::F64(d)),
            Err(e) => Err(e),
        },
        Shape::Char => match de.deserialize_char() {
            Ok(c) => Ok(character(c)),
            Err(e) => Err(e),
        },
        Shape::Str => match de.deserialize_string() {
            Ok(s) => Ok(Native::Str(s)),
            Err(e) => Err(e),
        },
        Shape::Bytes => match de.deserialize_bytes() {
            Ok(b) => Ok(Native::Bytes(b)),
            Err(e) => Err(e),
        },
        Shape::Optional(inner) => match de.deserialize_option() {
            None => Ok(Native::Absent),
            Some(present) => match from_value(present.input(), inner) {
                Ok(v) => Ok(Native::Present(Box::new(v))),
                Err(e) => Err(e),
            },
        },
        Shape::Unit => match de.deserialize_unit() {
            Ok(()) => Ok(Native::Unit),
            Err(e) => Err(e),
        },
        Shape::Sequence(elem) => match de.deserialize_seq() {
            Err(e) => Err(e),
            Ok(access) => match visit_seq(access, elem) {
                Err(e) => Err(e),
                Ok(values) => {
                    proof {
                        lemma_seq_view(values);
                    }
                    Ok(Native::Sequence(values))
                },
            },
        },
        Shape::Tuple(shapes) => match de.deserialize_tuple() {
            Err(e) => Err(e),
            Ok(access) => match visit_tuple(access, shapes) {
                Err(e) => Err(e),
                Ok(values) => {
                    proof {
                        lemma_seq_view(values);
                    }
                    Ok(Native::Sequence(values))
                },
            },
        },
        Shape::Mapping(key, val) => match de.deserialize_map() {
            Err(e) => Err(e),
            Ok(access) => match visit_map(access, key, val) {
                Err(e) => Err(e),
                Ok(pairs) => {
                    proof {
                        lemma_map_view(pairs);
                    }
                    Ok(Native::Mapping(pairs))
                },
            },
        },
        Shape::Struct(fields) => match de.deserialize_struct() {
            Err(e) => Err(e),
            Ok(access) => match visit_struct(access, fields) {
                Err(e) => Err(e),
                Ok(values) => {
                    proof {
                        lemma_struct_view(values);
                    }
                    Ok(Native::Struct(values))
                },
            },
        },
        Shape::Enum(variants) => {
            let access = match de.deserialize_enum() {
                Ok(access) => access,
                Err(e) => {
                    return Err(e);
                },
            };
            let ghost name = access.name();
            let (index, payload) = match access.variant_seed(variants) {
                Ok(found) => found,
                Err(e) => {
                    return Err(e);
                },
            };
            proof {
                lemma_variant_index(variants@, name, 0);
            }
            let tag = variants[index].0.clone();
            match &variants[index].1 {
                VariantShape::Unit => match payload.unit_variant() {
                    Ok(()) => Ok(Native::UnitVariant(tag)),
                    Err(e) => Err(e),
                },
                VariantShape::Newtype(inner) => match payload.newtype_variant() {
                    Err(e) => Err(e),
                    Ok(present) => match from_value(present.input(), inner) {
                        Ok(v) => Ok(Native::NewtypeVariant(tag, Box::new(v))),
                        Err(e) => Err(e),
                    },
                },
                VariantShape::Tuple(shapes) => match payload.tuple_variant_access() {
                    Err(e) => Err(e),
                    Ok(items) => match visit_tuple(items, shapes) {
                        Err(e) => Err(e),
                        Ok(values) => {
                            proof {
                                lemma_tuple_variant_view(tag, values);
                            }
                            Ok(Native::TupleVariant(tag, values))
                        },
                    },
                },
                VariantShape::Struct(fields) => match payload.struct_variant_access() {
                    Err(e) => Err(e),
                    Ok(entries) => match visit_struct(entries, fields) {
                        Err(e) => Err(e),
                        Ok(values) => {
                            proof {
                                lemma_struct_variant_view(tag, values);
                            }
                            Ok(Native::StructVariant(tag, values))
                        },
                    },
                },
            }
        },
        Shape::Identifier => match de.deserialize_identifier() {
            Ok(s) => Ok(Native::Str(s)),
            Err(e) => Err(e),
        },
        Shape::IgnoredAny => {
            de.deserialize_ignored_any();
            Ok(Native::Unit)
        },
        Shape::Any => match de.deserialize_any() {
            Err(e) => Err(e),
            Ok(Visit::Unit) => Ok(Native::Unit),
            Ok(Visit::Absent) => Ok(Native::Absent),
            Ok(Visit::Bool(b)) => Ok(Native::Bool(b)),
            Ok(Visit::I64(k)) => Ok(Native::I64(k)),
            Ok(Visit::F64(d)) => Ok(Native::F64(d)),
            Ok(Visit::Text(s)) => Ok(Native::Str(s)),
            Ok(Visit::Bytes(b)) => Ok(Native::Bytes(b)),
            Ok(Visit::Items(access)) => {
                let any = Shape::Any;
                match visit_seq(access, &any) {
                    Err(e) => Err(e),
                    Ok(values) => {
                        proof {
                            lemma_seq_view(values);
                        }
                        Ok(Native::Sequence(values))
                    },
                }
            },
            Ok(Visit::Entries(access)) => {
                let any = Shape::Any;
                match visit_map(access, &any, &any) {
                    Err(e) => Err(e),
                    Ok(pairs) => {
                        proof {
                            lemma_map_view(pairs);
                        }
                        Ok(Native::Mapping(pairs))
                    },
                }
            },
        },
    }
}

/// Deserializes a native value from a host value that may not have been
/// given: undefined stands for one that was not.
pub fn from_value_opt(value: Option<&HostValue>, shape: &Shape) -> (r: Result<Native, Error>)
    ensures
        viewed(r) == decode(
            match value {
                Some(v) => v@,
                None => HostView::Undefined,
            },
            *shape,
        ),
{
    match value {
        Some(v) => from_value(v, shape),
        None => {
            let unwrapped = HostValue::Undefined;
            from_value(&unwrapped, shape)
        },
    }
}

/// Walks the cursor to its end and reads each item as `elem` says.
fn visit_seq<'a>(access: JsArrayAccess<'a>, elem: &Shape) -> (r: Result<Vec<Native>, Error>)
    requires
        access.position() == 0,
    ensures
        match r {
            Ok(values) => decode_items(access.items(), *elem, access.items().len()) == Ok::<
                Seq<NativeView>,
                ErrorView,
            >(native_views(values@)),
            Err(e) => decode_items(access.items(), *elem, access.items().len()) == Err::<
                Seq<NativeView>,
                ErrorView,
            >(e@),
        },
    decreases access.source(), 1nat, elem,
{
    let ghost items = access.items();
    let ghost source = access.source();
    let mut cursor = access;
    let mut values: Vec<Native> = Vec::new();
    assert(native_views(values@) =~= Seq::<NativeView>::empty());
    loop
        invariant
            cursor.items() == items,
            cursor.source() == source,
            source == access.source(),
            cursor.position() == values@.len(),
            values@.len() <= items.len(),
            decode_items(items, *elem, values@.len()) == Ok::<Seq<NativeView>, ErrorView>(
                native_views(values@),
            ),
        decreases items.len() - values@.len(),
    {
        let ghost before = native_views(values@);
        match cursor.next_element_seed(elem) {
            Ok(Some(v)) => {
                values.push(v);
                assert(native_views(values@) =~= before.push(v@));
            },
            Ok(None) => {
                return Ok(values);
            },
            Err(e) => {
                proof {
                    lemma_decode_items_fails(
                        items,
                        *elem,
                        (values@.len() + 1) as nat,
                        items.len(),
                    );
                }
                return Err(e);
            },
        }
    }
}

/// Walks the cursor through one item for each shape and reads each item as
/// the shape of its place says.
fn visit_tuple<'a>(access: JsArrayAccess<'a>, shapes: &Vec<Shape>) -> (r: Result<
    Vec<Native>,
    Error,
>)
    requires
        access.position() == 0,
    ensures
        match r {
            Ok(values) => decode_tuple(access.items(), shapes@, shapes@.len()) == Ok::<
                Seq<NativeView>,
                ErrorView,
            >(native_views(values@)),
            Err(e) => decode_tuple(access.items(), shapes@, shapes@.len()) == Err::<
                Seq<NativeView>,
                ErrorView,
            >(e@),
        },
    decreases access.source(), 1nat, shapes,
{
    let ghost items = access.items();
    let ghost source = access.source();
    let mut cursor = access;
    let mut values: Vec<Native> = Vec::new();
    assert(native_views(values@) =~= Seq::<NativeView>::empty());
    let mut i: usize = 0;
    while i < shapes.len()
        invariant
            cursor.items() == items,
            cursor.source() == source,
            source == access.source(),
            i <= shapes.len(),
            i == values@.len(),
            cursor.position() == i,
            i <= items.len(),
            decode_tuple(items, shapes@, i as nat) == Ok::<Seq<NativeView>, ErrorView>(
                native_views(values@),
            ),
        decreases shapes.len() - i,
    {
        let ghost before = native_views(values@);
        match cursor.next_element_seed(&shapes[i]) {
            Ok(Some(v)) => {
                values.push(v);
                assert(native_views(values@) =~= before.push(v@));
            },
            Ok(None) => {
                proof {
                    lemma_decode_tuple_fails(items, shapes@, (i + 1) as nat, shapes@.len());
                }
                let text = String::from_str("invalid length ").concat(
                    decimal_string(i as u64).as_str(),
                ).concat(", expected a tuple of size ").concat(
                    decimal_string(shapes.len() as u64).as_str(),
                );
                return Err(Error::Msg(text));
            },
            Err(e) => {
                proof {
                    lemma_decode_tuple_fails(items, shapes@, (i + 1) as nat, shapes@.len());
                }
                return Err(e);
            },
        }
        i = i + 1;
    }
    Ok(values)
}

/// Walks the cursor to its end and reads each property as an entry of a map.
fn visit_map<'a>(access: JsObjectAccess<'a>, key: &Shape, value: &Shape) -> (r: Result<
    Vec<(Native, Native)>,
    Error,
>)
    requires
        access.position() == 0,
    ensures
        match r {
            Ok(pairs) => decode_entries(access.entries(), *key, *value, access.entries().len())
                == Ok::<Seq<(NativeView, NativeView)>, ErrorView>(
                pair_views(pairs@),
            ),
            Err(e) => decode_entries(access.entries(), *key, *value, access.entries().len())
                == Err::<Seq<(NativeView, NativeView)>, ErrorView>(e@),
        },
    decreases access.source(), 1nat, key,
{
    let ghost entries = access.entries();
    let ghost source = access.source();
    let mut cursor = access;
    let mut pairs: Vec<(Native, Native)> = Vec::new();
    assert(pair_views(pairs@) =~= Seq::<(NativeView, NativeView)>::empty());
    loop
        invariant
            cursor.entries() == entries,
            cursor.source() == source,
            source == access.source(),
            cursor.position() == pairs@.len(),
            pairs@.len() <= entries.len(),
            decode_entries(entries, *key, *value, pairs@.len()) == Ok::<
                Seq<(NativeView, NativeView)>,
                ErrorView,
            >(pair_views(pairs@)),
        decreases entries.len() - pairs@.len(),
    {
        let ghost before = pair_views(pairs@);
        let ghost n = pairs@.len();
        let k = match cursor.next_key_seed(key) {
            Ok(Some(k)) => k,
            Ok(None) => {
                return Ok(pairs);
            },
            Err(e) => {
                proof {
                    lemma_decode_entries_fails(entries, *key, *value, (n + 1) as nat, entries.len());
                }
                return Err(e);
            },
        };
        proof {
            lemma_first_index(entries, entries[n as int].0, 0);
        }
        let v = match cursor.next_value_seed(value) {
            Ok(v) => v,
            Err(e) => {
                proof {
                    lemma_decode_entries_fails(entries, *key, *value, (n + 1) as nat, entries.len());
                }
                return Err(e);
            },
        };
        pairs.push((k, v));
        assert(pair_views(pairs@) =~= before.push((k@, v@)));
    }
}

/// The views of what is known of each field.
pub open spec fn slot_views(slots: Seq<Option<Native>>) -> Seq<Option<NativeView>> {
    Seq::new(
        slots.len(),
        |i: int|
            match slots[i] {
                Some(v) => Some(v@),
                None => None,
            },
    )
}

/// The index of the first field named `name`, if there is one.
fn find_field(fields: &Vec<(String, Shape)>, name: &String) -> (r: Option<usize>)
    ensures
        match r {
            Some(i) => i < fields@.len() && i == field_index(fields@, name@, 0),
            None => field_index(fields@, name@, 0) == fields@.len(),
        },
{
    let mut i: usize = 0;
    while i < fields.len()
        invariant
            i <= fields.len(),
            field_index(fields@, name@, 0) == field_index(fields@, name@, i as int),
        decreases fields.len() - i,
    {
        if fields[i].0 == *name {
            return Some(i);
        }
        i = i + 1;
    }
    None
}

/// Walks the cursor to its end and reads each property into the field that
/// it names, then gives the fields in their order.
fn visit_struct<'a>(access: JsObjectAccess<'a>, fields: &Vec<(String, Shape)>) -> (r: Result<
    Vec<(String, Native)>,
    Error,
>)
    requires
        access.position() == 0,
    ensures
        match r {
            Ok(values) => decode_fields(access.entries(), fields@) == Ok::<
                Seq<(Seq<char>, NativeView)>,
                ErrorView,
            >(field_views(values@)),
            Err(e) => decode_fields(access.entries(), fields@) == Err::<
                Seq<(Seq<char>, NativeView)>,
                ErrorView,
            >(e@),
        },
    decreases access.source(), 1nat, fields,
{
    let ghost entries = access.entries();
    let ghost source = access.source();
    let mut cursor = access;
    let mut slots: Vec<Option<Native>> = Vec::new();
    let mut i: usize = 0;
    while i < fields.len()
        invariant
            i <= fields.len(),
            slots@.len() == i,
            forall|j: int| 0 <= j < i ==> slots@[j] is None,
        decreases fields.len() - i,
    {
        slots.push(None);
        i = i + 1;
    }
    assert(slot_views(slots@) =~= Seq::new(fields@.len(), |i: int| None::<NativeView>));
    let ghost mut done: nat = 0;
    loop
        invariant
            cursor.entries() == entries,
            cursor.source() == source,
            source == access.source(),
            cursor.position() == done,
            done <= entries.len(),
            slots@.len() == fields@.len(),
            decode_slots(entries, fields@, done) == Ok::<Seq<Option<NativeView>>, ErrorView>(
                slot_views(slots@),
            ),
        ensures
            done == entries.len(),
        decreases entries.len() - done,
    {
        let key = match cursor.next_key() {
            Some(key) => key,
            None => {
                break;
            },
        };
        proof {
            lemma_first_index(entries, entries[done as int].0, 0);
        }
        let name = match Deserializer::new(key).deserialize_identifier() {
            Ok(name) => name,
            Err(e) => {
                proof {
                    lemma_decode_slots_fails(entries, fields@, done + 1, entries.len());
                }
                return Err(e);
            },
        };
        let ghost before = slot_views(slots@);
        match find_field(fields, &name) {
            None => {
                match cursor.next_value() {
                    Ok(passed) => {
                        Deserializer::new(passed).deserialize_ignored_any();
                    },
                    Err(e) => {
                        return Err(e);
                    },
                }
            },
            Some(index) => {
                if slots[index].is_some() {
                    proof {
                        lemma_decode_slots_fails(entries, fields@, done + 1, entries.len());
                    }
                    let text = String::from_str("duplicate field `").concat(name.as_str()).concat(
                        "`",
                    );
                    return Err(Error::Msg(text));
                }
                match cursor.next_value_seed(&fields[index].1) {
                    Ok(v) => {
                        slots.set(index, Some(v));
                        assert(slot_views(slots@) =~= before.update(index as int, Some(v@)));
                    },
                    Err(e) => {
                        proof {
                            lemma_decode_slots_fails(entries, fields@, done + 1, entries.len());
                        }
                        return Err(e);
                    },
                }
            },
        }
        proof {
            done = done + 1;
        }
    }
    let ghost known = slot_views(slots@);
    let mut values: Vec<(String, Native)> = Vec::new();
    assert(field_views(values@) =~= Seq::<(Seq<char>, NativeView)>::empty());
    let mut j: usize = 0;
    while j < fields.len()
        invariant
            j <= fields.len(),
            j == values@.len(),
            known.len() == fields@.len(),
            slots@.len() == fields@.len() - j,
            slot_views(slots@) == known.skip(j as int),
            decode_slots(entries, fields@, entries.len()) == Ok::<
                Seq<Option<NativeView>>,
                ErrorView,
            >(known),
            entries == access.entries(),
            finish_fields(fields@, known, j as nat) == Ok::<
                Seq<(Seq<char>, NativeView)>,
                ErrorView,
            >(field_views(values@)),
        decreases fields.len() - j,
    {
        let ghost before = field_views(values@);
        let ghost rest = slots@;
        let slot = slots.remove(0);
        assert forall|i: int| 0 <= i < slots@.len() implies #[trigger] slot_views(slots@)[i]
            == known.skip(j + 1)[i] by {
            assert(slots@[i] == rest[i + 1]);
            assert(slot_views(rest)[i + 1] == known.skip(j as int)[i + 1]);
        }
        assert(slot_views(slots@) =~= known.skip(j + 1));
        assert(slot_views(rest)[0] == known.skip(j as int)[0]);
        let name = fields[j].0.clone();
        let v = match slot {
            Some(v) => v,
            None => match &fields[j].1 {
                Shape::Optional(_) => Native::Absent,
                _ => {
                    proof {
                        lemma_finish_fields_fails(fields@, known, (j + 1) as nat, fields@.len());
                    }
                    let text = String::from_str("missing field `").concat(name.as_str()).concat(
                        "`",
                    );
                    return Err(Error::Msg(text));
                },
            },
        };
        values.push((name, v));
        assert(field_views(values@) =~= before.push((name@, v@)));
        j = j + 1;
    }
    Ok(values)
}

impl<'a> JsArrayAccess<'a> {
    /// The next item, read as `seed` says, if one is left. The cursor moves
    /// past the item whether it can be read or not.
    pub fn next_element_seed(&mut self, seed: &Shape) -> (r: Result<Option<Native>, Error>)
        ensures
            final(self).items() == old(self).items(),
            final(self).source() == old(self).source(),
            if old(self).position() >= old(self).items().len() {
                r matches Ok(None) && final(self).position() == old(self).position()
            } else {
                &&& final(self).position() == old(self).position() + 1
                &&& match r {
                    Ok(Some(v)) => decode(old(self).items()[old(self).position() as int], *seed)
                        == Ok::<NativeView, ErrorView>(v@),
                    Ok(None) => false,
                    Err(e) => decode(old(self).items()[old(self).position() as int], *seed)
                        == Err::<NativeView, ErrorView>(e@),
                }
            },
        decreases old(self).source(), 0nat, seed,
    {
        match self.next() {
            None => Ok(None),
            Some(v) => match from_value(v, seed) {
                Ok(value) => Ok(Some(value)),
                Err(e) => Err(e),
            },
        }
    }
}

impl<'a> JsObjectAccess<'a> {
    /// The key of the next property, read as `seed` says, if a property is
    /// left. The cursor stays where it is, for the value to be taken.
    pub fn next_key_seed(&mut self, seed: &Shape) -> (r: Result<Option<Native>, Error>)
        ensures
            final(self).entries() == old(self).entries(),
            final(self).source() == old(self).source(),
            final(self).position() == old(self).position(),
            if old(self).position() >= old(self).entries().len() {
                r matches Ok(None)
            } else {
                match r {
                    Ok(Some(k)) => decode(
                        old(self).entries()[old(self).position() as int].0,
                        *seed,
                    ) == Ok::<NativeView, ErrorView>(k@),
                    Ok(None) => false,
                    Err(e) => decode(old(self).entries()[old(self).position() as int].0, *seed)
                        == Err::<NativeView, ErrorView>(e@),
                }
            },
        decreases old(self).source(), 0nat, seed,
    {
        match self.next_key() {
            None => Ok(None),
            Some(k) => match from_value(k, seed) {
                Ok(key) => Ok(Some(key)),
                Err(e) => Err(e),
            },
        }
    }

    /// The value of the next property, read as `seed` says. The cursor moves
    /// past the property whether the value can be read or not. Past the last
    /// property there is no value to take.
    pub fn next_value_seed(&mut self, seed: &Shape) -> (r: Result<Native, Error>)
        ensures
            final(self).entries() == old(self).entries(),
            final(self).source() == old(self).source(),
            if old(self).position() >= old(self).entries().len() {
                &&& r matches Err(e) && e@ == ErrorView::ArrayIndexOutOfBounds(
                    old(self).entries().len() as usize,
                    old(self).position() as usize,
                )
                &&& final(self).position() == old(self).position()
            } else {
                &&& final(self).position() == old(self).position() + 1
                &&& viewed(r) == decode(
                    value_at(old(self).entries(), old(self).position() as int),
                    *seed,
                )
            },
        decreases old(self).source(), 0nat, seed,
    {
        match self.next_value() {
            Err(e) => Err(e),
            Ok(v) => from_value(v, seed),
        }
    }
}

impl<'a> JsVariantAccess<'a> {
    /// The payload of a newtype variant, read as `seed` says.
    pub fn newtype_variant_seed(self, seed: &Shape) -> (r: Result<Native, Error>)
        ensures
            viewed(r) == match newtype_payload_of(self.payload()) {
                Ok(p) => decode(p, *seed),
                Err(e) => Err(e),
            },
    {
        match self.newtype_variant() {
            Ok(present) => from_value(present.input(), seed),
            Err(e) => Err(e),
        }
    }

    /// The fields of a tuple variant, each read as the shape of its place
    /// says.
    pub fn tuple_variant(self, _len: usize, visitor: &Vec<Shape>) -> (r: Result<Vec<Native>, Error>)
        ensures
            match r {
                Ok(values) => tuple_payload_of(self.payload()) matches Ok(items) && decode_tuple(
                    items,
                    visitor@,
                    visitor@.len(),
                ) == Ok::<Seq<NativeView>, ErrorView>(native_views(values@)),
                Err(e) => match tuple_payload_of(self.payload()) {
                    Ok(items) => decode_tuple(items, visitor@, visitor@.len()) == Err::<
                        Seq<NativeView>,
                        ErrorView,
                    >(e@),
                    Err(cause) => cause == e@,
                },
            },
    {
        match self.tuple_variant_access() {
            Ok(access) => visit_tuple(access, visitor),
            Err(e) => Err(e),
        }
    }

    /// The fields of a struct variant, each read from the property of its
    /// name.
    pub fn struct_variant(self, _fields: &[&str], visitor: &Vec<(String, Shape)>) -> (r: Result<
        Vec<(String, Native)>,
        Error,
    >)
        ensures
            match r {
                Ok(values) => struct_payload_of(self.payload()) matches Ok(entries)
                    && decode_fields(entries, visitor@) == Ok::<
                    Seq<(Seq<char>, NativeView)>,
                    ErrorView,
                >(field_views(values@)),
                Err(e) => match struct_payload_of(self.payload()) {
                    Ok(entries) => decode_fields(entries, visitor@) == Err::<
                        Seq<(Seq<char>, NativeView)>,
                        ErrorView,
                    >(e@),
                    Err(cause) => cause == e@,
                },
            },
    {
        match self.struct_variant_access() {
            Ok(access) => visit_struct(access, visitor),
            Err(e) => Err(e),
        }
    }
}

} // verus!
