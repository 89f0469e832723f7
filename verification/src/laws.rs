//! What holds of the bridge as a whole: how enums are written and read, in
//! which order cursors give what they walk, what an option is on either
//! side, and where the reading of characters, numbers and booleans has its
//! bounds.

use crate::de::{
    decode, decode_entries, decode_items, is_absent, property_count_text, value_at, variant_of,
};
use crate::errors::{CastError, ErrorView};
use crate::native::{NativeView, Shape, VariantShape};
use crate::number::Double;
use crate::ser::encode;
use crate::value::HostView;
use vstd::prelude::*;

verus! {

/// A variant without payload is written as the string of its name. Any other
/// variant is written as an object with exactly one property, whose key is
/// the name of the variant and whose value is the payload: what the wrapped
/// value is written as, an array of the fields, or an object of them.
pub proof fn lemma_enum_encoding(limit: usize, v: NativeView)
    ensures
        v matches NativeView::UnitVariant(tag) ==> (encode(limit, v) matches Ok(h) ==> h
            == HostView::String(tag)),
        v matches NativeView::NewtypeVariant(tag, inner) ==> (encode(limit, v) matches Ok(h) ==> {
            &&& h matches HostView::Object(properties)
            &&& properties.len() == 1
            &&& properties[0].0 == HostView::String(tag)
            &&& encode(limit, *inner) == Ok::<HostView, ErrorView>(properties[0].1)
        }),
        v matches NativeView::TupleVariant(tag, items) ==> (encode(limit, v) matches Ok(h) ==> {
            &&& h matches HostView::Object(properties)
            &&& properties.len() == 1
            &&& properties[0].0 == HostView::String(tag)
            &&& properties[0].1 is Array
        }),
        v matches NativeView::StructVariant(tag, fields) ==> (encode(limit, v) matches Ok(h) ==> {
            &&& h matches HostView::Object(properties)
            &&& properties.len() == 1
            &&& properties[0].0 == HostView::String(tag)
            &&& properties[0].1 is Object
        }),
{
}

/// An object that has no property, or more than one, names no variant: read
/// as an enum it fails with `InvalidKeyType`, which tells the number of its
/// properties.
pub proof fn lemma_enum_needs_one_property(
    entries: Seq<(HostView, HostView)>,
    variants: Vec<(String, VariantShape)>,
)
    requires
        entries.len() != 1,
    ensures
        variant_of(HostView::Object(entries)) == Err::<(Seq<char>, Option<HostView>), ErrorView>(
            ErrorView::InvalidKeyType(property_count_text(entries.len())),
        ),
        decode(HostView::Object(entries), Shape::Enum(variants)) == Err::<NativeView, ErrorView>(
            ErrorView::InvalidKeyType(property_count_text(entries.len())),
        ),
{
}

/// A sequence that can be read holds one value for each item of the array,
/// in the order of the array: the value at each place is what the item at
/// that place is read as.
pub proof fn lemma_sequence_in_order(items: Seq<HostView>, elem: Shape, n: nat)
    requires
        n <= items.len(),
        decode_items(items, elem, n) is Ok,
    ensures
        decode_items(items, elem, n)->Ok_0.len() == n,
        forall|i: int|
            0 <= i < n ==> decode(#[trigger] items[i], elem) == Ok::<NativeView, ErrorView>(
                decode_items(items, elem, n)->Ok_0[i],
            ),
    decreases n,
{
    if n > 0 {
        lemma_sequence_in_order(items, elem, (n - 1) as nat);
    }
}

/// A map that can be read holds one entry for each property of the object,
/// in the order in which the object gives its keys: the key of each entry is
/// what the key at that place is read as, and its value is what the object
/// holds under that key.
pub proof fn lemma_map_pairing(
    entries: Seq<(HostView, HostView)>,
    key: Shape,
    value: Shape,
    n: nat,
)
    requires
        n <= entries.len(),
        decode_entries(entries, key, value, n) is Ok,
    ensures
        decode_entries(entries, key, value, n)->Ok_0.len() == n,
        forall|i: int|
            0 <= i < n ==> {
                &&& decode((#[trigger] entries[i]).0, key) == Ok::<NativeView, ErrorView>(
                    decode_entries(entries, key, value, n)->Ok_0[i].0,
                )
                &&& decode(value_at(entries, i), value) == Ok::<NativeView, ErrorView>(
                    decode_entries(entries, key, value, n)->Ok_0[i].1,
                )
            },
    decreases n,
{
    if n > 0 {
        lemma_map_pairing(entries, key, value, (n - 1) as nat);
    }
}

/// An option without a value is written as null. Null and undefined alike
/// are read as an option without a value, whatever the option holds, and as
/// the unit.
pub proof fn lemma_option_asymmetry(limit: usize, h: HostView, inner: Shape)
    requires
        is_absent(h),
    ensures
        encode(limit, NativeView::Absent) == Ok::<HostView, ErrorView>(HostView::Null),
        decode(h, Shape::Optional(Box::new(inner))) == Ok::<NativeView, ErrorView>(
            NativeView::Absent,
        ),
        decode(h, Shape::Unit) == Ok::<NativeView, ErrorView>(NativeView::Unit),
{
}

/// A string is read as a character exactly when it holds one. An empty string
/// is reported as such, and a longer one with the number of characters it has
/// too many.
pub proof fn lemma_char_boundary(s: Seq<char>)
    ensures
        s.len() == 0 ==> decode(HostView::String(s), Shape::Char) == Err::<NativeView, ErrorView>(
            ErrorView::EmptyString,
        ),
        s.len() == 1 ==> decode(HostView::String(s), Shape::Char) == Ok::<NativeView, ErrorView>(
            NativeView::Char(s[0]),
        ),
        s.len() > 1 ==> decode(HostView::String(s), Shape::Char) == Err::<NativeView, ErrorView>(
            ErrorView::StringTooLongForChar((s.len() - 1) as usize),
        ),
{
}

/// A number is read as an integer of 8 bits without sign exactly when it is a
/// whole number from 0 to 255, and as one of 32 bits with sign exactly when it
/// is a whole number of that range. What lies above fails as an overflow, and
/// what lies below as an underflow.
pub proof fn lemma_narrowing_boundary(d: Double, k: int)
    requires
        d.integer() == Some(k),
    ensures
        0 <= k <= u8::MAX ==> decode(HostView::Number(d), Shape::U8) == Ok::<
            NativeView,
            ErrorView,
        >(NativeView::U8(k as u8)),
        k > u8::MAX ==> decode(HostView::Number(d), Shape::U8) == Err::<NativeView, ErrorView>(
            ErrorView::NumberCastError(CastError::Overflow),
        ),
        k < 0 ==> decode(HostView::Number(d), Shape::U8) == Err::<NativeView, ErrorView>(
            ErrorView::NumberCastError(CastError::Underflow),
        ),
        i32::MIN <= k <= i32::MAX ==> decode(HostView::Number(d), Shape::I32) == Ok::<
            NativeView,
            ErrorView,
        >(NativeView::I32(k as i32)),
        k > i32::MAX ==> decode(HostView::Number(d), Shape::I32) == Err::<NativeView, ErrorView>(
            ErrorView::NumberCastError(CastError::Overflow),
        ),
        k < i32::MIN ==> decode(HostView::Number(d), Shape::I32) == Err::<NativeView, ErrorView>(
            ErrorView::NumberCastError(CastError::Underflow),
        ),
{
}

/// Every double is read as a double as it is, bit for bit.
pub proof fn lemma_double_reads_exactly(d: Double)
    ensures
        decode(HostView::Number(d), Shape::F64) == Ok::<NativeView, ErrorView>(NativeView::F64(d)),
{
}

/// Null and undefined are read as false, a boolean as itself, and a number as
/// true unless it is zero. Nothing else is read as a boolean.
pub proof fn lemma_boolean_coercion(h: HostView)
    ensures
        is_absent(h) ==> decode(h, Shape::Bool) == Ok::<NativeView, ErrorView>(
            NativeView::Bool(false),
        ),
        h matches HostView::Boolean(b) ==> decode(h, Shape::Bool) == Ok::<NativeView, ErrorView>(
            NativeView::Bool(b),
        ),
        h matches HostView::Number(d) ==> decode(h, Shape::Bool) == Ok::<NativeView, ErrorView>(
            NativeView::Bool(!d.is_zero()),
        ),
        h matches HostView::Integer(i) ==> decode(h, Shape::Bool) == Ok::<NativeView, ErrorView>(
            NativeView::Bool(i != 0),
        ),
        !is_absent(h) && !(h is Boolean) && !(h is Number) && !(h is Integer) ==> decode(
            h,
            Shape::Bool,
        ) == Err::<NativeView, ErrorView>(ErrorView::UnableToCoerce("bool"@)),
{
}

} // verus!
