use neon_serde::de::{Deserializer, JsArrayAccess, JsEnumAccess, JsObjectAccess, JsVariantAccess};
use neon_serde::errors::{CastError, Error};
use neon_serde::native::{Native, Shape, VariantShape};
use neon_serde::number::Double;
use neon_serde::ser::{
    ArraySerializer, MapSerializer, Serializer, StructSerializer, StructVariantSerializer,
    TupleVariantSerializer,
};
use neon_serde::text::{decimal_string, signed_decimal_string};
use neon_serde::value::{
    copy_bytes, find_property, get_property, set_property, Context, HostValue, Tag,
};

fn number(x: f64) -> HostValue {
    HostValue::Number(Double::from_bits(x.to_bits()))
}

fn string(s: &str) -> HostValue {
    HostValue::String(s.to_string())
}

#[test]
fn messages_say_what_was_found() {
    assert_eq!(Error::StringTooLong(12).message(), "String too long for nodejs len: 12");
    assert_eq!(Error::UnableToCoerce("bool").message(), "Unable to coerce value to type: bool");
    assert_eq!(Error::EmptyString.message(), "EmptyString");
    assert_eq!(
        Error::StringTooLongForChar(3).message(),
        "String too long to be a char expected len: 1 got len: 3"
    );
    assert_eq!(Error::ExpectingNull.message(), "ExpectingNull");
    assert_eq!(Error::InvalidKeyType("7".to_string()).message(), "key: '7'");
    assert_eq!(
        Error::ArrayIndexOutOfBounds(3, 5).message(),
        "ArrayIndexOutOfBounds: attempt to access (5) size: (3)"
    );
    assert_eq!(Error::NotImplemented("thing").message(), "Not Implemented: 'thing'");
    assert_eq!(Error::Js.message(), "JavaScript Error");
    assert_eq!(
        Error::NumberCastError(CastError::Overflow).message(),
        "Overflow during numeric conversion"
    );
    assert_eq!(
        Error::NumberCastError(CastError::Underflow).message(),
        "Underflow during numeric conversion"
    );
    assert_eq!(
        Error::NumberCastError(CastError::Infinite).message(),
        "Cannot store infinite value in finite type"
    );
    assert_eq!(
        Error::NumberCastError(CastError::NaN).message(),
        "Cannot store NaN in type which does not support it"
    );
    assert_eq!(
        Error::NumberCastError(CastError::Inexact).message(),
        "Cannot store a fractional value in an integer type"
    );
    assert_eq!(Error::Msg("as given".to_string()).message(), "as given");
    assert_eq!(Error::custom("made up"), Error::Msg("made up".to_string()));
    assert_eq!(CastError::Overflow.message(), "Overflow during numeric conversion");
}

#[test]
fn whole_numbers_in_decimal() {
    assert_eq!(decimal_string(0), "0");
    assert_eq!(decimal_string(9), "9");
    assert_eq!(decimal_string(10), "10");
    assert_eq!(decimal_string(1234567890), "1234567890");
    assert_eq!(decimal_string(u64::MAX), "18446744073709551615");
    assert_eq!(signed_decimal_string(0), "0");
    assert_eq!(signed_decimal_string(-1), "-1");
    assert_eq!(signed_decimal_string(i64::MAX), "9223372036854775807");
    assert_eq!(signed_decimal_string(i64::MIN), "-9223372036854775808");
    for n in [7u64, 70, 705, 9999, 10000, 123456789012] {
        assert_eq!(decimal_string(n), n.to_string());
        assert_eq!(signed_decimal_string(-(n as i64)), (-(n as i64)).to_string());
    }
}

#[test]
fn doubles_are_taken_apart_bit_by_bit() {
    let d = |x: f64| Double::from_bits(x.to_bits());
    assert_eq!(d(255.0).to_u8(), Ok(255));
    assert_eq!(d(256.0).to_u8(), Err(CastError::Overflow));
    assert_eq!(d(-1.0).to_u8(), Err(CastError::Underflow));
    assert_eq!(d(0.5).to_u8(), Err(CastError::Inexact));
    assert_eq!(d(-128.0).to_i8(), Ok(-128));
    assert_eq!(d(-129.0).to_i8(), Err(CastError::Underflow));
    assert_eq!(d(128.0).to_i8(), Err(CastError::Overflow));
    assert_eq!(d(32767.0).to_i16(), Ok(i16::MAX));
    assert_eq!(d(65536.0).to_u16(), Err(CastError::Overflow));
    assert_eq!(d(4294967296.0).to_u32(), Err(CastError::Overflow));
    assert_eq!(d(-2147483648.0).to_i32(), Ok(i32::MIN));
    assert_eq!(d(9007199254740993.0).to_i64(), Ok(9007199254740992));
    assert_eq!(d(-9223372036854775808.0).to_i64(), Ok(i64::MIN));
    assert_eq!(d(9223372036854775808.0).to_i64(), Err(CastError::Overflow));
    assert_eq!(d(18446744073709549568.0).to_u64(), Ok(18446744073709549568));
    assert_eq!(d(f64::NAN).to_u64(), Err(CastError::NaN));
    assert_eq!(d(f64::INFINITY).to_u64(), Err(CastError::Infinite));
    assert!(d(1.0).is_nonzero());
    assert!(d(f64::NAN).is_nonzero());
    assert!(!d(0.0).is_nonzero());
    assert!(!d(-0.0).is_nonzero());
    assert!(d(1e300).has_no_fraction());
    assert!(d(f64::INFINITY).has_no_fraction());
    assert!(!d(f64::NAN).has_no_fraction());
    assert!(!d(0.25).has_no_fraction());
    assert_eq!(Double::from_u64(1).to_bits(), 0x3ff0_0000_0000_0000);
    assert_eq!(Double::from_i64(-2).to_bits(), 0xc000_0000_0000_0000);
    assert_eq!(Double::from_u64(0).to_bits(), 0);
    let mut x: u64 = 0x9e37_79b9_7f4a_7c15;
    for _ in 0..2000 {
        x ^= x << 13;
        x ^= x >> 7;
        x ^= x << 17;
        let wide = x >> (x % 64);
        assert_eq!(Double::from_u64(wide).to_bits(), (wide as f64).to_bits());
        let back = Double::from_u64(wide).to_u64();
        if wide as f64 == 18446744073709551616.0 {
            assert_eq!(back, Err(CastError::Overflow));
        } else {
            assert_eq!(back, Ok(wide as f64 as u64));
        }
        let signed = x as i64 >> (x % 64);
        assert_eq!(Double::from_i64(signed).to_bits(), (signed as f64).to_bits());
        let whole = f64::from_bits(x);
        if whole.is_finite() && whole.fract() == 0.0 && whole.abs() < 9.0e18 {
            assert_eq!(d(whole).to_i64(), Ok(whole as i64));
        }
        if whole.is_finite() && whole.fract() != 0.0 {
            assert_eq!(d(whole).to_i64(), Err(CastError::Inexact));
        }
    }
}

#[test]
fn kinds_of_host_values() {
    assert_eq!(HostValue::Null.tag(), Tag::Null);
    assert_eq!(HostValue::Undefined.tag(), Tag::Undefined);
    assert_eq!(HostValue::Boolean(true).tag(), Tag::Boolean);
    assert_eq!(HostValue::Integer(1).tag(), Tag::Integer);
    assert_eq!(number(1.0).tag(), Tag::Number);
    assert_eq!(string("s").tag(), Tag::String);
    assert_eq!(HostValue::Array(vec![]).tag(), Tag::Array);
    assert_eq!(HostValue::Object(vec![]).tag(), Tag::Object);
    assert_eq!(HostValue::Buffer(vec![]).tag(), Tag::Buffer);
    assert_eq!(HostValue::Function.tag(), Tag::Function);
    assert_eq!(HostValue::Other.tag(), Tag::Other);
}

#[test]
fn properties_are_found_by_key() {
    let mut entries: Vec<(HostValue, HostValue)> = Vec::new();
    set_property(&mut entries, string("a"), number(1.0));
    set_property(&mut entries, number(2.0), number(2.0));
    set_property(&mut entries, string("a"), number(3.0));
    assert_eq!(entries, vec![(string("a"), number(3.0)), (number(2.0), number(2.0))]);
    assert_eq!(find_property(&entries, &string("a")), Some(0));
    assert_eq!(find_property(&entries, &number(2.0)), Some(1));
    assert_eq!(find_property(&entries, &string("2")), None);
    assert_eq!(get_property(&entries, &number(2.0)), Some(&number(2.0)));
    assert_eq!(get_property(&entries, &HostValue::Null), None);
    assert_eq!(copy_bytes(&[1, 2, 3]), vec![1, 2, 3]);
}

#[test]
fn arrays_are_built_item_by_item() {
    let cx = Context::new();
    let mut builder = ArraySerializer::new(&cx);
    builder.serialize_element(&Native::U8(1)).unwrap();
    builder.serialize_field(&Native::Str("two".to_string())).unwrap();
    builder.append(HostValue::Null);
    assert_eq!(
        builder.end(),
        Ok(HostValue::Array(vec![number(1.0), string("two"), HostValue::Null]))
    );
    let tiny = Context { max_string_length: 2 };
    let mut builder = Serializer::new(&tiny).serialize_tuple(2).unwrap();
    builder.serialize_element(&Native::Bool(true)).unwrap();
    assert_eq!(
        builder.serialize_element(&Native::Str("long".to_string())),
        Err(Error::StringTooLong(4))
    );
    assert_eq!(builder.end(), Ok(HostValue::Array(vec![HostValue::Boolean(true)])));
    let builder = Serializer::new(&cx).serialize_tuple_struct("Pair", 0).unwrap();
    assert_eq!(builder.end(), Ok(HostValue::Array(vec![])));
}

#[test]
fn maps_are_built_key_then_value() {
    let cx = Context::new();
    let mut builder = MapSerializer::new(&cx);
    builder.serialize_value(&Native::U8(0)).unwrap();
    builder.serialize_key(&Native::Str("k".to_string())).unwrap();
    builder.serialize_value(&Native::U8(1)).unwrap();
    builder.serialize_value(&Native::U8(2)).unwrap();
    builder.hold_key(HostValue::Boolean(true));
    builder.set_value(HostValue::Null);
    assert_eq!(
        builder.end(),
        Ok(HostValue::Object(vec![
            (HostValue::Undefined, number(0.0)),
            (string("k"), number(2.0)),
            (HostValue::Boolean(true), HostValue::Null),
        ]))
    );
    let tiny = Context { max_string_length: 1 };
    let mut builder = Serializer::new(&tiny).serialize_map(None).unwrap();
    assert_eq!(
        builder.serialize_key(&Native::Str("ab".to_string())),
        Err(Error::StringTooLong(2))
    );
    assert_eq!(
        builder.serialize_value(&Native::Str("ab".to_string())),
        Err(Error::StringTooLong(2))
    );
    assert_eq!(builder.end(), Ok(HostValue::Object(vec![])));
}

#[test]
fn structs_are_built_field_by_field() {
    let cx = Context::new();
    let mut builder = StructSerializer::new(&cx);
    builder.serialize_field("a", &Native::U8(1)).unwrap();
    builder.serialize_field("b", &Native::Absent).unwrap();
    builder.serialize_field("a", &Native::U8(3)).unwrap();
    builder.set_field("c", HostValue::Undefined).unwrap();
    assert_eq!(
        builder.end(),
        Ok(HostValue::Object(vec![
            (string("a"), number(3.0)),
            (string("b"), HostValue::Null),
            (string("c"), HostValue::Undefined),
        ]))
    );
    let tiny = Context { max_string_length: 1 };
    let mut builder = Serializer::new(&tiny).serialize_struct("S", 1).unwrap();
    assert_eq!(builder.serialize_field("ab", &Native::Unit), Err(Error::Js));
    assert_eq!(
        builder.serialize_field("ab", &Native::Str("cd".to_string())),
        Err(Error::StringTooLong(2))
    );
    assert_eq!(builder.set_field("ab", HostValue::Null), Err(Error::Js));
    assert_eq!(builder.end(), Ok(HostValue::Object(vec![])));
}

#[test]
fn variants_are_built_inside_one_property() {
    let cx = Context::new();
    let mut builder = TupleVariantSerializer::new(&cx, "T").unwrap();
    builder.serialize_field(&Native::I8(-1)).unwrap();
    builder.append(HostValue::Boolean(true));
    assert_eq!(
        builder.end(),
        Ok(HostValue::Object(vec![(
            string("T"),
            HostValue::Array(vec![number(-1.0), HostValue::Boolean(true)])
        )]))
    );
    let mut builder = StructVariantSerializer::new(&cx, "S").unwrap();
    builder.serialize_field("x", &Native::I8(-1)).unwrap();
    builder.set_field("y", HostValue::Null).unwrap();
    assert_eq!(
        builder.end(),
        Ok(HostValue::Object(vec![(
            string("S"),
            HostValue::Object(vec![(string("x"), number(-1.0)), (string("y"), HostValue::Null)])
        )]))
    );
    let tiny = Context { max_string_length: 1 };
    assert!(matches!(TupleVariantSerializer::new(&tiny, "TT"), Err(Error::Js)));
    assert!(matches!(StructVariantSerializer::new(&tiny, "SS"), Err(Error::Js)));
    assert!(matches!(
        Serializer::new(&tiny).serialize_tuple_variant("E", 0, "TT", 0),
        Err(Error::Js)
    ));
    assert!(matches!(
        Serializer::new(&tiny).serialize_struct_variant("E", 0, "SS", 0),
        Err(Error::Js)
    ));
    let writer = Serializer::new(&cx);
    assert_eq!(writer.serialize_unit_struct("U"), Ok(HostValue::Null));
    assert_eq!(writer.serialize_newtype_struct("N", &Native::U8(4)), Ok(number(4.0)));
    assert_eq!(
        writer.serialize_newtype_variant("E", 1, "V", &Native::U8(4)),
        Ok(HostValue::Object(vec![(string("V"), number(4.0))]))
    );
    assert_eq!(writer.serialize_unit_variant("E", 0, "V"), Ok(string("V")));
    assert_eq!(writer.serialize_some(&Native::Unit), Ok(HostValue::Null));
    assert_eq!(writer.serialize_f64(Double::from_bits(1.5f64.to_bits())), Ok(number(1.5)));
}

#[test]
fn cursors_step_one_value_at_a_time() {
    let items = vec![number(1.0), string("x")];
    let mut access = JsArrayAccess::new(&items);
    assert_eq!(access.next(), Some(&number(1.0)));
    assert_eq!(access.next(), Some(&string("x")));
    assert_eq!(access.next(), None);
    assert_eq!(access.next(), None);
    let entries = vec![(string("a"), number(1.0)), (string("b"), number(2.0))];
    let mut access = JsObjectAccess::new(&entries);
    assert_eq!(access.next_key(), Some(&string("a")));
    assert_eq!(access.next_value(), Ok(&number(1.0)));
    assert_eq!(access.next_value(), Ok(&number(2.0)));
    assert_eq!(access.next_key(), None);
    assert_eq!(access.next_value(), Err(Error::ArrayIndexOutOfBounds(2, 2)));
    let empty: Vec<(HostValue, HostValue)> = Vec::new();
    let mut access = JsObjectAccess::new(&empty);
    assert_eq!(access.next_key(), None);
    assert_eq!(access.next_value(), Err(Error::ArrayIndexOutOfBounds(0, 0)));
}

#[test]
fn variants_are_resolved_by_name() {
    let variants = vec![
        ("A".to_string(), VariantShape::Unit),
        ("B".to_string(), VariantShape::Newtype(Box::new(Shape::U8))),
        ("A".to_string(), VariantShape::Newtype(Box::new(Shape::U8))),
    ];
    let host = string("A");
    let access = Deserializer::new(&host).deserialize_enum().unwrap();
    let (index, payload) = access.variant_seed(&variants).unwrap();
    assert_eq!(index, 0);
    assert_eq!(payload.unit_variant(), Ok(()));
    let access = JsEnumAccess::new("B".to_string(), None);
    let (index, payload) = access.variant_seed(&variants).unwrap();
    assert_eq!(index, 1);
    assert_eq!(
        payload.newtype_variant_seed(&Shape::U8),
        Err(Error::Msg("invalid type: unit variant, expected newtype variant".to_string()))
    );
    let access = JsEnumAccess::new("C".to_string(), None);
    assert!(matches!(
        access.variant_seed(&variants),
        Err(Error::Msg(text)) if text == "unknown variant `C`"
    ));
    let access = JsEnumAccess::new("C".to_string(), Some(&host));
    let (name, payload) = access.variant();
    assert_eq!(name, "C");
    assert_eq!(payload.unit_variant(), Err(Error::ExpectingNull));
}

#[test]
fn payloads_are_read_as_their_kind_says() {
    let seven = number(7.0);
    assert_eq!(JsVariantAccess::new(Some(&seven)).newtype_variant_seed(&Shape::U8), Ok(Native::U8(7)));
    assert_eq!(
        JsVariantAccess::new(Some(&seven)).newtype_variant().unwrap().deserialize_u8(),
        Ok(7)
    );
    assert_eq!(JsVariantAccess::new(Some(&HostValue::Undefined)).unit_variant(), Ok(()));
    assert_eq!(JsVariantAccess::new(None).unit_variant(), Ok(()));
    let pair = HostValue::Array(vec![number(1.0), string("one")]);
    assert_eq!(
        JsVariantAccess::new(Some(&pair)).tuple_variant(2, &vec![Shape::U8, Shape::Str]),
        Ok(vec![Native::U8(1), Native::Str("one".to_string())])
    );
    assert_eq!(
        JsVariantAccess::new(Some(&seven)).tuple_variant(2, &vec![Shape::U8, Shape::Str]),
        Err(Error::Msg("invalid type: JsValue, expected tuple variant".to_string()))
    );
    assert_eq!(
        JsVariantAccess::new(None).tuple_variant(0, &vec![]),
        Err(Error::Msg("invalid type: unit variant, expected tuple variant".to_string()))
    );
    assert!(JsVariantAccess::new(Some(&pair)).tuple_variant_access().is_ok());
    let object = HostValue::Object(vec![(string("x"), number(1.0))]);
    let fields = vec![("x".to_string(), Shape::U8)];
    assert_eq!(
        JsVariantAccess::new(Some(&object)).struct_variant(&["x"], &fields),
        Ok(vec![("x".to_string(), Native::U8(1))])
    );
    assert_eq!(
        JsVariantAccess::new(Some(&pair)).struct_variant(&["x"], &fields),
        Err(Error::Msg("invalid type: JsValue, expected struct variant".to_string()))
    );
    assert_eq!(
        JsVariantAccess::new(None).struct_variant(&["x"], &fields),
        Err(Error::Msg("invalid type: unit variant, expected struct variant".to_string()))
    );
    assert!(JsVariantAccess::new(Some(&object)).struct_variant_access().is_ok());
}

#[test]
fn readers_answer_for_one_value() {
    let host = number(300.0);
    let de = Deserializer::new(&host);
    assert_eq!(de.input(), &host);
    assert_eq!(de.deserialize_u8(), Err(Error::NumberCastError(CastError::Overflow)));
    assert_eq!(de.deserialize_u16(), Ok(300));
    assert_eq!(de.deserialize_i16(), Ok(300));
    assert_eq!(de.deserialize_i8(), Err(Error::NumberCastError(CastError::Overflow)));
    assert_eq!(de.deserialize_i32(), Ok(300));
    assert_eq!(de.deserialize_u32(), Ok(300));
    assert_eq!(de.deserialize_i64(), Ok(300));
    assert_eq!(de.deserialize_u64(), Ok(300));
    assert_eq!(de.deserialize_f64(), Ok(Double::from_bits(300f64.to_bits())));
    assert_eq!(de.deserialize_bool(), Ok(true));
    assert_eq!(de.deserialize_identifier(), Ok("300".to_string()));
    assert_eq!(de.deserialize_string(), Err(Error::Js));
    assert_eq!(de.deserialize_char(), Err(Error::Js));
    assert_eq!(de.deserialize_unit(), Err(Error::ExpectingNull));
    assert_eq!(de.deserialize_str(), Err(Error::Js));
    assert_eq!(de.deserialize_unit_struct(), Err(Error::ExpectingNull));
    assert_eq!(de.deserialize_newtype_struct().deserialize_u16(), Ok(300));
    assert!(de.deserialize_seq().is_err());
    assert!(de.deserialize_tuple().is_err());
    assert!(de.deserialize_tuple_struct().is_err());
    assert!(de.deserialize_map().is_err());
    assert!(de.deserialize_struct().is_err());
    let name = string("n");
    assert_eq!(Deserializer::new(&name).deserialize_str(), Ok("n".to_string()));
    let pair = HostValue::Array(vec![number(1.0), number(2.0)]);
    let mut access = Deserializer::new(&pair).deserialize_tuple().unwrap();
    assert_eq!(access.next(), Some(&number(1.0)));
    let mut access = Deserializer::new(&pair).deserialize_tuple_struct().unwrap();
    assert_eq!(access.next(), Some(&number(1.0)));
    let object = HostValue::Object(vec![(string("k"), number(2.0))]);
    let mut access = Deserializer::new(&object).deserialize_struct().unwrap();
    assert_eq!(access.next_key(), Some(&string("k")));
    assert!(de.deserialize_option().is_some());
    assert!(Deserializer::new(&HostValue::Null).deserialize_option().is_none());
    assert!(Deserializer::new(&HostValue::Undefined).deserialize_option().is_none());
    de.deserialize_ignored_any();
}

#[test]
fn bytes_are_copied_into_a_buffer() {
    let cx = Context::new();
    let writer = Serializer::new(&cx);
    assert_eq!(writer.serialize_bytes(&[1, 2, 3]), Ok(HostValue::Buffer(vec![1, 2, 3])));
    assert_eq!(writer.serialize_bytes(&[]), Ok(HostValue::Buffer(vec![])));
    assert_eq!(
        writer.newtype_variant_value("V", HostValue::Null),
        Ok(HostValue::Object(vec![(string("V"), HostValue::Null)]))
    );
}
