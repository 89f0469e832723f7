use neon_serde::de::{Deserializer, Visit};
use neon_serde::errors::{CastError, Error};
use neon_serde::native::{Native, Shape, VariantShape};
use neon_serde::number::Double;
use neon_serde::value::{Context, HostValue};
use neon_serde::{from_value, from_value_opt, to_value};

fn num(x: f64) -> HostValue {
    HostValue::Number(Double::from_bits(x.to_bits()))
}

fn text(s: &str) -> HostValue {
    HostValue::String(s.to_string())
}

fn object(entries: Vec<(&str, HostValue)>) -> HostValue {
    HostValue::Object(entries.into_iter().map(|(k, v)| (text(k), v)).collect())
}

fn type_enum() -> Shape {
    Shape::Enum(vec![
        ("Empty".to_string(), VariantShape::Unit),
        ("Tuple".to_string(), VariantShape::Tuple(vec![Shape::U32, Shape::Str])),
        (
            "Struct".to_string(),
            VariantShape::Struct(vec![
                ("a".to_string(), Shape::U8),
                ("b".to_string(), Shape::Sequence(Box::new(Shape::U8))),
            ]),
        ),
        ("Value".to_string(), VariantShape::Newtype(Box::new(Shape::Sequence(Box::new(Shape::Char))))),
    ])
}

fn an_object_two_shape() -> Shape {
    Shape::Struct(vec![
        ("a".to_string(), Shape::U32),
        ("b".to_string(), Shape::Sequence(Box::new(Shape::I64))),
        ("c".to_string(), Shape::Str),
        ("d".to_string(), Shape::Optional(Box::new(Shape::Bool))),
        ("e".to_string(), Shape::Optional(Box::new(Shape::Bool))),
        ("f".to_string(), Shape::Unit),
        ("g".to_string(), Shape::Tuple(vec![Shape::I32, Shape::Bool, Shape::Str])),
        ("h".to_string(), Shape::Char),
        ("i".to_string(), type_enum()),
        ("j".to_string(), type_enum()),
        ("k".to_string(), type_enum()),
        ("l".to_string(), Shape::Str),
        ("m".to_string(), Shape::Sequence(Box::new(Shape::U8))),
        ("o".to_string(), type_enum()),
        ("p".to_string(), Shape::Sequence(Box::new(Shape::F64))),
    ])
}

fn double(x: f64) -> Native {
    Native::F64(Double::from_bits(x.to_bits()))
}

fn an_object_two() -> Native {
    Native::Struct(vec![
        ("a".to_string(), Native::U32(1)),
        ("b".to_string(), Native::Sequence(vec![Native::I64(1), Native::I64(2)])),
        ("c".to_string(), Native::Str("abc".to_string())),
        ("d".to_string(), Native::Present(Box::new(Native::Bool(false)))),
        ("e".to_string(), Native::Absent),
        ("f".to_string(), Native::Unit),
        (
            "g".to_string(),
            Native::Sequence(vec![
                Native::I32(9),
                Native::Bool(false),
                Native::Str("efg".to_string()),
            ]),
        ),
        ("h".to_string(), Native::Char('🤷')),
        ("i".to_string(), Native::UnitVariant("Empty".to_string())),
        (
            "j".to_string(),
            Native::TupleVariant(
                "Tuple".to_string(),
                vec![Native::U32(27), Native::Str("hij".to_string())],
            ),
        ),
        (
            "k".to_string(),
            Native::StructVariant(
                "Struct".to_string(),
                vec![
                    ("a".to_string(), Native::U8(128)),
                    (
                        "b".to_string(),
                        Native::Sequence(vec![Native::U8(9), Native::U8(8), Native::U8(7)]),
                    ),
                ],
            ),
        ),
        ("l".to_string(), Native::Str("jkl".to_string())),
        (
            "m".to_string(),
            Native::Sequence(vec![
                Native::U8(0),
                Native::U8(1),
                Native::U8(2),
                Native::U8(3),
                Native::U8(4),
            ]),
        ),
        (
            "o".to_string(),
            Native::NewtypeVariant(
                "Value".to_string(),
                Box::new(Native::Sequence(vec![
                    Native::Char('z'),
                    Native::Char('y'),
                    Native::Char('x'),
                ])),
            ),
        ),
        ("p".to_string(), Native::Sequence(vec![double(1.0), double(2.0), double(3.5)])),
    ])
}

#[test]
fn test_it_compiles() {
    let check = |cx: &Context, arg: &HostValue| -> Result<HostValue, Error> {
        let result = from_value(arg, &Shape::Unit)?;
        let result = to_value(cx, &result)?;
        Ok(result)
    };
    let _ = check;
}

#[test]
fn test_it_compiles_2() {
    let check = |cx: &Context, arg: Option<&HostValue>| -> Result<HostValue, Error> {
        let result = from_value_opt(arg, &Shape::Unit)?;
        let result = to_value(cx, &result)?;
        Ok(result)
    };
    let _ = check;
}

#[test]
fn unit_round_trip_through_both_entry_points() {
    let cx = Context::new();
    let unit = from_value(&HostValue::Null, &Shape::Unit).unwrap();
    assert_eq!(unit, Native::Unit);
    assert_eq!(to_value(&cx, &unit).unwrap(), HostValue::Null);
    let missing = from_value_opt(None, &Shape::Unit).unwrap();
    assert_eq!(missing, Native::Unit);
    let given = from_value_opt(Some(&num(7.0)), &Shape::U8).unwrap();
    assert_eq!(given, Native::U8(7));
    assert_eq!(from_value_opt(None, &Shape::U8), Err(Error::Js));
}

#[test]
fn numbers_are_written_as_doubles() {
    let cx = Context::new();
    assert_eq!(to_value(&cx, &Native::I32(77)).unwrap(), num(77.0));
    assert_eq!(to_value(&cx, &Native::U8(32)).unwrap(), num(32.0));
    assert_eq!(to_value(&cx, &Native::I8(-128)).unwrap(), num(-128.0));
    assert_eq!(to_value(&cx, &Native::I64(i64::MIN)).unwrap(), num(i64::MIN as f64));
    assert_eq!(to_value(&cx, &Native::U64(u64::MAX)).unwrap(), num(u64::MAX as f64));
    assert_eq!(to_value(&cx, &Native::U64(0)).unwrap(), num(0.0));
    assert_eq!(to_value(&cx, &double(0.1)).unwrap(), num(0.1));
}

#[test]
fn widening_agrees_with_the_machine() {
    let mut samples: Vec<u64> = vec![0, 1, 2, 3, 255, 256, 65535, 1 << 31, u32::MAX as u64];
    for shift in 50..64u32 {
        let base = 1u64 << shift;
        for delta in 0..40u64 {
            samples.push(base.wrapping_add(delta));
            samples.push(base.wrapping_sub(delta));
            samples.push(base.wrapping_add(delta << (shift - 50)));
            samples.push(base + (base >> 1) + delta);
        }
    }
    samples.push(u64::MAX);
    samples.push(u64::MAX - 1023);
    samples.push(u64::MAX - 1024);
    samples.push((1 << 53) + 1);
    samples.push((1 << 53) + 2);
    samples.push((1 << 53) + 3);
    samples.push((1 << 54) + 2);
    samples.push((1 << 54) + 6);
    for n in samples {
        assert_eq!(Double::from_u64(n).to_bits(), (n as f64).to_bits(), "{}", n);
        let k = n as i64;
        assert_eq!(Double::from_i64(k).to_bits(), (k as f64).to_bits(), "{}", k);
        let k = (n as i64).wrapping_neg();
        assert_eq!(Double::from_i64(k).to_bits(), (k as f64).to_bits(), "{}", k);
    }
    assert_eq!(Double::from_i64(i64::MIN).to_bits(), (i64::MIN as f64).to_bits());
    assert_eq!(Double::from_i64(i64::MAX).to_bits(), (i64::MAX as f64).to_bits());
}

#[test]
fn numeric_narrowing_boundary() {
    assert_eq!(from_value(&num(255.0), &Shape::U8), Ok(Native::U8(255)));
    assert_eq!(
        from_value(&num(256.0), &Shape::U8),
        Err(Error::NumberCastError(CastError::Overflow))
    );
    assert_eq!(
        from_value(&num(-1.0), &Shape::U8),
        Err(Error::NumberCastError(CastError::Underflow))
    );
    assert_eq!(
        from_value(&num(2147483648.0), &Shape::I32),
        Err(Error::NumberCastError(CastError::Overflow))
    );
    assert_eq!(from_value(&num(2147483647.0), &Shape::I32), Ok(Native::I32(i32::MAX)));
    assert_eq!(from_value(&num(-2147483648.0), &Shape::I32), Ok(Native::I32(i32::MIN)));
    assert_eq!(
        from_value(&num(-2147483649.0), &Shape::I32),
        Err(Error::NumberCastError(CastError::Underflow))
    );
    assert_eq!(from_value(&num(-128.0), &Shape::I8), Ok(Native::I8(-128)));
    assert_eq!(from_value(&num(-32768.0), &Shape::I16), Ok(Native::I16(i16::MIN)));
    assert_eq!(from_value(&num(65535.0), &Shape::U16), Ok(Native::U16(u16::MAX)));
    assert_eq!(from_value(&num(4294967295.0), &Shape::U32), Ok(Native::U32(u32::MAX)));
    assert_eq!(
        from_value(&num(3.5), &Shape::U8),
        Err(Error::NumberCastError(CastError::Inexact))
    );
    assert_eq!(
        from_value(&num(f64::NAN), &Shape::I64),
        Err(Error::NumberCastError(CastError::NaN))
    );
    assert_eq!(
        from_value(&num(f64::INFINITY), &Shape::I64),
        Err(Error::NumberCastError(CastError::Infinite))
    );
    assert_eq!(
        from_value(&num(f64::NEG_INFINITY), &Shape::U64),
        Err(Error::NumberCastError(CastError::Infinite))
    );
    assert_eq!(from_value(&num(-0.0), &Shape::U8), Ok(Native::U8(0)));
    assert_eq!(from_value(&num(5e-324), &Shape::U8), Err(Error::NumberCastError(CastError::Inexact)));
    assert_eq!(from_value(&num(i64::MIN as f64), &Shape::I64), Ok(Native::I64(i64::MIN)));
    assert_eq!(
        from_value(&num(9223372036854775808.0), &Shape::I64),
        Err(Error::NumberCastError(CastError::Overflow))
    );
    assert_eq!(
        from_value(&num(9223372036854775808.0), &Shape::U64),
        Ok(Native::U64(1 << 63))
    );
    assert_eq!(
        from_value(&num(18446744073709551616.0), &Shape::U64),
        Err(Error::NumberCastError(CastError::Overflow))
    );
    assert_eq!(
        from_value(&num(18446744073709549568.0), &Shape::U64),
        Ok(Native::U64(18446744073709549568))
    );
    assert_eq!(from_value(&num(1e300), &Shape::U64), Err(Error::NumberCastError(CastError::Overflow)));
    assert_eq!(
        from_value(&num(-1e300), &Shape::I64),
        Err(Error::NumberCastError(CastError::Underflow))
    );
    assert_eq!(from_value(&text("5"), &Shape::U8), Err(Error::Js));
    assert_eq!(from_value(&HostValue::Integer(200), &Shape::U8), Ok(Native::U8(200)));
    assert_eq!(
        from_value(&HostValue::Integer(-200), &Shape::I8),
        Err(Error::NumberCastError(CastError::Underflow))
    );
    assert_eq!(
        from_value(&HostValue::Integer(-1), &Shape::U64),
        Err(Error::NumberCastError(CastError::Underflow))
    );
}

#[test]
fn any_finite_double_reads_back_exactly() {
    for x in [0.0, -0.0, 1.5, -2.25, 1e300, 5e-324, f64::MAX, f64::MIN_POSITIVE, 0.1] {
        assert_eq!(from_value(&num(x), &Shape::F64), Ok(double(x)));
    }
    assert_eq!(from_value(&HostValue::Integer(-3), &Shape::F64), Ok(double(-3.0)));
    assert_eq!(from_value(&HostValue::Null, &Shape::F64), Err(Error::Js));
}

#[test]
fn integers_round_trip_at_their_ends() {
    let cx = Context::new();
    let cases = vec![
        (Native::I8(i8::MIN), Shape::I8),
        (Native::I8(i8::MAX), Shape::I8),
        (Native::I16(i16::MIN), Shape::I16),
        (Native::I16(i16::MAX), Shape::I16),
        (Native::I32(i32::MIN), Shape::I32),
        (Native::I32(i32::MAX), Shape::I32),
        (Native::I64(i64::MIN), Shape::I64),
        (Native::I64((1 << 53) - 1), Shape::I64),
        (Native::I64(-(1 << 53)), Shape::I64),
        (Native::U8(0), Shape::U8),
        (Native::U8(u8::MAX), Shape::U8),
        (Native::U16(u16::MAX), Shape::U16),
        (Native::U32(u32::MAX), Shape::U32),
        (Native::U64(1 << 53), Shape::U64),
        (Native::U64(1 << 63), Shape::U64),
        (Native::U64(0xffff_ffff_ffff_f800), Shape::U64),
    ];
    for (value, shape) in cases {
        let host = to_value(&cx, &value).unwrap();
        assert_eq!(from_value(&host, &shape), Ok(value));
    }
    let host = to_value(&cx, &Native::U64(u64::MAX)).unwrap();
    assert_eq!(
        from_value(&host, &Shape::U64),
        Err(Error::NumberCastError(CastError::Overflow))
    );
    let host = to_value(&cx, &Native::I64(i64::MAX)).unwrap();
    assert_eq!(
        from_value(&host, &Shape::I64),
        Err(Error::NumberCastError(CastError::Overflow))
    );
    let host = to_value(&cx, &Native::U64((1 << 53) + 1)).unwrap();
    assert_eq!(from_value(&host, &Shape::U64), Ok(Native::U64(1 << 53)));
}

#[test]
fn boolean_coercion() {
    assert_eq!(from_value(&HostValue::Null, &Shape::Bool), Ok(Native::Bool(false)));
    assert_eq!(from_value(&HostValue::Undefined, &Shape::Bool), Ok(Native::Bool(false)));
    assert_eq!(from_value(&num(0.0), &Shape::Bool), Ok(Native::Bool(false)));
    assert_eq!(from_value(&num(-0.0), &Shape::Bool), Ok(Native::Bool(false)));
    assert_eq!(from_value(&num(3.5), &Shape::Bool), Ok(Native::Bool(true)));
    assert_eq!(from_value(&num(f64::NAN), &Shape::Bool), Ok(Native::Bool(true)));
    assert_eq!(from_value(&HostValue::Integer(0), &Shape::Bool), Ok(Native::Bool(false)));
    assert_eq!(from_value(&HostValue::Integer(2), &Shape::Bool), Ok(Native::Bool(true)));
    assert_eq!(from_value(&HostValue::Boolean(true), &Shape::Bool), Ok(Native::Bool(true)));
    assert_eq!(from_value(&text("x"), &Shape::Bool), Err(Error::UnableToCoerce("bool")));
    assert_eq!(
        from_value(&HostValue::Array(vec![]), &Shape::Bool),
        Err(Error::UnableToCoerce("bool"))
    );
}

#[test]
fn char_boundary() {
    assert_eq!(from_value(&text(""), &Shape::Char), Err(Error::EmptyString));
    assert_eq!(from_value(&text("ab"), &Shape::Char), Err(Error::StringTooLongForChar(1)));
    assert_eq!(from_value(&text("abcd"), &Shape::Char), Err(Error::StringTooLongForChar(3)));
    assert_eq!(from_value(&text("a"), &Shape::Char), Ok(Native::Char('a')));
    assert_eq!(from_value(&text("🤷"), &Shape::Char), Ok(Native::Char('🤷')));
    assert_eq!(from_value(&text("🤷🤷"), &Shape::Char), Err(Error::StringTooLongForChar(1)));
    assert_eq!(from_value(&num(1.0), &Shape::Char), Err(Error::Js));
    let cx = Context::new();
    assert_eq!(to_value(&cx, &Native::Char('🤷')).unwrap(), text("🤷"));
    assert_eq!(to_value(&cx, &Native::Char('a')).unwrap(), text("a"));
}

#[test]
fn strings_and_bytes() {
    let cx = Context::new();
    assert_eq!(to_value(&cx, &Native::Str("Hello World".to_string())).unwrap(), text("Hello World"));
    assert_eq!(from_value(&text("hello world"), &Shape::Str), Ok(Native::Str("hello world".to_string())));
    assert_eq!(from_value(&text(""), &Shape::Str), Ok(Native::Str(String::new())));
    assert_eq!(from_value(&num(1.0), &Shape::Str), Err(Error::Js));
    assert_eq!(
        to_value(&cx, &Native::Bytes(vec![255, 254, 253])).unwrap(),
        HostValue::Buffer(vec![255, 254, 253])
    );
    assert_eq!(
        from_value(&HostValue::Buffer(vec![252, 251, 250]), &Shape::Bytes),
        Ok(Native::Bytes(vec![252, 251, 250]))
    );
    assert_eq!(
        from_value(&HostValue::Array(vec![num(1.0)]), &Shape::Bytes),
        Err(Error::Js)
    );
    let buffer = HostValue::Buffer(vec![1, 2]);
    let de = Deserializer::new(&buffer);
    assert_eq!(de.deserialize_byte_buf(), Ok(vec![1, 2]));
}

#[test]
fn strings_longer_than_the_host_allows() {
    let cx = Context { max_string_length: 4 };
    assert_eq!(to_value(&cx, &Native::Str("abcd".to_string())).unwrap(), text("abcd"));
    assert_eq!(to_value(&cx, &Native::Str("abcde".to_string())), Err(Error::StringTooLong(5)));
    assert_eq!(to_value(&cx, &Native::Str("🤷a".to_string())), Err(Error::StringTooLong(5)));
    assert_eq!(to_value(&cx, &Native::Char('🤷')).unwrap(), text("🤷"));
    let tiny = Context { max_string_length: 3 };
    assert_eq!(to_value(&tiny, &Native::Char('🤷')), Err(Error::StringTooLong(4)));
    assert_eq!(
        to_value(&tiny, &Native::UnitVariant("Empty".to_string())),
        Err(Error::StringTooLong(5))
    );
    assert_eq!(
        to_value(&tiny, &Native::Struct(vec![("long".to_string(), Native::Unit)])),
        Err(Error::Js)
    );
    assert_eq!(
        to_value(&tiny, &Native::TupleVariant("Tuple".to_string(), vec![])),
        Err(Error::Js)
    );
    assert_eq!(
        to_value(&tiny, &Native::StructVariant("Struct".to_string(), vec![])),
        Err(Error::Js)
    );
    assert_eq!(
        to_value(
            &tiny,
            &Native::NewtypeVariant("Value".to_string(), Box::new(Native::Str("wxyz".to_string())))
        ),
        Err(Error::StringTooLong(4))
    );
    assert_eq!(
        to_value(&tiny, &Native::NewtypeVariant("Value".to_string(), Box::new(Native::Unit))),
        Err(Error::Js)
    );
    assert_eq!(
        to_value(
            &tiny,
            &Native::Sequence(vec![Native::U8(1), Native::Str("wxyz".to_string()), Native::Str("toolong".to_string())])
        ),
        Err(Error::StringTooLong(4))
    );
    assert_eq!(Context::new().max_string_length, 536870888);
}

#[test]
fn option_asymmetry() {
    let cx = Context::new();
    assert_eq!(to_value(&cx, &Native::Absent).unwrap(), HostValue::Null);
    assert_eq!(
        to_value(&cx, &Native::Present(Box::new(Native::Bool(false)))).unwrap(),
        HostValue::Boolean(false)
    );
    let option = Shape::Optional(Box::new(Shape::Bool));
    assert_eq!(from_value(&HostValue::Null, &option), Ok(Native::Absent));
    assert_eq!(from_value(&HostValue::Undefined, &option), Ok(Native::Absent));
    assert_eq!(
        from_value(&HostValue::Boolean(false), &option),
        Ok(Native::Present(Box::new(Native::Bool(false))))
    );
    assert_eq!(from_value(&HostValue::Undefined, &Shape::Unit), Ok(Native::Unit));
    assert_eq!(from_value(&HostValue::Null, &Shape::Unit), Ok(Native::Unit));
    assert_eq!(from_value(&num(0.0), &Shape::Unit), Err(Error::ExpectingNull));
    assert_eq!(to_value(&cx, &Native::Unit).unwrap(), HostValue::Null);
    let nested = Native::Present(Box::new(Native::Absent));
    assert_eq!(to_value(&cx, &nested).unwrap(), HostValue::Null);
}

#[test]
fn enum_encoding() {
    let cx = Context::new();
    assert_eq!(to_value(&cx, &Native::UnitVariant("Empty".to_string())).unwrap(), text("Empty"));
    assert_eq!(
        to_value(&cx, &Native::NewtypeVariant("Value".to_string(), Box::new(Native::U8(3)))).unwrap(),
        object(vec![("Value", num(3.0))])
    );
    assert_eq!(
        to_value(
            &cx,
            &Native::TupleVariant(
                "Tuple".to_string(),
                vec![Native::U32(27), Native::Str("hij".to_string())]
            )
        )
        .unwrap(),
        object(vec![("Tuple", HostValue::Array(vec![num(27.0), text("hij")]))])
    );
    assert_eq!(
        to_value(
            &cx,
            &Native::StructVariant("Struct".to_string(), vec![("a".to_string(), Native::U8(128))])
        )
        .unwrap(),
        object(vec![("Struct", object(vec![("a", num(128.0))]))])
    );
}

#[test]
fn enum_decoding() {
    let shape = type_enum();
    assert_eq!(from_value(&text("Empty"), &shape), Ok(Native::UnitVariant("Empty".to_string())));
    assert_eq!(
        from_value(&object(vec![("Empty", HostValue::Null)]), &shape),
        Ok(Native::UnitVariant("Empty".to_string()))
    );
    assert_eq!(
        from_value(&object(vec![("Empty", num(1.0))]), &shape),
        Err(Error::ExpectingNull)
    );
    assert_eq!(
        from_value(
            &object(vec![("Tuple", HostValue::Array(vec![num(27.0), text("hij")]))]),
            &shape
        ),
        Ok(Native::TupleVariant(
            "Tuple".to_string(),
            vec![Native::U32(27), Native::Str("hij".to_string())]
        ))
    );
    assert_eq!(
        from_value(
            &object(vec![(
                "Struct",
                object(vec![("b", HostValue::Array(vec![num(9.0)])), ("a", num(128.0))])
            )]),
            &shape
        ),
        Ok(Native::StructVariant(
            "Struct".to_string(),
            vec![
                ("a".to_string(), Native::U8(128)),
                ("b".to_string(), Native::Sequence(vec![Native::U8(9)]))
            ]
        ))
    );
    assert_eq!(
        from_value(&object(vec![("Value", HostValue::Array(vec![text("z")]))]), &shape),
        Ok(Native::NewtypeVariant(
            "Value".to_string(),
            Box::new(Native::Sequence(vec![Native::Char('z')]))
        ))
    );
    assert_eq!(
        from_value(&text("Nope"), &shape),
        Err(Error::Msg("unknown variant `Nope`".to_string()))
    );
    assert_eq!(
        from_value(&text("Value"), &shape),
        Err(Error::Msg("invalid type: unit variant, expected newtype variant".to_string()))
    );
    assert_eq!(
        from_value(&text("Tuple"), &shape),
        Err(Error::Msg("invalid type: unit variant, expected tuple variant".to_string()))
    );
    assert_eq!(
        from_value(&text("Struct"), &shape),
        Err(Error::Msg("invalid type: unit variant, expected struct variant".to_string()))
    );
    assert_eq!(
        from_value(&object(vec![("Tuple", num(1.0))]), &shape),
        Err(Error::Msg("invalid type: JsValue, expected tuple variant".to_string()))
    );
    assert_eq!(
        from_value(&object(vec![("Struct", HostValue::Array(vec![]))]), &shape),
        Err(Error::Msg("invalid type: JsValue, expected struct variant".to_string()))
    );
    assert_eq!(
        from_value(&object(vec![("Tuple", HostValue::Array(vec![num(27.0)]))]), &shape),
        Err(Error::Msg("invalid length 1, expected a tuple of size 2".to_string()))
    );
}

#[test]
fn enum_from_an_object_without_exactly_one_property() {
    let shape = type_enum();
    assert_eq!(
        from_value(&HostValue::Object(vec![]), &shape),
        Err(Error::InvalidKeyType("object key with 0 properties".to_string()))
    );
    assert_eq!(
        from_value(&object(vec![("Empty", HostValue::Null), ("Tuple", HostValue::Null)]), &shape),
        Err(Error::InvalidKeyType("object key with 2 properties".to_string()))
    );
    assert_eq!(
        from_value(
            &object(vec![("a", num(1.0)), ("b", num(2.0)), ("c", num(3.0))]),
            &shape
        ),
        Err(Error::InvalidKeyType("object key with 3 properties".to_string()))
    );
    let many: Vec<(HostValue, HostValue)> =
        (0..12).map(|i| (num(i as f64), HostValue::Null)).collect();
    assert_eq!(
        from_value(&HostValue::Object(many), &shape),
        Err(Error::InvalidKeyType("object key with 12 properties".to_string()))
    );
    assert_eq!(
        from_value(&HostValue::Object(vec![(num(1.0), HostValue::Null)]), &shape),
        Err(Error::Js)
    );
    assert_eq!(from_value(&num(3.0), &shape), Err(Error::InvalidKeyType("3".to_string())));
    assert_eq!(from_value(&num(-17.0), &shape), Err(Error::InvalidKeyType("-17".to_string())));
    assert_eq!(
        from_value(&num(0.5), &shape),
        Err(Error::InvalidKeyType("[object Number]".to_string()))
    );
    assert_eq!(
        from_value(&HostValue::Integer(i64::MIN), &shape),
        Err(Error::InvalidKeyType("-9223372036854775808".to_string()))
    );
    assert_eq!(
        from_value(&HostValue::Boolean(true), &shape),
        Err(Error::InvalidKeyType("true".to_string()))
    );
    assert_eq!(
        from_value(&HostValue::Boolean(false), &shape),
        Err(Error::InvalidKeyType("false".to_string()))
    );
    assert_eq!(
        from_value(&HostValue::Null, &shape),
        Err(Error::InvalidKeyType("null".to_string()))
    );
    assert_eq!(
        from_value(&HostValue::Undefined, &shape),
        Err(Error::InvalidKeyType("undefined".to_string()))
    );
    assert_eq!(
        from_value(&HostValue::Array(vec![]), &shape),
        Err(Error::InvalidKeyType("[object Array]".to_string()))
    );
    assert_eq!(
        from_value(&HostValue::Buffer(vec![]), &shape),
        Err(Error::InvalidKeyType("[object Buffer]".to_string()))
    );
    assert_eq!(
        from_value(&HostValue::Function, &shape),
        Err(Error::InvalidKeyType("[object Function]".to_string()))
    );
    assert_eq!(
        from_value(&HostValue::Other, &shape),
        Err(Error::InvalidKeyType("[object Other]".to_string()))
    );
}

#[test]
fn identifiers() {
    assert_eq!(from_value(&text("name"), &Shape::Identifier), Ok(Native::Str("name".to_string())));
    assert_eq!(from_value(&num(12.0), &Shape::Identifier), Ok(Native::Str("12".to_string())));
    assert_eq!(from_value(&num(-0.0), &Shape::Identifier), Ok(Native::Str("0".to_string())));
    assert_eq!(
        from_value(&HostValue::Integer(-5), &Shape::Identifier),
        Ok(Native::Str("-5".to_string()))
    );
    assert_eq!(
        from_value(&object(vec![("Tag", num(1.0))]), &Shape::Identifier),
        Ok(Native::Str("Tag".to_string()))
    );
    assert_eq!(
        from_value(&HostValue::Object(vec![]), &Shape::Identifier),
        Err(Error::InvalidKeyType("object key with 0 properties".to_string()))
    );
    assert_eq!(
        from_value(&num(1.5), &Shape::Identifier),
        Err(Error::InvalidKeyType("[object Number]".to_string()))
    );
    assert_eq!(
        from_value(&HostValue::Null, &Shape::Identifier),
        Err(Error::InvalidKeyType("null".to_string()))
    );
    assert_eq!(from_value(&HostValue::Function, &Shape::IgnoredAny), Ok(Native::Unit));
}

#[test]
fn sequence_cursor_exhaustion() {
    let items = vec![num(10.0), num(11.0), num(12.0)];
    let host = HostValue::Array(items);
    let de = Deserializer::new(&host);
    let mut access = de.deserialize_seq().unwrap();
    assert_eq!(access.next_element_seed(&Shape::U8), Ok(Some(Native::U8(10))));
    assert_eq!(access.next_element_seed(&Shape::U8), Ok(Some(Native::U8(11))));
    assert_eq!(access.next_element_seed(&Shape::U8), Ok(Some(Native::U8(12))));
    assert_eq!(access.next_element_seed(&Shape::U8), Ok(None));
    assert_eq!(access.next_element_seed(&Shape::U8), Ok(None));
    assert!(access.next().is_none());
    let empty = HostValue::Array(vec![]);
    let mut access = Deserializer::new(&empty).deserialize_seq().unwrap();
    assert!(access.next().is_none());
    assert_eq!(
        from_value(&host, &Shape::Sequence(Box::new(Shape::I32))),
        Ok(Native::Sequence(vec![Native::I32(10), Native::I32(11), Native::I32(12)]))
    );
    assert_eq!(
        from_value(&empty, &Shape::Sequence(Box::new(Shape::I32))),
        Ok(Native::Sequence(vec![]))
    );
    assert_eq!(from_value(&text("no"), &Shape::Sequence(Box::new(Shape::I32))), Err(Error::Js));
    let mixed = HostValue::Array(vec![num(1.0), text("x"), num(1000.0)]);
    assert_eq!(from_value(&mixed, &Shape::Sequence(Box::new(Shape::U8))), Err(Error::Js));
    let mut access = Deserializer::new(&mixed).deserialize_seq().unwrap();
    assert_eq!(access.next_element_seed(&Shape::U8), Ok(Some(Native::U8(1))));
    assert_eq!(access.next_element_seed(&Shape::U8), Err(Error::Js));
    assert_eq!(
        access.next_element_seed(&Shape::U8),
        Err(Error::NumberCastError(CastError::Overflow))
    );
    assert_eq!(access.next_element_seed(&Shape::U8), Ok(None));
}

#[test]
fn map_key_value_pairing() {
    let host = object(vec![("a", num(1.0)), ("b", num(2.0)), ("c", num(3.0))]);
    let shape = Shape::Mapping(Box::new(Shape::Str), Box::new(Shape::I32));
    assert_eq!(
        from_value(&host, &shape),
        Ok(Native::Mapping(vec![
            (Native::Str("a".to_string()), Native::I32(1)),
            (Native::Str("b".to_string()), Native::I32(2)),
            (Native::Str("c".to_string()), Native::I32(3)),
        ]))
    );
    let mut access = Deserializer::new(&host).deserialize_map().unwrap();
    assert_eq!(access.next_key_seed(&Shape::Str), Ok(Some(Native::Str("a".to_string()))));
    assert_eq!(access.next_key_seed(&Shape::Str), Ok(Some(Native::Str("a".to_string()))));
    assert_eq!(access.next_value_seed(&Shape::I32), Ok(Native::I32(1)));
    assert_eq!(access.next_key_seed(&Shape::Identifier), Ok(Some(Native::Str("b".to_string()))));
    assert_eq!(access.next_value_seed(&Shape::I32), Ok(Native::I32(2)));
    assert_eq!(access.next_key_seed(&Shape::Str), Ok(Some(Native::Str("c".to_string()))));
    assert_eq!(access.next_value_seed(&Shape::I32), Ok(Native::I32(3)));
    assert_eq!(access.next_key_seed(&Shape::Str), Ok(None));
    assert_eq!(access.next_value_seed(&Shape::I32), Err(Error::ArrayIndexOutOfBounds(3, 3)));
    assert_eq!(access.next_key_seed(&Shape::Str), Ok(None));
    let doubled = object(vec![("a", num(1.0)), ("a", num(2.0))]);
    assert_eq!(
        from_value(&doubled, &shape),
        Ok(Native::Mapping(vec![
            (Native::Str("a".to_string()), Native::I32(1)),
            (Native::Str("a".to_string()), Native::I32(1)),
        ]))
    );
    assert_eq!(from_value(&HostValue::Array(vec![]), &shape), Err(Error::Js));
}

#[test]
fn maps_are_written_key_by_key() {
    let cx = Context::new();
    let map = Native::Mapping(vec![
        (Native::Str("a".to_string()), Native::I32(1)),
        (Native::Str("b".to_string()), Native::I32(2)),
        (Native::Str("c".to_string()), Native::I32(3)),
    ]);
    let host = to_value(&cx, &map).unwrap();
    assert_eq!(host, object(vec![("a", num(1.0)), ("b", num(2.0)), ("c", num(3.0))]));
    let shape = Shape::Mapping(Box::new(Shape::Str), Box::new(Shape::I32));
    assert_eq!(from_value(&host, &shape), Ok(map));
    let numbered = Native::Mapping(vec![
        (Native::U32(7), Native::Str("seven".to_string())),
        (Native::U32(8), Native::Str("eight".to_string())),
    ]);
    let host = to_value(&cx, &numbered).unwrap();
    assert_eq!(
        host,
        HostValue::Object(vec![(num(7.0), text("seven")), (num(8.0), text("eight"))])
    );
    let shape = Shape::Mapping(Box::new(Shape::U32), Box::new(Shape::Str));
    assert_eq!(from_value(&host, &shape), Ok(numbered));
    let repeated = Native::Mapping(vec![
        (Native::U8(1), Native::Bool(true)),
        (Native::U8(2), Native::Bool(true)),
        (Native::I64(1), Native::Bool(false)),
    ]);
    assert_eq!(
        to_value(&cx, &repeated).unwrap(),
        HostValue::Object(vec![
            (num(1.0), HostValue::Boolean(false)),
            (num(2.0), HostValue::Boolean(true))
        ])
    );
}

#[test]
fn concrete_end_to_end_example() {
    let cx = Context::new();
    let value = Native::Struct(vec![
        ("a".to_string(), Native::U32(1)),
        ("b".to_string(), Native::Sequence(vec![Native::I64(1), Native::I64(2)])),
        ("c".to_string(), Native::Str("abc".to_string())),
        ("d".to_string(), Native::Present(Box::new(Native::Bool(false)))),
        ("e".to_string(), Native::Absent),
    ]);
    let host = to_value(&cx, &value).unwrap();
    assert_eq!(
        host,
        object(vec![
            ("a", num(1.0)),
            ("b", HostValue::Array(vec![num(1.0), num(2.0)])),
            ("c", text("abc")),
            ("d", HostValue::Boolean(false)),
            ("e", HostValue::Null),
        ])
    );
    let shape = Shape::Struct(vec![
        ("a".to_string(), Shape::U32),
        ("b".to_string(), Shape::Sequence(Box::new(Shape::I64))),
        ("c".to_string(), Shape::Str),
        ("d".to_string(), Shape::Optional(Box::new(Shape::Bool))),
        ("e".to_string(), Shape::Optional(Box::new(Shape::Bool))),
    ]);
    assert_eq!(from_value(&host, &shape), Ok(value));
}

#[test]
fn struct_fields_are_named_by_the_keys() {
    let shape = Shape::Struct(vec![
        ("1".to_string(), Shape::Bool),
        ("b".to_string(), Shape::Optional(Box::new(Shape::U8))),
    ]);
    let numbered = HostValue::Object(vec![(num(1.0), HostValue::Boolean(true))]);
    assert_eq!(
        from_value(&numbered, &shape),
        Ok(Native::Struct(vec![
            ("1".to_string(), Native::Bool(true)),
            ("b".to_string(), Native::Absent),
        ]))
    );
    let twice = HostValue::Object(vec![
        (num(1.0), HostValue::Boolean(true)),
        (text("b"), num(2.0)),
        (text("1"), HostValue::Boolean(false)),
    ]);
    assert_eq!(from_value(&twice, &shape), Err(Error::Msg("duplicate field `1`".to_string())));
    let odd = HostValue::Object(vec![
        (text("1"), HostValue::Boolean(true)),
        (HostValue::Boolean(true), num(2.0)),
    ]);
    assert_eq!(from_value(&odd, &shape), Err(Error::InvalidKeyType("true".to_string())));
    let nested = HostValue::Object(vec![
        (object(vec![("b", HostValue::Null)]), num(7.0)),
        (text("1"), HostValue::Boolean(false)),
        (text("other"), HostValue::Function),
    ]);
    assert_eq!(
        from_value(&nested, &shape),
        Ok(Native::Struct(vec![
            ("1".to_string(), Native::Bool(false)),
            ("b".to_string(), Native::Present(Box::new(Native::U8(7)))),
        ]))
    );
    let failing = HostValue::Object(vec![
        (text("b"), num(300.0)),
        (HostValue::Boolean(true), num(2.0)),
    ]);
    assert_eq!(from_value(&failing, &shape), Err(Error::NumberCastError(CastError::Overflow)));
    let empty = Shape::Struct(vec![]);
    assert_eq!(from_value(&numbered, &empty), Ok(Native::Struct(vec![])));
}

#[test]
fn structs_are_read_by_name() {
    let shape = Shape::Struct(vec![
        ("a".to_string(), Shape::U32),
        ("d".to_string(), Shape::Optional(Box::new(Shape::Bool))),
    ]);
    let host = object(vec![("extra", text("x")), ("d", HostValue::Boolean(true)), ("a", num(4.0))]);
    assert_eq!(
        from_value(&host, &shape),
        Ok(Native::Struct(vec![
            ("a".to_string(), Native::U32(4)),
            ("d".to_string(), Native::Present(Box::new(Native::Bool(true)))),
        ]))
    );
    assert_eq!(
        from_value(&object(vec![("a", num(4.0))]), &shape),
        Ok(Native::Struct(vec![
            ("a".to_string(), Native::U32(4)),
            ("d".to_string(), Native::Absent),
        ]))
    );
    assert_eq!(
        from_value(&object(vec![("d", HostValue::Null)]), &shape),
        Err(Error::Msg("missing field `a`".to_string()))
    );
    assert_eq!(from_value(&object(vec![("a", text("4"))]), &shape), Err(Error::Js));
    assert_eq!(from_value(&num(1.0), &shape), Err(Error::Js));
}

#[test]
fn tuples_are_read_by_place() {
    let shape = Shape::Tuple(vec![Shape::I32, Shape::Bool, Shape::Str]);
    let host = HostValue::Array(vec![num(9.0), HostValue::Boolean(false), text("efg")]);
    assert_eq!(
        from_value(&host, &shape),
        Ok(Native::Sequence(vec![
            Native::I32(9),
            Native::Bool(false),
            Native::Str("efg".to_string())
        ]))
    );
    let longer = HostValue::Array(vec![num(9.0), HostValue::Boolean(false), text("efg"), num(1.0)]);
    assert!(from_value(&longer, &shape).is_ok());
    let shorter = HostValue::Array(vec![num(9.0), HostValue::Boolean(false)]);
    assert_eq!(
        from_value(&shorter, &shape),
        Err(Error::Msg("invalid length 2, expected a tuple of size 3".to_string()))
    );
    assert_eq!(from_value(&HostValue::Array(vec![]), &Shape::Tuple(vec![])), Ok(Native::Sequence(vec![])));
}

#[test]
fn self_describing_values() {
    assert_eq!(from_value(&HostValue::Null, &Shape::Any), Ok(Native::Unit));
    assert_eq!(from_value(&HostValue::Undefined, &Shape::Any), Ok(Native::Absent));
    assert_eq!(from_value(&HostValue::Boolean(true), &Shape::Any), Ok(Native::Bool(true)));
    assert_eq!(from_value(&HostValue::Integer(5), &Shape::Any), Ok(Native::I64(5)));
    assert_eq!(from_value(&num(5.0), &Shape::Any), Ok(Native::I64(5)));
    assert_eq!(from_value(&num(-0.0), &Shape::Any), Ok(Native::I64(0)));
    assert_eq!(from_value(&num(5.5), &Shape::Any), Ok(double(5.5)));
    assert_eq!(from_value(&num(1e300), &Shape::Any), Ok(Native::I64(i64::MAX)));
    assert_eq!(from_value(&num(-1e300), &Shape::Any), Ok(Native::I64(i64::MIN)));
    assert_eq!(from_value(&num(f64::INFINITY), &Shape::Any), Ok(Native::I64(i64::MAX)));
    assert_eq!(from_value(&num(f64::NEG_INFINITY), &Shape::Any), Ok(Native::I64(i64::MIN)));
    assert_eq!(
        from_value(&num(9223372036854775808.0), &Shape::Any),
        Ok(Native::I64(i64::MAX))
    );
    assert_eq!(
        from_value(&num(-9223372036854775808.0), &Shape::Any),
        Ok(Native::I64(i64::MIN))
    );
    assert_eq!(from_value(&num(f64::NAN), &Shape::Any), Ok(double(f64::NAN)));
    assert_eq!(from_value(&text("s"), &Shape::Any), Ok(Native::Str("s".to_string())));
    assert_eq!(
        from_value(&HostValue::Buffer(vec![1, 2]), &Shape::Any),
        Ok(Native::Bytes(vec![1, 2]))
    );
    assert_eq!(
        from_value(
            &HostValue::Array(vec![num(1.0), object(vec![("k", HostValue::Null)])]),
            &Shape::Any
        ),
        Ok(Native::Sequence(vec![
            Native::I64(1),
            Native::Mapping(vec![(Native::Str("k".to_string()), Native::Unit)])
        ]))
    );
    assert_eq!(
        from_value(&HostValue::Function, &Shape::Any),
        Err(Error::NotImplemented("unimplemented Deserializer::Deserializer"))
    );
    assert_eq!(
        from_value(&HostValue::Array(vec![HostValue::Other]), &Shape::Any),
        Err(Error::NotImplemented("unimplemented Deserializer::Deserializer"))
    );
    let host = HostValue::Array(vec![]);
    match Deserializer::new(&host).deserialize_any() {
        Ok(Visit::Items(mut access)) => assert!(access.next().is_none()),
        _ => panic!("an array is a sequence"),
    }
}

#[test]
fn a_whole_object_round_trips() {
    let cx = Context::new();
    let value = an_object_two();
    let host = to_value(&cx, &value).unwrap();
    assert_eq!(from_value(&host, &an_object_two_shape()), Ok(value));
    let again = from_value(&host, &an_object_two_shape()).unwrap();
    assert_eq!(to_value(&cx, &again).unwrap(), host);
}

#[test]
fn host_values_compare_and_copy() {
    let host = to_value(&Context::new(), &an_object_two()).unwrap();
    let copy = host.duplicate();
    assert!(host.same(&copy));
    assert_eq!(host, copy);
    assert!(!host.same(&HostValue::Null));
    assert!(!num(1.0).same(&HostValue::Integer(1)));
    assert!(!HostValue::Array(vec![num(1.0)]).same(&HostValue::Array(vec![num(2.0)])));
    assert!(!HostValue::Array(vec![num(1.0)]).same(&HostValue::Array(vec![])));
    assert!(!object(vec![("a", num(1.0))]).same(&object(vec![("b", num(1.0))])));
    assert!(HostValue::Buffer(vec![1, 2]).same(&HostValue::Buffer(vec![1, 2])));
    assert!(!HostValue::Buffer(vec![1, 2]).same(&HostValue::Buffer(vec![1, 3])));
    assert!(text("a").same(&text("a")));
    assert!(!text("a").same(&text("b")));
    assert_eq!(num(1234567.0).to_text(), "1234567");
    assert_eq!(HostValue::Integer(0).to_text(), "0");
    assert_eq!(text("as is").to_text(), "as is");
    assert_eq!(object(vec![]).to_text(), "[object Object]");
}

#[test]
fn self_describing_values_round_trip() {
    let cx = Context::new();
    let value = Native::Sequence(vec![
        Native::Unit,
        Native::Bool(true),
        Native::I64(-42),
        Native::I64(i64::MIN),
        double(0.5),
        Native::Str("text".to_string()),
        Native::Bytes(vec![1, 2, 3]),
        Native::Mapping(vec![
            (Native::Str("k".to_string()), Native::Sequence(vec![])),
            (Native::I64(7), Native::Unit),
        ]),
    ]);
    let host = to_value(&cx, &value).unwrap();
    assert_eq!(from_value(&host, &Shape::Any), Ok(value));
    let host = to_value(&cx, &Native::U8(7)).unwrap();
    assert_eq!(from_value(&host, &Shape::Any), Ok(Native::I64(7)));
    let host = to_value(&cx, &double(2.0)).unwrap();
    assert_eq!(from_value(&host, &Shape::Any), Ok(Native::I64(2)));
    let host = to_value(&cx, &Native::Absent).unwrap();
    assert_eq!(from_value(&host, &Shape::Any), Ok(Native::Unit));
    let host = to_value(&cx, &Native::Str("name".to_string())).unwrap();
    assert_eq!(from_value(&host, &Shape::Identifier), Ok(Native::Str("name".to_string())));
    let host = to_value(&cx, &Native::Unit).unwrap();
    assert_eq!(from_value(&host, &Shape::IgnoredAny), Ok(Native::Unit));
}
