use chrono::NaiveDate;
use database::{CustomValue, OffsetDateTime, Symbol, Value, ValueType};
use rust_decimal::Decimal;
use uuid::Uuid;

fn symbol(raw: u32) -> Symbol {
    Symbol::from_raw(raw).unwrap()
}

fn day(d: u32) -> NaiveDate {
    NaiveDate::from_ymd_opt(2024, 2, d).unwrap()
}

fn custom(name: u32, value: &str) -> Value {
    Value::Custom(Box::new(CustomValue { name: symbol(name), value: value.into() }))
}

fn floats(items: &[f64]) -> Value {
    Value::FloatArray(items.iter().map(|f| f.to_bits()).collect())
}

fn samples() -> Vec<(Value, ValueType)> {
    let noon = day(1).and_hms_opt(12, 0, 0).unwrap();
    vec![
        (Value::Null, ValueType::Null),
        (Value::Bool(true), ValueType::Bool),
        (Value::Int(-1), ValueType::Int),
        (Value::Float(1.5f64.to_bits()), ValueType::Float),
        (Value::Decimal(Decimal::new(15, 1)), ValueType::Decimal),
        (Value::Text("t".into()), ValueType::Text),
        (Value::Blob(vec![1, 2].into()), ValueType::Blob),
        (Value::Json(Box::new(serde_json::Value::Bool(true))), ValueType::Json),
        (Value::Uuid(Uuid::from_u128(7)), ValueType::Uuid),
        (Value::Timestamp(noon), ValueType::Timestamp),
        (Value::TimestampTz(noon), ValueType::TimestampTz),
        (Value::Date(day(1)), ValueType::Date),
        (Value::Time(noon.time()), ValueType::Time),
        (Value::TimeTz(OffsetDateTime { utc: noon, offset_seconds: 3600 }), ValueType::TimeTz),
        (custom(9, "v"), ValueType::Custom(symbol(9))),
        (Value::BoolArray(vec![true].into()), ValueType::BoolArray),
        (Value::IntArray(vec![1, 2].into()), ValueType::IntArray),
        (floats(&[1.0, 2.0]), ValueType::FloatArray),
        (Value::DecimalArray(vec![Decimal::new(1, 0)].into()), ValueType::DecimalArray),
        (Value::TextArray(vec!["a".into()].into()), ValueType::TextArray),
    ]
}

#[test]
fn kinds_and_null() {
    for (value, kind) in samples() {
        assert_eq!(value.kind(), kind);
        assert_eq!(value.is_null(), kind == ValueType::Null);
    }
}

#[test]
fn values_of_different_types_differ() {
    let all = samples();
    let again = samples();
    for (i, (a, kind_a)) in all.iter().enumerate() {
        for (j, (b, kind_b)) in again.iter().enumerate() {
            assert_eq!(a == b, i == j);
            assert_eq!(b == a, i == j);
            if a == b {
                assert_eq!(kind_a, kind_b);
            }
        }
    }
}

#[test]
fn values_with_other_contents_differ() {
    assert!(Value::Bool(true) != Value::Bool(false));
    assert!(Value::Int(1) != Value::Int(2));
    assert!(Value::Text("a".into()) != Value::Text("b".into()));
    assert!(Value::Text("a".into()) != Value::Text("ab".into()));
    assert!(Value::Blob(vec![1].into()) != Value::Blob(vec![2].into()));
    assert!(Value::Uuid(Uuid::from_u128(1)) != Value::Uuid(Uuid::from_u128(2)));
    assert!(Value::Date(day(1)) != Value::Date(day(2)));
    let noon = day(1).and_hms_opt(12, 0, 0).unwrap();
    let later = day(1).and_hms_opt(12, 0, 1).unwrap();
    assert!(Value::Timestamp(noon) != Value::Timestamp(later));
    assert!(Value::TimestampTz(noon) != Value::TimestampTz(later));
    assert!(Value::Time(noon.time()) != Value::Time(later.time()));
    assert!(custom(1, "v") != custom(2, "v"));
    assert!(custom(1, "v") != custom(1, "w"));
    assert!(Value::BoolArray(vec![true].into()) != Value::BoolArray(vec![false].into()));
    assert!(Value::IntArray(vec![1].into()) != Value::IntArray(vec![1, 1].into()));
    assert!(Value::IntArray(vec![1].into()) != Value::IntArray(vec![2].into()));
    assert!(Value::TextArray(vec!["a".into()].into()) != Value::TextArray(vec!["b".into()].into()));
}

#[test]
fn single_floats_are_equal_by_their_bits() {
    let nan = f64::NAN.to_bits();
    assert!(Value::Float(nan) == Value::Float(nan));
    assert!(Value::Float(0.0f64.to_bits()) != Value::Float((-0.0f64).to_bits()));
    assert!(Value::Float(1.0f64.to_bits()) == Value::Float(1.0f64.to_bits()));
}

#[test]
fn lists_of_floats_are_equal_by_comparison() {
    assert!(floats(&[1.0, -2.5]) == floats(&[1.0, -2.5]));
    assert!(floats(&[1.0]) != floats(&[1.0, 1.0]));
    assert!(floats(&[0.0]) == floats(&[-0.0]));
    assert!(floats(&[f64::NAN]) != floats(&[f64::NAN]));
    assert!(floats(&[f64::INFINITY]) == floats(&[f64::INFINITY]));
    assert!(floats(&[f64::INFINITY]) != floats(&[f64::NEG_INFINITY]));
    for a in [0.0, -0.0, 1.0, -1.0, f64::MIN_POSITIVE, 5e-324, f64::MAX, f64::INFINITY, f64::NAN, -f64::NAN] {
        for b in [0.0, -0.0, 1.0, -1.0, f64::MIN_POSITIVE, 5e-324, f64::MAX, f64::INFINITY, f64::NAN, -f64::NAN] {
            assert_eq!(floats(&[a]) == floats(&[b]), a == b);
        }
    }
    assert!(floats(&[]) == floats(&[]));
}

#[test]
fn decimals_are_equal_as_numbers() {
    assert!(Value::Decimal(Decimal::new(10, 1)) == Value::Decimal(Decimal::new(100, 2)));
    assert!(Value::Decimal(Decimal::new(10, 1)) != Value::Decimal(Decimal::new(10, 2)));
    assert!(Value::Decimal(Decimal::new(0, 3)) == Value::Decimal(-Decimal::new(0, 0)));
    let one = || Value::DecimalArray(vec![Decimal::new(1, 0), Decimal::new(25, 1)].into());
    let same = Value::DecimalArray(vec![Decimal::new(100, 2), Decimal::new(250, 2)].into());
    assert!(one() == same);
    assert!(one() != Value::DecimalArray(vec![Decimal::new(1, 0)].into()));
    assert!(one() != Value::DecimalArray(vec![Decimal::new(1, 0), Decimal::new(26, 1)].into()));
}

#[test]
fn json_is_equal_by_content() {
    let parse = |text: &str| Value::from(serde_json::from_str::<serde_json::Value>(text).unwrap());
    assert!(parse("{\"a\": 1, \"b\": [null, true]}") == parse("{\"b\": [null, true], \"a\": 1}"));
    assert!(parse("{\"a\": 1}") != parse("{\"a\": 2}"));
    assert!(parse("0.0") == parse("-0.0"));
    assert!(parse("1") != parse("1.0"));
}

#[test]
fn times_are_equal_whatever_their_offsets() {
    let noon = day(1).and_hms_opt(12, 0, 0).unwrap();
    let later = day(1).and_hms_opt(13, 0, 0).unwrap();
    let a = Value::TimeTz(OffsetDateTime { utc: noon, offset_seconds: 0 });
    let b = Value::TimeTz(OffsetDateTime { utc: noon, offset_seconds: 7200 });
    let c = Value::TimeTz(OffsetDateTime { utc: later, offset_seconds: 0 });
    assert!(a == b);
    assert!(a != c);
}

#[test]
fn equality_is_passed_on() {
    let a = floats(&[0.0, 1.0]);
    let b = floats(&[-0.0, 1.0]);
    let c = floats(&[0.0, 1.0]);
    assert!(a == b && b == c && a == c);
}

#[test]
fn custom_values_compare_name_and_text() {
    let value = CustomValue { name: symbol(3), value: "x".into() };
    assert!(value.clone() == value);
    assert!(value != CustomValue { name: symbol(3), value: "y".into() });
    assert!(value != CustomValue { name: symbol(4), value: "x".into() });
    assert_eq!(&*value.clone().value, "x");
}

#[test]
fn integers_become_int() {
    assert!(Value::from(-8i8) == Value::Int(-8));
    assert!(Value::from(-16i16) == Value::Int(-16));
    assert!(Value::from(-32i32) == Value::Int(-32));
    assert!(Value::from(i64::MIN) == Value::Int(i64::MIN));
    assert!(Value::from(u8::MAX) == Value::Int(255));
    assert!(Value::from(u16::MAX) == Value::Int(65_535));
    assert!(Value::from(u32::MAX) == Value::Int(4_294_967_295));
}

#[test]
fn scalars_become_values() {
    assert!(Value::from(true) == Value::Bool(true));
    assert!(Value::from(String::from("text")) == Value::Text("text".into()));
    assert!(Value::from(vec![1u8, 2]) == Value::Blob(vec![1u8, 2].into()));
    let bytes: Box<[u8]> = vec![3u8].into();
    assert!(Value::from(bytes) == Value::Blob(vec![3u8].into()));
    let noon = day(1).and_hms_opt(12, 0, 0).unwrap();
    assert!(Value::from(noon) == Value::Timestamp(noon));
    assert!(Value::from(Uuid::from_u128(5)) == Value::Uuid(Uuid::from_u128(5)));
    assert!(Value::from(Decimal::new(5, 1)) == Value::Decimal(Decimal::new(50, 2)));
    let json = serde_json::Value::String(String::from("s"));
    assert!(Value::from(json.clone()) == Value::Json(Box::new(json)));
}

#[test]
fn lists_become_arrays() {
    let wide = |items: &[i64]| Value::IntArray(items.to_vec().into());
    assert!(Value::from(vec![1i64, -2]) == wide(&[1, -2]));
    assert!(Value::from(vec![1i64, -2].into_boxed_slice()) == wide(&[1, -2]));
    assert!(Value::from(vec![1i8, -2]) == wide(&[1, -2]));
    assert!(Value::from(vec![1i8, -2].into_boxed_slice()) == wide(&[1, -2]));
    assert!(Value::from(vec![1i16, -2]) == wide(&[1, -2]));
    assert!(Value::from(vec![1i16, -2].into_boxed_slice()) == wide(&[1, -2]));
    assert!(Value::from(vec![1i32, -2]) == wide(&[1, -2]));
    assert!(Value::from(vec![1i32, -2].into_boxed_slice()) == wide(&[1, -2]));
    assert!(Value::from(vec![1u16, 65_535]) == wide(&[1, 65_535]));
    assert!(Value::from(vec![1u16, 65_535].into_boxed_slice()) == wide(&[1, 65_535]));
    assert!(Value::from(vec![1u32, u32::MAX]) == wide(&[1, 4_294_967_295]));
    assert!(Value::from(vec![1u32, u32::MAX].into_boxed_slice()) == wide(&[1, 4_294_967_295]));
    assert!(Value::from(Vec::<i8>::new()) == wide(&[]));
    assert!(Value::from(vec![true, false]) == Value::BoolArray(vec![true, false].into()));
    assert!(Value::from(vec![true].into_boxed_slice()) == Value::BoolArray(vec![true].into()));
    let two = || vec![Decimal::new(1, 0), Decimal::new(2, 0)];
    assert!(Value::from(two()) == Value::DecimalArray(two().into()));
    assert!(Value::from(two().into_boxed_slice()) == Value::DecimalArray(two().into()));
    let texts = vec![String::from("a"), String::new(), String::from("c")];
    assert!(Value::from(texts) == Value::TextArray(vec!["a".into(), "".into(), "c".into()].into()));
}
