//! Scalar crossings: numbers at the safe-integer boundary, and the
//! decimal readings and renderings the key rules depend on.

use lua_bridge::digits::{i64_to_decimal, parse_i64, parse_index, u64_to_decimal};
use lua_bridge::from_guest::guest_to_value;
use lua_bridge::guest::GuestValue;
use lua_bridge::to_guest::value_to_guest;
use lua_bridge::value::{Num, Value, MAX_SAFE_INTEGER};

#[test]
fn double_round_trip_small_integer() {
    let d = Value::Double(Num::SafeInt(42));
    let g = value_to_guest(&d).unwrap();
    assert!(matches!(g, GuestValue::Integer(42)));
    let back = guest_to_value(&g).unwrap();
    assert!(matches!(back, Value::Double(Num::SafeInt(42))));
}

#[test]
fn double_round_trip_boundary() {
    let d = Value::Double(Num::SafeInt(MAX_SAFE_INTEGER));
    let g = value_to_guest(&d).unwrap();
    assert!(matches!(g, GuestValue::Integer(n) if n == MAX_SAFE_INTEGER));
    let back = guest_to_value(&g).unwrap();
    assert!(matches!(back, Value::Double(Num::SafeInt(n)) if n == MAX_SAFE_INTEGER));

    let d = Value::Double(Num::SafeInt(-MAX_SAFE_INTEGER));
    let g = value_to_guest(&d).unwrap();
    let back = guest_to_value(&g).unwrap();
    assert!(matches!(back, Value::Double(Num::SafeInt(n)) if n == -MAX_SAFE_INTEGER));
}

#[test]
fn double_round_trip_fractional() {
    let d = Value::Double(Num::Float { bits: 0x3FF8000000000000, decimal: String::from("1.5") });
    let g = value_to_guest(&d).unwrap();
    match &g {
        GuestValue::Number(Num::Float { bits, decimal }) => {
            assert_eq!(*bits, 0x3FF8000000000000u64);
            assert_eq!(decimal, "1.5");
        }
        other => panic!("expected a guest float, got {:?}", kind_of(other)),
    }
    let back = guest_to_value(&g).unwrap();
    assert!(matches!(back, Value::Double(Num::Float { bits, .. }) if bits == 0x3FF8000000000000));
}

fn kind_of(g: &GuestValue) -> String {
    g.kind_name()
}

#[test]
fn large_integer_round_trip() {
    let over = MAX_SAFE_INTEGER + 1;
    let g = GuestValue::Integer(over);
    let v = guest_to_value(&g).unwrap();
    assert!(matches!(v, Value::LargeInteger(n) if n == over));
    let back = value_to_guest(&v).unwrap();
    assert!(matches!(back, GuestValue::Integer(n) if n == over));

    let under = -MAX_SAFE_INTEGER - 1;
    let v = guest_to_value(&GuestValue::Integer(under)).unwrap();
    assert!(matches!(v, Value::LargeInteger(n) if n == under));
    let back = value_to_guest(&v).unwrap();
    assert!(matches!(back, GuestValue::Integer(n) if n == under));

    let v = guest_to_value(&GuestValue::Integer(i64::MIN)).unwrap();
    assert!(matches!(v, Value::LargeInteger(n) if n == i64::MIN));
}

#[test]
fn safe_integer_stays_double() {
    let v = guest_to_value(&GuestValue::Integer(MAX_SAFE_INTEGER)).unwrap();
    assert!(matches!(v, Value::Double(Num::SafeInt(n)) if n == MAX_SAFE_INTEGER));
    let v = guest_to_value(&GuestValue::Integer(0)).unwrap();
    assert!(matches!(v, Value::Double(Num::SafeInt(0))));
}

#[test]
fn decimal_rendering() {
    assert_eq!(u64_to_decimal(0), "0");
    assert_eq!(u64_to_decimal(7), "7");
    assert_eq!(u64_to_decimal(1234567890), "1234567890");
    assert_eq!(u64_to_decimal(u64::MAX), "18446744073709551615");
    assert_eq!(i64_to_decimal(0), "0");
    assert_eq!(i64_to_decimal(-1), "-1");
    assert_eq!(i64_to_decimal(i64::MIN), "-9223372036854775808");
    assert_eq!(i64_to_decimal(i64::MAX), "9223372036854775807");
}

#[test]
fn signed_reading() {
    assert_eq!(parse_i64("0"), Some(0));
    assert_eq!(parse_i64("007"), Some(7));
    assert_eq!(parse_i64("+5"), Some(5));
    assert_eq!(parse_i64("-12"), Some(-12));
    assert_eq!(parse_i64("9223372036854775807"), Some(i64::MAX));
    assert_eq!(parse_i64("-9223372036854775808"), Some(i64::MIN));
    assert_eq!(parse_i64("9223372036854775808"), None);
    assert_eq!(parse_i64("-9223372036854775809"), None);
    assert_eq!(parse_i64(""), None);
    assert_eq!(parse_i64("+"), None);
    assert_eq!(parse_i64("-"), None);
    assert_eq!(parse_i64("1.5"), None);
    assert_eq!(parse_i64("12a"), None);
    assert_eq!(parse_i64(" 1"), None);
}

#[test]
fn canonical_index_reading() {
    assert_eq!(parse_index("0"), Some(0));
    assert_eq!(parse_index("3"), Some(3));
    assert_eq!(parse_index("00"), None);
    assert_eq!(parse_index("01"), None);
    assert_eq!(parse_index("4294967295"), Some(u32::MAX));
    assert_eq!(parse_index("4294967296"), None);
    assert_eq!(parse_index(""), None);
    assert_eq!(parse_index("-1"), None);
    assert_eq!(parse_index("1x"), None);
}
