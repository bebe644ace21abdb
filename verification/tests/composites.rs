//! Composite crossings: array-like and keyed entries, key
//! classification, and both directions across the boundary.

use lua_bridge::from_guest::{classify_guest_key, guest_to_value, KeyClass};
use lua_bridge::guest::GuestValue;
use lua_bridge::host::{HostKey, HostValue};
use lua_bridge::reader::read_host;
use lua_bridge::to_guest::{host_to_guest, value_to_guest};
use lua_bridge::value::{Num, Value};
use lua_bridge::Error;

fn gtext(s: &str) -> GuestValue {
    GuestValue::Text(String::from(s))
}

fn expect_text(v: &Value, want: &str) {
    match v {
        Value::Text(s) => assert_eq!(s, want),
        _ => panic!("expected text"),
    }
}

fn expect_guest_text(g: &GuestValue, want: &str) {
    match g {
        GuestValue::Text(s) => assert_eq!(s, want),
        _ => panic!("expected guest text"),
    }
}

#[test]
fn guest_array_to_host_and_back() {
    let t = GuestValue::Table(vec![
        (GuestValue::Integer(1), gtext("a")),
        (GuestValue::Integer(2), gtext("b")),
    ]);
    let v = guest_to_value(&t).unwrap();
    match &v {
        Value::Composite { keyed, indexed } => {
            assert!(keyed.is_empty());
            assert_eq!(indexed.len(), 2);
            assert_eq!(indexed[0].0, 0);
            expect_text(&indexed[0].1, "a");
            assert_eq!(indexed[1].0, 1);
            expect_text(&indexed[1].1, "b");
        }
        _ => panic!("expected a composite"),
    }
    let back = value_to_guest(&v).unwrap();
    match back {
        GuestValue::Table(entries) => {
            assert_eq!(entries.len(), 2);
            assert!(matches!(entries[0].0, GuestValue::Integer(1)));
            expect_guest_text(&entries[0].1, "a");
            assert!(matches!(entries[1].0, GuestValue::Integer(2)));
            expect_guest_text(&entries[1].1, "b");
        }
        _ => panic!("expected a guest table"),
    }
}

#[test]
fn zero_key_and_text_zero_key_stay_distinct() {
    let t = GuestValue::Table(vec![
        (GuestValue::Integer(0), gtext("x")),
        (gtext("0"), gtext("y")),
    ]);
    let v = guest_to_value(&t).unwrap();
    match &v {
        Value::Composite { keyed, indexed } => {
            assert!(indexed.is_empty());
            assert_eq!(keyed.len(), 2);
            match &keyed[0].0 {
                Value::Symbol { description, interned } => {
                    assert_eq!(description, "zero-collision-marker");
                    assert!(*interned);
                }
                _ => panic!("expected the marker symbol key"),
            }
            expect_text(&keyed[0].1, "x");
            match &keyed[1].0 {
                Value::Text(s) => assert_eq!(s, "'0'"),
                _ => panic!("expected a quoted text key"),
            }
            expect_text(&keyed[1].1, "y");
        }
        _ => panic!("expected a composite"),
    }
}

#[test]
fn marker_key_turns_back_into_zero() {
    let t = GuestValue::Table(vec![(GuestValue::Integer(0), gtext("x"))]);
    let v = guest_to_value(&t).unwrap();
    let back = value_to_guest(&v).unwrap();
    match back {
        GuestValue::Table(entries) => {
            assert_eq!(entries.len(), 1);
            assert!(matches!(entries[0].0, GuestValue::Integer(0)));
            expect_guest_text(&entries[0].1, "x");
        }
        _ => panic!("expected a guest table"),
    }
}

#[test]
fn host_object_numeric_looking_key() {
    let o = HostValue::Object(vec![
        (HostKey::Name(String::from("3")), HostValue::Text(String::from("x"))),
        (HostKey::Name(String::from("foo")), HostValue::Text(String::from("y"))),
    ]);
    let g = host_to_guest(&o).unwrap();
    match g {
        GuestValue::Table(entries) => {
            assert_eq!(entries.len(), 2);
            assert!(matches!(entries[0].0, GuestValue::Integer(4)));
            expect_guest_text(&entries[0].1, "x");
            match &entries[1].0 {
                GuestValue::Text(s) => assert_eq!(s, "foo"),
                _ => panic!("expected a plain string key"),
            }
            expect_guest_text(&entries[1].1, "y");
        }
        _ => panic!("expected a guest table"),
    }
}

#[test]
fn key_classification() {
    assert!(matches!(classify_guest_key(&GuestValue::Integer(1)), Ok(KeyClass::ArrayIndex(0))));
    assert!(matches!(
        classify_guest_key(&GuestValue::Integer(4294967296)),
        Ok(KeyClass::ArrayIndex(i)) if i == u32::MAX
    ));
    match classify_guest_key(&GuestValue::Integer(4294967297)).unwrap() {
        KeyClass::Keyed(Value::Text(s)) => assert_eq!(s, "4294967297"),
        _ => panic!("expected a keyed decimal"),
    }
    match classify_guest_key(&GuestValue::Integer(-1)).unwrap() {
        KeyClass::Keyed(Value::Text(s)) => assert_eq!(s, "-1"),
        _ => panic!("expected a keyed decimal"),
    }
    match classify_guest_key(&GuestValue::Number(Num::SafeInt(5))).unwrap() {
        KeyClass::Keyed(Value::Text(s)) => assert_eq!(s, "5"),
        _ => panic!("expected a keyed decimal"),
    }
    match classify_guest_key(&GuestValue::Number(Num::Float {
        bits: 0x3FF8000000000000,
        decimal: String::from("1.5"),
    }))
    .unwrap()
    {
        KeyClass::Keyed(Value::Text(s)) => assert_eq!(s, "1.5"),
        _ => panic!("expected the decimal form"),
    }
    match classify_guest_key(&gtext("5")).unwrap() {
        KeyClass::Keyed(Value::Text(s)) => assert_eq!(s, "'5'"),
        _ => panic!("expected a quoted key"),
    }
    match classify_guest_key(&gtext("007")).unwrap() {
        KeyClass::Keyed(Value::Text(s)) => assert_eq!(s, "'7'"),
        _ => panic!("expected the canonical quoted key"),
    }
    match classify_guest_key(&gtext("hello")).unwrap() {
        KeyClass::Keyed(Value::Text(s)) => assert_eq!(s, "hello"),
        _ => panic!("expected the key to pass through"),
    }
    match classify_guest_key(&GuestValue::Boolean(true)) {
        Err(e) => assert_eq!(e.message(), "unsupported key kind: boolean"),
        Ok(_) => panic!("expected a refusal"),
    }
}

#[test]
fn function_and_thread_values_become_placeholders() {
    let t = GuestValue::Table(vec![
        (GuestValue::Integer(1), GuestValue::Function),
        (GuestValue::Integer(2), GuestValue::Thread),
    ]);
    let v = guest_to_value(&t).unwrap();
    match &v {
        Value::Composite { indexed, .. } => {
            expect_text(&indexed[0].1, "[LuaFunction]");
            expect_text(&indexed[1].1, "[LuaThread]");
        }
        _ => panic!("expected a composite"),
    }
}

#[test]
fn guest_error_value_crosses_as_error() {
    let v = guest_to_value(&GuestValue::ErrorValue(String::from("boom"))).unwrap();
    assert!(matches!(v, Value::Error(m) if m == "boom"));
}

#[test]
fn opaque_guest_value_is_refused() {
    let t = GuestValue::Table(vec![(GuestValue::Integer(1), GuestValue::Opaque(String::from(
        "userdata",
    )))]);
    match guest_to_value(&t) {
        Err(e) => assert_eq!(e.message(), "unsupported value kind: userdata"),
        Ok(_) => panic!("expected a refusal"),
    }
}

#[test]
fn no_entry_is_dropped() {
    let t = GuestValue::Table(vec![
        (GuestValue::Integer(10), gtext("a")),
        (gtext("k"), gtext("b")),
        (GuestValue::Integer(-3), gtext("c")),
        (GuestValue::Integer(0), gtext("d")),
    ]);
    match guest_to_value(&t).unwrap() {
        Value::Composite { keyed, indexed } => {
            assert_eq!(keyed.len() + indexed.len(), 4);
            assert_eq!(indexed.len(), 1);
            assert_eq!(indexed[0].0, 9);
        }
        _ => panic!("expected a composite"),
    }
}

#[test]
fn host_array_reads_zero_based() {
    let a = HostValue::Array(vec![
        HostValue::Text(String::from("a")),
        HostValue::Boolean(true),
        HostValue::Null,
    ]);
    match read_host(&a).unwrap() {
        Value::Composite { keyed, indexed } => {
            assert!(keyed.is_empty());
            assert_eq!(indexed.len(), 3);
            assert_eq!(indexed[0].0, 0);
            expect_text(&indexed[0].1, "a");
            assert!(matches!(indexed[1].1, Value::Boolean(true)));
            assert!(matches!(indexed[2].1, Value::Null));
        }
        _ => panic!("expected a composite"),
    }
}

#[test]
fn host_object_reads_split_by_key_shape() {
    let o = HostValue::Object(vec![
        (HostKey::Name(String::from("0")), HostValue::Text(String::from("i"))),
        (HostKey::Name(String::from("00")), HostValue::Text(String::from("k"))),
        (HostKey::Name(String::from("name")), HostValue::BigInt(7)),
    ]);
    match read_host(&o).unwrap() {
        Value::Composite { keyed, indexed } => {
            assert_eq!(indexed.len(), 1);
            assert_eq!(indexed[0].0, 0);
            expect_text(&indexed[0].1, "i");
            assert_eq!(keyed.len(), 2);
            match &keyed[0].0 {
                Value::Text(s) => assert_eq!(s, "00"),
                _ => panic!("expected a text key"),
            }
            assert!(matches!(keyed[1].1, Value::LargeInteger(7)));
        }
        _ => panic!("expected a composite"),
    }
}

#[test]
fn host_function_reads_as_placeholder_but_fails_direct_conversion() {
    match read_host(&HostValue::Function).unwrap() {
        Value::Text(s) => assert_eq!(s, "[JsFunction]"),
        _ => panic!("expected the placeholder"),
    }
    match host_to_guest(&HostValue::Function) {
        Err(e) => assert_eq!(e.message(), "unsupported value kind: function"),
        Ok(_) => panic!("expected a refusal"),
    }
}

#[test]
fn host_bigint_converts_losslessly() {
    let g = host_to_guest(&HostValue::BigInt(9007199254740993)).unwrap();
    assert!(matches!(g, GuestValue::Integer(9007199254740993)));
}

#[test]
fn host_array_converts_one_based() {
    let a = HostValue::Array(vec![
        HostValue::Text(String::from("a")),
        HostValue::Text(String::from("b")),
    ]);
    match host_to_guest(&a).unwrap() {
        GuestValue::Table(entries) => {
            assert!(matches!(entries[0].0, GuestValue::Integer(1)));
            assert!(matches!(entries[1].0, GuestValue::Integer(2)));
        }
        _ => panic!("expected a guest table"),
    }
}

#[test]
fn nothing_states_collapse_inward() {
    assert!(matches!(value_to_guest(&Value::Null).unwrap(), GuestValue::Nil));
    assert!(matches!(value_to_guest(&Value::Undefined).unwrap(), GuestValue::Nil));
    assert!(matches!(host_to_guest(&HostValue::Undefined).unwrap(), GuestValue::Nil));
}

#[test]
fn multi_into_array_wraps_results() {
    let v = Value::multi_into_array(vec![Value::Text(String::from("a")), Value::Null]);
    match v {
        Value::Composite { keyed, indexed } => {
            assert!(keyed.is_empty());
            assert_eq!(indexed.len(), 2);
            assert_eq!(indexed[0].0, 0);
            assert!(matches!(indexed[1].1, Value::Null));
        }
        _ => panic!("expected a composite"),
    }
}

#[test]
fn mixed_composite_round_trip() {
    // array-like entries first, then the zero key and plain string keys:
    // the fragment on which the round trip reproduces the table exactly
    let t = GuestValue::Table(vec![
        (GuestValue::Integer(1), gtext("a")),
        (GuestValue::Integer(2), GuestValue::Boolean(true)),
        (GuestValue::Integer(0), gtext("zero")),
        (gtext("name"), GuestValue::Integer(9007199254740992)),
        (
            gtext("nested"),
            GuestValue::Table(vec![(GuestValue::Integer(1), GuestValue::Nil)]),
        ),
    ]);
    let v = guest_to_value(&t).unwrap();
    let back = value_to_guest(&v).unwrap();
    match back {
        GuestValue::Table(entries) => {
            assert_eq!(entries.len(), 5);
            assert!(matches!(entries[0].0, GuestValue::Integer(1)));
            expect_guest_text(&entries[0].1, "a");
            assert!(matches!(entries[1].0, GuestValue::Integer(2)));
            assert!(matches!(entries[1].1, GuestValue::Boolean(true)));
            assert!(matches!(entries[2].0, GuestValue::Integer(0)));
            expect_guest_text(&entries[2].1, "zero");
            match &entries[3].0 {
                GuestValue::Text(s) => assert_eq!(s, "name"),
                _ => panic!("expected the string key back"),
            }
            assert!(matches!(entries[3].1, GuestValue::Integer(9007199254740992)));
            match &entries[4].1 {
                GuestValue::Table(inner) => {
                    assert_eq!(inner.len(), 1);
                    assert!(matches!(inner[0].0, GuestValue::Integer(1)));
                    assert!(matches!(inner[0].1, GuestValue::Nil));
                }
                _ => panic!("expected the nested table back"),
            }
        }
        _ => panic!("expected a guest table"),
    }
}

#[test]
fn empty_composite_round_trip() {
    let t = GuestValue::Table(vec![]);
    let v = guest_to_value(&t).unwrap();
    match &v {
        Value::Composite { keyed, indexed } => {
            assert!(keyed.is_empty());
            assert!(indexed.is_empty());
        }
        _ => panic!("expected a composite"),
    }
    match value_to_guest(&v).unwrap() {
        GuestValue::Table(entries) => assert!(entries.is_empty()),
        _ => panic!("expected an empty guest table"),
    }
}

#[test]
fn equal_keys_are_kept_in_order() {
    // the bridge never deduplicates: both entries survive, in order, and
    // the later one wins only where the host container resolves them
    let t = GuestValue::Table(vec![
        (GuestValue::Integer(1), gtext("first")),
        (GuestValue::Integer(1), gtext("second")),
    ]);
    match guest_to_value(&t).unwrap() {
        Value::Composite { keyed, indexed } => {
            assert!(keyed.is_empty());
            assert_eq!(indexed.len(), 2);
            assert_eq!(indexed[0].0, 0);
            expect_text(&indexed[0].1, "first");
            assert_eq!(indexed[1].0, 0);
            expect_text(&indexed[1].1, "second");
        }
        _ => panic!("expected a composite"),
    }
}

#[test]
fn empty_string_key_passes_through() {
    match classify_guest_key(&gtext("")).unwrap() {
        KeyClass::Keyed(Value::Text(s)) => assert_eq!(s, ""),
        _ => panic!("expected the empty key to pass through"),
    }
}

#[test]
fn conversion_errors_are_typed() {
    let t = GuestValue::Table(vec![(GuestValue::Nil, gtext("v"))]);
    match guest_to_value(&t) {
        Err(Error::Conversion(_)) => {}
        _ => panic!("expected a typed conversion failure"),
    }
}
