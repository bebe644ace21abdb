//! Symbol identity: the registry, interned stability, fresh
//! distinctness, and the refusal of host symbols crossing inward.

use lua_bridge::host::{HostKey, HostValue};
use lua_bridge::materialize::{materialize, HostOut, HostProp, SymbolRegistry};
use lua_bridge::to_guest::{host_to_guest, value_to_guest};
use lua_bridge::value::{Num, Value};
use lua_bridge::error::{ConversionKind, Error};

fn sym(description: &str, interned: bool) -> Value {
    Value::Symbol { description: String::from(description), interned }
}

fn materialized_id(v: &Value, reg: &mut SymbolRegistry) -> u64 {
    match materialize(v, reg).unwrap() {
        HostOut::Symbol { id, .. } => id,
        _ => panic!("expected a symbol"),
    }
}

#[test]
fn host_symbol_fails_inward_typed() {
    match host_to_guest(&HostValue::Symbol(String::from("tag"))) {
        Err(Error::Conversion(ConversionKind::UnsupportedKeyKind(k))) => {
            assert_eq!(k, "symbol");
        }
        _ => panic!("expected the typed unsupported-key failure"),
    }
}

#[test]
fn host_symbol_key_fails_inward_typed() {
    let o = HostValue::Object(vec![(
        HostKey::Symbol(String::from("tag")),
        HostValue::Boolean(true),
    )]);
    match host_to_guest(&o) {
        Err(Error::Conversion(ConversionKind::UnsupportedKeyKind(k))) => {
            assert_eq!(k, "symbol");
        }
        _ => panic!("expected the typed unsupported-key failure"),
    }
}

#[test]
fn interned_symbol_keeps_identity() {
    let mut reg = SymbolRegistry::new();
    let v = sym("x", true);
    let first = materialized_id(&v, &mut reg);
    let second = materialized_id(&v, &mut reg);
    assert_eq!(first, second);
}

#[test]
fn fresh_symbol_gets_new_identity() {
    let mut reg = SymbolRegistry::new();
    let v = sym("x", false);
    let first = materialized_id(&v, &mut reg);
    let second = materialized_id(&v, &mut reg);
    assert_ne!(first, second);
}

#[test]
fn interned_identity_is_per_description() {
    let mut reg = SymbolRegistry::new();
    let a1 = materialized_id(&sym("a", true), &mut reg);
    let b = materialized_id(&sym("b", true), &mut reg);
    let a2 = materialized_id(&sym("a", true), &mut reg);
    assert_ne!(a1, b);
    assert_eq!(a1, a2);
}

#[test]
fn fresh_allocation_does_not_disturb_interned() {
    let mut reg = SymbolRegistry::new();
    let a1 = materialized_id(&sym("a", true), &mut reg);
    let f = materialized_id(&sym("a", false), &mut reg);
    let a2 = materialized_id(&sym("a", true), &mut reg);
    assert_ne!(a1, f);
    assert_eq!(a1, a2);
}

#[test]
fn symbol_key_materializes_through_registry() {
    let marker = Value::Symbol { description: String::from("zero-collision-marker"), interned: true };
    let composite = Value::Composite {
        keyed: vec![(marker, Value::Text(String::from("v")))],
        indexed: vec![],
    };
    let mut reg = SymbolRegistry::new();
    match materialize(&composite, &mut reg).unwrap() {
        HostOut::Container { array_like, writes } => {
            assert!(!array_like);
            assert_eq!(writes.len(), 1);
            match &writes[0].0 {
                HostProp::Symbol { description, id, interned } => {
                    assert!(*interned);
                    assert_eq!(description, "zero-collision-marker");
                    let again = materialized_id(
                        &sym("zero-collision-marker", true),
                        &mut reg,
                    );
                    assert_eq!(*id, again);
                }
                _ => panic!("expected a symbol property"),
            }
        }
        _ => panic!("expected a container"),
    }
}

#[test]
fn non_interned_symbol_value_becomes_description_table() {
    let v = sym("tag", false);
    match value_to_guest(&v).unwrap() {
        lua_bridge::guest::GuestValue::Table(entries) => {
            assert_eq!(entries.len(), 1);
            match (&entries[0].0, &entries[0].1) {
                (
                    lua_bridge::guest::GuestValue::Text(k),
                    lua_bridge::guest::GuestValue::Text(d),
                ) => {
                    assert_eq!(k, "description");
                    assert_eq!(d, "tag");
                }
                _ => panic!("expected text key and value"),
            }
        }
        _ => panic!("expected a one-entry table"),
    }
}

#[test]
fn interned_symbol_value_cannot_enter_guest() {
    match value_to_guest(&sym("tag", true)) {
        Err(e) => assert_eq!(e.message(), "unsupported value kind: symbol"),
        Ok(_) => panic!("expected a refusal"),
    }
}

#[test]
fn materializing_scalars() {
    let mut reg = SymbolRegistry::new();
    assert!(matches!(
        materialize(&Value::Double(Num::SafeInt(7)), &mut reg).unwrap(),
        HostOut::Number(Num::SafeInt(7))
    ));
    assert!(matches!(
        materialize(&Value::LargeInteger(9007199254740993), &mut reg).unwrap(),
        HostOut::BigInt(9007199254740993)
    ));
    assert!(matches!(materialize(&Value::Null, &mut reg).unwrap(), HostOut::Null));
    assert!(matches!(materialize(&Value::Undefined, &mut reg).unwrap(), HostOut::Undefined));
}

#[test]
fn error_value_materializes_as_failure() {
    let mut reg = SymbolRegistry::new();
    match materialize(&Value::Error(String::from("script exploded")), &mut reg) {
        Err(Error::HostBoundary(m)) => assert_eq!(m, "script exploded"),
        _ => panic!("expected the guest error to surface typed"),
    }
}

#[test]
fn indices_are_written_before_keys() {
    let composite = Value::Composite {
        keyed: vec![(Value::Text(String::from("5")), Value::Text(String::from("late")))],
        indexed: vec![(5, Value::Text(String::from("early")))],
    };
    let mut reg = SymbolRegistry::new();
    match materialize(&composite, &mut reg).unwrap() {
        HostOut::Container { array_like, writes } => {
            assert!(array_like);
            assert_eq!(writes.len(), 2);
            assert!(matches!(writes[0].0, HostProp::Index(5)));
            match &writes[1].0 {
                HostProp::Name(n) => assert_eq!(n, "5"),
                _ => panic!("expected the keyed write last"),
            }
        }
        _ => panic!("expected a container"),
    }
}

#[test]
fn empty_indexed_part_makes_plain_object() {
    let composite = Value::Composite {
        keyed: vec![(Value::Text(String::from("k")), Value::Boolean(true))],
        indexed: vec![],
    };
    let mut reg = SymbolRegistry::new();
    match materialize(&composite, &mut reg).unwrap() {
        HostOut::Container { array_like, .. } => assert!(!array_like),
        _ => panic!("expected a container"),
    }
}

#[test]
fn scalar_keys_are_written_under_canonical_text() {
    let composite = Value::Composite {
        keyed: vec![
            (Value::Double(Num::SafeInt(7)), Value::Null),
            (Value::Boolean(true), Value::Null),
            (Value::LargeInteger(-2), Value::Null),
        ],
        indexed: vec![],
    };
    let mut reg = SymbolRegistry::new();
    match materialize(&composite, &mut reg).unwrap() {
        HostOut::Container { writes, .. } => {
            match &writes[0].0 {
                HostProp::Name(n) => assert_eq!(n, "7"),
                _ => panic!("expected a name"),
            }
            match &writes[1].0 {
                HostProp::Name(n) => assert_eq!(n, "true"),
                _ => panic!("expected a name"),
            }
            match &writes[2].0 {
                HostProp::Name(n) => assert_eq!(n, "-2"),
                _ => panic!("expected a name"),
            }
        }
        _ => panic!("expected a container"),
    }
}
