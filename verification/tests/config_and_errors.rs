//! The library-selection configuration and the error surface.

use lua_bridge::config::{
    build_libraries, flag_into_lib, flag_to_string, stdlib_contains_unsafe, FLAG_ALL_SAFE,
    LIB_ALL, LIB_BIT, LIB_DEBUG, LIB_MATH, LIB_TABLE, MASK_ALL_SAFE,
};
use lua_bridge::error::{ConversionKind, Error};

#[test]
fn known_flags_map_to_themselves() {
    assert_eq!(flag_into_lib(LIB_TABLE), Some(LIB_TABLE));
    assert_eq!(flag_into_lib(LIB_MATH), Some(LIB_MATH));
    assert_eq!(flag_into_lib(LIB_ALL), Some(LIB_ALL));
    assert_eq!(flag_into_lib(FLAG_ALL_SAFE), Some(MASK_ALL_SAFE));
    assert_eq!(flag_into_lib(LIB_BIT), None);
    assert_eq!(flag_into_lib(3), None);
}

#[test]
fn flag_names() {
    assert_eq!(flag_to_string(LIB_TABLE), "table");
    assert_eq!(flag_to_string(LIB_DEBUG), "debug");
    assert_eq!(flag_to_string(LIB_ALL), "ALL");
    assert_eq!(flag_to_string(FLAG_ALL_SAFE), "ALL_SAFE");
    assert_eq!(flag_to_string(7), "7");
}

#[test]
fn building_a_mask() {
    assert_eq!(build_libraries(&vec![], "lua54").unwrap(), 0);
    assert_eq!(build_libraries(&vec![LIB_TABLE, LIB_MATH], "lua54").unwrap(), 0x82);
    assert_eq!(build_libraries(&vec![LIB_TABLE, LIB_TABLE], "lua54").unwrap(), LIB_TABLE);
}

#[test]
fn unknown_flag_is_reported_by_name_and_version() {
    match build_libraries(&vec![LIB_TABLE, LIB_BIT], "lua54") {
        Err(Error::HostBoundary(m)) => {
            assert_eq!(m, "unrecognized Library flag \"bit\" for lua54");
        }
        _ => panic!("expected the unrecognized-flag failure"),
    }
    match build_libraries(&vec![12], "lua54") {
        Err(Error::HostBoundary(m)) => {
            assert_eq!(m, "unrecognized Library flag \"12\" for lua54");
        }
        _ => panic!("expected the unrecognized-flag failure"),
    }
}

#[test]
fn unsafe_capability_detection() {
    assert!(stdlib_contains_unsafe(LIB_DEBUG));
    assert!(stdlib_contains_unsafe(LIB_DEBUG | LIB_TABLE));
    assert!(!stdlib_contains_unsafe(LIB_TABLE | LIB_MATH));
    assert!(!stdlib_contains_unsafe(0));
    assert!(stdlib_contains_unsafe(LIB_ALL));
    assert!(!stdlib_contains_unsafe(MASK_ALL_SAFE));
}

#[test]
fn error_messages() {
    let e = Error::Conversion(ConversionKind::UnsupportedKeyKind(String::from("thread")));
    assert_eq!(e.message(), "unsupported key kind: thread");
    let e = Error::Conversion(ConversionKind::UnsupportedValueKind(String::from("userdata")));
    assert_eq!(e.message(), "unsupported value kind: userdata");
    let e = Error::Conversion(ConversionKind::PrecisionViolation);
    assert_eq!(e.message(), "precision violation");
    let e = Error::EmbeddedRuntime {
        message: String::from("attempt to call a nil value"),
        chunk_name: String::from("init.lua"),
    };
    assert_eq!(e.message(), "init.lua: attempt to call a nil value");
    let e = Error::HostBoundary(String::from("queue closed"));
    assert_eq!(e.message(), "queue closed");
}
