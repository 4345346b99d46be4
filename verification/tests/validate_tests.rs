use std::collections::BTreeMap;
use std::collections::HashMap;
use std::time::Duration;

use cfg_rs::{validate_custom, validate_length, validate_not_empty, validate_range,
    validate_regex, ConfigError};

fn key(name: &'static str) -> impl Fn() -> String {
    move || name.to_string()
}

#[test]
fn validate_range_numeric_and_duration() {
    assert!(validate_range(key("u8"), &5u8, Some(&1u8), Some(&10u8)).is_ok());
    assert!(validate_range(key("u8"), &0u8, Some(&1u8), None).is_err());
    assert!(validate_range(key("u16"), &5u16, Some(&1u16), Some(&10u16)).is_ok());
    assert!(validate_range(key("u32"), &5u32, Some(&1u32), Some(&10u32)).is_ok());
    assert!(validate_range(key("u64"), &5u64, Some(&1u64), Some(&10u64)).is_ok());
    assert!(validate_range(key("u128"), &5u128, Some(&1u128), Some(&10u128)).is_ok());
    assert!(validate_range(key("usize"), &5usize, Some(&1usize), Some(&10usize)).is_ok());

    assert!(validate_range(key("i8"), &-2i8, Some(&-5i8), Some(&-1i8)).is_ok());
    assert!(validate_range(key("i16"), &-2i16, Some(&-5i16), Some(&-1i16)).is_ok());
    assert!(validate_range(key("i32"), &-2i32, Some(&-5i32), Some(&-1i32)).is_ok());
    assert!(validate_range(key("i64"), &-2i64, Some(&-5i64), Some(&-1i64)).is_ok());
    assert!(validate_range(key("i128"), &-2i128, Some(&-5i128), Some(&-1i128)).is_ok());
    assert!(validate_range(key("isize"), &-2isize, Some(&-5isize), Some(&-1isize)).is_ok());

    assert!(validate_range(key("f32"), &1.5f32, Some(&0.5f32), Some(&2.0f32)).is_ok());
    assert!(validate_range(key("f64"), &1.5f64, Some(&0.5f64), Some(&2.0f64)).is_ok());

    let dur = Duration::from_secs(5);
    assert!(validate_range(key("dur"), &dur, Some(&Duration::from_secs(1)), None).is_ok());
    assert!(validate_range(key("dur"), &dur, Some(&Duration::from_secs(6)), None).is_err());
}

#[test]
fn validate_range_rejects_nan() {
    let value = f64::NAN;
    let err = validate_range(key("nan"), &value, Some(&0.0f64), Some(&1.0f64))
        .expect_err("expected NaN to be rejected");
    match err {
        ConfigError::ConfigParseError(key, message) => {
            assert_eq!(key, "nan");
            assert!(message.contains("not comparable"));
        },
        other => panic!("unexpected error: {:?}", other),
    }
}

#[test]
fn validate_range_above_max() {
    let err = validate_range(key("u8"), &11u8, Some(&1u8), Some(&10u8))
        .expect_err("expected the maximum to be enforced");
    match err {
        ConfigError::ConfigParseError(key, message) => {
            assert_eq!(key, "u8");
            assert!(message.contains("<= max"));
        },
        other => panic!("unexpected error: {:?}", other),
    }
}

#[test]
fn validate_length_basic_types() {
    let s = "hello".to_string();
    assert!(validate_length(key("s"), &s, Some(1), Some(10)).is_ok());
    assert!(validate_length(key("s"), &s, Some(6), None).is_err());

    let v = vec![1, 2, 3];
    assert!(validate_length(key("v"), &v, Some(1), Some(3)).is_ok());
    assert!(validate_length(key("v"), &v, None, Some(2)).is_err());

    let mut hm = HashMap::new();
    hm.insert("a", 1);
    assert!(validate_length(key("hm"), &hm, Some(1), None).is_ok());

    let mut bm = BTreeMap::new();
    bm.insert("a", 1);
    bm.insert("b", 2);
    assert!(validate_length(key("bm"), &bm, Some(1), Some(2)).is_ok());
}

#[test]
fn validate_not_empty_basic_types() {
    let s = "hello".to_string();
    assert!(validate_not_empty(key("s"), &s).is_ok());
    let s_empty = "".to_string();
    assert!(validate_not_empty(key("s"), &s_empty).is_err());

    let v = vec![1, 2, 3];
    assert!(validate_not_empty(key("v"), &v).is_ok());
    let v_empty: Vec<u8> = Vec::new();
    assert!(validate_not_empty(key("v"), &v_empty).is_err());

    let mut hm = HashMap::new();
    hm.insert("a", 1);
    assert!(validate_not_empty(key("hm"), &hm).is_ok());
    let hm_empty: HashMap<&str, u8> = HashMap::new();
    assert!(validate_not_empty(key("hm"), &hm_empty).is_err());
}

#[test]
fn validate_regex_basic() {
    let pattern = regex::Regex::new("^[a-z]+$").unwrap();
    assert!(validate_regex(key("re"), &pattern, "hello").is_ok());
    let err = validate_regex(key("re"), &pattern, "Hello7").expect_err("expected a mismatch");
    match err {
        ConfigError::ConfigParseError(key, message) => {
            assert_eq!(key, "re");
            assert!(message.contains("regex mismatch"));
            assert!(message.contains("^[a-z]+$"));
        },
        other => panic!("unexpected error: {:?}", other),
    }
}

#[test]
fn validate_custom_basic() {
    let ok = validate_custom(key("c"), &5u8, |v: &u8| if *v < 10 {
        Ok(())
    } else {
        Err("too big".to_string())
    });
    assert!(ok.is_ok());
    let err = validate_custom(key("c"), &50u8, |v: &u8| if *v < 10 {
        Ok(())
    } else {
        Err("too big".to_string())
    }).expect_err("expected the custom check to fail");
    match err {
        ConfigError::ConfigParseError(key, message) => {
            assert_eq!(key, "c");
            assert_eq!(message, "too big");
        },
        other => panic!("unexpected error: {:?}", other),
    }
}
