use cfg_rs::{parse_duration_str, ConfigError, ConfigValue, Configuration};

fn sv(v: &str) -> ConfigValue {
    ConfigValue::Str(v.to_string())
}

fn config_with(key: &str, v: ConfigValue) -> Configuration {
    Configuration::new().register_kv("test").set(key, v).finish().unwrap()
}

#[test]
fn duration_test() {
    assert_eq!(Some((123, 0)), parse_duration_str("123"));
    assert_eq!(Some((123, 0)), parse_duration_str("123s"));
    assert_eq!(Some((10 * 60, 0)), parse_duration_str("10m"));
    assert_eq!(Some((123 * 3600, 0)), parse_duration_str("123h"));
    assert_eq!(Some((0, 123 * 1000000)), parse_duration_str("123ms"));
    assert_eq!(Some((0, 123 * 1000)), parse_duration_str("123us"));
    assert_eq!(Some((0, 123)), parse_duration_str("123ns"));
    assert_eq!(Some((1, 0)), parse_duration_str("1000ms"));
    assert_eq!(None, parse_duration_str("12x"));
    // a bare or missing number counts as zero of the unit
    assert_eq!(Some((0, 0)), parse_duration_str(""));
    assert_eq!(Some((0, 0)), parse_duration_str("ms"));
}

#[test]
fn bool_values_test() {
    assert_eq!(true, config_with("k", sv("yes")).get::<bool>("k").unwrap());
    assert_eq!(true, config_with("k", sv("true")).get::<bool>("k").unwrap());
    assert_eq!(false, config_with("k", sv("no")).get::<bool>("k").unwrap());
    assert_eq!(false, config_with("k", sv("false")).get::<bool>("k").unwrap());
    // case folding happens before the match
    assert_eq!(true, config_with("k", sv("Yes")).get::<bool>("k").unwrap());
    assert_eq!(false, config_with("k", sv("FALSE")).get::<bool>("k").unwrap());
    assert_eq!(true, config_with("k", ConfigValue::Bool(true)).get::<bool>("k").unwrap());

    assert!(config_with("k", sv("x")).get::<bool>("k").is_err());
    assert!(config_with("k", sv("n")).get::<bool>("k").is_err());
    assert!(config_with("k", sv("f")).get::<bool>("k").is_err());
    assert!(config_with("k", sv("y")).get::<bool>("k").is_err());
    assert!(config_with("k", sv("t")).get::<bool>("k").is_err());
    assert!(config_with("k", ConfigValue::Int(0)).get::<bool>("k").is_err());
    assert!(config_with("k", ConfigValue::Int(1)).get::<bool>("k").is_err());
}

#[test]
fn int_values_test() {
    assert_eq!(0u8, config_with("k", sv("0")).get::<u8>("k").unwrap());
    assert_eq!(255u8, config_with("k", sv("255")).get::<u8>("k").unwrap());
    assert!(config_with("k", sv("256")).get::<u8>("k").is_err());
    assert!(config_with("k", sv("-1")).get::<u8>("k").is_err());
    assert_eq!(-7i8, config_with("k", sv("-7")).get::<i8>("k").unwrap());
    assert_eq!(12i32, config_with("k", sv("+12")).get::<i32>("k").unwrap());
    assert_eq!(
        i64::MIN,
        config_with("k", sv("-9223372036854775808")).get::<i64>("k").unwrap()
    );
    assert_eq!(
        i128::MIN,
        config_with("k", sv("-170141183460469231731687303715884105728")).get::<i128>("k").unwrap()
    );
    assert_eq!(
        u128::MAX,
        config_with("k", sv("340282366920938463463374607431768211455")).get::<u128>("k").unwrap()
    );
    assert!(config_with("k", sv("340282366920938463463374607431768211456"))
        .get::<u128>("k")
        .is_err());
    // a stored integer narrows only when it fits
    assert_eq!(7u8, config_with("k", ConfigValue::Int(7)).get::<u8>("k").unwrap());
    assert!(config_with("k", ConfigValue::Int(300)).get::<u8>("k").is_err());
    assert!(config_with("k", ConfigValue::Int(-1)).get::<u8>("k").is_err());
    // integers render as text when read as strings
    assert_eq!("-42", config_with("k", ConfigValue::Int(-42)).get::<String>("k").unwrap());
    assert_eq!("true", config_with("k", ConfigValue::Bool(true)).get::<String>("k").unwrap());
}

#[test]
fn error_variant_test() {
    // each error kind has an input that yields it
    let cfg = config_with("a", sv("${a}"));
    assert!(matches!(cfg.get::<String>("missing"), Err(ConfigError::ConfigNotFound(_))));
    assert!(matches!(cfg.get::<String>("a"), Err(ConfigError::ConfigRecursiveError(_))));
    let cfg2 = config_with("b", sv("${gone}"));
    assert!(matches!(
        cfg2.get::<String>("b"),
        Err(ConfigError::ConfigRecursiveNotFound(k)) if k == "gone"
    ));
    let cfg3 = config_with("c", sv("${"));
    assert!(matches!(cfg3.get::<String>("c"), Err(ConfigError::ConfigParseError(_, _))));
    let cfg4 = config_with("d", ConfigValue::Int(1));
    assert!(matches!(cfg4.get::<bool>("d"), Err(ConfigError::ConfigTypeMismatch(_, _, _))));
    let cfg5 = config_with("e", sv("x9"));
    assert!(matches!(cfg5.get::<u8>("e"), Err(ConfigError::ConfigCause(_))));
}

#[test]
fn option_tests() {
    let context = Configuration::new();
    assert_eq!(None, context.get::<Option<u8>>("key").unwrap());
    assert_eq!(None, context.get::<Option<u16>>("key").unwrap());
    assert_eq!(None, context.get::<Option<u32>>("key").unwrap());
    assert_eq!(None, context.get::<Option<u64>>("key").unwrap());
    assert_eq!(None, context.get::<Option<u128>>("key").unwrap());
    assert_eq!(None, context.get::<Option<usize>>("key").unwrap());
    assert_eq!(None, context.get::<Option<i8>>("key").unwrap());
    assert_eq!(None, context.get::<Option<i16>>("key").unwrap());
    assert_eq!(None, context.get::<Option<i32>>("key").unwrap());
    assert_eq!(None, context.get::<Option<i64>>("key").unwrap());
    assert_eq!(None, context.get::<Option<i128>>("key").unwrap());
    assert_eq!(None, context.get::<Option<isize>>("key").unwrap());
    assert_eq!(None, context.get::<Option<String>>("key").unwrap());
    assert_eq!(None, context.get::<Option<bool>>("key").unwrap());
}

#[test]
fn ref_value_cell_test() {
    // a standalone cell holds, shares and updates its value
    let cell = cfg_rs::RefValue::new("some.key".to_string(), 5u64);
    assert_eq!("some.key", cell.bound_key());
    assert_eq!(5, cell.get().unwrap());
    let other = cell.duplicate();
    cell.set(9).unwrap();
    assert_eq!(9, other.get().unwrap());
    assert_eq!(14, cell.with(|v: &u64| *v + 5).unwrap());

    let io = cfg_rs::IORef::new(1u8, "io.slot");
    assert_eq!("io.slot", io.name());
    io.set(3).unwrap();
    assert_eq!(3, io.get().unwrap());
}
