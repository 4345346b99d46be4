use cfg_rs::{ConfigError, ConfigValue, Configuration, RefValue, RefreshEntry, Refresher,
    SharedSource, SourceKind, push_step};

fn sv(v: &str) -> ConfigValue {
    ConfigValue::Str(v.to_string())
}

#[test]
fn configuration_refresh_tests() {
    let mut cfg = Configuration::new();
    // No loader registered, refresh should return false
    assert_eq!(cfg.refresh_ref().unwrap(), false);
    assert_eq!(cfg.refresh().unwrap(), false);
}

#[test]
fn manual_source_chain_finish() {
    let cfg = Configuration::new();
    let manual = cfg.register_kv("ms").set("k", sv("v"));
    let cfg = manual.finish().unwrap();
    let got = cfg.get::<String>("k").unwrap();
    assert_eq!(got, "v".to_string());
}

#[test]
fn recursive_test() {
    let config = Configuration::new();
    let v = config.get::<RefValue<RefValue<u8>>>("hello");
    assert_eq!(true, v.is_err());
    match v.err().unwrap() {
        ConfigError::RefValueRecursiveError => {},
        e => {
            println!("{:?}", e);
            assert_eq!(true, false)
        },
    }
}

#[test]
fn refresh_test() {
    let r = SharedSource::new("r");
    r.set("hello", ConfigValue::Int(0));
    assert_eq!("r", cfg_rs::ConfigSource::name(&r));
    let config = Configuration::new()
        .register_source(SourceKind::Shared(r.handle()))
        .unwrap();
    let v = config.get::<RefValue<u64>>("hello").unwrap();

    for i in 0..1000u64 {
        r.set("hello", ConfigValue::Int(i as i64));
        assert_eq!(true, config.refresh_ref().unwrap());
        assert_eq!(false, config.refresh_ref().unwrap());
        assert_eq!(i, v.get().unwrap());
        assert_eq!(0, config.get::<u64>("hello").unwrap());
    }
}

#[test]
fn refresh_mut_test() {
    let r = SharedSource::new("r");
    r.set("hello", ConfigValue::Int(0));
    let mut config = Configuration::new()
        .register_source(SourceKind::Shared(r.handle()))
        .unwrap();
    let v = config.get::<RefValue<u64>>("hello").unwrap();

    for i in 0..1000u64 {
        r.set("hello", ConfigValue::Int(i as i64));
        assert_eq!(true, config.refresh().unwrap());
        assert_eq!(false, config.refresh().unwrap());
        assert_eq!(i, v.get().unwrap());
        assert_eq!(i, config.get::<u64>("hello").unwrap());
    }
}

#[test]
fn multiple_source_refresh_test() {
    let a = cfg_rs::HashSource::new("name".to_string());
    let r = SharedSource::new("r");
    let s = SharedSource::new("s");
    r.set("hello", ConfigValue::Int(0));
    s.set("hello", ConfigValue::Int(0));
    let mut config = Configuration::new()
        .register_source(SourceKind::Memory(a))
        .unwrap()
        .register_source(SourceKind::Shared(r.handle()))
        .unwrap()
        .register_source(SourceKind::Shared(s.handle()))
        .unwrap();
    let v = config.get::<RefValue<u64>>("hello").unwrap();

    let mut r_val: u64 = 0;
    for i in 1..1000u64 {
        // a change in the lower-priority source refreshes, but the
        // higher-priority value keeps winning
        s.set("hello", ConfigValue::Int(i as i64));
        assert_eq!(true, config.refresh().unwrap());
        assert_eq!(false, config.refresh().unwrap());
        assert_eq!(r_val, v.get().unwrap());
        r.set("hello", ConfigValue::Int(i as i64));
        r_val = i;
        assert_ne!(r_val, v.get().unwrap());
        assert_eq!(true, config.refresh().unwrap());
        assert_eq!(false, config.refresh().unwrap());
        assert_eq!(i, v.get().unwrap());
        assert_eq!(i, config.get::<u64>("hello").unwrap());
    }
}

#[test]
fn layering_priority_test() {
    // the first source to define a key wins; children elsewhere stay visible
    let config = Configuration::new()
        .register_kv("s1")
        .set("x", sv("first"))
        .finish()
        .unwrap()
        .register_kv("s2")
        .set("x", sv("second"))
        .set("other.list[0]", sv("a"))
        .set("other.list[1]", sv("b"))
        .finish()
        .unwrap();
    assert_eq!("first", config.get::<String>("x").unwrap());
    assert_eq!(
        vec!["a".to_string(), "b".to_string()],
        config.get::<Vec<String>>("other.list").unwrap()
    );
}

#[test]
fn capacity_test() {
    // a registry at its bound refuses the overflow cell and keeps it out
    let mut list: Vec<RefreshEntry> = Vec::new();
    assert!(push_step(&mut list, 2, RefreshEntry::U64(RefValue::new("a".to_string(), 1))).is_ok());
    assert!(push_step(&mut list, 2, RefreshEntry::U64(RefValue::new("b".to_string(), 2))).is_ok());
    assert_eq!(list.len(), 2);
    match push_step(&mut list, 2, RefreshEntry::U64(RefValue::new("c".to_string(), 3))) {
        Err(ConfigError::TooManyInstances(m)) => assert_eq!(m, 2),
        other => panic!("unexpected outcome: {:?}", other.is_ok()),
    }
    assert_eq!(list.len(), 2);

    // the same through a registry
    let reg = Refresher::with_capacity(1);
    assert!(reg.push(RefreshEntry::U64(RefValue::new("a".to_string(), 1))).is_ok());
    assert!(matches!(
        reg.push(RefreshEntry::U64(RefValue::new("b".to_string(), 2))),
        Err(ConfigError::TooManyInstances(1))
    ));
}

#[test]
fn too_many_sources_test() {
    let mut config = Configuration::new();
    for i in 0..64 {
        let name = format!("s{}", i);
        config = config
            .register_source(SourceKind::Memory(cfg_rs::HashSource::new(name)))
            .unwrap();
    }
    assert_eq!(config.source_names().len(), 64);
    match config.register_source(SourceKind::Memory(cfg_rs::HashSource::new("x".to_string()))) {
        Err(ConfigError::TooManyInstances(64)) => {},
        _ => panic!("expected the source bound to be enforced"),
    }
}

struct TestApp {
    port: u16,
    host: String,
}

impl cfg_rs::FromConfig for TestApp {
    fn from_config(
        context: &mut cfg_rs::ConfigContext<'_>,
        _value: Option<ConfigValue>,
    ) -> Result<Self, ConfigError> {
        Ok(TestApp {
            port: context.parse_config("port", None)?,
            host: context.parse_config("host", None)?,
        })
    }
}

#[test]
fn test_load_from_map_macro_happy_path() {
    let mut map: Vec<(String, String)> = Vec::new();
    map.push(("port".to_string(), "8080".to_string()));
    map.push(("host".to_string(), "localhost".to_string()));
    let app: TestApp = cfg_rs::from_map(map, "").expect("from_static_map failed");
    assert_eq!(app.port, 8080);
    assert_eq!(app.host, "localhost".to_string());
}

#[test]
fn test_from_map_happy_path() {
    let mut map: Vec<(String, String)> = Vec::new();
    map.push(("cfg.app.port".to_string(), "8080".to_string()));
    map.push(("cfg.app.host".to_string(), "localhost".to_string()));
    let cfg: TestApp = cfg_rs::from_map(map, "cfg.app").expect("from_map failed");
    assert_eq!(cfg.port, 8080);
    assert_eq!(cfg.host, "localhost".to_string());
}

struct OnlyPort {
    port: u16,
}

impl cfg_rs::FromConfig for OnlyPort {
    fn from_config(
        context: &mut cfg_rs::ConfigContext<'_>,
        _value: Option<ConfigValue>,
    ) -> Result<Self, ConfigError> {
        Ok(OnlyPort { port: context.parse_config("port", None)? })
    }
}

#[test]
fn test_load_from_map_macro_single_entry() {
    let map = vec![("port".to_string(), "7070".to_string())];
    let only: OnlyPort = cfg_rs::from_map(map, "").expect("from_static_map failed");
    assert_eq!(only.port, 7070);
}

#[test]
fn hash_source_new_and_name() {
    let hs = cfg_rs::HashSource::new("abc".to_string());
    assert_eq!(hs.name(), "abc");
}

#[test]
fn config_source_builder_push_pop_curr_count() {
    let hs = cfg_rs::HashSource::new("test".to_string());
    let mut builder = hs.prefixed();
    assert_eq!(builder.curr(), "");
    builder.push("foo");
    assert_eq!(builder.curr(), "foo");
    builder.push("bar");
    assert_eq!(builder.curr(), "foo.bar");
    builder.pop();
    assert_eq!(builder.curr(), "foo");
    builder.pop();
    assert_eq!(builder.curr(), "");
    let c = builder.count();
    assert_eq!(c, 0);
}

#[test]
fn config_source_load_sets_values() {
    let hs = cfg_rs::HashSource::new("test".to_string()).set("x", ConfigValue::Int(42));
    let target = cfg_rs::HashSource::new("target".to_string());
    let mut builder = target.prefixed();
    cfg_rs::ConfigSource::load(&hs, &mut builder).unwrap();
    let target = builder.finish();
    match target.get_value_str("x") {
        Some(ConfigValue::Int(42)) => {},
        _ => panic!("Expected Int(42)"),
    }
}

#[test]
fn layered_source_test() {
    let mut layered = cfg_rs::LayeredSource::new();
    layered.register(SourceKind::Memory(
        cfg_rs::HashSource::new("one".to_string()).set("a", sv("1")),
    ));
    layered.register(SourceKind::Memory(
        cfg_rs::HashSource::new("two".to_string()).set("a", sv("2")).set("b", sv("2")),
    ));
    assert_eq!(vec!["one".to_string(), "two".to_string()], layered.source_names());
    let config = Configuration::new()
        .register_source(SourceKind::Layered(layered))
        .unwrap();
    assert_eq!(vec!["layered_source".to_string()], config.source_names());
    // the group's first member wins shared keys; later members add the rest
    assert_eq!("1", config.get::<String>("a").unwrap());
    assert_eq!("2", config.get::<String>("b").unwrap());
}

#[test]
fn cycle_error_names_chain_root_test() {
    // a cycle reached through another key is reported for the key the
    // lookup was started with
    let config = Configuration::new()
        .register_kv("test")
        .set("l2", sv("${c2}"))
        .set("c2", sv("${c2}"))
        .finish()
        .unwrap();
    assert!(matches!(
        config.get::<String>("l2"),
        Err(ConfigError::ConfigRecursiveError(k)) if k == "l2"
    ));
    assert!(matches!(
        config.get::<String>("c2"),
        Err(ConfigError::ConfigRecursiveError(k)) if k == "c2"
    ));
}
