use std::collections::HashMap;

use cfg_rs::{inline_source_config, ConfigError, ConfigSourceAdaptor, ConfigSourceParser,
    ConfigValue, Configuration, HashSource, Ini, Json, SourceKind, Toml, YamlFormat};

fn sv(v: &str) -> ConfigValue {
    ConfigValue::Str(v.to_string())
}

fn new_config(src: HashSource) -> Configuration {
    Configuration::new()
        .register_source(SourceKind::Memory(src))
        .unwrap()
}

fn source_test_suit(config: &Configuration) {
    assert_eq!(
        vec!["a0".to_string(), "a1".to_string(), "a2".to_string()],
        config.get::<Vec<String>>("suit.arr").unwrap()
    );
    let bap = config.get::<HashMap<String, Vec<bool>>>("suit.map").unwrap();
    assert_eq!(Some(&vec![true]), bap.get("b1"));
    assert_eq!(Some(&vec![true, false]), bap.get("b2"));
    assert_eq!(
        vec![vec!["b00".to_string()]],
        config.get::<Vec<Vec<String>>>("suit.brr").unwrap()
    );
    let map = config.get::<HashMap<String, usize>>("suit.val").unwrap();
    for i in 1..=3usize {
        assert_eq!(Some(&i), map.get(&format!("v{}", i)));
    }
    assert_eq!(1, config.get::<u8>("suit.val.v1").unwrap());
    assert_eq!(2, config.get::<u16>("suit.val.v2").unwrap());
    assert_eq!(3, config.get::<u32>("suit.val.v3").unwrap());

    let crr = config.get::<Vec<Option<String>>>("suit.crr").unwrap();
    assert_eq!(1, crr.len());
    let v1: f32 = config.get::<String>("suit.crr[0].v1").unwrap().parse().unwrap();
    let v2: f64 = config.get::<String>("suit.crr[0].v2").unwrap().parse().unwrap();
    assert_eq!(1.0, v1);
    assert_eq!(2.0, v2);
    let err = config.get::<Result<u8, ConfigError>>("suit.err").unwrap();
    assert_eq!(true, err.is_err());
}

#[test]
fn in_memory_test() {
    let config = Configuration::new()
        .register_kv("memory")
        .set("suit.val.v1", sv("1"))
        .set("suit.val.v2", sv("2"))
        .set("suit.val.v3", sv("3"))
        .set("suit.arr[0]", sv("a0"))
        .set("suit.arr[1]", sv("a1"))
        .set("suit.arr[2]", sv("a2"))
        .set("suit.map.b1[0]", sv("true"))
        .set("suit.map.b2[0]", sv("true"))
        .set("suit.map.b2[1]", sv("false"))
        .set("suit.crr[0].v1", sv("1.0"))
        .set("suit.crr[0].v2", sv("2.0"))
        .set("suit.brr[0][0]", sv("b00"))
        .finish()
        .unwrap();
    source_test_suit(&config);
}

#[test]
fn toml_inline_test() {
    let content = "\
[suit.val]
v1 = 1
v2 = 2
v3 = 3

[suit.map]
b1 = [true]
b2 = [true, false]

[suit]
arr = [\"a0\", \"a1\", \"a2\"]
brr = [[\"b00\"]]

[[suit.crr]]
v1 = 1.0
v2 = 2.0
";
    let src = inline_source_config::<Toml>("inline:app.toml".to_string(), content).unwrap();
    source_test_suit(&new_config(src));
}

#[test]
fn yaml_inline_test() {
    let content = "\
suit:
  val:
    v1: 1
    v2: 2
    v3: 3
  arr: [a0, a1, a2]
  map:
    b1: [true]
    b2: [true, false]
  crr:
    - v1: 1.0
      v2: 2.0
  brr:
    - - b00
";
    let src = inline_source_config::<YamlFormat>("inline:app.yaml".to_string(), content).unwrap();
    source_test_suit(&new_config(src));
}

#[test]
fn json_inline_test() {
    let content = "{
  \"suit\": {
    \"val\": {\"v1\": 1, \"v2\": 2, \"v3\": 3},
    \"arr\": [\"a0\", \"a1\", \"a2\"],
    \"map\": {\"b1\": [true], \"b2\": [true, false]},
    \"crr\": [{\"v1\": 1.0, \"v2\": 2.0}],
    \"brr\": [[\"b00\"]]
  }
}";
    let src = inline_source_config::<Json>("inline:app.json".to_string(), content).unwrap();
    source_test_suit(&new_config(src));
}

#[test]
fn ini_inline_test() {
    let content = "\
[suit]
val.v1=1
val.v2=2
val.v3=3
arr[0]=a0
arr[1]=a1
arr[2]=a2
map.b1[0]=true
map.b2[0]=true
map.b2[1]=false
crr[0].v1=1.0
crr[0].v2=2.0
brr[0][0]=b00
";
    let src = inline_source_config::<Ini>("inline:app.ini".to_string(), content).unwrap();
    source_test_suit(&new_config(src));
}

struct Temp;

impl ConfigSourceAdaptor for Temp {
    fn convert_source(self, _: &mut cfg_rs::ConfigSourceBuilder) -> Result<(), ConfigError> {
        Ok(())
    }
}

impl ConfigSourceParser for Temp {
    type Adaptor = Temp;

    fn parse_source(_: &str) -> Result<Self::Adaptor, ConfigError> {
        Ok(Temp)
    }

    fn file_extensions() -> Vec<&'static str> {
        vec!["tmp"]
    }
}

#[test]
fn inline_source_config_success() {
    let result = inline_source_config::<Temp>("inline".to_string(), "abc");
    assert!(result.is_ok());
    let hs = result.unwrap();
    assert_eq!(hs.name(), "inline");
}

#[test]
fn bad_document_reports_parse_failure() {
    assert!(inline_source_config::<Toml>("bad".to_string(), "a = [").is_err());
    assert!(inline_source_config::<Json>("bad".to_string(), "{").is_err());
}

struct Bad;

impl ConfigSourceAdaptor for Bad {
    fn convert_source(self, _: &mut cfg_rs::ConfigSourceBuilder) -> Result<(), ConfigError> {
        Ok(())
    }
}

impl ConfigSourceParser for Bad {
    type Adaptor = Bad;

    fn parse_source(_: &str) -> Result<Self::Adaptor, ConfigError> {
        Err(ConfigError::ConfigParseError("bad".to_string(), "fail".to_string()))
    }

    fn file_extensions() -> Vec<&'static str> {
        vec!["bad"]
    }
}

#[test]
fn inline_source_config_parse_error() {
    let result = inline_source_config::<Bad>("bad".to_string(), "abc");
    assert!(matches!(result, Err(ConfigError::ConfigParseError(_, _))));
}
