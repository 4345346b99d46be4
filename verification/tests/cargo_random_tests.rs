use cfg_rs::{Cargo, ConfigError, ConfigValue, Configuration, SourceKind};

struct CargoPkg {
    name: String,
    version: String,
    description: Option<String>,
}

struct CargoBin {
    #[allow(dead_code)]
    name: String,
}

struct CargoEnv {
    pkg: CargoPkg,
    bin: Option<CargoBin>,
}

impl cfg_rs::FromConfig for CargoPkg {
    fn from_config(
        context: &mut cfg_rs::ConfigContext<'_>,
        _value: Option<ConfigValue>,
    ) -> Result<Self, ConfigError> {
        Ok(CargoPkg {
            name: context.parse_config("name", None)?,
            version: context.parse_config("version", None)?,
            description: context.parse_config("description", None)?,
        })
    }
}

impl cfg_rs::FromConfig for CargoBin {
    fn from_config(
        context: &mut cfg_rs::ConfigContext<'_>,
        _value: Option<ConfigValue>,
    ) -> Result<Self, ConfigError> {
        Ok(CargoBin { name: context.parse_config("name", None)? })
    }
}

impl cfg_rs::FromConfig for CargoEnv {
    fn from_config(
        context: &mut cfg_rs::ConfigContext<'_>,
        _value: Option<ConfigValue>,
    ) -> Result<Self, ConfigError> {
        Ok(CargoEnv {
            pkg: context.parse_config("pkg", None)?,
            bin: context.parse_config("bin", None)?,
        })
    }
}

impl cfg_rs::FromConfigWithPrefix for CargoEnv {
    fn prefix() -> &'static str {
        "cargo"
    }
}

#[test]
fn cargo_test() {
    let mut builder = Cargo::new();
    builder.set("cargo.pkg.name", "cfg_rs");
    builder.set("cargo.pkg.version", "0.1.0");
    builder.set("cargo.pkg.description", "a layered configuration library");
    let c = Configuration::new()
        .register_source(SourceKind::Cargo(builder))
        .unwrap();
    let cargo = c.get_predefined::<CargoEnv>().unwrap();
    assert_eq!("cfg_rs", cargo.pkg.name);
    assert_eq!("0.1.0", cargo.pkg.version);
    assert_eq!("a layered configuration library", cargo.pkg.description.unwrap());
    assert!(cargo.bin.is_none());
}

#[test]
fn cargo_set_replaces_test() {
    let mut builder = Cargo::new();
    builder.set("cargo.pkg.name", "first");
    builder.set("cargo.pkg.name", "second");
    let c = Configuration::new()
        .register_source(SourceKind::Cargo(builder))
        .unwrap();
    assert_eq!("second", c.get::<String>("cargo.pkg.name").unwrap());
}

fn random_config() -> Configuration {
    Configuration::new().register_random().unwrap()
}

#[test]
fn env_test() {
    let config = random_config();
    let a = config.get::<u128>("random.u128").unwrap();
    let b = config.get::<u128>("random.u128").unwrap();
    assert_ne!(a, b);
}

#[test]
fn value_test() {
    let config = random_config();
    assert!(config.get::<u8>("random.u8").is_ok());
    assert!(config.get::<u16>("random.u16").is_ok());
    assert!(config.get::<u32>("random.u32").is_ok());
    assert!(config.get::<u64>("random.u64").is_ok());
    assert!(config.get::<u128>("random.u128").is_ok());
    assert!(config.get::<usize>("random.usize").is_ok());
    assert!(config.get::<i8>("random.i8").is_ok());
    assert!(config.get::<i16>("random.i16").is_ok());
    assert!(config.get::<i32>("random.i32").is_ok());
    assert!(config.get::<i64>("random.i64").is_ok());
    assert!(config.get::<i128>("random.i128").is_ok());
    assert!(config.get::<isize>("random.isize").is_ok());
}

#[test]
fn env_source_key_mapping_test() {
    // variables carrying the prefix map to lowercased, dotted keys
    let mut env = cfg_rs::PrefixEnvironment::new("hello");
    env.provide("HELLO_WORLD", "hello");
    env.provide("HELLO_ARR_0", "h0");
    env.provide("HELLO_ARR_1", "h1");
    env.provide("OTHER_NAME", "nope");
    let config = Configuration::new()
        .register_source(SourceKind::Env(env))
        .unwrap();
    assert_eq!("hello", config.get::<String>("world").unwrap());
    assert_eq!(
        vec!["h0".to_string(), "h1".to_string()],
        config.get::<Vec<String>>("arr").unwrap()
    );
    assert!(config.get::<String>("other.name").is_err());
    assert!(config.get::<String>("name").is_err());
}
