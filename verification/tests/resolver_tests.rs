use cfg_rs::{ConfigValue, Configuration, HashSource, SourceKind};

fn sv(v: &str) -> ConfigValue {
    ConfigValue::Str(v.to_string())
}

fn build_config() -> Configuration {
    let src = HashSource::new("test".to_string())
        .set("a", sv("0"))
        .set("b", sv("${b}"))
        .set("c", sv("${a}"))
        .set("d", sv("${z}"))
        .set("e", sv("${z:}"))
        .set("f", sv("${z:${a}}"))
        .set("g", sv("a"))
        .set("h", sv("${${g}}"))
        .set("i", sv("\\$\\{a\\}"))
        .set("j", sv("${${g}:a}"))
        .set("k", sv("${a} ${a}"))
        .set("l", sv("${c}"))
        .set("m", sv("${no_found:${no_found_2:hello}}"))
        .set("n", sv("$"))
        .set("o", sv("\\"))
        .set("p", sv("}"))
        .set("q", sv("${"))
        .set("r", sv("${a}suffix"));
    Configuration::new()
        .register_source(SourceKind::Memory(src))
        .unwrap()
        .register_kv("test")
        .set("a0", sv("0"))
        .set("a", sv("1"))
        .set("b", sv("1"))
        .set("c", sv("1"))
        .finish()
        .unwrap()
}

#[test]
fn parse_string_test() {
    let config = build_config();
    assert_eq!("Ok(\"0\")", &format!("{:?}", config.get::<String>("a0")));

    assert_eq!("Ok(\"0\")", &format!("{:?}", config.get::<String>("a")));
    assert_eq!("Err(ConfigRecursiveError(\"b\"))", &format!("{:?}", config.get::<String>("b")));
    assert_eq!("Ok(\"0\")", &format!("{:?}", config.get::<String>("c")));
    assert_eq!(
        "Err(ConfigRecursiveNotFound(\"z\"))",
        &format!("{:?}", config.get::<String>("d"))
    );
    assert_eq!("Ok(\"\")", &format!("{:?}", config.get::<String>("e")));
    assert_eq!("Ok(\"0\")", &format!("{:?}", config.get::<String>("f")));
    assert_eq!("Ok(\"a\")", &format!("{:?}", config.get::<String>("g")));
    assert_eq!("Ok(\"0\")", &format!("{:?}", config.get::<String>("h")));
    assert_eq!("Ok(\"${a}\")", &format!("{:?}", config.get::<String>("i")));
    assert_eq!("Ok(\"0\")", &format!("{:?}", config.get::<String>("j")));
    assert_eq!("Ok(\"0 0\")", &format!("{:?}", config.get::<String>("k")));
    assert_eq!("Ok(\"0\")", &format!("{:?}", config.get::<String>("l")));
    assert_eq!("Ok(\"hello\")", &format!("{:?}", config.get::<String>("m")));
    assert_eq!(
        "Err(ConfigParseError(\"n\", \"$\"))",
        &format!("{:?}", config.get::<String>("n"))
    );
    assert_eq!(
        "Err(ConfigParseError(\"o\", \"\\\\\"))",
        &format!("{:?}", config.get::<String>("o"))
    );
    assert_eq!(
        "Err(ConfigParseError(\"p\", \"}\"))",
        &format!("{:?}", config.get::<String>("p"))
    );
    assert_eq!(
        "Err(ConfigParseError(\"q\", \"${\"))",
        &format!("{:?}", config.get::<String>("q"))
    );
    assert_eq!("Ok(\"0suffix\")", &format!("{:?}", config.get::<String>("r")));
}

#[test]
fn get_string_matches_get_test() {
    // the concrete string lookup agrees with the generic one
    let config = build_config();
    for key in ["a0", "a", "b", "c", "d", "e", "f", "g", "h", "i", "j", "k", "l", "m", "n", "o",
        "p", "q", "r"] {
        assert_eq!(
            format!("{:?}", config.get::<String>(key)),
            format!("{:?}", config.get_string(key))
        );
    }
}

#[test]
fn parse_bool_test() {
    let config = build_config();
    assert_eq!(
        "Err(ConfigParseError(\"a0\", \"0\"))",
        &format!("{:?}", config.get::<bool>("a0"))
    );

    assert_eq!("Err(ConfigParseError(\"a\", \"0\"))", &format!("{:?}", config.get::<bool>("a")));
    assert_eq!("Err(ConfigRecursiveError(\"b\"))", &format!("{:?}", config.get::<bool>("b")));
    assert_eq!("Err(ConfigParseError(\"c\", \"0\"))", &format!("{:?}", config.get::<bool>("c")));
    assert_eq!(
        "Err(ConfigRecursiveNotFound(\"z\"))",
        &format!("{:?}", config.get::<bool>("d"))
    );
    assert_eq!("Err(ConfigNotFound(\"e\"))", &format!("{:?}", config.get::<bool>("e")));
    assert_eq!("Err(ConfigParseError(\"f\", \"0\"))", &format!("{:?}", config.get::<bool>("f")));
    assert_eq!("Err(ConfigParseError(\"g\", \"a\"))", &format!("{:?}", config.get::<bool>("g")));
    assert_eq!("Err(ConfigParseError(\"h\", \"0\"))", &format!("{:?}", config.get::<bool>("h")));
    assert_eq!(
        "Err(ConfigParseError(\"i\", \"${a}\"))",
        &format!("{:?}", config.get::<bool>("i"))
    );
    assert_eq!("Err(ConfigParseError(\"j\", \"0\"))", &format!("{:?}", config.get::<bool>("j")));
    assert_eq!(
        "Err(ConfigParseError(\"k\", \"0 0\"))",
        &format!("{:?}", config.get::<bool>("k"))
    );
    assert_eq!("Err(ConfigParseError(\"l\", \"0\"))", &format!("{:?}", config.get::<bool>("l")));
    assert_eq!(
        "Err(ConfigParseError(\"m\", \"hello\"))",
        &format!("{:?}", config.get::<bool>("m"))
    );
    assert_eq!("Err(ConfigParseError(\"n\", \"$\"))", &format!("{:?}", config.get::<bool>("n")));
    assert_eq!(
        "Err(ConfigParseError(\"o\", \"\\\\\"))",
        &format!("{:?}", config.get::<bool>("o"))
    );
    assert_eq!("Err(ConfigParseError(\"p\", \"}\"))", &format!("{:?}", config.get::<bool>("p")));
    assert_eq!("Err(ConfigParseError(\"q\", \"${\"))", &format!("{:?}", config.get::<bool>("q")));
}

#[test]
fn parse_u8_test() {
    let config = build_config();
    // conversion failures carry the underlying error's text
    let invalid = "Err(ConfigCause(\"invalid digit found in string\"))";
    assert_eq!("Ok(0)", &format!("{:?}", config.get::<u8>("a0")));

    assert_eq!("Ok(0)", &format!("{:?}", config.get::<u8>("a")));
    assert_eq!("Err(ConfigRecursiveError(\"b\"))", &format!("{:?}", config.get::<u8>("b")));
    assert_eq!("Ok(0)", &format!("{:?}", config.get::<u8>("c")));
    assert_eq!("Err(ConfigRecursiveNotFound(\"z\"))", &format!("{:?}", config.get::<u8>("d")));
    assert_eq!("Err(ConfigNotFound(\"e\"))", &format!("{:?}", config.get::<u8>("e")));
    assert_eq!("Ok(0)", &format!("{:?}", config.get::<u8>("f")));
    assert_eq!(invalid, &format!("{:?}", config.get::<u8>("g")));
    assert_eq!("Ok(0)", &format!("{:?}", config.get::<u8>("h")));
    assert_eq!(invalid, &format!("{:?}", config.get::<u8>("i")));
    assert_eq!("Ok(0)", &format!("{:?}", config.get::<u8>("j")));
    assert_eq!(invalid, &format!("{:?}", config.get::<u8>("k")));
    assert_eq!("Ok(0)", &format!("{:?}", config.get::<u8>("l")));
    assert_eq!(invalid, &format!("{:?}", config.get::<u8>("m")));
    assert_eq!("Err(ConfigParseError(\"n\", \"$\"))", &format!("{:?}", config.get::<u8>("n")));
    assert_eq!("Err(ConfigParseError(\"o\", \"\\\\\"))", &format!("{:?}", config.get::<u8>("o")));
    assert_eq!("Err(ConfigParseError(\"p\", \"}\"))", &format!("{:?}", config.get::<u8>("p")));
    assert_eq!("Err(ConfigParseError(\"q\", \"${\"))", &format!("{:?}", config.get::<u8>("q")));
}

#[test]
fn get_test() {
    let config = build_config()
        .register_kv("k1")
        .set("key[0]", sv("xx"))
        .finish()
        .unwrap()
        .register_kv("k2")
        .set("key[5]", sv("xx"))
        .finish()
        .unwrap()
        .register_kv("k3")
        .set("key[3]", sv("xx"))
        .finish()
        .unwrap();
    assert_eq!(1, config.get_or("a1", 1).unwrap());
    let v = config.get::<Vec<Option<String>>>("key").unwrap();
    assert_eq!(
        vec![
            Some("xx".to_string()),
            None,
            None,
            Some("xx".to_string()),
            None,
            Some("xx".to_string())
        ],
        v
    );
}

#[test]
fn placeholder_fast_path_test() {
    // a value without placeholder syntax resolves to itself
    let config = Configuration::new()
        .register_kv("plain")
        .set("x", sv("just a plain value"))
        .finish()
        .unwrap();
    assert_eq!("just a plain value", config.get::<String>("x").unwrap());
}
