//! Format adaptors: parsed documents flattened into the store.
//!
//! Each format is parsed by its own crate; the resulting document tree is
//! walked here, reduced to a sequence of key pushes and scalar insertions
//! against the store builder.  The walk is iterative, over an explicit work
//! stack, with a step budget standing in for a termination measure on the
//! opaque document tree; the budget is far beyond any document that fits in
//! memory.

use vstd::prelude::*;

use crate::err::ConfigError;
use crate::memory::{ConfigSourceBuilder, HashSource};
use crate::source::{ConfigSourceAdaptor, ConfigSourceParser};
use crate::value::ConfigValue;

verus! {

/// Declares `toml::Value` so parsed toml documents can cross signatures;
/// the value stays opaque.
#[verifier::external_type_specification]
#[verifier::external_body]
#[allow(missing_debug_implementations)]
pub struct ExTomlValue(toml::Value);

/// Declares `json::JsonValue` so parsed json documents can cross
/// signatures; the value stays opaque.
#[verifier::external_type_specification]
#[verifier::external_body]
#[allow(missing_debug_implementations)]
pub struct ExJsonValue(json::JsonValue);

/// Declares `yaml_rust2::Yaml` so parsed yaml documents can cross
/// signatures; the value stays opaque.
#[verifier::external_type_specification]
#[verifier::external_body]
#[allow(missing_debug_implementations)]
pub struct ExYamlValue(yaml_rust2::Yaml);

/// Relies on `toml::from_str` for `toml::Value`: the parsed document, or the
/// parse error's text.
#[verifier::external_body]
fn parse_toml(content: &str) -> (r: Result<toml::Value, String>) {
    toml::from_str::<toml::Value>(content).map_err(|e| e.to_string())
}

/// One level of a toml document, as plain data; children stay opaque.
#[allow(missing_debug_implementations)]
pub enum TomlNode {
    /// A string scalar.
    Str(String),
    /// An integer scalar.
    Int(i64),
    /// A float scalar, rendered as text.
    Float(String),
    /// A bool scalar.
    Bool(bool),
    /// A datetime scalar, rendered as text.
    Datetime(String),
    /// An array of documents.
    Arr(Vec<toml::Value>),
    /// A table of named documents.
    Table(Vec<(String, toml::Value)>),
}

/// Relies on `toml::Value`'s variants: each is mapped to the matching node,
/// fields moved over (floats and datetimes rendered as their text).
#[verifier::external_body]
fn toml_classify(v: toml::Value) -> (r: TomlNode) {
    match v {
        toml::Value::String(s) => TomlNode::Str(s),
        toml::Value::Integer(i) => TomlNode::Int(i),
        toml::Value::Float(f) => TomlNode::Float(f.to_string()),
        toml::Value::Boolean(b) => TomlNode::Bool(b),
        toml::Value::Datetime(d) => TomlNode::Datetime(d.to_string()),
        toml::Value::Array(a) => TomlNode::Arr(a),
        toml::Value::Table(t) => TomlNode::Table(t.into_iter().collect()),
    }
}

/// Relies on `json::parse`: the parsed document, or the parse error's text.
#[verifier::external_body]
fn parse_json(content: &str) -> (r: Result<json::JsonValue, String>) {
    json::parse(content).map_err(|e| e.to_string())
}

/// One level of a json document, as plain data; children stay opaque.
#[allow(missing_debug_implementations)]
pub enum JsonNode {
    /// A string scalar (long or short form).
    Str(String),
    /// A number scalar, rendered as text.
    Num(String),
    /// A bool scalar.
    Bool(bool),
    /// An array of documents.
    Arr(Vec<json::JsonValue>),
    /// An object of named documents.
    Obj(Vec<(String, json::JsonValue)>),
    /// A null.
    Null,
}

/// Relies on `json::JsonValue`'s variants: each is mapped to the matching
/// node, fields moved over (numbers rendered as their text, object entries
/// cloned out).
#[verifier::external_body]
fn json_classify(v: json::JsonValue) -> (r: JsonNode) {
    match v {
        json::JsonValue::String(s) => JsonNode::Str(s),
        json::JsonValue::Short(s) => JsonNode::Str(s.as_str().to_string()),
        json::JsonValue::Number(n) => JsonNode::Num(n.to_string()),
        json::JsonValue::Boolean(b) => JsonNode::Bool(b),
        json::JsonValue::Array(a) => JsonNode::Arr(a),
        json::JsonValue::Object(o) => JsonNode::Obj(
            o.iter().map(|(k, w)| (k.to_string(), w.clone())).collect(),
        ),
        json::JsonValue::Null => JsonNode::Null,
    }
}

/// Relies on `yaml_rust2::YamlLoader::load_from_str`: the parsed documents,
/// or the scan error's text.
#[verifier::external_body]
fn parse_yaml(content: &str) -> (r: Result<Vec<yaml_rust2::Yaml>, String>) {
    yaml_rust2::YamlLoader::load_from_str(content).map_err(|e| e.to_string())
}

/// One level of a yaml document, as plain data; children stay opaque.
#[allow(missing_debug_implementations)]
pub enum YamlNode {
    /// A real scalar, kept as its text.
    Real(String),
    /// An integer scalar.
    Int(i64),
    /// A string scalar.
    Str(String),
    /// A bool scalar.
    Bool(bool),
    /// An array of documents.
    Arr(Vec<yaml_rust2::Yaml>),
    /// A hash of documents, keys still opaque.
    Hash(Vec<(yaml_rust2::Yaml, yaml_rust2::Yaml)>),
    /// Null, a bad value or an alias: nothing to store.
    Other,
}

/// Relies on `yaml_rust2::Yaml`'s variants: each is mapped to the matching
/// node, fields moved over.
#[verifier::external_body]
fn yaml_classify(v: yaml_rust2::Yaml) -> (r: YamlNode) {
    match v {
        yaml_rust2::Yaml::Real(s) => YamlNode::Real(s),
        yaml_rust2::Yaml::Integer(i) => YamlNode::Int(i),
        yaml_rust2::Yaml::String(s) => YamlNode::Str(s),
        yaml_rust2::Yaml::Boolean(b) => YamlNode::Bool(b),
        yaml_rust2::Yaml::Array(a) => YamlNode::Arr(a),
        yaml_rust2::Yaml::Hash(h) => YamlNode::Hash(h.into_iter().collect()),
        _ => YamlNode::Other,
    }
}

/// Relies on `ini::Ini::load_from_str`: the sections with their properties
/// as plain pairs, or the parse error's text.
#[verifier::external_body]
fn parse_ini(content: &str) -> (r: Result<Vec<(Option<String>, Vec<(String, String)>)>, String>) {
    match ini::Ini::load_from_str(content) {
        Ok(doc) => Ok(
            doc.into_iter().map(|(sec, props)| (sec, props.into_iter().collect())).collect(),
        ),
        Err(e) => Err(e.to_string()),
    }
}

// ---------------------------------------------------------------------------
// Walking a toml document
// ---------------------------------------------------------------------------

enum TomlTask {
    Classify(toml::Value),
    PushKey(String),
    PushIndex(usize),
    PopKey,
}

fn walk_error() -> (r: ConfigError) {
    ConfigError::ConfigParseError("document".to_owned(), "walk budget exhausted".to_owned())
}

fn toml_convert(root: toml::Value, builder: &mut ConfigSourceBuilder) -> (r: Result<
    (),
    ConfigError,
>)
    requires
        old(builder).wf(),
    ensures
        final(builder).wf(),
{
    let mut stack: Vec<TomlTask> = Vec::new();
    stack.push(TomlTask::Classify(root));
    let mut budget: usize = usize::MAX;
    while stack.len() > 0
        invariant
            builder.wf(),
        decreases budget,
    {
        if budget == 0 {
            return Err(walk_error());
        }
        budget = budget - 1;
        let task = match stack.pop() {
            Some(t) => t,
            None => {
                return Ok(());
            },
        };
        match task {
            TomlTask::PushKey(k) => {
                builder.push(k.as_str());
            },
            TomlTask::PushIndex(i) => {
                builder.push_index(i);
            },
            TomlTask::PopKey => {
                builder.pop();
            },
            TomlTask::Classify(v) => {
                match toml_classify(v) {
                    TomlNode::Str(s) => builder.insert(ConfigValue::Str(s)),
                    TomlNode::Int(i) => builder.insert(ConfigValue::Int(i)),
                    TomlNode::Float(s) => builder.insert(ConfigValue::Str(s)),
                    TomlNode::Bool(b) => builder.insert(ConfigValue::Bool(b)),
                    TomlNode::Datetime(s) => builder.insert(ConfigValue::Str(s)),
                    TomlNode::Arr(items) => {
                        let mut items = items;
                        loop
                            invariant
                                builder.wf(),
                            decreases items@.len(),
                        {
                            let idx = items.len();
                            match items.pop() {
                                Some(item) => {
                                    stack.push(TomlTask::PopKey);
                                    stack.push(TomlTask::Classify(item));
                                    stack.push(TomlTask::PushIndex(idx - 1));
                                },
                                None => {
                                    break ;
                                },
                            }
                        }
                    },
                    TomlNode::Table(pairs) => {
                        let mut pairs = pairs;
                        loop
                            invariant
                                builder.wf(),
                            decreases pairs@.len(),
                        {
                            match pairs.pop() {
                                Some((k, item)) => {
                                    stack.push(TomlTask::PopKey);
                                    stack.push(TomlTask::Classify(item));
                                    stack.push(TomlTask::PushKey(k));
                                },
                                None => {
                                    break ;
                                },
                            }
                        }
                    },
                }
            },
        }
    }
    Ok(())
}

// ---------------------------------------------------------------------------
// Walking a json document
// ---------------------------------------------------------------------------

enum JsonTask {
    Classify(json::JsonValue),
    PushKey(String),
    PushIndex(usize),
    PopKey,
}

fn json_convert(root: json::JsonValue, builder: &mut ConfigSourceBuilder) -> (r: Result<
    (),
    ConfigError,
>)
    requires
        old(builder).wf(),
    ensures
        final(builder).wf(),
{
    let mut stack: Vec<JsonTask> = Vec::new();
    stack.push(JsonTask::Classify(root));
    let mut budget: usize = usize::MAX;
    while stack.len() > 0
        invariant
            builder.wf(),
        decreases budget,
    {
        if budget == 0 {
            return Err(walk_error());
        }
        budget = budget - 1;
        let task = match stack.pop() {
            Some(t) => t,
            None => {
                return Ok(());
            },
        };
        match task {
            JsonTask::PushKey(k) => {
                builder.push(k.as_str());
            },
            JsonTask::PushIndex(i) => {
                builder.push_index(i);
            },
            JsonTask::PopKey => {
                builder.pop();
            },
            JsonTask::Classify(v) => {
                match json_classify(v) {
                    JsonNode::Str(s) => builder.insert(ConfigValue::Str(s)),
                    JsonNode::Num(s) => builder.insert(ConfigValue::Str(s)),
                    JsonNode::Bool(b) => builder.insert(ConfigValue::Bool(b)),
                    JsonNode::Null => {},
                    JsonNode::Arr(items) => {
                        let mut items = items;
                        loop
                            invariant
                                builder.wf(),
                            decreases items@.len(),
                        {
                            let idx = items.len();
                            match items.pop() {
                                Some(item) => {
                                    stack.push(JsonTask::PopKey);
                                    stack.push(JsonTask::Classify(item));
                                    stack.push(JsonTask::PushIndex(idx - 1));
                                },
                                None => {
                                    break ;
                                },
                            }
                        }
                    },
                    JsonNode::Obj(pairs) => {
                        let mut pairs = pairs;
                        loop
                            invariant
                                builder.wf(),
                            decreases pairs@.len(),
                        {
                            match pairs.pop() {
                                Some((k, item)) => {
                                    stack.push(JsonTask::PopKey);
                                    stack.push(JsonTask::Classify(item));
                                    stack.push(JsonTask::PushKey(k));
                                },
                                None => {
                                    break ;
                                },
                            }
                        }
                    },
                }
            },
        }
    }
    Ok(())
}

// ---------------------------------------------------------------------------
// Walking a yaml document
// ---------------------------------------------------------------------------

enum YamlTask {
    Classify(yaml_rust2::Yaml),
    PushKey(String),
    PushIndex(usize),
    PopKey,
}

fn yaml_convert(root: yaml_rust2::Yaml, builder: &mut ConfigSourceBuilder) -> (r: Result<
    (),
    ConfigError,
>)
    requires
        old(builder).wf(),
    ensures
        final(builder).wf(),
{
    let mut stack: Vec<YamlTask> = Vec::new();
    stack.push(YamlTask::Classify(root));
    let mut budget: usize = usize::MAX;
    while stack.len() > 0
        invariant
            builder.wf(),
        decreases budget,
    {
        if budget == 0 {
            return Err(walk_error());
        }
        budget = budget - 1;
        let task = match stack.pop() {
            Some(t) => t,
            None => {
                return Ok(());
            },
        };
        match task {
            YamlTask::PushKey(k) => {
                builder.push(k.as_str());
            },
            YamlTask::PushIndex(i) => {
                builder.push_index(i);
            },
            YamlTask::PopKey => {
                builder.pop();
            },
            YamlTask::Classify(v) => {
                match yaml_classify(v) {
                    YamlNode::Real(s) => builder.insert(ConfigValue::Str(s)),
                    YamlNode::Int(i) => builder.insert(ConfigValue::Int(i)),
                    YamlNode::Str(s) => builder.insert(ConfigValue::Str(s)),
                    YamlNode::Bool(b) => builder.insert(ConfigValue::Bool(b)),
                    YamlNode::Other => {},
                    YamlNode::Arr(items) => {
                        let mut items = items;
                        loop
                            invariant
                                builder.wf(),
                            decreases items@.len(),
                        {
                            let idx = items.len();
                            match items.pop() {
                                Some(item) => {
                                    stack.push(YamlTask::PopKey);
                                    stack.push(YamlTask::Classify(item));
                                    stack.push(YamlTask::PushIndex(idx - 1));
                                },
                                None => {
                                    break ;
                                },
                            }
                        }
                    },
                    YamlNode::Hash(pairs) => {
                        let mut pairs = pairs;
                        loop
                            invariant
                                builder.wf(),
                            decreases pairs@.len(),
                        {
                            match pairs.pop() {
                                Some((k, item)) => {
                                    // only string keys name children
                                    match yaml_classify(k) {
                                        YamlNode::Str(ks) => {
                                            stack.push(YamlTask::PopKey);
                                            stack.push(YamlTask::Classify(item));
                                            stack.push(YamlTask::PushKey(ks));
                                        },
                                        _ => {},
                                    }
                                },
                                None => {
                                    break ;
                                },
                            }
                        }
                    },
                }
            },
        }
    }
    Ok(())
}

// ---------------------------------------------------------------------------
// The four formats as parser/adaptor pairs
// ---------------------------------------------------------------------------

/// The toml format.
#[derive(Debug)]
pub struct Toml;

/// A parsed toml document.
#[allow(missing_debug_implementations)]
pub struct TomlDoc {
    root: toml::Value,
}

impl ConfigSourceAdaptor for TomlDoc {
    fn convert_source(self, builder: &mut ConfigSourceBuilder) -> (r: Result<(), ConfigError>) {
        toml_convert(self.root, builder)
    }
}

impl ConfigSourceParser for Toml {
    type Adaptor = TomlDoc;

    fn parse_source(content: &str) -> Result<Self::Adaptor, ConfigError> {
        match parse_toml(content) {
            Ok(v) => Ok(TomlDoc { root: v }),
            Err(msg) => Err(ConfigError::ConfigCause(msg)),
        }
    }

    fn file_extensions() -> Vec<&'static str> {
        let mut v: Vec<&'static str> = Vec::new();
        v.push("toml");
        v.push("tml");
        v
    }
}

/// The json format.
#[derive(Debug)]
pub struct Json;

/// A parsed json document.
#[allow(missing_debug_implementations)]
pub struct JsonDoc {
    root: json::JsonValue,
}

impl ConfigSourceAdaptor for JsonDoc {
    fn convert_source(self, builder: &mut ConfigSourceBuilder) -> (r: Result<(), ConfigError>) {
        json_convert(self.root, builder)
    }
}

impl ConfigSourceParser for Json {
    type Adaptor = JsonDoc;

    fn parse_source(content: &str) -> Result<Self::Adaptor, ConfigError> {
        match parse_json(content) {
            Ok(v) => Ok(JsonDoc { root: v }),
            Err(msg) => Err(ConfigError::ConfigCause(msg)),
        }
    }

    fn file_extensions() -> Vec<&'static str> {
        let mut v: Vec<&'static str> = Vec::new();
        v.push("json");
        v
    }
}

/// The yaml format.
#[derive(Debug)]
pub struct YamlFormat;

/// A parsed yaml stream: zero or more documents.
#[allow(missing_debug_implementations)]
pub struct YamlDoc {
    docs: Vec<yaml_rust2::Yaml>,
}

impl ConfigSourceAdaptor for YamlDoc {
    fn convert_source(self, builder: &mut ConfigSourceBuilder) -> (r: Result<(), ConfigError>) {
        let mut docs = self.docs;
        // walk the documents in order
        while docs.len() > 0
            invariant
                builder.wf(),
            decreases docs@.len(),
        {
            let d = docs.remove(0);
            match yaml_convert(d, builder) {
                Ok(()) => {},
                Err(e) => {
                    return Err(e);
                },
            }
        }
        Ok(())
    }
}

impl ConfigSourceParser for YamlFormat {
    type Adaptor = YamlDoc;

    fn parse_source(content: &str) -> Result<Self::Adaptor, ConfigError> {
        match parse_yaml(content) {
            Ok(v) => Ok(YamlDoc { docs: v }),
            Err(msg) => Err(ConfigError::ConfigCause(msg)),
        }
    }

    fn file_extensions() -> Vec<&'static str> {
        let mut v: Vec<&'static str> = Vec::new();
        v.push("yaml");
        v.push("yml");
        v
    }
}

/// The ini format.
#[derive(Debug)]
pub struct Ini;

/// A parsed ini document: sections of key/value pairs.
#[derive(Debug)]
pub struct IniDoc {
    sections: Vec<(Option<String>, Vec<(String, String)>)>,
}

impl ConfigSourceAdaptor for IniDoc {
    fn convert_source(self, builder: &mut ConfigSourceBuilder) -> (r: Result<(), ConfigError>) {
        let sections = self.sections;
        let mut i: usize = 0;
        while i < sections.len()
            invariant
                builder.wf(),
            decreases sections@.len() - i,
        {
            // pairs outside any named section are dropped
            if let Some(sec) = &sections[i].0 {
                builder.push(sec.as_str());
                let props = &sections[i].1;
                let mut j: usize = 0;
                while j < props.len()
                    invariant
                        builder.wf(),
                    decreases props@.len() - j,
                {
                    let k = props[j].0.clone();
                    let v = props[j].1.clone();
                    builder.set(k.as_str(), ConfigValue::Str(v));
                    j += 1;
                }
                builder.pop();
            }
            i += 1;
        }
        Ok(())
    }
}

impl ConfigSourceParser for Ini {
    type Adaptor = IniDoc;

    fn parse_source(content: &str) -> Result<Self::Adaptor, ConfigError> {
        match parse_ini(content) {
            Ok(sections) => Ok(IniDoc { sections }),
            Err(msg) => Err(ConfigError::ConfigCause(msg)),
        }
    }

    fn file_extensions() -> Vec<&'static str> {
        let mut v: Vec<&'static str> = Vec::new();
        v.push("ini");
        v
    }
}

/// Parse config text in a given format into a fresh in-memory store.
pub fn inline_source_config<S: ConfigSourceParser>(name: String, content: &str) -> (r: Result<
    HashSource,
    ConfigError,
>)
    ensures
        r matches Ok(h) ==> h.wf(),
{
    let v = match S::parse_source(content) {
        Ok(v) => v,
        Err(e) => {
            return Err(e);
        },
    };
    let m = HashSource::new(name);
    let mut b = m.prefixed();
    match v.convert_source(&mut b) {
        Ok(()) => Ok(b.finish()),
        Err(e) => Err(e),
    }
}

} // verus!
