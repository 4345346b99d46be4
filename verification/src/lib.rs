//! A layered configuration library.
//!
//! Keys are normalized into a canonical dotted/bracketed form, values come
//! from prioritized sources merged into one flat store, string values may
//! contain `${key}` placeholder expressions (with defaults, nesting, escapes
//! and cycle detection), and previously issued refreshable values can be
//! re-resolved when a source reports a change.

use vstd::prelude::*;

pub mod adapters;
pub mod configuration;
pub mod context;
pub mod err;
pub mod key;
pub mod memory;
pub mod random;
pub mod resolver;
pub mod source;
pub mod validate;
pub mod value;
pub mod value_ref;

pub use adapters::{inline_source_config, Ini, Json, Toml, YamlFormat};
pub use configuration::{from_map, Configuration, LayeredSource, ManualSource, SourceKind};
pub use context::{ConfigContext, FromConfig, FromConfigWithPrefix};
pub use err::ConfigError;
pub use key::{CacheKey, CacheString, PartialKey, PartialKeyCollector, PartialKeyIter};
pub use memory::{ConfigSourceBuilder, HashSource};
pub use source::{Cargo, ConfigSource, ConfigSourceAdaptor, ConfigSourceParser, PrefixEnvironment,
    Random, SharedSource};
pub use validate::{validate_custom, validate_length, validate_not_empty, validate_range,
    validate_regex, ValidateLength};
pub use value::{parse_duration_str, ConfigValue, RandValue};
pub use value_ref::{push_step, IORef, RefValue, RefreshEntry, Refresher};

verus! {

} // verus!
