//! Configuration errors.

use vstd::prelude::*;

verus! {

/// Configuration error.
#[derive(Debug)]
pub enum ConfigError {
    /// Config not found.
    ConfigNotFound(String),
    /// Config not found while resolving a placeholder; names the inner key.
    ConfigRecursiveNotFound(String),
    /// Config type mismatch: key, kind of the stored value, requested type.
    ConfigTypeMismatch(String, String, String),
    /// Config parse error: key, offending value.
    ConfigParseError(String, String),
    /// A key reappeared in its own resolution chain.
    ConfigRecursiveError(String),
    /// Config file not exists.
    ConfigFileNotExists(String),
    /// Config file not supported.
    ConfigFileNotSupported(String),
    /// A refreshable value was requested while resolving another one.
    RefValueRecursiveError,
    /// The refresh registry is at its capacity bound.
    TooManyInstances(usize),
    /// A lock was poisoned by a panic in another thread.
    LockPoisoned,
    /// An underlying error from a type-specific conversion, as text.
    ConfigCause(String),
}

/// The specification-level shape of an error: its kind, with text payloads
/// as character sequences.
#[allow(missing_debug_implementations)]
pub ghost enum ErrView {
    NotFound(Seq<char>),
    RecursiveNotFound(Seq<char>),
    TypeMismatch(Seq<char>, Seq<char>, Seq<char>),
    ParseError(Seq<char>, Seq<char>),
    RecursiveError(Seq<char>),
    FileNotExists(Seq<char>),
    FileNotSupported(Seq<char>),
    RefValueRecursive,
    TooMany(usize),
    LockPoisoned,
    Cause(Seq<char>),
}

/// The shape of an error value.
pub open spec fn err_view(e: ConfigError) -> ErrView {
    match e {
        ConfigError::ConfigNotFound(s) => ErrView::NotFound(s@),
        ConfigError::ConfigRecursiveNotFound(s) => ErrView::RecursiveNotFound(s@),
        ConfigError::ConfigTypeMismatch(a, b, c) => ErrView::TypeMismatch(a@, b@, c@),
        ConfigError::ConfigParseError(a, b) => ErrView::ParseError(a@, b@),
        ConfigError::ConfigRecursiveError(s) => ErrView::RecursiveError(s@),
        ConfigError::ConfigFileNotExists(s) => ErrView::FileNotExists(s@),
        ConfigError::ConfigFileNotSupported(s) => ErrView::FileNotSupported(s@),
        ConfigError::RefValueRecursiveError => ErrView::RefValueRecursive,
        ConfigError::TooManyInstances(n) => ErrView::TooMany(n),
        ConfigError::LockPoisoned => ErrView::LockPoisoned,
        ConfigError::ConfigCause(s) => ErrView::Cause(s@),
    }
}

} // verus!
