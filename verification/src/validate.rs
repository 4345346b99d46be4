//! Validation helpers for parsed values: ranges, lengths, regex matches and
//! custom checks.

use std::collections::BTreeMap;
use std::collections::HashMap;

use vstd::prelude::*;

use crate::err::ConfigError;
use crate::key::str_chars;

verus! {

/// Declares `regex::Regex` so compiled patterns can cross signatures; the
/// pattern stays opaque.
#[verifier::external_type_specification]
#[verifier::external_body]
#[allow(missing_debug_implementations)]
pub struct ExRegex(regex::Regex);

/// Relies on `regex::Regex::is_match`: whether the pattern matches the text
/// anywhere.
#[verifier::external_body]
fn regex_is_match(pattern: &regex::Regex, value: &str) -> (r: bool) {
    pattern.is_match(value)
}

/// Relies on `regex::Regex::as_str`: the pattern's own text.
#[verifier::external_body]
fn regex_pattern(pattern: &regex::Regex) -> (r: String) {
    pattern.as_str().to_string()
}

/// The outcome a regex validation reports, given whether the pattern
/// matched: a match passes, a mismatch is a parse error naming the field.
pub fn regex_outcome(field: String, pattern_text: String, matched: bool) -> (r: Result<
    (),
    ConfigError,
>)
    ensures
        matched <==> r is Ok,
        !matched ==> (r matches Err(e) && e matches ConfigError::ConfigParseError(f, _) && f@
            == field@),
{
    if matched {
        Ok(())
    } else {
        let mut msg = str_chars("regex mismatch: ");
        let mut pat = str_chars(pattern_text.as_str());
        msg.append(&mut pat);
        Err(ConfigError::ConfigParseError(field, crate::key::chars_to_string(&msg)))
    }
}

/// Validate a string against a regex pattern.
pub fn validate_regex<F: Fn() -> String>(field: F, pattern: &regex::Regex, value: &str) -> (r:
    Result<(), ConfigError>)
    requires
        field.requires(()),
{
    let matched = regex_is_match(pattern, value);
    if matched {
        regex_outcome(String::new(), String::new(), true)
    } else {
        let f = field();
        regex_outcome(f, regex_pattern(pattern), false)
    }
}

/// How a range check fails.
#[allow(missing_debug_implementations)]
#[derive(PartialEq, Eq, Structural, Clone, Copy, Debug)]
pub enum RangeFault {
    /// The value compared below the minimum.
    BelowMin,
    /// The value and the minimum do not compare.
    NotComparableMin,
    /// The value compared above the maximum.
    AboveMax,
    /// The value and the maximum do not compare.
    NotComparableMax,
}

/// The decision a range validation takes, from the outcomes of comparing the
/// value with the bounds (`None` for an absent bound, `Some(None)` for an
/// incomparable pair): the minimum is checked first.
pub fn range_check(
    cmp_min: Option<Option<core::cmp::Ordering>>,
    cmp_max: Option<Option<core::cmp::Ordering>>,
) -> (r: Option<RangeFault>)
    ensures
        r == (match cmp_min {
            Some(None) => Some(RangeFault::NotComparableMin),
            Some(Some(core::cmp::Ordering::Less)) => Some(RangeFault::BelowMin),
            _ => match cmp_max {
                Some(None) => Some(RangeFault::NotComparableMax),
                Some(Some(core::cmp::Ordering::Greater)) => Some(RangeFault::AboveMax),
                _ => None::<RangeFault>,
            },
        }),
{
    match cmp_min {
        Some(None) => Some(RangeFault::NotComparableMin),
        Some(Some(core::cmp::Ordering::Less)) => Some(RangeFault::BelowMin),
        _ => match cmp_max {
            Some(None) => Some(RangeFault::NotComparableMax),
            Some(Some(core::cmp::Ordering::Greater)) => Some(RangeFault::AboveMax),
            _ => None,
        },
    }
}

fn range_fault_error(field: String, fault: RangeFault) -> (r: ConfigError)
    ensures
        r matches ConfigError::ConfigParseError(f, _) && f@ == field@,
{
    let msg: &str = match fault {
        RangeFault::BelowMin => "value must be >= min",
        RangeFault::NotComparableMin => "value is not comparable to min",
        RangeFault::AboveMax => "value must be <= max",
        RangeFault::NotComparableMax => "value is not comparable to max",
    };
    ConfigError::ConfigParseError(field, msg.to_owned())
}

/// Validate that a value lies between optional bounds; incomparable values
/// (under a partial order) are rejected.
pub fn validate_range<T: PartialOrd, F: Fn() -> String>(
    field: F,
    value: &T,
    min: Option<&T>,
    max: Option<&T>,
) -> (r: Result<(), ConfigError>)
    requires
        field.requires(()),
{
    let cmp_min: Option<Option<core::cmp::Ordering>> = match min {
        Some(m) => Some(value.partial_cmp(m)),
        None => None,
    };
    let cmp_max: Option<Option<core::cmp::Ordering>> = match max {
        Some(m) => Some(value.partial_cmp(m)),
        None => None,
    };
    match range_check(cmp_min, cmp_max) {
        None => Ok(()),
        Some(fault) => {
            let f = field();
            Err(range_fault_error(f, fault))
        },
    }
}

/// Types with a length a validation can bound.
pub trait ValidateLength {
    /// The value's length.
    fn validate_len(&self) -> usize;
}

impl ValidateLength for String {
    /// The number of characters.
    fn validate_len(&self) -> (r: usize)
        ensures
            r == self@.len(),
    {
        self.as_str().unicode_len()
    }
}

impl<T> ValidateLength for Vec<T> {
    /// The number of elements.
    fn validate_len(&self) -> (r: usize)
        ensures
            r == self@.len(),
    {
        self.len()
    }
}

impl<K, V> ValidateLength for HashMap<K, V> {
    /// The number of entries (exact where the key type obeys the hash
    /// model).
    fn validate_len(&self) -> (r: usize)
        ensures
            vstd::std_specs::hash::obeys_key_model::<K>() ==> r == self@.len(),
    {
        self.len()
    }
}

impl<K, V> ValidateLength for BTreeMap<K, V> {
    /// The number of entries (exact where the key type obeys the comparison
    /// model).
    fn validate_len(&self) -> (r: usize)
        ensures
            vstd::std_specs::btree::key_obeys_cmp_spec::<K>() ==> r == self@.len(),
    {
        self.len()
    }
}

/// How a length check fails.
#[allow(missing_debug_implementations)]
#[derive(PartialEq, Eq, Structural, Clone, Copy, Debug)]
pub enum LengthFault {
    /// The length lies below the minimum.
    TooShort,
    /// The length lies above the maximum.
    TooLong,
}

/// The decision a length validation takes: below an optional minimum is too
/// short (checked first), above an optional maximum too long.
pub open spec fn length_decision(len: usize, min: Option<usize>, max: Option<usize>) -> Option<
    LengthFault,
> {
    if min matches Some(mn) && len < mn {
        Some(LengthFault::TooShort)
    } else if max matches Some(mx) && len > mx {
        Some(LengthFault::TooLong)
    } else {
        None
    }
}

/// The decision a length validation takes, as executable code.
pub fn length_check(len: usize, min: Option<usize>, max: Option<usize>) -> (r: Option<LengthFault>)
    ensures
        r == length_decision(len, min, max),
{
    if let Some(mn) = min {
        if len < mn {
            return Some(LengthFault::TooShort);
        }
    }
    if let Some(mx) = max {
        if len > mx {
            return Some(LengthFault::TooLong);
        }
    }
    None
}

/// Validate a value's length against optional bounds: the outcome is the
/// bounds decision on what the type reports as its length.
pub fn validate_length<T: ValidateLength, F: Fn() -> String>(
    field: F,
    value: &T,
    min: Option<usize>,
    max: Option<usize>,
) -> (r: Result<(), ConfigError>)
    requires
        field.requires(()),
    ensures
        exists|len: usize|
            #[trigger] call_ensures(T::validate_len, (value,), len) && (match length_decision(
                len,
                min,
                max,
            ) {
                None => r is Ok,
                Some(_) => r matches Err(e) && e is ConfigParseError,
            }),
{
    let len = value.validate_len();
    let ghost glen = len;
    proof {
        assert(call_ensures(T::validate_len, (value,), glen));
    }
    match length_check(len, min, max) {
        None => Ok(()),
        Some(LengthFault::TooShort) => {
            let f = field();
            Err(ConfigError::ConfigParseError(f, "length must be >= min".to_owned()))
        },
        Some(LengthFault::TooLong) => {
            let f = field();
            Err(ConfigError::ConfigParseError(f, "length must be <= max".to_owned()))
        },
    }
}

/// Validate that a value is not empty: the outcome is the zero test on what
/// the type reports as its length.
pub fn validate_not_empty<T: ValidateLength, F: Fn() -> String>(field: F, value: &T) -> (r: Result<
    (),
    ConfigError,
>)
    requires
        field.requires(()),
    ensures
        exists|len: usize|
            #[trigger] call_ensures(T::validate_len, (value,), len) && (if len == 0 {
                r matches Err(e) && e is ConfigParseError
            } else {
                r is Ok
            }),
{
    let len = value.validate_len();
    let ghost glen = len;
    proof {
        assert(call_ensures(T::validate_len, (value,), glen));
    }
    if len == 0 {
        let f = field();
        Err(ConfigError::ConfigParseError(f, "value must not be empty".to_owned()))
    } else {
        Ok(())
    }
}

/// Validate with a custom check: the outcome is one application of the
/// check to the value, an error text becoming a parse error naming the
/// field.
pub fn validate_custom<T, F, K>(field: K, value: &T, f: F) -> (r: Result<(), ConfigError>) where
    F: Fn(&T) -> Result<(), String>,
    K: Fn() -> String,

    requires
        field.requires(()),
        forall|t: &T| #[trigger] f.requires((t,)),
    ensures
        exists|fr: Result<(), String>| #[trigger] f.ensures((value,), fr) && (fr is Ok <==> r
            is Ok),
        r matches Err(e) ==> e is ConfigParseError,
{
    let out = f(value);
    let ghost gout = out;
    proof {
        assert(f.ensures((value,), gout));
    }
    match out {
        Err(err) => {
            let fd = field();
            Err(ConfigError::ConfigParseError(fd, err))
        },
        Ok(()) => Ok(()),
    }
}

} // verus!
