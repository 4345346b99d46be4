//! The resolution context: a cursor key into a store, driving typed lookups.

use std::collections::HashMap;

use vstd::prelude::*;

use crate::err::{err_view, ConfigError, ErrView};
use crate::key::{CacheKey, PartialKeyCollector};
use crate::memory::{HashSource, NodeV};
use crate::random::normalize_rand;
use crate::memory::val_at;
use crate::resolver::{err_matches, hist_set, no_rand, parse_placeholder, resolve_spec, Prepared,
    ResolveErr, ScanResult};
use crate::value::{bool_of_lower, lower_of, lowercase, num_of_str, parse_num, ConfigValue,
    ParsedNum, Val};
use crate::value_ref::Refresher;

verus! {

/// Configuration context: the key being resolved, the store it is resolved
/// against, and the refresh registry new refreshable cells go to.
#[allow(missing_debug_implementations)]
pub struct ConfigContext<'a> {
    pub(crate) key: CacheKey,
    pub(crate) source: &'a HashSource,
    pub(crate) refs: &'a Refresher,
    pub(crate) ref_value_flag: bool,
}

impl<'a> ConfigContext<'a> {
    /// The store lookups go against.
    pub closed spec fn store(&self) -> Map<Seq<char>, NodeV> {
        self.source@
    }

    /// The canonical key the context stands on.
    pub closed spec fn key_view(&self) -> Seq<char> {
        self.key@
    }

    pub closed spec fn marks(&self) -> Seq<usize> {
        self.key.marks()
    }

    /// Is a refreshable cell being resolved right now?
    pub closed spec fn flag_view(&self) -> bool {
        self.ref_value_flag
    }

    /// The refresh registry's capacity bound.
    pub closed spec fn refresher_max(&self) -> usize {
        self.refs.max_spec()
    }

    pub closed spec fn wf(&self) -> bool {
        self.key.wf() && self.source.wf() && self.refs.wf()
    }
}

impl HashSource {
    /// A fresh context over this store.
    pub fn new_context<'a>(&'a self, refs: &'a Refresher) -> (r: ConfigContext<'a>)
        requires
            self.wf(),
            refs.wf(),
        ensures
            r.wf(),
            r.store() == self@,
            r.key_view() == Seq::<char>::empty(),
            r.marks() == Seq::<usize>::empty(),
            r.flag_view() == false,
            r.refresher_max() == refs.max_spec(),
    {
        ConfigContext { key: CacheKey::new(), source: self, refs, ref_value_flag: false }
    }
}

/// The scalar as conversion sees it: `None` where neither the store nor the
/// caller supplied one.
pub open spec fn opt_val_view(v: Option<ConfigValue>) -> Option<Val> {
    match v {
        Some(cv) => Some(cv@),
        None => None,
    }
}

/// Is resolution at this key a function of the store and the default alone?
/// A random marker, stored or supplied, draws a fresh value instead.
pub open spec fn marker_free(m: Map<Seq<char>, NodeV>, dflt: Option<Val>) -> bool {
    no_rand(m) && !(dflt matches Some(Val::Rand(_)))
}

/// What the lookup step hands to conversion at the key `k`: the stored
/// scalar if the store has one, else the supplied default; a string scalar
/// goes through placeholder expansion first (an expansion failure precedes
/// conversion); integer and bool scalars pass unchanged.  Random markers are
/// replaced by drawn values, so this is exact only where `marker_free`
/// holds.
pub open spec fn prepare_spec(
    m: Map<Seq<char>, NodeV>,
    hist: Set<Seq<char>>,
    k: Seq<char>,
    dflt: Option<Val>,
) -> Prepared {
    let eff = match val_at(m, k) {
        Some(v) => Some(v),
        None => dflt,
    };
    match eff {
        None => Prepared::Handed(None),
        Some(v) => match v {
            Val::Str(s) => match resolve_spec(m, hist, k, k, s) {
                ScanResult::Done(out) => Prepared::Handed(Some(Val::Str(out))),
                ScanResult::Fail(e) => Prepared::Failed(e),
            },
            other => Prepared::Handed(Some(other)),
        },
    }
}

/// What `String` conversion yields for a handed scalar: strings pass
/// through, integers and bools render as text, absence is not-found, a
/// random marker is refused.
pub open spec fn string_outcome_spec(
    key: Seq<char>,
    v: Option<Val>,
    r: Result<String, ConfigError>,
) -> bool {
    match v {
        None => r matches Err(e) && err_view(e) == ErrView::NotFound(key),
        Some(Val::Str(s)) => r matches Ok(o) && o@ == s,
        Some(Val::Int(x)) => r matches Ok(o) && o@ == crate::value::int_chars(x as int),
        Some(Val::Bool(b)) => r matches Ok(o) && o@ == crate::resolver::bool_chars(b),
        Some(Val::Rand(_)) => r matches Err(e) && err_view(e) matches ErrView::ParseError(k, _)
            && k == key,
    }
}

/// What `bool` conversion yields for a handed scalar.
pub open spec fn bool_outcome_spec(key: Seq<char>, v: Option<Val>, r: Result<
    bool,
    ConfigError,
>) -> bool {
    match v {
        None => r matches Err(e) && err_view(e) == ErrView::NotFound(key),
        Some(Val::Str(s)) => if s.len() == 0 {
            r matches Err(e) && err_view(e) == ErrView::NotFound(key)
        } else {
            match bool_of_lower(lower_of(s)) {
                Some(b) => r matches Ok(o) && o == b,
                None => r matches Err(e) && err_view(e) == ErrView::ParseError(key, s),
            }
        },
        Some(Val::Bool(b)) => r matches Ok(o) && o == b,
        Some(Val::Int(_)) => r matches Err(e) && err_view(e) matches ErrView::TypeMismatch(
            k,
            _,
            _,
        ) && k == key,
        Some(Val::Rand(_)) => r matches Err(e) && err_view(e) matches ErrView::TypeMismatch(
            k,
            _,
            _,
        ) && k == key,
    }
}

/// The decision of a numeric conversion.
#[allow(missing_debug_implementations)]
pub ghost enum NumOutcome {
    /// This value is returned.
    Value(int),
    /// No value (or an empty string): not found.
    Absent,
    /// Malformed or out-of-range text or integer: a conversion error.
    Invalid,
    /// A bool or random marker: a type mismatch.
    Mismatch,
}

/// What a signed integer conversion with range `lo..=hi` decides.
pub open spec fn signed_outcome(v: Option<Val>, lo: int, hi: int) -> NumOutcome {
    match v {
        None => NumOutcome::Absent,
        Some(Val::Str(s)) => if s.len() == 0 {
            NumOutcome::Absent
        } else {
            match num_of_str(s, true) {
                None => NumOutcome::Invalid,
                Some(n) => if lo <= n <= hi {
                    NumOutcome::Value(n)
                } else {
                    NumOutcome::Invalid
                },
            }
        },
        Some(Val::Int(x)) => if lo <= x <= hi {
            NumOutcome::Value(x as int)
        } else {
            NumOutcome::Invalid
        },
        Some(Val::Bool(_)) => NumOutcome::Mismatch,
        Some(Val::Rand(_)) => NumOutcome::Mismatch,
    }
}

/// What an unsigned integer conversion with bound `hi` decides.
pub open spec fn unsigned_outcome(v: Option<Val>, hi: int) -> NumOutcome {
    match v {
        None => NumOutcome::Absent,
        Some(Val::Str(s)) => if s.len() == 0 {
            NumOutcome::Absent
        } else {
            match num_of_str(s, false) {
                None => NumOutcome::Invalid,
                Some(n) => if n <= hi {
                    NumOutcome::Value(n)
                } else {
                    NumOutcome::Invalid
                },
            }
        },
        Some(Val::Int(x)) => if 0 <= x <= hi {
            NumOutcome::Value(x as int)
        } else {
            NumOutcome::Invalid
        },
        Some(Val::Bool(_)) => NumOutcome::Mismatch,
        Some(Val::Rand(_)) => NumOutcome::Mismatch,
    }
}

/// Does a numeric result (value or error shape) match the decision?
pub open spec fn num_matches(o: NumOutcome, key: Seq<char>, r: Result<int, ErrView>) -> bool {
    match o {
        NumOutcome::Value(n) => r matches Ok(x) && x == n,
        NumOutcome::Absent => r matches Err(ev) && ev == ErrView::NotFound(key),
        NumOutcome::Invalid => r matches Err(ev) && ev is Cause,
        NumOutcome::Mismatch => r matches Err(ev) && ev matches ErrView::TypeMismatch(k, _, _)
            && k == key,
    }
}

/// The result of a numeric conversion, as value and error shape.
pub open spec fn num_result_view<T: Integer>(r: Result<T, ConfigError>) -> Result<int, ErrView> {
    match r {
        Ok(x) => Ok(x as int),
        Err(e) => Err(err_view(e)),
    }
}

/// Does an `Option` outcome lift a plain outcome: successes kept, a plain
/// not-found forgiven, anything else passed through?
pub open spec fn option_lifts<V>(vr: Result<V, ConfigError>, r: Result<
    Option<V>,
    ConfigError,
>) -> bool {
    match vr {
        Ok(x) => r matches Ok(o) && o == Some(x),
        Err(e) => if e is ConfigNotFound {
            r matches Ok(o) && o is None
        } else {
            r matches Err(e2) && e2 == e
        },
    }
}

/// Generate a typed value from a config value under a context.
pub trait FromConfig: Sized {
    /// Does conversion for this type obey the exact relation
    /// `from_config_spec`?  The library's own types do; the default leaves
    /// conversion unspecified, so user implementations need no ghost code.
    open spec fn obeys_from_config_spec() -> bool {
        false
    }

    /// The relation between what conversion receives and what it returns,
    /// for types that obey it: over the store, the canonical key, the
    /// cell-in-flight flag and the handed scalar.
    open spec fn from_config_spec(
        store: Map<Seq<char>, NodeV>,
        key: Seq<char>,
        flag: bool,
        v: Option<Val>,
        r: Result<Self, ConfigError>,
    ) -> bool {
        true
    }

    /// Generate a value from the (already placeholder-expanded) scalar at the
    /// context's key, or from the children under it.
    fn from_config(context: &mut ConfigContext<'_>, value: Option<ConfigValue>) -> (r: Result<
        Self,
        ConfigError,
    >)
        requires
            old(context).wf(),
        ensures
            final(context).wf(),
            final(context).key_view() == old(context).key_view(),
            final(context).marks() == old(context).marks(),
            final(context).flag_view() == old(context).flag_view(),
            final(context).store() == old(context).store(),
            final(context).refresher_max() == old(context).refresher_max(),
            Self::obeys_from_config_spec() ==> Self::from_config_spec(
                old(context).store(),
                old(context).key_view(),
                old(context).flag_view(),
                opt_val_view(value),
                r,
            ),
    ;
}

/// Config with a predefined key prefix.
pub trait FromConfigWithPrefix: FromConfig {
    /// The predefined key this type is read from.
    fn prefix() -> &'static str;
}

impl<'a> ConfigContext<'a> {
    /// Get the current key in the context.
    pub fn current_key(&self) -> (r: String)
        ensures
            r@ == self.key_view(),
    {
        self.key.as_str()
    }

    /// The refresh registry of this context's configuration.
    pub(crate) fn as_refresher(&self) -> (r: &'a Refresher)
        ensures
            self.wf() ==> r.wf(),
            r.max_spec() == self.refresher_max(),
    {
        self.refs
    }

    /// Is a refreshable cell being resolved right now?
    pub(crate) fn flag(&self) -> (r: bool)
        ensures
            r == self.flag_view(),
    {
        self.ref_value_flag
    }

    /// Mark whether a refreshable cell is being resolved.
    pub(crate) fn set_flag(&mut self, b: bool)
        ensures
            final(self).wf() == old(self).wf(),
            final(self).flag_view() == b,
            final(self).key_view() == old(self).key_view(),
            final(self).marks() == old(self).marks(),
            final(self).store() == old(self).store(),
            final(self).refresher_max() == old(self).refresher_max(),
    {
        self.ref_value_flag = b;
    }

    /// A not-found error naming the current key.
    pub(crate) fn not_found(&self) -> (r: ConfigError)
        ensures
            r matches ConfigError::ConfigNotFound(k) && k@ == self.key_view(),
    {
        ConfigError::ConfigNotFound(self.key.as_str())
    }

    /// A parse error naming the current key and the offending value.
    pub fn parse_error(&self, value: &str) -> (r: ConfigError)
        ensures
            r matches ConfigError::ConfigParseError(k, v) && k@ == self.key_view() && v@
                == value@,
    {
        ConfigError::ConfigParseError(self.key.as_str(), value.to_owned())
    }

    /// A type-mismatch error: current key, kind of the stored value, and the
    /// requested type.
    pub(crate) fn type_mismatch(&self, value: &ConfigValue, requested: &str) -> (r: ConfigError)
        ensures
            r matches ConfigError::ConfigTypeMismatch(k, tp, req) && k@ == self.key_view() && req@
                == requested@,
    {
        let tp: &str = match value {
            ConfigValue::Str(_) => "String",
            ConfigValue::Int(_) => "Integer",
            ConfigValue::Bool(_) => "Bool",
            ConfigValue::Rand(_) => "Random",
        };
        ConfigError::ConfigTypeMismatch(self.key.as_str(), tp.to_owned(), requested.to_owned())
    }

    /// The children descriptor under the current key.
    pub(crate) fn collect_keys(&self) -> (r: PartialKeyCollector)
        requires
            self.wf(),
        ensures
            ({
                let n = crate::memory::node_at(self.store(), self.key_view());
                (forall|t: Seq<char>| n.subs.contains(t) ==> r.names().contains(t)) && (forall|
                    t: Seq<char>,
                |
                    r.names().contains(t) ==> n.subs.contains(t)) && r.index_bound() == match n.subi {
                    Some(i) => if i == usize::MAX {
                        Some(usize::MAX)
                    } else {
                        Some((i + 1) as usize)
                    },
                    None => None,
                }
            }),
    {
        let mut c = PartialKeyCollector::new();
        self.source.collect_keys(&self.key, &mut c);
        c
    }

    /// Push a raw sub-key, look the full key up, expand placeholders in a
    /// string value (a random marker is replaced by a drawn value), hand the
    /// outcome to `T`, and restore the key.  An expansion failure precedes
    /// conversion and is returned as the exact error the scanner names.
    pub fn do_parse_config<T: FromConfig>(
        &mut self,
        partial_key: &str,
        default_value: Option<ConfigValue>,
        history: &mut Vec<String>,
    ) -> (r: Result<T, ConfigError>)
        requires
            old(self).wf(),
        ensures
            final(self).wf(),
            final(self).key_view() == old(self).key_view(),
            final(self).marks() == old(self).marks(),
            final(self).flag_view() == old(self).flag_view(),
            final(self).store() == old(self).store(),
            final(self).refresher_max() == old(self).refresher_max(),
            final(history).deep_view() == old(history).deep_view(),
            marker_free(old(self).store(), opt_val_view(default_value)) ==> match prepare_spec(
                old(self).store(),
                hist_set(old(history).deep_view()),
                crate::key::push_str_spec(old(self).key_view(), partial_key@),
                opt_val_view(default_value),
            ) {
                Prepared::Failed(e) => r matches Err(ce) && err_matches(ce, e),
                Prepared::Handed(hv) => T::obeys_from_config_spec() ==> T::from_config_spec(
                    old(self).store(),
                    crate::key::push_str_spec(old(self).key_view(), partial_key@),
                    old(self).flag_view(),
                    hv,
                    r,
                ),
            },
    {
        let ghost k0 = self.key@;
        let ghost m0 = self.key.marks();
        self.key.push(partial_key);
        proof {
            crate::key::lemma_render_segs_extends(k0, crate::key::segs(partial_key@));
            assert(m0.push(k0.len() as usize).drop_last() =~= m0);
        }
        let r = self.parse_at_key::<T>(default_value, history);
        self.key.pop();
        proof {
            assert(self.key@ =~= k0);
        }
        r
    }

    /// As `do_parse_config`, for one index segment.
    pub fn do_parse_config_index<T: FromConfig>(
        &mut self,
        idx: usize,
        default_value: Option<ConfigValue>,
        history: &mut Vec<String>,
    ) -> (r: Result<T, ConfigError>)
        requires
            old(self).wf(),
        ensures
            final(self).wf(),
            final(self).key_view() == old(self).key_view(),
            final(self).marks() == old(self).marks(),
            final(self).flag_view() == old(self).flag_view(),
            final(self).store() == old(self).store(),
            final(self).refresher_max() == old(self).refresher_max(),
            final(history).deep_view() == old(history).deep_view(),
            marker_free(old(self).store(), opt_val_view(default_value)) ==> match prepare_spec(
                old(self).store(),
                hist_set(old(history).deep_view()),
                crate::key::render_seg(old(self).key_view(), crate::key::Seg::Index(idx as nat)),
                opt_val_view(default_value),
            ) {
                Prepared::Failed(e) => r matches Err(ce) && err_matches(ce, e),
                Prepared::Handed(hv) => T::obeys_from_config_spec() ==> T::from_config_spec(
                    old(self).store(),
                    crate::key::render_seg(
                        old(self).key_view(),
                        crate::key::Seg::Index(idx as nat),
                    ),
                    old(self).flag_view(),
                    hv,
                    r,
                ),
            },
    {
        let ghost k0 = self.key@;
        let ghost m0 = self.key.marks();
        self.key.push_index(idx);
        proof {
            crate::key::lemma_render_seg_extends(k0, crate::key::Seg::Index(idx as nat));
            assert(m0.push(k0.len() as usize).drop_last() =~= m0);
        }
        let r = self.parse_at_key::<T>(default_value, history);
        self.key.pop();
        proof {
            assert(self.key@ =~= k0);
        }
        r
    }

    /// Look the current key up, fall back to the supplied default, and
    /// expand a string value: exactly the value conversion receives, or the
    /// expansion failure that stops the lookup.
    pub fn resolved_value(
        &self,
        default_value: Option<ConfigValue>,
        history: &mut Vec<String>,
    ) -> (r: Result<Option<ConfigValue>, ConfigError>)
        requires
            self.wf(),
        ensures
            final(history).deep_view() == old(history).deep_view(),
            marker_free(self.store(), opt_val_view(default_value)) ==> match prepare_spec(
                self.store(),
                hist_set(old(history).deep_view()),
                self.key_view(),
                opt_val_view(default_value),
            ) {
                Prepared::Handed(v) => r matches Ok(o) && opt_val_view(o) == v,
                Prepared::Failed(e) => r matches Err(ce) && err_matches(ce, e),
            },
    {
        let looked = self.source.get_value(&self.key);
        let value: Option<ConfigValue> = match looked {
            Some(cv) => Some(cv),
            None => default_value,
        };
        match value {
            Some(ConfigValue::Str(s)) => {
                let ks = self.key.as_str();
                match parse_placeholder(
                    self.source,
                    ks.as_str(),
                    ks.as_str(),
                    s.as_str(),
                    history,
                ) {
                    Ok(out) => Ok(Some(ConfigValue::Str(out))),
                    Err(e) => Err(e),
                }
            },
            Some(ConfigValue::Rand(rv)) => {
                proof {
                    assert(!marker_free(self.store(), opt_val_view(default_value)));
                }
                Ok(Some(normalize_rand(rv)))
            },
            other => Ok(other),
        }
    }

    /// Look up, expand and convert at the key already pushed.
    fn parse_at_key<T: FromConfig>(
        &mut self,
        default_value: Option<ConfigValue>,
        history: &mut Vec<String>,
    ) -> (r: Result<T, ConfigError>)
        requires
            old(self).wf(),
        ensures
            final(self).wf(),
            final(self).key_view() == old(self).key_view(),
            final(self).marks() == old(self).marks(),
            final(self).flag_view() == old(self).flag_view(),
            final(self).store() == old(self).store(),
            final(self).refresher_max() == old(self).refresher_max(),
            final(history).deep_view() == old(history).deep_view(),
            marker_free(old(self).store(), opt_val_view(default_value)) ==> match prepare_spec(
                old(self).store(),
                hist_set(old(history).deep_view()),
                old(self).key_view(),
                opt_val_view(default_value),
            ) {
                Prepared::Failed(e) => r matches Err(ce) && err_matches(ce, e),
                Prepared::Handed(hv) => T::obeys_from_config_spec() ==> T::from_config_spec(
                    old(self).store(),
                    old(self).key_view(),
                    old(self).flag_view(),
                    hv,
                    r,
                ),
            },
    {
        let resolved = match self.resolved_value(default_value, history) {
            Ok(v) => v,
            Err(e) => {
                return Err(e);
            },
        };
        T::from_config(self, resolved)
    }

    /// Parse partial config by partial key and default value: a fresh
    /// resolution chain; an expansion failure is returned as the exact error
    /// the scanner names.
    pub fn parse_config<T: FromConfig>(
        &mut self,
        partial_key: &str,
        default_value: Option<ConfigValue>,
    ) -> (r: Result<T, ConfigError>)
        requires
            old(self).wf(),
        ensures
            final(self).wf(),
            final(self).key_view() == old(self).key_view(),
            final(self).marks() == old(self).marks(),
            final(self).flag_view() == old(self).flag_view(),
            final(self).store() == old(self).store(),
            final(self).refresher_max() == old(self).refresher_max(),
            marker_free(old(self).store(), opt_val_view(default_value)) ==> match prepare_spec(
                old(self).store(),
                Set::empty(),
                crate::key::push_str_spec(old(self).key_view(), partial_key@),
                opt_val_view(default_value),
            ) {
                Prepared::Failed(e) => r matches Err(ce) && err_matches(ce, e),
                Prepared::Handed(hv) => T::obeys_from_config_spec() ==> T::from_config_spec(
                    old(self).store(),
                    crate::key::push_str_spec(old(self).key_view(), partial_key@),
                    old(self).flag_view(),
                    hv,
                    r,
                ),
            },
    {
        let mut history: Vec<String> = Vec::new();
        proof {
            assert(hist_set(history.deep_view()) =~= Set::<Seq<char>>::empty());
        }
        self.do_parse_config(partial_key, default_value, &mut history)
    }
}

// ---------------------------------------------------------------------------
// Conversions to concrete types
// ---------------------------------------------------------------------------

/// What `String` makes of a value: strings pass through (an empty string is
/// a valid empty value), integers and bools render as text, a random marker
/// is refused.
pub fn from_config_string(context: &ConfigContext<'_>, value: Option<ConfigValue>) -> (r: Result<
    String,
    ConfigError,
>)
    ensures
        match value {
            None => r matches Err(e) && e matches ConfigError::ConfigNotFound(k) && k@
                == context.key_view(),
            Some(cv) => match cv@ {
                Val::Str(s) => r matches Ok(o) && o@ == s,
                Val::Int(x) => r matches Ok(o) && o@ == crate::value::int_chars(x as int),
                Val::Bool(b) => r matches Ok(o) && o@ == crate::resolver::bool_chars(b),
                Val::Rand(_) => r matches Err(e) && e matches ConfigError::ConfigParseError(k, v)
                    && k@ == context.key_view(),
            },
        },
{
    match value {
        None => Err(context.not_found()),
        Some(ConfigValue::Str(s)) => Ok(s),
        Some(ConfigValue::Int(x)) => Ok(crate::value::render_i64(x)),
        Some(ConfigValue::Bool(b)) => {
            let mut bv: Vec<char> = Vec::new();
            if b {
                bv.push('t');
                bv.push('r');
                bv.push('u');
                bv.push('e');
            } else {
                bv.push('f');
                bv.push('a');
                bv.push('l');
                bv.push('s');
                bv.push('e');
            }
            proof {
                assert(bv@ =~= crate::resolver::bool_chars(b));
            }
            Ok(crate::key::chars_to_string(&bv))
        },
        Some(v) => Err(context.parse_error("ConfigValueError")),
    }
}

impl FromConfig for String {
    open spec fn obeys_from_config_spec() -> bool {
        true
    }

    open spec fn from_config_spec(
        store: Map<Seq<char>, NodeV>,
        key: Seq<char>,
        flag: bool,
        v: Option<Val>,
        r: Result<Self, ConfigError>,
    ) -> bool {
        string_outcome_spec(key, v, r)
    }

    fn from_config(context: &mut ConfigContext<'_>, value: Option<ConfigValue>) -> (r: Result<
        Self,
        ConfigError,
    >) {
        from_config_string(context, value)
    }
}

/// What `bool` makes of a value: a stored bool passes through; a non-empty
/// string means what its lowercased form says (`true`/`yes`, `false`/`no`);
/// anything else is refused.
pub fn from_config_bool(context: &ConfigContext<'_>, value: Option<ConfigValue>) -> (r: Result<
    bool,
    ConfigError,
>)
    ensures
        match value {
            None => r matches Err(e) && e matches ConfigError::ConfigNotFound(k) && k@
                == context.key_view(),
            Some(cv) => match cv@ {
                Val::Str(s) => if s.len() == 0 {
                    r matches Err(e) && e matches ConfigError::ConfigNotFound(k) && k@
                        == context.key_view()
                } else {
                    match bool_of_lower(lower_of(s)) {
                        Some(b) => r matches Ok(o) && o == b,
                        None => r matches Err(e) && e matches ConfigError::ConfigParseError(k, v)
                            && k@ == context.key_view() && v@ == s,
                    }
                },
                Val::Bool(b) => r matches Ok(o) && o == b,
                Val::Int(_) => r matches Err(e) && e matches ConfigError::ConfigTypeMismatch(
                    k,
                    _,
                    _,
                ) && k@ == context.key_view(),
                Val::Rand(_) => r matches Err(e) && e matches ConfigError::ConfigTypeMismatch(
                    k,
                    _,
                    _,
                ) && k@ == context.key_view(),
            },
        },
{
    match value {
        None => Err(context.not_found()),
        Some(ConfigValue::Str(s)) => {
            if s.as_str().is_empty() {
                return Err(context.not_found());
            }
            let l = lowercase(s.as_str());
            let is_true = crate::value::str_eq(l.as_str(), "true");
            let is_yes = crate::value::str_eq(l.as_str(), "yes");
            let is_false = crate::value::str_eq(l.as_str(), "false");
            let is_no = crate::value::str_eq(l.as_str(), "no");
            proof {
                reveal_strlit("true");
                reveal_strlit("yes");
                reveal_strlit("false");
                reveal_strlit("no");
                assert("true"@ =~= seq!['t', 'r', 'u', 'e']);
                assert("yes"@ =~= seq!['y', 'e', 's']);
                assert("false"@ =~= seq!['f', 'a', 'l', 's', 'e']);
                assert("no"@ =~= seq!['n', 'o']);
            }
            if is_true || is_yes {
                Ok(true)
            } else if is_false || is_no {
                Ok(false)
            } else {
                Err(context.parse_error(s.as_str()))
            }
        },
        Some(ConfigValue::Bool(b)) => Ok(b),
        Some(v) => Err(context.type_mismatch(&v, "bool")),
    }
}

impl FromConfig for bool {
    open spec fn obeys_from_config_spec() -> bool {
        true
    }

    open spec fn from_config_spec(
        store: Map<Seq<char>, NodeV>,
        key: Seq<char>,
        flag: bool,
        v: Option<Val>,
        r: Result<Self, ConfigError>,
    ) -> bool {
        bool_outcome_spec(key, v, r)
    }

    fn from_config(context: &mut ConfigContext<'_>, value: Option<ConfigValue>) -> (r: Result<
        Self,
        ConfigError,
    >) {
        from_config_bool(context, value)
    }
}

/// What a signed integer type with range `lo..=hi` makes of a value: a
/// stored integer or a decimal string in range passes; out-of-range or
/// malformed text is a conversion error; a bool or a random marker is a type
/// mismatch.
pub fn from_config_signed(
    context: &ConfigContext<'_>,
    value: Option<ConfigValue>,
    lo: i128,
    hi: i128,
    requested: &str,
) -> (r: Result<i128, ConfigError>)
    requires
        lo <= 0 <= hi,
    ensures
        num_matches(
            signed_outcome(opt_val_view(value), lo as int, hi as int),
            context.key_view(),
            num_result_view(r),
        ),
{
    match value {
        None => Err(context.not_found()),
        Some(ConfigValue::Str(s)) => {
            if s.as_str().is_empty() {
                return Err(context.not_found());
            }
            match parse_num(s.as_str(), true) {
                ParsedNum::Bad => Err(
                    ConfigError::ConfigCause("invalid digit found in string".to_owned()),
                ),
                ParsedNum::Huge(neg) => {
                    if neg {
                        Err(
                            ConfigError::ConfigCause(
                                "number too small to fit in target type".to_owned(),
                            ),
                        )
                    } else {
                        Err(
                            ConfigError::ConfigCause(
                                "number too large to fit in target type".to_owned(),
                            ),
                        )
                    }
                },
                ParsedNum::Num(neg, mag) => {
                    if neg {
                        // the magnitude of the smallest value is one past the
                        // largest one
                        if mag <= (i128::MAX as u128) + 1 {
                            let v: i128 = if mag == (i128::MAX as u128) + 1 {
                                i128::MIN
                            } else {
                                -(mag as i128)
                            };
                            if lo <= v {
                                Ok(v)
                            } else {
                                Err(
                                    ConfigError::ConfigCause(
                                        "number too small to fit in target type".to_owned(),
                                    ),
                                )
                            }
                        } else {
                            Err(
                                ConfigError::ConfigCause(
                                    "number too small to fit in target type".to_owned(),
                                ),
                            )
                        }
                    } else {
                        if mag <= i128::MAX as u128 && (mag as i128) <= hi {
                            Ok(mag as i128)
                        } else {
                            Err(
                                ConfigError::ConfigCause(
                                    "number too large to fit in target type".to_owned(),
                                ),
                            )
                        }
                    }
                },
            }
        },
        Some(ConfigValue::Int(x)) => {
            if lo <= x as i128 && x as i128 <= hi {
                Ok(x as i128)
            } else {
                Err(
                    ConfigError::ConfigCause(
                        "out of range integral type conversion attempted".to_owned(),
                    ),
                )
            }
        },
        Some(v) => Err(context.type_mismatch(&v, requested)),
    }
}

/// What an unsigned integer type with bound `hi` makes of a value: a `-`
/// sign in text is malformed, otherwise as the signed conversion.
pub fn from_config_unsigned(
    context: &ConfigContext<'_>,
    value: Option<ConfigValue>,
    hi: u128,
    requested: &str,
) -> (r: Result<u128, ConfigError>)
    ensures
        num_matches(
            unsigned_outcome(opt_val_view(value), hi as int),
            context.key_view(),
            num_result_view(r),
        ),
{
    match value {
        None => Err(context.not_found()),
        Some(ConfigValue::Str(s)) => {
            if s.as_str().is_empty() {
                return Err(context.not_found());
            }
            match parse_num(s.as_str(), false) {
                ParsedNum::Bad => Err(
                    ConfigError::ConfigCause("invalid digit found in string".to_owned()),
                ),
                ParsedNum::Huge(_) => Err(
                    ConfigError::ConfigCause("number too large to fit in target type".to_owned()),
                ),
                ParsedNum::Num(_, mag) => {
                    if mag <= hi {
                        Ok(mag)
                    } else {
                        Err(
                            ConfigError::ConfigCause(
                                "number too large to fit in target type".to_owned(),
                            ),
                        )
                    }
                },
            }
        },
        Some(ConfigValue::Int(x)) => {
            if x >= 0 && x as u128 <= hi {
                Ok(x as u128)
            } else {
                Err(
                    ConfigError::ConfigCause(
                        "out of range integral type conversion attempted".to_owned(),
                    ),
                )
            }
        },
        Some(v) => Err(context.type_mismatch(&v, requested)),
    }
}

impl FromConfig for u8 {
    open spec fn obeys_from_config_spec() -> bool {
        true
    }

    open spec fn from_config_spec(
        store: Map<Seq<char>, NodeV>,
        key: Seq<char>,
        flag: bool,
        v: Option<Val>,
        r: Result<Self, ConfigError>,
    ) -> bool {
        num_matches(unsigned_outcome(v, u8::MAX as int), key, num_result_view(r))
    }

    fn from_config(context: &mut ConfigContext<'_>, value: Option<ConfigValue>) -> (r: Result<
        Self,
        ConfigError,
    >) {
        match from_config_unsigned(context, value, u8::MAX as u128, "u8") {
            Ok(v) => Ok(v as u8),
            Err(e) => Err(e),
        }
    }
}

impl FromConfig for u16 {
    open spec fn obeys_from_config_spec() -> bool {
        true
    }

    open spec fn from_config_spec(
        store: Map<Seq<char>, NodeV>,
        key: Seq<char>,
        flag: bool,
        v: Option<Val>,
        r: Result<Self, ConfigError>,
    ) -> bool {
        num_matches(unsigned_outcome(v, u16::MAX as int), key, num_result_view(r))
    }

    fn from_config(context: &mut ConfigContext<'_>, value: Option<ConfigValue>) -> (r: Result<
        Self,
        ConfigError,
    >) {
        match from_config_unsigned(context, value, u16::MAX as u128, "u16") {
            Ok(v) => Ok(v as u16),
            Err(e) => Err(e),
        }
    }
}

impl FromConfig for u32 {
    open spec fn obeys_from_config_spec() -> bool {
        true
    }

    open spec fn from_config_spec(
        store: Map<Seq<char>, NodeV>,
        key: Seq<char>,
        flag: bool,
        v: Option<Val>,
        r: Result<Self, ConfigError>,
    ) -> bool {
        num_matches(unsigned_outcome(v, u32::MAX as int), key, num_result_view(r))
    }

    fn from_config(context: &mut ConfigContext<'_>, value: Option<ConfigValue>) -> (r: Result<
        Self,
        ConfigError,
    >) {
        match from_config_unsigned(context, value, u32::MAX as u128, "u32") {
            Ok(v) => Ok(v as u32),
            Err(e) => Err(e),
        }
    }
}

impl FromConfig for u64 {
    open spec fn obeys_from_config_spec() -> bool {
        true
    }

    open spec fn from_config_spec(
        store: Map<Seq<char>, NodeV>,
        key: Seq<char>,
        flag: bool,
        v: Option<Val>,
        r: Result<Self, ConfigError>,
    ) -> bool {
        num_matches(unsigned_outcome(v, u64::MAX as int), key, num_result_view(r))
    }

    fn from_config(context: &mut ConfigContext<'_>, value: Option<ConfigValue>) -> (r: Result<
        Self,
        ConfigError,
    >) {
        match from_config_unsigned(context, value, u64::MAX as u128, "u64") {
            Ok(v) => Ok(v as u64),
            Err(e) => Err(e),
        }
    }
}

impl FromConfig for u128 {
    open spec fn obeys_from_config_spec() -> bool {
        true
    }

    open spec fn from_config_spec(
        store: Map<Seq<char>, NodeV>,
        key: Seq<char>,
        flag: bool,
        v: Option<Val>,
        r: Result<Self, ConfigError>,
    ) -> bool {
        num_matches(unsigned_outcome(v, u128::MAX as int), key, num_result_view(r))
    }

    fn from_config(context: &mut ConfigContext<'_>, value: Option<ConfigValue>) -> (r: Result<
        Self,
        ConfigError,
    >) {
        from_config_unsigned(context, value, u128::MAX, "u128")
    }
}

impl FromConfig for usize {
    open spec fn obeys_from_config_spec() -> bool {
        true
    }

    open spec fn from_config_spec(
        store: Map<Seq<char>, NodeV>,
        key: Seq<char>,
        flag: bool,
        v: Option<Val>,
        r: Result<Self, ConfigError>,
    ) -> bool {
        num_matches(unsigned_outcome(v, usize::MAX as int), key, num_result_view(r))
    }

    fn from_config(context: &mut ConfigContext<'_>, value: Option<ConfigValue>) -> (r: Result<
        Self,
        ConfigError,
    >) {
        match from_config_unsigned(context, value, usize::MAX as u128, "usize") {
            Ok(v) => Ok(v as usize),
            Err(e) => Err(e),
        }
    }
}

impl FromConfig for i8 {
    open spec fn obeys_from_config_spec() -> bool {
        true
    }

    open spec fn from_config_spec(
        store: Map<Seq<char>, NodeV>,
        key: Seq<char>,
        flag: bool,
        v: Option<Val>,
        r: Result<Self, ConfigError>,
    ) -> bool {
        num_matches(signed_outcome(v, i8::MIN as int, i8::MAX as int), key, num_result_view(r))
    }

    fn from_config(context: &mut ConfigContext<'_>, value: Option<ConfigValue>) -> (r: Result<
        Self,
        ConfigError,
    >) {
        match from_config_signed(context, value, i8::MIN as i128, i8::MAX as i128, "i8") {
            Ok(v) => Ok(v as i8),
            Err(e) => Err(e),
        }
    }
}

impl FromConfig for i16 {
    open spec fn obeys_from_config_spec() -> bool {
        true
    }

    open spec fn from_config_spec(
        store: Map<Seq<char>, NodeV>,
        key: Seq<char>,
        flag: bool,
        v: Option<Val>,
        r: Result<Self, ConfigError>,
    ) -> bool {
        num_matches(signed_outcome(v, i16::MIN as int, i16::MAX as int), key, num_result_view(r))
    }

    fn from_config(context: &mut ConfigContext<'_>, value: Option<ConfigValue>) -> (r: Result<
        Self,
        ConfigError,
    >) {
        match from_config_signed(context, value, i16::MIN as i128, i16::MAX as i128, "i16") {
            Ok(v) => Ok(v as i16),
            Err(e) => Err(e),
        }
    }
}

impl FromConfig for i32 {
    open spec fn obeys_from_config_spec() -> bool {
        true
    }

    open spec fn from_config_spec(
        store: Map<Seq<char>, NodeV>,
        key: Seq<char>,
        flag: bool,
        v: Option<Val>,
        r: Result<Self, ConfigError>,
    ) -> bool {
        num_matches(signed_outcome(v, i32::MIN as int, i32::MAX as int), key, num_result_view(r))
    }

    fn from_config(context: &mut ConfigContext<'_>, value: Option<ConfigValue>) -> (r: Result<
        Self,
        ConfigError,
    >) {
        match from_config_signed(context, value, i32::MIN as i128, i32::MAX as i128, "i32") {
            Ok(v) => Ok(v as i32),
            Err(e) => Err(e),
        }
    }
}

impl FromConfig for i64 {
    open spec fn obeys_from_config_spec() -> bool {
        true
    }

    open spec fn from_config_spec(
        store: Map<Seq<char>, NodeV>,
        key: Seq<char>,
        flag: bool,
        v: Option<Val>,
        r: Result<Self, ConfigError>,
    ) -> bool {
        num_matches(signed_outcome(v, i64::MIN as int, i64::MAX as int), key, num_result_view(r))
    }

    fn from_config(context: &mut ConfigContext<'_>, value: Option<ConfigValue>) -> (r: Result<
        Self,
        ConfigError,
    >) {
        match from_config_signed(context, value, i64::MIN as i128, i64::MAX as i128, "i64") {
            Ok(v) => Ok(v as i64),
            Err(e) => Err(e),
        }
    }
}

impl FromConfig for i128 {
    open spec fn obeys_from_config_spec() -> bool {
        true
    }

    open spec fn from_config_spec(
        store: Map<Seq<char>, NodeV>,
        key: Seq<char>,
        flag: bool,
        v: Option<Val>,
        r: Result<Self, ConfigError>,
    ) -> bool {
        num_matches(signed_outcome(v, i128::MIN as int, i128::MAX as int), key, num_result_view(r))
    }

    fn from_config(context: &mut ConfigContext<'_>, value: Option<ConfigValue>) -> (r: Result<
        Self,
        ConfigError,
    >) {
        from_config_signed(context, value, i128::MIN, i128::MAX, "i128")
    }
}

impl FromConfig for isize {
    open spec fn obeys_from_config_spec() -> bool {
        true
    }

    open spec fn from_config_spec(
        store: Map<Seq<char>, NodeV>,
        key: Seq<char>,
        flag: bool,
        v: Option<Val>,
        r: Result<Self, ConfigError>,
    ) -> bool {
        num_matches(signed_outcome(v, isize::MIN as int, isize::MAX as int), key, num_result_view(r))
    }

    fn from_config(context: &mut ConfigContext<'_>, value: Option<ConfigValue>) -> (r: Result<
        Self,
        ConfigError,
    >) {
        match from_config_signed(context, value, isize::MIN as i128, isize::MAX as i128, "isize") {
            Ok(v) => Ok(v as isize),
            Err(e) => Err(e),
        }
    }
}

// ---------------------------------------------------------------------------
// Containers
// ---------------------------------------------------------------------------

/// Absence is the only forgivable failure: a plain not-found becomes `None`;
/// a success is kept and any other failure passes through unchanged.
pub fn option_of_outcome<V>(outcome: Result<V, ConfigError>) -> (r: Result<
    Option<V>,
    ConfigError,
>)
    ensures
        outcome matches Ok(v) ==> (r matches Ok(o) && o == Some(v)),
        outcome matches Err(e) ==> (if e is ConfigNotFound {
            r matches Ok(o) && o is None
        } else {
            r matches Err(e2) && e2 == e
        }),
{
    match outcome {
        Err(ConfigError::ConfigNotFound(_)) => Ok(None),
        Err(err) => Err(err),
        Ok(v) => Ok(Some(v)),
    }
}

impl<V: FromConfig> FromConfig for Option<V> {
    open spec fn obeys_from_config_spec() -> bool {
        V::obeys_from_config_spec()
    }

    open spec fn from_config_spec(
        store: Map<Seq<char>, NodeV>,
        key: Seq<char>,
        flag: bool,
        v: Option<Val>,
        r: Result<Self, ConfigError>,
    ) -> bool {
        exists|vr: Result<V, ConfigError>|
            #[trigger] V::from_config_spec(store, key, flag, v, vr) && option_lifts(vr, r)
    }

    /// Absence is not an error: only a plain not-found becomes `None`.
    fn from_config(context: &mut ConfigContext<'_>, value: Option<ConfigValue>) -> (r: Result<
        Self,
        ConfigError,
    >) {
        let ghost store0 = context.store();
        let ghost key0 = context.key_view();
        let ghost flag0 = context.flag_view();
        let ghost v0 = opt_val_view(value);
        let inner = V::from_config(context, value);
        let ghost ginner = inner;
        let r = option_of_outcome(inner);
        proof {
            if V::obeys_from_config_spec() {
                assert(V::from_config_spec(store0, key0, flag0, v0, ginner) && option_lifts(
                    ginner,
                    r,
                ));
            }
        }
        r
    }
}

impl<V: FromConfig> FromConfig for Result<V, ConfigError> {
    open spec fn obeys_from_config_spec() -> bool {
        V::obeys_from_config_spec()
    }

    open spec fn from_config_spec(
        store: Map<Seq<char>, NodeV>,
        key: Seq<char>,
        flag: bool,
        v: Option<Val>,
        r: Result<Self, ConfigError>,
    ) -> bool {
        exists|vr: Result<V, ConfigError>|
            #[trigger] V::from_config_spec(store, key, flag, v, vr) && (r matches Ok(o) && o
                == vr)
    }

    /// Capture the outcome instead of propagating it.
    fn from_config(context: &mut ConfigContext<'_>, value: Option<ConfigValue>) -> (r: Result<
        Self,
        ConfigError,
    >) {
        let ghost store0 = context.store();
        let ghost key0 = context.key_view();
        let ghost flag0 = context.flag_view();
        let ghost v0 = opt_val_view(value);
        let inner = V::from_config(context, value);
        let ghost ginner = inner;
        let r = Ok(inner);
        proof {
            if V::obeys_from_config_spec() {
                assert(V::from_config_spec(store0, key0, flag0, v0, ginner) && (r matches Ok(o)
                    && o == ginner));
            }
        }
        r
    }
}

/// The outcome of converting the array slot `i` under `key`: the slot's own
/// lookup (no default, a fresh resolution chain), then `V`'s conversion of
/// whatever that hands over.
pub open spec fn vec_elem_outcome<V: FromConfig>(
    store: Map<Seq<char>, NodeV>,
    key: Seq<char>,
    flag: bool,
    i: int,
    vr: Result<V, ConfigError>,
) -> bool {
    match prepare_spec(
        store,
        Set::empty(),
        crate::key::render_seg(key, crate::key::Seg::Index(i as nat)),
        None,
    ) {
        Prepared::Failed(e) => vr matches Err(e2) && err_matches(e2, e),
        Prepared::Handed(hv) => V::from_config_spec(
            store,
            crate::key::render_seg(key, crate::key::Seg::Index(i as nat)),
            flag,
            hv,
            vr,
        ),
    }
}

/// Is `x` a value the array slot `i` converts to?
pub open spec fn vec_elem_ok<V: FromConfig>(
    store: Map<Seq<char>, NodeV>,
    key: Seq<char>,
    flag: bool,
    i: int,
    x: V,
) -> bool {
    exists|vr: Result<V, ConfigError>|
        #[trigger] vec_elem_outcome::<V>(store, key, flag, i, vr) && (vr matches Ok(y) && y == x)
}

/// The number of array slots known under a key: one past the largest index
/// child seen, none where no index child exists.
pub open spec fn array_len_at(m: Map<Seq<char>, NodeV>, k: Seq<char>) -> int {
    match crate::memory::node_at(m, k).subi {
        Some(i) => if i == usize::MAX {
            usize::MAX as int
        } else {
            i + 1
        },
        None => 0,
    }
}

impl<V: FromConfig> FromConfig for Vec<V> {
    open spec fn obeys_from_config_spec() -> bool {
        V::obeys_from_config_spec()
    }

    open spec fn from_config_spec(
        store: Map<Seq<char>, NodeV>,
        key: Seq<char>,
        flag: bool,
        v: Option<Val>,
        r: Result<Self, ConfigError>,
    ) -> bool {
        no_rand(store) ==> match r {
            Ok(vs) => vs@.len() == array_len_at(store, key) && (forall|i: int|
                0 <= i < vs@.len() ==> #[trigger] vec_elem_ok::<V>(store, key, flag, i, vs@[i])),
            Err(e) => exists|i: int, vr: Result<V, ConfigError>|
                0 <= i < array_len_at(store, key) && #[trigger] vec_elem_outcome::<V>(
                    store,
                    key,
                    flag,
                    i,
                    vr,
                ) && (vr matches Err(e2) && err_view(e2) == err_view(e)),
        }
    }

    /// One element per known index below the recorded array bound: on
    /// success the vector holds exactly as many elements as the store knows
    /// array slots under the key (each the slot's own converted value); with
    /// no known slot, the empty vector is owed.
    fn from_config(context: &mut ConfigContext<'_>, _value: Option<ConfigValue>) -> (r: Result<
        Self,
        ConfigError,
    >)
        ensures
            r matches Ok(vs) ==> vs@.len() == array_len_at(
                old(context).store(),
                old(context).key_view(),
            ),
            array_len_at(old(context).store(), old(context).key_view()) == 0 ==> r is Ok,
    {
        let ghost store0 = context.store();
        let ghost key0 = context.key_view();
        let ghost flag0 = context.flag_view();
        let mut vs: Vec<V> = Vec::new();
        let list = context.collect_keys();
        if let Some(n) = list.int_bound() {
            let mut i: usize = 0;
            while i < n
                invariant
                    i <= n,
                    n == array_len_at(old(context).store(), old(context).key_view()),
                    vs@.len() == i,
                    context.wf(),
                    context.key_view() == old(context).key_view(),
                    context.marks() == old(context).marks(),
                    context.flag_view() == old(context).flag_view(),
                    context.store() == old(context).store(),
                    context.refresher_max() == old(context).refresher_max(),
                    store0 == old(context).store(),
                    key0 == old(context).key_view(),
                    flag0 == old(context).flag_view(),
                    V::obeys_from_config_spec() && no_rand(store0) ==> forall|k: int|
                        0 <= k < vs@.len() ==> #[trigger] vec_elem_ok::<V>(
                            store0,
                            key0,
                            flag0,
                            k,
                            vs@[k],
                        ),
                decreases n - i,
            {
                let mut history: Vec<String> = Vec::new();
                proof {
                    assert(hist_set(history.deep_view()) =~= Set::<Seq<char>>::empty());
                }
                let ghost prev = vs@;
                match context.do_parse_config_index::<V>(i, None, &mut history) {
                    Ok(v) => {
                        let ghost gv = v;
                        vs.push(v);
                        proof {
                            if V::obeys_from_config_spec() && no_rand(store0) {
                                assert(vec_elem_ok::<V>(store0, key0, flag0, i as int, gv)) by {
                                    assert(vec_elem_outcome::<V>(
                                        store0,
                                        key0,
                                        flag0,
                                        i as int,
                                        Ok(gv),
                                    ));
                                }
                                assert forall|k: int| 0 <= k < vs@.len() implies
                                    #[trigger] vec_elem_ok::<V>(store0, key0, flag0, k, vs@[k]) by {
                                    if k < prev.len() {
                                        assert(vs@[k] == prev[k]);
                                    } else {
                                        assert(vs@[k] == gv);
                                    }
                                }
                            }
                        }
                    },
                    Err(e) => {
                        proof {
                            if V::obeys_from_config_spec() && no_rand(store0) {
                                let ghost ge = e;
                                assert(vec_elem_outcome::<V>(
                                    store0,
                                    key0,
                                    flag0,
                                    i as int,
                                    Err::<V, ConfigError>(ge),
                                ));
                            }
                        }
                        return Err(e);
                    },
                }
                i += 1;
            }
        }
        Ok(vs)
    }
}

impl<V: FromConfig> FromConfig for HashMap<String, V> {
    /// One entry per known name child under the current key; with no known
    /// name child, the empty map is owed (no entry conversion can fail it).
    fn from_config(context: &mut ConfigContext<'_>, _value: Option<ConfigValue>) -> (r: Result<
        Self,
        ConfigError,
    >)
        ensures
            crate::memory::node_at(old(context).store(), old(context).key_view()).subs.len() == 0
                ==> r is Ok,
    {
        let mut vs: HashMap<String, V> = HashMap::new();
        let list = context.collect_keys();
        let keys = list.name_list();
        proof {
            let subs = crate::memory::node_at(context.store(), context.key_view()).subs;
            assert(subs.len() == 0 ==> keys.deep_view().len() == 0) by {
                if subs.len() == 0 && keys.deep_view().len() > 0 {
                    assert(keys.deep_view().contains(keys.deep_view()[0]));
                    assert(subs.contains(keys.deep_view()[0]));
                }
            }
        }
        let mut i: usize = 0;
        while i < keys.len()
            invariant
                context.wf(),
                context.key_view() == old(context).key_view(),
                context.marks() == old(context).marks(),
                context.flag_view() == old(context).flag_view(),
                context.store() == old(context).store(),
                context.refresher_max() == old(context).refresher_max(),
                crate::memory::node_at(old(context).store(), old(context).key_view()).subs.len()
                    == 0 ==> keys@.len() == 0,
            decreases keys@.len() - i,
        {
            let k = keys[i].clone();
            match context.parse_config::<V>(k.as_str(), None) {
                Ok(v) => {
                    vs.insert(k, v);
                },
                Err(e) => {
                    return Err(e);
                },
            }
            i += 1;
        }
        Ok(vs)
    }
}

} // verus!
