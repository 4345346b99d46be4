//! Refreshable values and the refresh registry.
//!
//! A [`RefValue`] is a shared, mutable slot bound to the canonical key it was
//! resolved from.  Every refreshable value is registered, at creation, in the
//! configuration's [`Refresher`]; the registry is append-only and bounded by
//! a capacity, and a reload re-resolves every registered cell in registration
//! order.

use std::sync::Arc;

use vstd::prelude::*;
use vstd::rwlock::RwLock;

use crate::err::{err_view, ConfigError, ErrView};

verus! {

/// Relies on `Arc::clone`: the clone shares the very same allocation.
#[verifier::external_body]
pub(crate) fn arc_clone<T>(a: &Arc<T>) -> (r: Arc<T>)
    ensures
        r == *a,
{
    a.clone()
}

/// A lock predicate admitting every value.
#[derive(Debug, Clone, Copy)]
pub struct TruePred;

impl<T> vstd::rwlock::RwLockPredicate<T> for TruePred {
    open spec fn inv(self, v: T) -> bool {
        true
    }
}

/// A refreshable value: a shared slot holding the last resolved value of the
/// canonical key it is tagged with.
#[allow(missing_debug_implementations)]
#[verifier::reject_recursive_types(T)]
pub struct RefValue<T> {
    cell: Arc<RwLock<T, TruePred>>,
    key: String,
}

impl<T> RefValue<T> {
    /// The canonical key this slot is bound to.
    pub closed spec fn key_view(&self) -> Seq<char> {
        self.key@
    }

    /// A fresh slot bound to `key`, holding `v`.
    pub fn new(key: String, v: T) -> (r: RefValue<T>)
        ensures
            r.key_view() == key@,
    {
        let lock = RwLock::<T, TruePred>::new(v, Ghost(TruePred));
        RefValue { cell: Arc::new(lock), key }
    }

    /// Another handle on the very same slot.
    pub fn duplicate(&self) -> (r: RefValue<T>)
        ensures
            r.key_view() == self.key_view(),
            r.cell_id() == self.cell_id(),
    {
        RefValue { cell: arc_clone(&self.cell), key: self.key.clone() }
    }

    /// The slot itself, for stating that two handles share it.
    pub closed spec fn cell_id(&self) -> RwLock<T, TruePred> {
        *self.cell
    }

    /// The key this slot is bound to.
    pub fn bound_key(&self) -> (r: String)
        ensures
            r@ == self.key_view(),
    {
        self.key.clone()
    }

    /// Overwrite the held value in place.
    pub fn set(&self, v: T) -> (r: Result<(), ConfigError>)
        ensures
            r is Ok,
    {
        let (_, handle) = self.cell.acquire_write();
        handle.release_write(v);
        Ok(())
    }

    /// Use the held value under the slot's lock: the result is one
    /// application of the caller's closure to a held value.
    pub fn with<R, F: FnOnce(&T) -> R>(&self, f: F) -> (r: Result<R, ConfigError>)
        requires
            forall|t: &T| #[trigger] f.requires((t,)),
        ensures
            r is Ok,
            exists|t: T, fr: R| #[trigger] f.ensures((&t,), fr) && (r matches Ok(v) && v == fr),
    {
        let handle = self.cell.acquire_read();
        let bor = handle.borrow();
        let out = f(bor);
        let ghost gout = out;
        proof {
            assert(f.ensures((bor,), gout));
        }
        handle.release_read();
        Ok(out)
    }
}

impl<T: Clone> RefValue<T> {
    /// A clone of the held value.
    pub fn get(&self) -> (r: Result<T, ConfigError>)
        ensures
            r is Ok,
    {
        let handle = self.cell.acquire_read();
        let out = handle.borrow().clone();
        handle.release_read();
        Ok(out)
    }
}

/// A named, shared, mutable slot for a value read from the outside.
#[allow(missing_debug_implementations)]
#[verifier::reject_recursive_types(T)]
pub struct IORef<T> {
    cell: Arc<RwLock<T, TruePred>>,
    nm: String,
}

impl<T> IORef<T> {
    /// The slot's name.
    pub closed spec fn name_view(&self) -> Seq<char> {
        self.nm@
    }

    /// A fresh slot holding `v`, named `name`.
    pub fn new(v: T, name: &str) -> (r: IORef<T>)
        ensures
            r.name_view() == name@,
    {
        let lock = RwLock::<T, TruePred>::new(v, Ghost(TruePred));
        IORef { cell: Arc::new(lock), nm: name.to_owned() }
    }

    /// The slot's name.
    pub fn name(&self) -> (r: String)
        ensures
            r@ == self.name_view(),
    {
        self.nm.clone()
    }

    /// Overwrite the held value in place.
    pub fn set(&self, v: T) -> (r: Result<(), ConfigError>)
        ensures
            r is Ok,
    {
        let (_, handle) = self.cell.acquire_write();
        handle.release_write(v);
        Ok(())
    }
}

impl<T: Clone> IORef<T> {
    /// A clone of the held value.
    pub fn get(&self) -> (r: Result<T, ConfigError>)
        ensures
            r is Ok,
    {
        let handle = self.cell.acquire_read();
        let out = handle.borrow().clone();
        handle.release_read();
        Ok(out)
    }
}

/// What binding a refreshable cell of inner type `T` yields: refused while
/// another cell is in flight; otherwise either a cell tagged with the key,
/// or the registry bound's refusal, or the inner conversion's own failure.
pub open spec fn ref_bind_spec<T: crate::context::FromConfig>(
    store: Map<Seq<char>, crate::memory::NodeV>,
    key: Seq<char>,
    flag: bool,
    v: Option<crate::value::Val>,
    r: Result<RefValue<T>, ConfigError>,
) -> bool {
    if flag {
        r matches Err(e) && err_view(e) == ErrView::RefValueRecursive
    } else {
        match r {
            Ok(rv) => rv.key_view() == key,
            Err(e) => err_view(e) matches ErrView::TooMany(_) || (exists|
                ir: Result<T, ConfigError>,
            |
                #[trigger] T::from_config_spec(store, key, true, v, ir) && (ir matches Err(e2)
                    && err_view(e2) == err_view(e))),
        }
    }
}

/// One registered refreshable cell, tagged by its value type.
#[allow(missing_debug_implementations)]
pub enum RefreshEntry {
    /// A string cell.
    Str(RefValue<String>),
    /// A bool cell.
    Bool(RefValue<bool>),
    /// A signed integer cell.
    Int(RefValue<i64>),
    /// An unsigned 8-bit cell.
    U8(RefValue<u8>),
    /// An unsigned 64-bit cell.
    U64(RefValue<u64>),
}

/// Append an entry to the registry list, refusing it when the list is at the
/// capacity bound: the overflow entry is not registered.
pub fn push_step(list: &mut Vec<RefreshEntry>, max: usize, entry: RefreshEntry) -> (r: Result<
    (),
    ConfigError,
>)
    ensures
        old(list)@.len() >= max ==> (r matches Err(e) && e matches ConfigError::TooManyInstances(m)
            && m == max && final(list)@ == old(list)@),
        old(list)@.len() < max ==> (r is Ok && final(list)@ == old(list)@.push(entry)),
{
    if list.len() >= max {
        return Err(ConfigError::TooManyInstances(max));
    }
    list.push(entry);
    Ok(())
}

/// The append-only, capacity-bounded list of refreshable cells.
#[allow(missing_debug_implementations)]
pub struct Refresher {
    max: usize,
    refs: RwLock<Vec<RefreshEntry>, spec_fn(Vec<RefreshEntry>) -> bool>,
}

impl Refresher {
    /// The capacity bound.
    pub closed spec fn max_spec(&self) -> usize {
        self.max
    }

    /// The registry's lock admits exactly the lists within the bound.
    pub closed spec fn wf(&self) -> bool {
        forall|v: Vec<RefreshEntry>| self.refs.inv(v) == (v@.len() <= self.max)
    }

    /// An empty registry with the given capacity bound.
    pub fn with_capacity(max: usize) -> (r: Refresher)
        ensures
            r.wf(),
            r.max_spec() == max,
    {
        let refs = RwLock::<Vec<RefreshEntry>, spec_fn(Vec<RefreshEntry>) -> bool>::new(
            Vec::new(),
            Ghost(|v: Vec<RefreshEntry>| v@.len() <= max),
        );
        Refresher { max, refs }
    }

    /// An empty registry with the default capacity bound.
    pub fn new() -> (r: Refresher)
        ensures
            r.wf(),
            r.max_spec() == 1024,
    {
        Refresher::with_capacity(1024)
    }

    /// Register one cell; fails, registering nothing, when the registry is
    /// at its bound.
    pub fn push(&self, entry: RefreshEntry) -> (r: Result<(), ConfigError>)
        requires
            self.wf(),
        ensures
            r matches Err(e) ==> e matches ConfigError::TooManyInstances(m) && m
                == self.max_spec(),
    {
        let (mut list, handle) = self.refs.acquire_write();
        let r = push_step(&mut list, self.max, entry);
        handle.release_write(list);
        r
    }

    /// Re-resolve every registered cell against the given configuration, in
    /// registration order, and swap each result in; the first failure aborts
    /// the remaining updates (cells already updated stay updated).
    pub(crate) fn refresh_all(&self, c: &crate::configuration::Configuration) -> (r: Result<
        (),
        ConfigError,
    >)
        requires
            c.wf(),
    {
        let handle = self.refs.acquire_read();
        let list = handle.borrow();
        let mut err: Option<ConfigError> = None;
        let mut i: usize = 0;
        while i < list.len() && err.is_none()
            invariant
                i <= list@.len(),
                c.wf(),
            decreases list@.len() - i,
        {
            let outcome: Option<ConfigError> = match &list[i] {
                RefreshEntry::Str(rv) => {
                    let key = rv.bound_key();
                    match c.get::<String>(key.as_str()) {
                        Ok(v) => {
                            let _ = rv.set(v);
                            None
                        },
                        Err(e) => Some(e),
                    }
                },
                RefreshEntry::Bool(rv) => {
                    let key = rv.bound_key();
                    match c.get::<bool>(key.as_str()) {
                        Ok(v) => {
                            let _ = rv.set(v);
                            None
                        },
                        Err(e) => Some(e),
                    }
                },
                RefreshEntry::Int(rv) => {
                    let key = rv.bound_key();
                    match c.get::<i64>(key.as_str()) {
                        Ok(v) => {
                            let _ = rv.set(v);
                            None
                        },
                        Err(e) => Some(e),
                    }
                },
                RefreshEntry::U8(rv) => {
                    let key = rv.bound_key();
                    match c.get::<u8>(key.as_str()) {
                        Ok(v) => {
                            let _ = rv.set(v);
                            None
                        },
                        Err(e) => Some(e),
                    }
                },
                RefreshEntry::U64(rv) => {
                    let key = rv.bound_key();
                    match c.get::<u64>(key.as_str()) {
                        Ok(v) => {
                            let _ = rv.set(v);
                            None
                        },
                        Err(e) => Some(e),
                    }
                },
            };
            err = outcome;
            i += 1;
        }
        handle.release_read();
        match err {
            None => Ok(()),
            Some(e) => Err(e),
        }
    }
}

// ---------------------------------------------------------------------------
// Binding refreshable cells during typed lookups
// ---------------------------------------------------------------------------

/// Bind a string cell: refused while another cell is being resolved.
fn ref_from_config_string(
    context: &mut crate::context::ConfigContext<'_>,
    value: Option<crate::value::ConfigValue>,
) -> (r: Result<RefValue<String>, ConfigError>)
    requires
        old(context).wf(),
    ensures
        final(context).wf(),
        final(context).key_view() == old(context).key_view(),
        final(context).marks() == old(context).marks(),
        final(context).flag_view() == old(context).flag_view(),
        final(context).store() == old(context).store(),
        final(context).refresher_max() == old(context).refresher_max(),
        old(context).flag_view() ==> (r matches Err(e) && e is RefValueRecursiveError),
        r matches Ok(rv) ==> rv.key_view() == old(context).key_view(),
        ref_bind_spec::<String>(
            old(context).store(),
            old(context).key_view(),
            old(context).flag_view(),
            crate::context::opt_val_view(value),
            r,
        ),
{
    if context.flag() {
        return Err(ConfigError::RefValueRecursiveError);
    }
    context.set_flag(true);
    let ghost store0 = context.store();
    let ghost key0 = context.key_view();
    let ghost v0 = crate::context::opt_val_view(value);
    let inner = <String as crate::context::FromConfig>::from_config(context, value);
    let ghost ginner = inner;
    context.set_flag(false);
    match inner {
        Err(e) => Err(e),
        Ok(v) => {
            let rv = RefValue::new(context.current_key(), v);
            match context.as_refresher().push(RefreshEntry::Str(rv.duplicate())) {
                Ok(()) => Ok(rv),
                Err(e) => Err(e),
            }
        },
    }
}

/// Bind a bool cell: refused while another cell is being resolved.
fn ref_from_config_bool(
    context: &mut crate::context::ConfigContext<'_>,
    value: Option<crate::value::ConfigValue>,
) -> (r: Result<RefValue<bool>, ConfigError>)
    requires
        old(context).wf(),
    ensures
        final(context).wf(),
        final(context).key_view() == old(context).key_view(),
        final(context).marks() == old(context).marks(),
        final(context).flag_view() == old(context).flag_view(),
        final(context).store() == old(context).store(),
        final(context).refresher_max() == old(context).refresher_max(),
        old(context).flag_view() ==> (r matches Err(e) && e is RefValueRecursiveError),
        r matches Ok(rv) ==> rv.key_view() == old(context).key_view(),
        ref_bind_spec::<bool>(
            old(context).store(),
            old(context).key_view(),
            old(context).flag_view(),
            crate::context::opt_val_view(value),
            r,
        ),
{
    if context.flag() {
        return Err(ConfigError::RefValueRecursiveError);
    }
    context.set_flag(true);
    let ghost store0 = context.store();
    let ghost key0 = context.key_view();
    let ghost v0 = crate::context::opt_val_view(value);
    let inner = <bool as crate::context::FromConfig>::from_config(context, value);
    let ghost ginner = inner;
    context.set_flag(false);
    match inner {
        Err(e) => Err(e),
        Ok(v) => {
            let rv = RefValue::new(context.current_key(), v);
            match context.as_refresher().push(RefreshEntry::Bool(rv.duplicate())) {
                Ok(()) => Ok(rv),
                Err(e) => Err(e),
            }
        },
    }
}

/// Bind a signed integer cell: refused while another cell is being resolved.
fn ref_from_config_i64(
    context: &mut crate::context::ConfigContext<'_>,
    value: Option<crate::value::ConfigValue>,
) -> (r: Result<RefValue<i64>, ConfigError>)
    requires
        old(context).wf(),
    ensures
        final(context).wf(),
        final(context).key_view() == old(context).key_view(),
        final(context).marks() == old(context).marks(),
        final(context).flag_view() == old(context).flag_view(),
        final(context).store() == old(context).store(),
        final(context).refresher_max() == old(context).refresher_max(),
        old(context).flag_view() ==> (r matches Err(e) && e is RefValueRecursiveError),
        r matches Ok(rv) ==> rv.key_view() == old(context).key_view(),
        ref_bind_spec::<i64>(
            old(context).store(),
            old(context).key_view(),
            old(context).flag_view(),
            crate::context::opt_val_view(value),
            r,
        ),
{
    if context.flag() {
        return Err(ConfigError::RefValueRecursiveError);
    }
    context.set_flag(true);
    let ghost store0 = context.store();
    let ghost key0 = context.key_view();
    let ghost v0 = crate::context::opt_val_view(value);
    let inner = <i64 as crate::context::FromConfig>::from_config(context, value);
    let ghost ginner = inner;
    context.set_flag(false);
    match inner {
        Err(e) => Err(e),
        Ok(v) => {
            let rv = RefValue::new(context.current_key(), v);
            match context.as_refresher().push(RefreshEntry::Int(rv.duplicate())) {
                Ok(()) => Ok(rv),
                Err(e) => Err(e),
            }
        },
    }
}

/// Bind a `u8` cell: refused while another cell is being resolved.
fn ref_from_config_u8(
    context: &mut crate::context::ConfigContext<'_>,
    value: Option<crate::value::ConfigValue>,
) -> (r: Result<RefValue<u8>, ConfigError>)
    requires
        old(context).wf(),
    ensures
        final(context).wf(),
        final(context).key_view() == old(context).key_view(),
        final(context).marks() == old(context).marks(),
        final(context).flag_view() == old(context).flag_view(),
        final(context).store() == old(context).store(),
        final(context).refresher_max() == old(context).refresher_max(),
        old(context).flag_view() ==> (r matches Err(e) && e is RefValueRecursiveError),
        r matches Ok(rv) ==> rv.key_view() == old(context).key_view(),
        ref_bind_spec::<u8>(
            old(context).store(),
            old(context).key_view(),
            old(context).flag_view(),
            crate::context::opt_val_view(value),
            r,
        ),
{
    if context.flag() {
        return Err(ConfigError::RefValueRecursiveError);
    }
    context.set_flag(true);
    let ghost store0 = context.store();
    let ghost key0 = context.key_view();
    let ghost v0 = crate::context::opt_val_view(value);
    let inner = <u8 as crate::context::FromConfig>::from_config(context, value);
    let ghost ginner = inner;
    context.set_flag(false);
    match inner {
        Err(e) => Err(e),
        Ok(v) => {
            let rv = RefValue::new(context.current_key(), v);
            match context.as_refresher().push(RefreshEntry::U8(rv.duplicate())) {
                Ok(()) => Ok(rv),
                Err(e) => Err(e),
            }
        },
    }
}

/// Bind a `u64` cell: refused while another cell is being resolved.
fn ref_from_config_u64(
    context: &mut crate::context::ConfigContext<'_>,
    value: Option<crate::value::ConfigValue>,
) -> (r: Result<RefValue<u64>, ConfigError>)
    requires
        old(context).wf(),
    ensures
        final(context).wf(),
        final(context).key_view() == old(context).key_view(),
        final(context).marks() == old(context).marks(),
        final(context).flag_view() == old(context).flag_view(),
        final(context).store() == old(context).store(),
        final(context).refresher_max() == old(context).refresher_max(),
        old(context).flag_view() ==> (r matches Err(e) && e is RefValueRecursiveError),
        r matches Ok(rv) ==> rv.key_view() == old(context).key_view(),
        ref_bind_spec::<u64>(
            old(context).store(),
            old(context).key_view(),
            old(context).flag_view(),
            crate::context::opt_val_view(value),
            r,
        ),
{
    if context.flag() {
        return Err(ConfigError::RefValueRecursiveError);
    }
    context.set_flag(true);
    let ghost store0 = context.store();
    let ghost key0 = context.key_view();
    let ghost v0 = crate::context::opt_val_view(value);
    let inner = <u64 as crate::context::FromConfig>::from_config(context, value);
    let ghost ginner = inner;
    context.set_flag(false);
    match inner {
        Err(e) => Err(e),
        Ok(v) => {
            let rv = RefValue::new(context.current_key(), v);
            match context.as_refresher().push(RefreshEntry::U64(rv.duplicate())) {
                Ok(()) => Ok(rv),
                Err(e) => Err(e),
            }
        },
    }
}

impl crate::context::FromConfig for RefValue<String> {
    open spec fn obeys_from_config_spec() -> bool {
        String::obeys_from_config_spec()
    }

    open spec fn from_config_spec(
        store: Map<Seq<char>, crate::memory::NodeV>,
        key: Seq<char>,
        flag: bool,
        v: Option<crate::value::Val>,
        r: Result<Self, ConfigError>,
    ) -> bool {
        ref_bind_spec::<String>(store, key, flag, v, r)
    }

    fn from_config(
        context: &mut crate::context::ConfigContext<'_>,
        value: Option<crate::value::ConfigValue>,
    ) -> (r: Result<Self, ConfigError>) {
        ref_from_config_string(context, value)
    }
}

impl crate::context::FromConfig for RefValue<bool> {
    open spec fn obeys_from_config_spec() -> bool {
        bool::obeys_from_config_spec()
    }

    open spec fn from_config_spec(
        store: Map<Seq<char>, crate::memory::NodeV>,
        key: Seq<char>,
        flag: bool,
        v: Option<crate::value::Val>,
        r: Result<Self, ConfigError>,
    ) -> bool {
        ref_bind_spec::<bool>(store, key, flag, v, r)
    }

    fn from_config(
        context: &mut crate::context::ConfigContext<'_>,
        value: Option<crate::value::ConfigValue>,
    ) -> (r: Result<Self, ConfigError>) {
        ref_from_config_bool(context, value)
    }
}

impl crate::context::FromConfig for RefValue<i64> {
    open spec fn obeys_from_config_spec() -> bool {
        i64::obeys_from_config_spec()
    }

    open spec fn from_config_spec(
        store: Map<Seq<char>, crate::memory::NodeV>,
        key: Seq<char>,
        flag: bool,
        v: Option<crate::value::Val>,
        r: Result<Self, ConfigError>,
    ) -> bool {
        ref_bind_spec::<i64>(store, key, flag, v, r)
    }

    fn from_config(
        context: &mut crate::context::ConfigContext<'_>,
        value: Option<crate::value::ConfigValue>,
    ) -> (r: Result<Self, ConfigError>) {
        ref_from_config_i64(context, value)
    }
}

impl crate::context::FromConfig for RefValue<u8> {
    open spec fn obeys_from_config_spec() -> bool {
        u8::obeys_from_config_spec()
    }

    open spec fn from_config_spec(
        store: Map<Seq<char>, crate::memory::NodeV>,
        key: Seq<char>,
        flag: bool,
        v: Option<crate::value::Val>,
        r: Result<Self, ConfigError>,
    ) -> bool {
        ref_bind_spec::<u8>(store, key, flag, v, r)
    }

    fn from_config(
        context: &mut crate::context::ConfigContext<'_>,
        value: Option<crate::value::ConfigValue>,
    ) -> (r: Result<Self, ConfigError>) {
        ref_from_config_u8(context, value)
    }
}

impl crate::context::FromConfig for RefValue<u64> {
    open spec fn obeys_from_config_spec() -> bool {
        u64::obeys_from_config_spec()
    }

    open spec fn from_config_spec(
        store: Map<Seq<char>, crate::memory::NodeV>,
        key: Seq<char>,
        flag: bool,
        v: Option<crate::value::Val>,
        r: Result<Self, ConfigError>,
    ) -> bool {
        ref_bind_spec::<u64>(store, key, flag, v, r)
    }

    fn from_config(
        context: &mut crate::context::ConfigContext<'_>,
        value: Option<crate::value::ConfigValue>,
    ) -> (r: Result<Self, ConfigError>) {
        ref_from_config_u64(context, value)
    }
}

/// Binding a nested refreshable cell fails, at any depth: the outer binding
/// sets the in-flight flag, so the inner one is always refused.
pub fn ref_nested_from_config(
    context: &mut crate::context::ConfigContext<'_>,
    value: Option<crate::value::ConfigValue>,
) -> (r: Result<RefValue<RefValue<u8>>, ConfigError>)
    requires
        old(context).wf(),
    ensures
        final(context).wf(),
        final(context).key_view() == old(context).key_view(),
        final(context).marks() == old(context).marks(),
        final(context).flag_view() == old(context).flag_view(),
        final(context).store() == old(context).store(),
        final(context).refresher_max() == old(context).refresher_max(),
        r matches Err(e) && e is RefValueRecursiveError,
{
    if context.flag() {
        return Err(ConfigError::RefValueRecursiveError);
    }
    context.set_flag(true);
    let inner = ref_from_config_u8(context, value);
    context.set_flag(false);
    match inner {
        Err(e) => Err(e),
        Ok(_) => {
            proof {
                assert(false);
            }
            Err(ConfigError::RefValueRecursiveError)
        },
    }
}

impl crate::context::FromConfig for RefValue<RefValue<u8>> {
    open spec fn obeys_from_config_spec() -> bool {
        true
    }

    open spec fn from_config_spec(
        store: Map<Seq<char>, crate::memory::NodeV>,
        key: Seq<char>,
        flag: bool,
        v: Option<crate::value::Val>,
        r: Result<Self, ConfigError>,
    ) -> bool {
        r matches Err(e) && err_view(e) == ErrView::RefValueRecursive
    }

    fn from_config(
        context: &mut crate::context::ConfigContext<'_>,
        value: Option<crate::value::ConfigValue>,
    ) -> (r: Result<Self, ConfigError>) {
        ref_nested_from_config(context, value)
    }
}

} // verus!
