//! The configuration instance: prioritized sources merged into one store,
//! typed lookups with placeholder expansion, and hot refresh.

use vstd::prelude::*;

use crate::context::{prepare_spec, FromConfig, FromConfigWithPrefix};
use crate::err::ConfigError;
use crate::key::{normalize, CacheKey};
use crate::memory::{store_set, val_at, HashSource, NodeV};
use crate::resolver::{bool_chars, err_matches, hist_set, no_rand, parse_placeholder, resolve_spec,
    Prepared, ResolveErr, ScanResult};
use crate::memory::store_le;
use crate::source::{env_load_fold, kv_fold, lemma_env_load_fold_le, lemma_kv_fold_le,
    lemma_random_load_le, random_load_spec, Cargo, ConfigSource, PrefixEnvironment, Random,
    SharedSource};
use crate::value::{int_chars, render_i64, ConfigValue, Val};
use crate::value_ref::Refresher;

verus! {

/// What re-emitting a store's entries into another store does: every entry
/// holding a scalar is set, in entry order, first write to a key winning.
pub open spec fn entries_load(
    m: Map<Seq<char>, NodeV>,
    cur: Seq<char>,
    es: Seq<(Seq<char>, NodeV)>,
) -> Map<Seq<char>, NodeV>
    decreases es.len(),
{
    if es.len() == 0 {
        m
    } else {
        let m2 = if es[0].1.val is Some {
            store_set(m, cur, es[0].0, es[0].1.val->Some_0)
        } else {
            m
        };
        entries_load(m2, cur, es.drop_first())
    }
}

impl ConfigSource for HashSource {
    fn name(&self) -> (r: String)
        ensures
            r@ == self.name_view(),
    {
        HashSource::name(self)
    }

    /// Re-emit every stored scalar under its canonical key.
    fn load(&self, builder: &mut crate::memory::ConfigSourceBuilder) -> (r: Result<
        (),
        ConfigError,
    >)
        ensures
            r is Ok,
            final(builder).source_view() == entries_load(
                old(builder).source_view(),
                old(builder).cur_key(),
                self.entries(),
            ),
            final(builder).prefixes() == old(builder).prefixes(),
            final(builder).source_name() == old(builder).source_name(),
    {
        let ghost m0 = builder.source_view();
        let ghost cur = builder.cur_key();
        let ghost all = self.entries();
        let n = self.entry_count();
        let mut i: usize = 0;
        proof {
            assert(all.subrange(0, all.len() as int) =~= all);
        }
        while i < n
            invariant
                i <= n,
                n == all.len(),
                all == self.entries(),
                builder.wf(),
                entries_load(m0, cur, all) == entries_load(
                    builder.source_view(),
                    cur,
                    all.subrange(i as int, all.len() as int),
                ),
                builder.cur_key() == cur,
                builder.prefixes() == old(builder).prefixes(),
                builder.source_name() == old(builder).source_name(),
                m0 == old(builder).source_view(),
                cur == old(builder).cur_key(),
            decreases n - i,
        {
            let ghost rest = all.subrange(i as int, all.len() as int);
            let (k, v) = self.entry_kv(i);
            proof {
                assert(rest[0] == all[i as int]);
                assert(rest.drop_first() =~= all.subrange(i + 1, all.len() as int));
            }
            if let Some(cv) = v {
                builder.set(k.as_str(), cv);
            }
            i += 1;
        }
        proof {
            assert(all.subrange(all.len() as int, all.len() as int) =~= Seq::<(
                Seq<char>,
                NodeV,
            )>::empty());
        }
        Ok(())
    }
}

/// Loading a store's entries into another store only grows it.
proof fn lemma_entries_load_le(
    m: Map<Seq<char>, NodeV>,
    cur: Seq<char>,
    es: Seq<(Seq<char>, NodeV)>,
)
    ensures
        store_le(m, entries_load(m, cur, es)),
    decreases es.len(),
{
    if es.len() == 0 {
        crate::memory::lemma_store_le_refl(m);
    } else {
        let m2 = if es[0].1.val is Some {
            store_set(m, cur, es[0].0, es[0].1.val->Some_0)
        } else {
            m
        };
        if es[0].1.val is Some {
            crate::memory::lemma_store_set_monotone(m, cur, es[0].0, es[0].1.val->Some_0);
        } else {
            crate::memory::lemma_store_le_refl(m);
        }
        lemma_entries_load_le(m2, cur, es.drop_first());
        crate::memory::lemma_store_le_trans(m, m2, entries_load(m2, cur, es.drop_first()));
    }
}

/// Several sources grouped under one name, merged in registration order.
#[allow(missing_debug_implementations)]
pub struct LayeredSource {
    layer: Vec<SourceKind>,
}

/// One registered source: the closed set of source kinds a configuration
/// can hold.
#[allow(missing_debug_implementations)]
pub enum SourceKind {
    /// An in-memory store of values.
    Memory(HashSource),
    /// Build-environment pairs.
    Cargo(Cargo),
    /// Environment variables under a prefix.
    Env(PrefixEnvironment),
    /// The random value source.
    Random(Random),
    /// A shared in-memory source with a change flag.
    Shared(SharedSource),
    /// A group of sources merged in order.
    Layered(LayeredSource),
}

/// The name a source kind reports.
pub open spec fn kind_name(k: SourceKind) -> Seq<char> {
    match k {
        SourceKind::Memory(s) => s.name_view(),
        SourceKind::Cargo(_) => "cargo_env"@,
        SourceKind::Env(e) => e.name_view(),
        SourceKind::Random(_) => "random_generator"@,
        SourceKind::Shared(s) => s.name_view(),
        SourceKind::Layered(_) => "layered_source"@,
    }
}

/// What loading one source does to a store, with the cursor at `cur`: an
/// exact fold per kind; a shared source folds whatever pairs it holds at
/// that moment; a layered group only grows the store.
pub open spec fn loads_to(
    k: SourceKind,
    cur: Seq<char>,
    m0: Map<Seq<char>, NodeV>,
    m1: Map<Seq<char>, NodeV>,
) -> bool {
    match k {
        SourceKind::Memory(s) => m1 == entries_load(m0, cur, s.entries()),
        SourceKind::Cargo(cg) => m1 == kv_fold(
            m0,
            cur,
            Seq::new(cg.pairs().len(), |i: int| (cg.pairs()[i].0, Val::Str(cg.pairs()[i].1))),
        ),
        SourceKind::Env(e) => m1 == env_load_fold(m0, cur, e.prefix_view(), e.vars_view()),
        SourceKind::Random(_) => m1 == random_load_spec(m0, cur),
        SourceKind::Shared(_) => exists|es: Seq<(Seq<char>, Val)>| m1 == kv_fold(m0, cur, es),
        SourceKind::Layered(_) => store_le(m0, m1),
    }
}

/// Loading any source only grows the store.
pub proof fn lemma_loads_to_le(
    k: SourceKind,
    cur: Seq<char>,
    m0: Map<Seq<char>, NodeV>,
    m1: Map<Seq<char>, NodeV>,
)
    requires
        loads_to(k, cur, m0, m1),
    ensures
        store_le(m0, m1),
{
    match k {
        SourceKind::Memory(s) => {
            lemma_entries_load_le(m0, cur, s.entries());
        },
        SourceKind::Cargo(cg) => {
            lemma_kv_fold_le(
                m0,
                cur,
                Seq::new(cg.pairs().len(), |i: int| (cg.pairs()[i].0, Val::Str(cg.pairs()[i].1))),
            );
        },
        SourceKind::Env(e) => {
            lemma_env_load_fold_le(m0, cur, e.prefix_view(), e.vars_view());
        },
        SourceKind::Random(_) => {
            lemma_random_load_le(m0, cur);
        },
        SourceKind::Shared(_) => {
            let es = choose|es: Seq<(Seq<char>, Val)>| m1 == kv_fold(m0, cur, es);
            lemma_kv_fold_le(m0, cur, es);
        },
        SourceKind::Layered(_) => {
        },
    }
}

/// One valid chain of intermediate stores for loading the sources in order:
/// `mids[0]` before any load, `mids[i + 1]` after the `i`-th.
pub open spec fn reload_chain(
    ls: Seq<SourceKind>,
    cur: Seq<char>,
    mids: Seq<Map<Seq<char>, NodeV>>,
) -> bool {
    &&& mids.len() == ls.len() + 1
    &&& forall|i: int| 0 <= i < ls.len() ==> loads_to(#[trigger] ls[i], cur, mids[i], mids[i + 1])
}

/// What loading several sources in order does to a store: some chain of the
/// per-source effects leads from `m0` to `m1`.
pub open spec fn reload_to(
    ls: Seq<SourceKind>,
    cur: Seq<char>,
    m0: Map<Seq<char>, NodeV>,
    m1: Map<Seq<char>, NodeV>,
) -> bool {
    exists|mids: Seq<Map<Seq<char>, NodeV>>|
        reload_chain(ls, cur, mids) && mids.first() == m0 && mids.last() == m1
}

impl LayeredSource {
    /// The grouped sources, in registration order.
    pub closed spec fn members(&self) -> Seq<SourceKind> {
        self.layer@
    }

    /// An empty group.
    pub fn new() -> (r: LayeredSource)
        ensures
            r.members() == Seq::<SourceKind>::empty(),
    {
        LayeredSource { layer: Vec::new() }
    }

    /// Append one source to the group.
    pub fn register(&mut self, source: SourceKind)
        ensures
            final(self).members() == old(self).members().push(source),
    {
        self.layer.push(source);
    }

    /// The members' names, in registration order.
    pub fn source_names(&self) -> (r: Vec<String>)
        ensures
            r.deep_view() == Seq::new(self.members().len(), |i: int| kind_name(self.members()[i])),
    {
        let mut names: Vec<String> = Vec::new();
        let mut i: usize = 0;
        while i < self.layer.len()
            invariant
                i <= self.layer@.len(),
                names.deep_view() == Seq::new(i as nat, |j: int| kind_name(self.layer@[j])),
            decreases self.layer@.len() - i,
        {
            let ghost prev = names.deep_view();
            let nm = self.layer[i].name();
            names.push(nm);
            proof {
                assert(names.deep_view() =~= prev.push(kind_name(self.layer@[i as int])));
                assert(names.deep_view() =~= Seq::new(
                    (i + 1) as nat,
                    |j: int| kind_name(self.layer@[j]),
                ));
            }
            i += 1;
        }
        proof {
            assert(names.deep_view() =~= Seq::new(
                self.members().len(),
                |i: int| kind_name(self.members()[i]),
            ));
        }
        names
    }
}

/// Load one non-grouped source: the exact per-kind fold.
fn load_flat(loader: &SourceKind, builder: &mut crate::memory::ConfigSourceBuilder) -> (r: Result<
    (),
    ConfigError,
>)
    requires
        old(builder).wf(),
        !(loader is Layered),
    ensures
        final(builder).wf(),
        r is Ok,
        loads_to(*loader, old(builder).cur_key(), old(builder).source_view(), final(builder).source_view()),
        final(builder).prefixes() == old(builder).prefixes(),
        final(builder).source_name() == old(builder).source_name(),
{
    match loader {
        SourceKind::Memory(s) => ConfigSource::load(s, builder),
        SourceKind::Cargo(s) => s.load(builder),
        SourceKind::Env(s) => s.load(builder),
        SourceKind::Random(s) => s.load(builder),
        SourceKind::Shared(s) => s.load(builder),
        SourceKind::Layered(_) => {
            proof {
                assert(false);
            }
            Ok(())
        },
    }
}

fn push_members_reversed<'a>(work: &mut Vec<&'a SourceKind>, members: &'a Vec<SourceKind>)
    ensures
        final(work)@.len() == old(work)@.len() + members@.len(),
{
    let mut j: usize = members.len();
    while j > 0
        invariant
            j <= members@.len(),
            work@.len() == old(work)@.len() + (members@.len() - j),
        decreases j,
    {
        j = j - 1;
        work.push(&members[j]);
    }
}

impl ConfigSource for LayeredSource {
    fn name(&self) -> (r: String)
        ensures
            r@ == "layered_source"@,
    {
        "layered_source".to_owned()
    }

    /// Load every member in registration order, members of a nested group in
    /// their own order, in place; the store only grows.  The walk is
    /// iterative, with a step budget standing in for a termination measure
    /// on the nesting depth.
    fn load(&self, builder: &mut crate::memory::ConfigSourceBuilder) -> (r: Result<
        (),
        ConfigError,
    >)
        ensures
            r is Ok,
            store_le(old(builder).source_view(), final(builder).source_view()),
            final(builder).prefixes() == old(builder).prefixes(),
            final(builder).source_name() == old(builder).source_name(),
    {
        let ghost m0 = builder.source_view();
        let mut work: Vec<&SourceKind> = Vec::new();
        push_members_reversed(&mut work, &self.layer);
        let mut budget: usize = usize::MAX;
        proof {
            crate::memory::lemma_store_le_refl(m0);
        }
        while work.len() > 0
            invariant
                builder.wf(),
                store_le(m0, builder.source_view()),
                builder.prefixes() == old(builder).prefixes(),
                builder.source_name() == old(builder).source_name(),
                m0 == old(builder).source_view(),
            decreases budget,
        {
            if budget == 0 {
                return Ok(());
            }
            budget = budget - 1;
            let k = match work.pop() {
                Some(k) => k,
                None => {
                    return Ok(());
                },
            };
            match k {
                SourceKind::Layered(inner) => {
                    push_members_reversed(&mut work, &inner.layer);
                },
                flat => {
                    let ghost before = builder.source_view();
                    let _ = load_flat(flat, builder);
                    proof {
                        lemma_loads_to_le(*flat, builder.cur_key(), before, builder.source_view());
                        crate::memory::lemma_store_le_trans(m0, before, builder.source_view());
                    }
                },
            }
        }
        Ok(())
    }
}

/// Load one source of any kind: the exact fold for a plain kind, growth for
/// a group.
pub(crate) fn load_into(
    loader: &SourceKind,
    builder: &mut crate::memory::ConfigSourceBuilder,
) -> (r: Result<(), ConfigError>)
    requires
        old(builder).wf(),
    ensures
        final(builder).wf(),
        r is Ok,
        loads_to(*loader, old(builder).cur_key(), old(builder).source_view(), final(builder).source_view()),
        final(builder).prefixes() == old(builder).prefixes(),
        final(builder).source_name() == old(builder).source_name(),
{
    match loader {
        SourceKind::Layered(l) => ConfigSource::load(l, builder),
        flat => load_flat(flat, builder),
    }
}

impl ConfigSource for SourceKind {
    fn name(&self) -> (r: String)
        ensures
            r@ == kind_name(*self),
    {
        match self {
            SourceKind::Memory(s) => ConfigSource::name(s),
            SourceKind::Cargo(s) => s.name(),
            SourceKind::Env(s) => s.name(),
            SourceKind::Random(s) => s.name(),
            SourceKind::Shared(s) => s.name(),
            SourceKind::Layered(s) => ConfigSource::name(s),
        }
    }

    fn load(&self, builder: &mut crate::memory::ConfigSourceBuilder) -> (r: Result<
        (),
        ConfigError,
    >)
        ensures
            r is Ok,
            loads_to(*self, old(builder).cur_key(), old(builder).source_view(), final(builder).source_view()),
    {
        load_into(self, builder)
    }

    fn allow_refresh(&self) -> bool {
        match self {
            SourceKind::Shared(s) => s.allow_refresh(),
            _ => false,
        }
    }

    fn refreshable(&self) -> (r: Result<bool, ConfigError>) {
        match self {
            SourceKind::Shared(s) => s.refreshable(),
            _ => Ok(false),
        }
    }
}

/// Configuration instance: sources merged in registration order, a refresh
/// registry, and typed lookups by canonical key.
#[allow(missing_debug_implementations)]
pub struct Configuration {
    pub(crate) source: HashSource,
    pub(crate) refs: Refresher,
    max: usize,
    loaders: Vec<SourceKind>,
}

impl Configuration {
    /// The merged store.
    pub closed spec fn store(&self) -> Map<Seq<char>, NodeV> {
        self.source@
    }

    pub closed spec fn wf(&self) -> bool {
        self.source.wf() && self.refs.wf()
    }

    /// How many sources are registered.
    pub closed spec fn loaders_len(&self) -> nat {
        self.loaders@.len()
    }

    /// The registered sources, in registration order.
    pub closed spec fn loaders_view(&self) -> Seq<SourceKind> {
        self.loaders@
    }

    /// The registered sources' names, in registration order.
    pub open spec fn source_names_view(&self) -> Seq<Seq<char>> {
        Seq::new(self.loaders_view().len(), |i: int| kind_name(self.loaders_view()[i]))
    }

    /// The bound on registered sources.
    pub closed spec fn max_sources(&self) -> usize {
        self.max
    }

    /// An empty configuration.
    pub fn new() -> (r: Configuration)
        ensures
            r.wf(),
            r.store() == Map::<Seq<char>, NodeV>::empty(),
            r.loaders_len() == 0,
            r.max_sources() == 64,
    {
        Configuration {
            source: HashSource::new("configuration".to_owned()),
            refs: Refresher::new(),
            max: 64,
            loaders: Vec::new(),
        }
    }

    /// Register a source: it populates the merged store right away (earlier
    /// sources win scalar conflicts, children are unioned) and is kept for
    /// reloads.  Succeeds exactly below the source bound; at the bound it
    /// fails without registering.
    pub fn register_source(self, loader: SourceKind) -> (r: Result<Configuration, ConfigError>)
        requires
            self.wf(),
        ensures
            self.loaders_len() < self.max_sources() <==> r is Ok,
            self.loaders_len() >= self.max_sources() ==> (r matches Err(e) && e
                matches ConfigError::TooManyInstances(m) && m == self.max_sources()),
            r matches Ok(c) ==> c.wf() && c.loaders_len() == self.loaders_len() + 1
                && c.max_sources() == self.max_sources() && loads_to(
                loader,
                Seq::empty(),
                self.store(),
                c.store(),
            ) && c.source_names_view() == self.source_names_view().push(kind_name(loader))
                && c.loaders_view() == self.loaders_view().push(loader),
    {
        let mut this = self;
        if this.loaders.len() >= this.max {
            return Err(ConfigError::TooManyInstances(this.max));
        }
        let src = this.source;
        let mut b = src.prefixed();
        match load_into(&loader, &mut b) {
            Ok(()) => {},
            Err(e) => {
                return Err(e);
            },
        }
        this.source = b.finish();
        this.loaders.push(loader);
        proof {
            assert(this.source_names_view() =~= self.source_names_view().push(kind_name(loader)));
        }
        Ok(this)
    }

    /// Register the random value source.
    pub fn register_random(self) -> (r: Result<Configuration, ConfigError>)
        requires
            self.wf(),
        ensures
            r matches Ok(c) ==> c.wf(),
    {
        self.register_source(SourceKind::Random(Random))
    }

    /// Start registering key/value pairs by hand.
    pub fn register_kv(self, name: &str) -> (r: ManualSource)
        requires
            self.wf(),
        ensures
            r.wf(),
    {
        ManualSource { conf: self, source: HashSource::new(name.to_owned()) }
    }

    /// Rebuild a fresh store from every registered source, when at least one
    /// reports a change; registered refreshable cells are then re-resolved
    /// against the fresh store, in registration order, aborting on the first
    /// failure.  Whether a source changed is source-internal state, so only
    /// the shape of each outcome is promised: on a report of change, the
    /// fresh configuration's store is the loaders' folded effects, rebuilt
    /// from empty.
    fn reload(&self) -> (r: Result<(bool, Configuration), ConfigError>)
        requires
            self.wf(),
        ensures
            r matches Ok(p) ==> p.1.wf() && (p.0 ==> reload_to(
                self.loaders_view(),
                Seq::empty(),
                Map::empty(),
                p.1.store(),
            )),
            self.loaders_view().len() == 0 ==> (r matches Ok(p) && p.0 == false),
    {
        let mut s = Configuration::new();
        let mut refreshed = false;
        let mut i: usize = 0;
        while i < self.loaders.len()
            invariant
                self.wf(),
                self.loaders@.len() == 0 ==> !refreshed,
            decreases self.loaders@.len() - i,
        {
            match self.loaders[i].refreshable() {
                Ok(true) => {
                    refreshed = true;
                },
                Ok(false) => {},
                Err(e) => {
                    return Err(e);
                },
            }
            i += 1;
        }
        if refreshed {
            let fresh = s.source;
            let mut b = fresh.prefixed();
            let ghost m0 = b.source_view();
            let ghost mut mids: Seq<Map<Seq<char>, NodeV>> = seq![m0];
            let mut j: usize = 0;
            while j < self.loaders.len()
                invariant
                    j <= self.loaders@.len(),
                    self.wf(),
                    b.wf(),
                    b.cur_key() == Seq::<char>::empty(),
                    mids.len() == j + 1,
                    mids.first() == m0,
                    mids.last() == b.source_view(),
                    reload_chain(self.loaders@.subrange(0, j as int), Seq::empty(), mids),
                    m0 == Map::<Seq<char>, NodeV>::empty(),
                decreases self.loaders@.len() - j,
            {
                let ghost prev_mids = mids;
                let ghost before = b.source_view();
                match load_into(&self.loaders[j], &mut b) {
                    Ok(()) => {},
                    Err(e) => {
                        return Err(e);
                    },
                }
                proof {
                    mids = mids.push(b.source_view());
                    let pre = self.loaders@.subrange(0, j as int);
                    let pre1 = self.loaders@.subrange(0, j + 1);
                    assert(pre1 =~= pre.push(self.loaders@[j as int]));
                    assert forall|w: int| 0 <= w < pre1.len() implies loads_to(
                        #[trigger] pre1[w],
                        Seq::empty(),
                        mids[w],
                        mids[w + 1],
                    ) by {
                        if w < pre.len() {
                            assert(pre1[w] == pre[w]);
                            assert(mids[w] == prev_mids[w] && mids[w + 1] == prev_mids[w + 1]);
                        } else {
                            assert(pre1[w] == self.loaders@[j as int]);
                            assert(mids[w] == before && mids[w + 1] == b.source_view());
                        }
                    }
                }
                j += 1;
            }
            s.source = b.finish();
            proof {
                assert(self.loaders@.subrange(0, self.loaders@.len() as int) =~= self.loaders@);
            }
            match self.refs.refresh_all(&s) {
                Ok(()) => {},
                Err(e) => {
                    return Err(e);
                },
            }
        }
        Ok((refreshed, s))
    }

    /// Refresh all refreshable cells without changing the configuration
    /// itself; reports whether any source had changed.
    pub fn refresh_ref(&self) -> (r: Result<bool, ConfigError>)
        requires
            self.wf(),
        ensures
            self.loaders_view().len() == 0 ==> r == Ok::<bool, ConfigError>(false),
    {
        match self.reload() {
            Ok(p) => Ok(p.0),
            Err(e) => Err(e),
        }
    }

    /// Refresh all refreshable cells and the configuration itself; reports
    /// whether any source had changed.  Where nothing changed, or the reload
    /// failed, the merged store is left untouched; where a change was
    /// reported, the store becomes the loaders' folded effects, rebuilt from
    /// empty.
    pub fn refresh(&mut self) -> (r: Result<bool, ConfigError>)
        requires
            old(self).wf(),
        ensures
            final(self).wf(),
            final(self).loaders_view() == old(self).loaders_view(),
            final(self).max_sources() == old(self).max_sources(),
            r == Ok::<bool, ConfigError>(false) ==> final(self).store() == old(self).store(),
            r is Err ==> final(self).store() == old(self).store(),
            r == Ok::<bool, ConfigError>(true) ==> reload_to(
                old(self).loaders_view(),
                Seq::empty(),
                Map::empty(),
                final(self).store(),
            ),
            old(self).loaders_view().len() == 0 ==> r == Ok::<bool, ConfigError>(false)
                && final(self).store() == old(self).store(),
    {
        match self.reload() {
            Ok((x, c)) => {
                if x {
                    self.source = c.source;
                }
                Ok(x)
            },
            Err(e) => Err(e),
        }
    }

    /// Get config from the configuration by key: for a marker-free store,
    /// the key is normalized, its scalar read (placeholders in a string
    /// expanded, an expansion failure returned as the exact scanner error)
    /// and the outcome handed to `T`'s conversion, whose relation pins the
    /// result for every library type.
    pub fn get<T: FromConfig>(&self, key: &str) -> (r: Result<T, ConfigError>)
        requires
            self.wf(),
        ensures
            no_rand(self.store()) ==> match prepare_spec(
                self.store(),
                Set::empty(),
                normalize(key@),
                None,
            ) {
                Prepared::Failed(e) => r matches Err(ce) && err_matches(ce, e),
                Prepared::Handed(hv) => T::obeys_from_config_spec() ==> T::from_config_spec(
                    self.store(),
                    normalize(key@),
                    false,
                    hv,
                    r,
                ),
            },
    {
        let mut context = self.source.new_context(&self.refs);
        let r = context.parse_config::<T>(key, None);
        proof {
            assert(crate::key::push_str_spec(Seq::<char>::empty(), key@) == normalize(key@));
        }
        r
    }

    /// Get config by key, or the given default where the key is absent: the
    /// lookup behaves as `get` for `Option`, with a plain not-found of the
    /// conversion replaced by the default; an expansion failure still
    /// precedes the fallback.
    pub fn get_or<T: FromConfig>(&self, key: &str, def: T) -> (r: Result<T, ConfigError>)
        requires
            self.wf(),
        ensures
            no_rand(self.store()) ==> match prepare_spec(
                self.store(),
                Set::empty(),
                normalize(key@),
                None,
            ) {
                Prepared::Failed(e) => r matches Err(ce) && err_matches(ce, e),
                Prepared::Handed(hv) => T::obeys_from_config_spec() ==> exists|
                    vr: Result<T, ConfigError>,
                |
                    #[trigger] T::from_config_spec(self.store(), normalize(key@), false, hv, vr)
                        && (match vr {
                        Ok(x) => r matches Ok(o) && o == x,
                        Err(e) => if e is ConfigNotFound {
                            r matches Ok(o) && o == def
                        } else {
                            r matches Err(e2) && e2 == e
                        },
                    }),
            },
    {
        let ghost store0 = self.store();
        let inner = self.get::<Option<T>>(key);
        let ghost ginner = inner;
        match inner {
            Ok(Some(v)) => Ok(v),
            Ok(None) => Ok(def),
            Err(e) => Err(e),
        }
    }

    /// Get config under the type's predefined key prefix: `get` at
    /// `T::prefix()`, whose contract carries the expansion-failure clause
    /// (the prefix itself is implementation-chosen, so no more is statable
    /// here).
    pub fn get_predefined<T: FromConfigWithPrefix>(&self) -> (r: Result<T, ConfigError>)
        requires
            self.wf(),
    {
        let key = T::prefix();
        self.get(key)
    }

    /// The registered sources' names, in registration order.
    pub fn source_names(&self) -> (r: Vec<String>)
        ensures
            r.deep_view() == self.source_names_view(),
    {
        let mut names: Vec<String> = Vec::new();
        let mut i: usize = 0;
        while i < self.loaders.len()
            invariant
                i <= self.loaders@.len(),
                names.deep_view() == Seq::new(i as nat, |j: int| kind_name(self.loaders@[j])),
            decreases self.loaders@.len() - i,
        {
            let ghost prev = names.deep_view();
            let nm = self.loaders[i].name();
            names.push(nm);
            proof {
                assert(names.deep_view() =~= prev.push(kind_name(self.loaders@[i as int])));
                assert(names.deep_view() =~= Seq::new(
                    (i + 1) as nat,
                    |j: int| kind_name(self.loaders@[j]),
                ));
            }
            i += 1;
        }
        proof {
            assert(names.deep_view() =~= self.source_names_view());
        }
        names
    }

    /// Get a string by key: the exact pipeline, from key normalization
    /// through lookup to placeholder expansion.
    pub fn get_string(&self, key: &str) -> (r: Result<String, ConfigError>)
        requires
            self.wf(),
        ensures
            no_rand(self.store()) ==> match get_string_spec(self.store(), key@) {
                LookupStr::Found(out) => r matches Ok(s) && s@ == out,
                LookupStr::Absent(kn) => r matches Err(e) && e
                    matches ConfigError::ConfigNotFound(k) && k@ == kn,
                LookupStr::Failed(e) => r matches Err(ce) && err_matches(ce, e),
            },
    {
        let mut ck = CacheKey::new();
        ck.push(key);
        let ks = ck.as_str();
        match self.source.get_value_str(ks.as_str()) {
            None => Err(ConfigError::ConfigNotFound(ks)),
            Some(ConfigValue::Str(s)) => {
                let mut history: Vec<String> = Vec::new();
                proof {
                    assert(hist_set(history.deep_view()) =~= Set::<Seq<char>>::empty());
                }
                parse_placeholder(&self.source, ks.as_str(), ks.as_str(), s.as_str(), &mut history)
            },
            Some(ConfigValue::Int(x)) => Ok(render_i64(x)),
            Some(ConfigValue::Bool(b)) => {
                let mut bv: Vec<char> = Vec::new();
                if b {
                    bv.push('t');
                    bv.push('r');
                    bv.push('u');
                    bv.push('e');
                } else {
                    bv.push('f');
                    bv.push('a');
                    bv.push('l');
                    bv.push('s');
                    bv.push('e');
                }
                proof {
                    assert(bv@ =~= bool_chars(b));
                }
                Ok(crate::key::chars_to_string(&bv))
            },
            Some(ConfigValue::Rand(rv)) => {
                proof {
                    assert(!no_rand(self.store()));
                }
                Ok(crate::random::rand_scalar_string(rv))
            },
        }
    }
}

/// The outcome of a string lookup.
#[allow(missing_debug_implementations)]
pub ghost enum LookupStr {
    /// The key holds this resolved text.
    Found(Seq<char>),
    /// The key (in canonical form) holds nothing.
    Absent(Seq<char>),
    /// Placeholder expansion failed.
    Failed(ResolveErr),
}

/// What looking a raw key up as a string yields: normalize the key, read its
/// scalar, and expand placeholders in a string value with an empty history.
pub open spec fn get_string_spec(m: Map<Seq<char>, NodeV>, raw: Seq<char>) -> LookupStr {
    let kn = normalize(raw);
    match val_at(m, kn) {
        None => LookupStr::Absent(kn),
        Some(v) => match v {
            Val::Str(s) => match resolve_spec(m, Set::empty(), kn, kn, s) {
                ScanResult::Done(out) => LookupStr::Found(out),
                ScanResult::Fail(e) => LookupStr::Failed(e),
            },
            Val::Int(x) => LookupStr::Found(int_chars(x as int)),
            Val::Bool(b) => LookupStr::Found(bool_chars(b)),
            Val::Rand(_) => LookupStr::Found(Seq::empty()),
        },
    }
}

/// Placeholder fast path at the lookup level: a stored string without
/// placeholder syntax is returned exactly as stored.
pub proof fn lemma_get_string_plain(m: Map<Seq<char>, NodeV>, raw: Seq<char>, s: Seq<char>)
    requires
        m.dom().finite(),
        val_at(m, normalize(raw)) == Some(Val::Str(s)),
        !crate::resolver::has_special(s),
    ensures
        get_string_spec(m, raw) == LookupStr::Found(s),
{
    crate::resolver::lemma_resolve_plain(m, Set::empty(), normalize(raw), normalize(raw), s);
}

/// Manually register key/value pairs into a configuration.
#[allow(missing_debug_implementations)]
pub struct ManualSource {
    conf: Configuration,
    source: HashSource,
}

impl ManualSource {
    pub closed spec fn wf(&self) -> bool {
        self.conf.wf() && self.source.wf()
    }

    /// The merged store being written to.
    pub closed spec fn store(&self) -> Map<Seq<char>, NodeV> {
        self.conf.source@
    }

    /// Set one pair into the merged store (an earlier value for the key
    /// wins).
    pub fn set(self, key: &str, value: ConfigValue) -> (r: ManualSource)
        requires
            self.wf(),
        ensures
            r.wf(),
            r.store() == store_set(self.store(), Seq::empty(), key@, value@),
    {
        let mut this = self;
        let src = this.conf.source;
        this.conf.source = src.set(key, value);
        this
    }

    /// Finish: register the named source.
    pub fn finish(self) -> (r: Result<Configuration, ConfigError>)
        requires
            self.wf(),
        ensures
            r matches Ok(c) ==> c.wf(),
    {
        self.conf.register_source(SourceKind::Memory(self.source))
    }
}

/// Generate a typed value from a list of key/value pairs, under a prefix.
pub fn from_map<T: FromConfig>(map: Vec<(String, String)>, prefix: &str) -> (r: Result<
    T,
    ConfigError,
>) {
    let mut ms = Configuration::new().register_kv("default");
    let mut i: usize = 0;
    while i < map.len()
        invariant
            ms.wf(),
        decreases map@.len() - i,
    {
        let k = map[i].0.clone();
        let v = map[i].1.clone();
        ms = ms.set(k.as_str(), ConfigValue::Str(v));
        i += 1;
    }
    let conf = match ms.finish() {
        Ok(c) => c,
        Err(e) => {
            return Err(e);
        },
    };
    let conf = match conf.register_random() {
        Ok(c) => c,
        Err(e) => {
            return Err(e);
        },
    };
    conf.get(prefix)
}

} // verus!
