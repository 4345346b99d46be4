//! Config sources: providers of key/value pairs, merged in registration
//! order into one store.

use std::sync::Arc;

use vstd::prelude::*;
use vstd::rwlock::RwLock;

use crate::err::ConfigError;
use crate::value_ref::TruePred;
use crate::key::{chars_to_string, str_chars};
use crate::memory::{store_set, ConfigSourceBuilder, NodeV};
use crate::value::{lower_of, lowercase, ConfigValue, RandValue, Val};

verus! {

/// What loading a list of key/value pairs does to a store: each pair is set
/// in order, first write to a key winning.
pub open spec fn kv_fold(
    m: Map<Seq<char>, NodeV>,
    cur: Seq<char>,
    kvs: Seq<(Seq<char>, Val)>,
) -> Map<Seq<char>, NodeV>
    decreases kvs.len(),
{
    if kvs.len() == 0 {
        m
    } else {
        kv_fold(store_set(m, cur, kvs[0].0, kvs[0].1), cur, kvs.drop_first())
    }
}

/// Folding one more pair sets it into the folded store.
pub proof fn lemma_kv_fold_snoc(
    m: Map<Seq<char>, NodeV>,
    cur: Seq<char>,
    kvs: Seq<(Seq<char>, Val)>,
    p: (Seq<char>, Val),
)
    ensures
        kv_fold(m, cur, kvs.push(p)) == store_set(kv_fold(m, cur, kvs), cur, p.0, p.1),
    decreases kvs.len(),
{
    if kvs.len() == 0 {
        assert(kvs.push(p)[0] == p);
        assert(kvs.push(p).drop_first() =~= Seq::<(Seq<char>, Val)>::empty());
        assert(kv_fold(m, cur, kvs.push(p)) == kv_fold(
            store_set(m, cur, p.0, p.1),
            cur,
            Seq::<(Seq<char>, Val)>::empty(),
        ));
    } else {
        assert(kvs.push(p)[0] == kvs[0]);
        assert(kvs.push(p).drop_first() =~= kvs.drop_first().push(p));
        lemma_kv_fold_snoc(store_set(m, cur, kvs[0].0, kvs[0].1), cur, kvs.drop_first(), p);
        assert(kv_fold(m, cur, kvs.push(p)) == kv_fold(
            store_set(m, cur, kvs[0].0, kvs[0].1),
            cur,
            kvs.drop_first().push(p),
        ));
    }
}

/// Folding pairs into a store only grows it.
pub proof fn lemma_kv_fold_le(m: Map<Seq<char>, NodeV>, cur: Seq<char>, kvs: Seq<(Seq<char>, Val)>)
    ensures
        crate::memory::store_le(m, kv_fold(m, cur, kvs)),
    decreases kvs.len(),
{
    if kvs.len() == 0 {
        crate::memory::lemma_store_le_refl(m);
    } else {
        let m1 = store_set(m, cur, kvs[0].0, kvs[0].1);
        crate::memory::lemma_store_set_monotone(m, cur, kvs[0].0, kvs[0].1);
        lemma_kv_fold_le(m1, cur, kvs.drop_first());
        crate::memory::lemma_store_le_trans(m, m1, kv_fold(m1, cur, kvs.drop_first()));
    }
}

/// Loading environment variables only grows the store.
pub proof fn lemma_env_load_fold_le(
    m: Map<Seq<char>, NodeV>,
    cur: Seq<char>,
    prefix: Seq<char>,
    vars: Seq<(Seq<char>, Seq<char>)>,
)
    ensures
        crate::memory::store_le(m, env_load_fold(m, cur, prefix, vars)),
    decreases vars.len(),
{
    if vars.len() == 0 {
        crate::memory::lemma_store_le_refl(m);
    } else {
        let m1 = match env_key_of(vars[0].0, prefix) {
            Some(k) => store_set(m, cur, k, Val::Str(vars[0].1)),
            None => m,
        };
        match env_key_of(vars[0].0, prefix) {
            Some(k) => {
                crate::memory::lemma_store_set_monotone(m, cur, k, Val::Str(vars[0].1));
            },
            None => {
                crate::memory::lemma_store_le_refl(m);
            },
        }
        lemma_env_load_fold_le(m1, cur, prefix, vars.drop_first());
        crate::memory::lemma_store_le_trans(m, m1, env_load_fold(m1, cur, prefix, vars.drop_first()));
    }
}

/// Loading the random source only grows the store.
pub proof fn lemma_random_load_le(m: Map<Seq<char>, NodeV>, cur: Seq<char>)
    ensures
        crate::memory::store_le(m, random_load_spec(m, cur)),
{
    let m1 = store_set(m, cur, "random.u8"@, Val::Rand(RandValue::U8));
    let m2 = store_set(m1, cur, "random.u16"@, Val::Rand(RandValue::U16));
    let m3 = store_set(m2, cur, "random.u32"@, Val::Rand(RandValue::U32));
    let m4 = store_set(m3, cur, "random.u64"@, Val::Rand(RandValue::U64));
    let m5 = store_set(m4, cur, "random.u128"@, Val::Rand(RandValue::U128));
    let m6 = store_set(m5, cur, "random.usize"@, Val::Rand(RandValue::Usize));
    let m7 = store_set(m6, cur, "random.i8"@, Val::Rand(RandValue::I8));
    let m8 = store_set(m7, cur, "random.i16"@, Val::Rand(RandValue::I16));
    let m9 = store_set(m8, cur, "random.i32"@, Val::Rand(RandValue::I32));
    let m10 = store_set(m9, cur, "random.i64"@, Val::Rand(RandValue::I64));
    let m11 = store_set(m10, cur, "random.i128"@, Val::Rand(RandValue::I128));
    crate::memory::lemma_store_set_monotone(m, cur, "random.u8"@, Val::Rand(RandValue::U8));
    crate::memory::lemma_store_set_monotone(m1, cur, "random.u16"@, Val::Rand(RandValue::U16));
    crate::memory::lemma_store_le_trans(m, m1, m2);
    crate::memory::lemma_store_set_monotone(m2, cur, "random.u32"@, Val::Rand(RandValue::U32));
    crate::memory::lemma_store_le_trans(m, m2, m3);
    crate::memory::lemma_store_set_monotone(m3, cur, "random.u64"@, Val::Rand(RandValue::U64));
    crate::memory::lemma_store_le_trans(m, m3, m4);
    crate::memory::lemma_store_set_monotone(m4, cur, "random.u128"@, Val::Rand(RandValue::U128));
    crate::memory::lemma_store_le_trans(m, m4, m5);
    crate::memory::lemma_store_set_monotone(m5, cur, "random.usize"@, Val::Rand(RandValue::Usize));
    crate::memory::lemma_store_le_trans(m, m5, m6);
    crate::memory::lemma_store_set_monotone(m6, cur, "random.i8"@, Val::Rand(RandValue::I8));
    crate::memory::lemma_store_le_trans(m, m6, m7);
    crate::memory::lemma_store_set_monotone(m7, cur, "random.i16"@, Val::Rand(RandValue::I16));
    crate::memory::lemma_store_le_trans(m, m7, m8);
    crate::memory::lemma_store_set_monotone(m8, cur, "random.i32"@, Val::Rand(RandValue::I32));
    crate::memory::lemma_store_le_trans(m, m8, m9);
    crate::memory::lemma_store_set_monotone(m9, cur, "random.i64"@, Val::Rand(RandValue::I64));
    crate::memory::lemma_store_le_trans(m, m9, m10);
    crate::memory::lemma_store_set_monotone(m10, cur, "random.i128"@, Val::Rand(RandValue::I128));
    crate::memory::lemma_store_le_trans(m, m10, m11);
    crate::memory::lemma_store_set_monotone(m11, cur, "random.isize"@, Val::Rand(RandValue::Isize));
    crate::memory::lemma_store_le_trans(m, m11, random_load_spec(m, cur));
}

/// Config source adaptor: an intermediate representation (a parsed document)
/// that can flatten itself into the store through a builder.
pub trait ConfigSourceAdaptor: Sized {
    /// Flatten into the store.
    fn convert_source(self, builder: &mut ConfigSourceBuilder) -> (r: Result<(), ConfigError>)
        requires
            old(builder).wf(),
        ensures
            final(builder).wf(),
    ;
}

/// Parse a config source from text.
pub trait ConfigSourceParser: Sized {
    /// The parsed document.
    type Adaptor: ConfigSourceAdaptor;

    /// Parse config source text.
    fn parse_source(content: &str) -> Result<Self::Adaptor, ConfigError>;

    /// The file extensions this format owns.
    fn file_extensions() -> Vec<&'static str>;
}

/// A named provider of key/value pairs.
pub trait ConfigSource: Sized {
    /// The source's name.
    fn name(&self) -> String;

    /// Populate the store.
    fn load(&self, builder: &mut ConfigSourceBuilder) -> (r: Result<(), ConfigError>)
        requires
            old(builder).wf(),
        ensures
            final(builder).wf(),
    ;

    /// May this source ever report a change?
    fn allow_refresh(&self) -> bool {
        false
    }

    /// Has the source changed since this was last asked?  Asking resets the
    /// source's change flag: with no intervening change, a second ask
    /// reports none.
    fn refreshable(&self) -> (r: Result<bool, ConfigError>) {
        Ok(false)
    }
}

impl ConfigSourceBuilder {
    /// Insert a map of parsed documents: each entry is flattened under its
    /// name.
    pub fn insert_map<V: ConfigSourceAdaptor>(&mut self, entries: Vec<(String, V)>) -> (r: Result<
        (),
        ConfigError,
    >)
        requires
            old(self).wf(),
        ensures
            final(self).wf(),
    {
        let mut entries = entries;
        while entries.len() > 0
            invariant
                self.wf(),
            decreases entries@.len(),
        {
            let (k, v) = entries.remove(0);
            self.push(k.as_str());
            let x = v.convert_source(self);
            self.pop();
            match x {
                Ok(()) => {},
                Err(e) => {
                    return Err(e);
                },
            }
        }
        Ok(())
    }

    /// Insert an array of parsed documents: each element is flattened under
    /// its index.
    pub fn insert_array<V: ConfigSourceAdaptor>(&mut self, elements: Vec<V>) -> (r: Result<
        (),
        ConfigError,
    >)
        requires
            old(self).wf(),
        ensures
            final(self).wf(),
    {
        let mut elements = elements;
        let mut i: usize = 0;
        while elements.len() > 0
            invariant
                self.wf(),
            decreases elements@.len(),
        {
            let v = elements.remove(0);
            self.push_index(i);
            let x = v.convert_source(self);
            self.pop();
            match x {
                Ok(()) => {},
                Err(e) => {
                    return Err(e);
                },
            }
            if i < usize::MAX {
                i += 1;
            }
        }
        Ok(())
    }
}

// ---------------------------------------------------------------------------
// Cargo build-environment source
// ---------------------------------------------------------------------------

/// A source fed key/value pairs from the build environment.
#[derive(Debug)]
pub struct Cargo {
    kv: Vec<(String, String)>,
}

impl Cargo {
    /// The pairs held, as views.
    pub closed spec fn pairs(&self) -> Seq<(Seq<char>, Seq<char>)> {
        Seq::new(self.kv@.len(), |i: int| (self.kv@[i].0@, self.kv@[i].1@))
    }

    /// An empty source.
    pub fn new() -> (r: Cargo)
        ensures
            r.pairs() == Seq::<(Seq<char>, Seq<char>)>::empty(),
    {
        let r = Cargo { kv: Vec::new() };
        proof {
            assert(r.pairs() =~= Seq::<(Seq<char>, Seq<char>)>::empty());
        }
        r
    }

    /// Record one pair (a later value for the same key replaces the earlier
    /// one).
    pub fn set(&mut self, k: &str, v: &str)
        ensures
            ({
                let ks = k@;
                let vs = v@;
                if exists|i: int| 0 <= i < old(self).pairs().len() && (#[trigger] old(
                    self,
                ).pairs()[i]).0 == ks {
                    exists|i: int|
                        0 <= i < old(self).pairs().len() && (#[trigger] old(self).pairs()[i]).0
                            == ks && final(self).pairs() == old(self).pairs().update(i, (ks, vs))
                } else {
                    final(self).pairs() == old(self).pairs().push((ks, vs))
                }
            }),
    {
        let mut i: usize = 0;
        while i < self.kv.len()
            invariant
                i <= self.kv@.len(),
                self.kv@ == old(self).kv@,
                forall|j: int| 0 <= j < i ==> (#[trigger] self.kv@[j]).0@ != k@,
            decreases self.kv@.len() - i,
        {
            if crate::value::str_eq(self.kv[i].0.as_str(), k) {
                let pair = (k.to_owned(), v.to_owned());
                self.kv[i] = pair;
                proof {
                    assert((old(self).pairs()[i as int]).0 == k@);
                    assert(self.pairs() =~= old(self).pairs().update(i as int, (k@, v@)));
                }
                return ;
            }
            i += 1;
        }
        self.kv.push((k.to_owned(), v.to_owned()));
        proof {
            assert forall|j: int| 0 <= j < old(self).pairs().len() implies (#[trigger] old(
                self,
            ).pairs()[j]).0 != k@ by {
                assert(old(self).kv@[j].0@ != k@);
            }
            assert(self.pairs() =~= old(self).pairs().push((k@, v@)));
        }
    }
}

impl ConfigSource for Cargo {
    fn name(&self) -> (r: String)
        ensures
            r@ == "cargo_env"@,
    {
        "cargo_env".to_owned()
    }

    /// Set every held pair, in order.
    fn load(&self, builder: &mut ConfigSourceBuilder) -> (r: Result<(), ConfigError>)
        ensures
            r is Ok,
            final(builder).source_view() == kv_fold(
                old(builder).source_view(),
                old(builder).cur_key(),
                Seq::new(self.pairs().len(), |i: int| (self.pairs()[i].0, Val::Str(self.pairs()[i].1))),
            ),
            final(builder).prefixes() == old(builder).prefixes(),
            final(builder).source_name() == old(builder).source_name(),
    {
        let ghost m0 = builder.source_view();
        let ghost cur = builder.cur_key();
        let ghost all = Seq::new(
            self.pairs().len(),
            |i: int| (self.pairs()[i].0, Val::Str(self.pairs()[i].1)),
        );
        let mut i: usize = 0;
        proof {
            assert(all.subrange(0, all.len() as int) =~= all);
        }
        while i < self.kv.len()
            invariant
                i <= self.kv@.len(),
                builder.wf(),
                all == Seq::new(
                    self.pairs().len(),
                    |j: int| (self.pairs()[j].0, Val::Str(self.pairs()[j].1)),
                ),
                all.len() == self.kv@.len(),
                kv_fold(m0, cur, all) == kv_fold(
                    builder.source_view(),
                    cur,
                    all.subrange(i as int, all.len() as int),
                ),
                builder.cur_key() == cur,
                builder.prefixes() == old(builder).prefixes(),
                builder.source_name() == old(builder).source_name(),
                m0 == old(builder).source_view(),
                cur == old(builder).cur_key(),
            decreases self.kv@.len() - i,
        {
            let ghost rest = all.subrange(i as int, all.len() as int);
            let k = self.kv[i].0.clone();
            let v = self.kv[i].1.clone();
            builder.set(k.as_str(), ConfigValue::Str(v));
            proof {
                assert(rest[0] == (self.pairs()[i as int].0, Val::Str(self.pairs()[i as int].1)));
                assert(rest.drop_first() =~= all.subrange(i + 1, all.len() as int));
            }
            i += 1;
        }
        proof {
            assert(all.subrange(all.len() as int, all.len() as int) =~= Seq::<(
                Seq<char>,
                Val,
            )>::empty());
        }
        Ok(())
    }
}

// ---------------------------------------------------------------------------
// Prefixed environment source
// ---------------------------------------------------------------------------

/// What uppercasing yields: the result depends on the characters alone.
pub uninterp spec fn upper_of(s: Seq<char>) -> Seq<char>;

/// Relies on `str::to_uppercase`: the result is a function of the characters
/// alone.
#[verifier::external_body]
pub fn uppercase(s: &str) -> (r: String)
    ensures
        r@ == upper_of(s@),
{
    s.to_uppercase()
}

/// The config key an environment variable maps to, under a prefix: the
/// variable must start with the prefix; the rest is lowercased and its
/// underscores become dots.
pub open spec fn env_key_of(name: Seq<char>, prefix: Seq<char>) -> Option<Seq<char>> {
    if name.len() >= prefix.len() && name.subrange(0, prefix.len() as int) == prefix {
        Some(
            lower_of(name.subrange(prefix.len() as int, name.len() as int)).map_values(
                |c: char|
                    if c == '_' {
                        '.'
                    } else {
                        c
                    },
            ),
        )
    } else {
        None
    }
}

/// What loading provided variables does to a store: every variable whose
/// name carries the prefix is set under its mapped key, in order.
pub open spec fn env_load_fold(
    m: Map<Seq<char>, NodeV>,
    cur: Seq<char>,
    prefix: Seq<char>,
    vars: Seq<(Seq<char>, Seq<char>)>,
) -> Map<Seq<char>, NodeV>
    decreases vars.len(),
{
    if vars.len() == 0 {
        m
    } else {
        let m2 = match env_key_of(vars[0].0, prefix) {
            Some(k) => store_set(m, cur, k, Val::Str(vars[0].1)),
            None => m,
        };
        env_load_fold(m2, cur, prefix, vars.drop_first())
    }
}

/// Environment variables under a prefix, handed in as plain pairs.
#[derive(Debug)]
pub struct PrefixEnvironment {
    prefix: String,
    nm: String,
    vars: Vec<(String, String)>,
}

impl PrefixEnvironment {
    /// The full prefix variable names must start with.
    pub closed spec fn prefix_view(&self) -> Seq<char> {
        self.prefix@
    }

    /// The variables provided so far, as name/value views.
    pub closed spec fn vars_view(&self) -> Seq<(Seq<char>, Seq<char>)> {
        Seq::new(self.vars@.len(), |i: int| (self.vars@[i].0@, self.vars@[i].1@))
    }

    /// The source's name.
    pub closed spec fn name_view(&self) -> Seq<char> {
        self.nm@
    }

    /// A source for variables starting with `prefix` followed by `_`.
    pub fn new(prefix: &str) -> (r: PrefixEnvironment)
        ensures
            r.prefix_view() == upper_of(prefix@).push('_'),
    {
        let up = uppercase(prefix);
        let mut cs = str_chars(up.as_str());
        cs.push('_');
        let full = chars_to_string(&cs);
        let mut nm_cs = str_chars("prefix_env:");
        let mut full_cs = str_chars(full.as_str());
        nm_cs.append(&mut full_cs);
        nm_cs.push('*');
        nm_cs.push('*');
        let nm = chars_to_string(&nm_cs);
        PrefixEnvironment { prefix: full, nm, vars: Vec::new() }
    }

    /// Hand one environment variable to the source.
    pub fn provide(&mut self, name: &str, value: &str)
        ensures
            final(self).vars_view() == old(self).vars_view().push((name@, value@)),
            final(self).prefix_view() == old(self).prefix_view(),
    {
        self.vars.push((name.to_owned(), value.to_owned()));
        proof {
            assert(self.vars_view() =~= old(self).vars_view().push((name@, value@)));
        }
    }

    /// The config key a variable name maps to, if it carries the prefix.
    pub fn key_of(&self, name: &str) -> (r: Option<String>)
        ensures
            match r {
                Some(s) => env_key_of(name@, self.prefix_view()) == Some(s@),
                None => env_key_of(name@, self.prefix_view()) is None,
            },
    {
        let ncs = str_chars(name);
        let pcs = str_chars(self.prefix.as_str());
        if ncs.len() < pcs.len() {
            return None;
        }
        let mut i: usize = 0;
        while i < pcs.len()
            invariant
                i <= pcs@.len() <= ncs@.len(),
                ncs@ == name@,
                pcs@ == self.prefix_view(),
                forall|j: int| 0 <= j < i ==> ncs@[j] == pcs@[j],
            decreases pcs@.len() - i,
        {
            if ncs[i] != pcs[i] {
                proof {
                    assert(name@.subrange(0, pcs@.len() as int)[i as int] != pcs@[i as int]);
                }
                return None;
            }
            i += 1;
        }
        proof {
            assert(name@.subrange(0, pcs@.len() as int) =~= pcs@);
        }
        let rest = vec_tail(&ncs, pcs.len());
        let rest_s = chars_to_string(&rest);
        let lowered = lowercase(rest_s.as_str());
        let lcs = str_chars(lowered.as_str());
        let mut out: Vec<char> = Vec::new();
        let mut j: usize = 0;
        let ghost mapped = lower_of(name@.subrange(pcs@.len() as int, name@.len() as int))
            .map_values(
            |c: char|
                if c == '_' {
                    '.'
                } else {
                    c
                },
        );
        while j < lcs.len()
            invariant
                j <= lcs@.len(),
                lcs@ == lower_of(name@.subrange(pcs@.len() as int, name@.len() as int)),
                mapped == lcs@.map_values(
                    |c: char|
                        if c == '_' {
                            '.'
                        } else {
                            c
                        },
                ),
                out@ == mapped.subrange(0, j as int),
            decreases lcs@.len() - j,
        {
            let c = lcs[j];
            if c == '_' {
                out.push('.');
            } else {
                out.push(c);
            }
            proof {
                assert(out@ =~= mapped.subrange(0, j + 1));
            }
            j += 1;
        }
        proof {
            assert(out@ =~= mapped);
        }
        Some(chars_to_string(&out))
    }
}

/// A copy of the elements from a position on.
fn vec_tail(v: &Vec<char>, a: usize) -> (r: Vec<char>)
    requires
        a <= v@.len(),
    ensures
        r@ == v@.subrange(a as int, v@.len() as int),
{
    let mut r: Vec<char> = Vec::new();
    let mut i: usize = a;
    while i < v.len()
        invariant
            a <= i <= v@.len(),
            r@ == v@.subrange(a as int, i as int),
        decreases v@.len() - i,
    {
        r.push(v[i]);
        assert(r@ =~= v@.subrange(a as int, i + 1));
        i += 1;
    }
    r
}

impl ConfigSource for PrefixEnvironment {
    fn name(&self) -> (r: String)
        ensures
            r@ == self.name_view(),
    {
        self.nm.clone()
    }

    /// Set every provided variable whose name carries the prefix, under its
    /// mapped key, in order.
    fn load(&self, builder: &mut ConfigSourceBuilder) -> (r: Result<(), ConfigError>)
        ensures
            r is Ok,
            final(builder).source_view() == env_load_fold(
                old(builder).source_view(),
                old(builder).cur_key(),
                self.prefix_view(),
                self.vars_view(),
            ),
            final(builder).prefixes() == old(builder).prefixes(),
            final(builder).source_name() == old(builder).source_name(),
    {
        let ghost m0 = builder.source_view();
        let ghost cur = builder.cur_key();
        let ghost all = self.vars_view();
        let mut i: usize = 0;
        proof {
            assert(all.subrange(0, all.len() as int) =~= all);
        }
        while i < self.vars.len()
            invariant
                i <= self.vars@.len(),
                builder.wf(),
                all == self.vars_view(),
                all.len() == self.vars@.len(),
                env_load_fold(m0, cur, self.prefix_view(), all) == env_load_fold(
                    builder.source_view(),
                    cur,
                    self.prefix_view(),
                    all.subrange(i as int, all.len() as int),
                ),
                builder.cur_key() == cur,
                builder.prefixes() == old(builder).prefixes(),
                builder.source_name() == old(builder).source_name(),
                m0 == old(builder).source_view(),
                cur == old(builder).cur_key(),
            decreases self.vars@.len() - i,
        {
            let ghost rest = all.subrange(i as int, all.len() as int);
            proof {
                assert(rest[0] == all[i as int]);
                assert(rest.drop_first() =~= all.subrange(i + 1, all.len() as int));
            }
            let name = self.vars[i].0.clone();
            if let Some(key) = self.key_of(name.as_str()) {
                let v = self.vars[i].1.clone();
                builder.set(key.as_str(), ConfigValue::Str(v));
            }
            i += 1;
        }
        proof {
            assert(all.subrange(all.len() as int, all.len() as int) =~= Seq::<(
                Seq<char>,
                Seq<char>,
            )>::empty());
        }
        Ok(())
    }
}

// ---------------------------------------------------------------------------
// Random source
// ---------------------------------------------------------------------------

/// The random value source: twelve `random.*` keys, one per integer type,
/// each holding a marker that is replaced by a fresh draw when read.
#[derive(Debug)]
pub struct Random;

/// What loading the random source does to a store: one marker per integer
/// type, each under its `random.*` key, in order.
pub open spec fn random_load_spec(m: Map<Seq<char>, NodeV>, cur: Seq<char>) -> Map<
    Seq<char>,
    NodeV,
> {
    let m1 = store_set(m, cur, "random.u8"@, Val::Rand(RandValue::U8));
    let m2 = store_set(m1, cur, "random.u16"@, Val::Rand(RandValue::U16));
    let m3 = store_set(m2, cur, "random.u32"@, Val::Rand(RandValue::U32));
    let m4 = store_set(m3, cur, "random.u64"@, Val::Rand(RandValue::U64));
    let m5 = store_set(m4, cur, "random.u128"@, Val::Rand(RandValue::U128));
    let m6 = store_set(m5, cur, "random.usize"@, Val::Rand(RandValue::Usize));
    let m7 = store_set(m6, cur, "random.i8"@, Val::Rand(RandValue::I8));
    let m8 = store_set(m7, cur, "random.i16"@, Val::Rand(RandValue::I16));
    let m9 = store_set(m8, cur, "random.i32"@, Val::Rand(RandValue::I32));
    let m10 = store_set(m9, cur, "random.i64"@, Val::Rand(RandValue::I64));
    let m11 = store_set(m10, cur, "random.i128"@, Val::Rand(RandValue::I128));
    store_set(m11, cur, "random.isize"@, Val::Rand(RandValue::Isize))
}

impl ConfigSource for Random {
    fn name(&self) -> (r: String)
        ensures
            r@ == "random_generator"@,
    {
        "random_generator".to_owned()
    }

    fn load(&self, builder: &mut ConfigSourceBuilder) -> (r: Result<(), ConfigError>)
        ensures
            r is Ok,
            final(builder).source_view() == random_load_spec(
                old(builder).source_view(),
                old(builder).cur_key(),
            ),
            final(builder).prefixes() == old(builder).prefixes(),
            final(builder).source_name() == old(builder).source_name(),
    {
        builder.set("random.u8", ConfigValue::Rand(RandValue::U8));
        builder.set("random.u16", ConfigValue::Rand(RandValue::U16));
        builder.set("random.u32", ConfigValue::Rand(RandValue::U32));
        builder.set("random.u64", ConfigValue::Rand(RandValue::U64));
        builder.set("random.u128", ConfigValue::Rand(RandValue::U128));
        builder.set("random.usize", ConfigValue::Rand(RandValue::Usize));
        builder.set("random.i8", ConfigValue::Rand(RandValue::I8));
        builder.set("random.i16", ConfigValue::Rand(RandValue::I16));
        builder.set("random.i32", ConfigValue::Rand(RandValue::I32));
        builder.set("random.i64", ConfigValue::Rand(RandValue::I64));
        builder.set("random.i128", ConfigValue::Rand(RandValue::I128));
        builder.set("random.isize", ConfigValue::Rand(RandValue::Isize));
        Ok(())
    }
}

// ---------------------------------------------------------------------------
// Shared in-memory source with a change flag
// ---------------------------------------------------------------------------

/// The owned state of a shared source: pairs and a single-shot change flag.
#[allow(missing_debug_implementations)]
pub struct SharedState {
    /// The pairs the source provides.
    pub entries: Vec<(String, ConfigValue)>,
    /// Set by writes, cleared by asking `refreshable`.
    pub changed: bool,
}

/// What one poll of the change flag yields: the flag's value, and the flag
/// afterwards (always cleared).
pub open spec fn poll_spec(changed: bool) -> (bool, bool) {
    (changed, false)
}

/// Refresh idempotence at the source: polling reports the pending change
/// once; polling again with no intervening change reports none.
pub proof fn lemma_refresh_single_shot(changed: bool)
    ensures
        poll_spec(changed).0 == changed,
        poll_spec(poll_spec(changed).1).0 == false,
{
}

/// Read and clear the change flag: the single-shot step `reload` relies on.
pub fn take_changed(st: &mut SharedState) -> (r: bool)
    ensures
        (r, final(st).changed) == poll_spec(old(st).changed),
        final(st).entries@ == old(st).entries@,
{
    let c = st.changed;
    st.changed = false;
    c
}

/// An in-memory source whose contents can be changed from outside after
/// registration; changes are reported once by `refreshable`.
#[allow(missing_debug_implementations)]
pub struct SharedSource {
    nm: String,
    state: Arc<RwLock<SharedState, TruePred>>,
}

impl SharedSource {
    /// The source's name.
    pub closed spec fn name_view(&self) -> Seq<char> {
        self.nm@
    }

    /// A fresh, empty, unchanged source.
    pub fn new(name: &str) -> (r: SharedSource) {
        let st = SharedState { entries: Vec::new(), changed: false };
        let lock = RwLock::<SharedState, TruePred>::new(st, Ghost(TruePred));
        SharedSource { nm: name.to_owned(), state: Arc::new(lock) }
    }

    /// Another handle on the same shared state.
    pub fn handle(&self) -> (r: SharedSource) {
        SharedSource { nm: self.nm.clone(), state: crate::value_ref::arc_clone(&self.state) }
    }

    /// Set a key, marking the source changed.
    pub fn set(&self, k: &str, v: ConfigValue) {
        let (mut st, handle) = self.state.acquire_write();
        let mut i: usize = 0;
        let mut replaced = false;
        while i < st.entries.len()
            invariant
                i <= st.entries@.len(),
            decreases st.entries@.len() - i,
        {
            if crate::value::str_eq(st.entries[i].0.as_str(), k) {
                let pair = (k.to_owned(), v);
                st.entries[i] = pair;
                st.changed = true;
                handle.release_write(st);
                return ;
            }
            i += 1;
        }
        st.entries.push((k.to_owned(), v));
        st.changed = true;
        handle.release_write(st);
    }
}

impl ConfigSource for SharedSource {
    fn name(&self) -> (r: String)
        ensures
            r@ == self.name_view(),
    {
        self.nm.clone()
    }

    /// Set whatever pairs the shared state holds at this moment, in order:
    /// the store changes by a fold of some pair list.
    fn load(&self, builder: &mut ConfigSourceBuilder) -> (r: Result<(), ConfigError>)
        ensures
            r is Ok,
            exists|es: Seq<(Seq<char>, Val)>|
                final(builder).source_view() == kv_fold(
                    old(builder).source_view(),
                    old(builder).cur_key(),
                    es,
                ),
            final(builder).prefixes() == old(builder).prefixes(),
            final(builder).source_name() == old(builder).source_name(),
    {
        let ghost m0 = builder.source_view();
        let ghost cur = builder.cur_key();
        let ghost mut es: Seq<(Seq<char>, Val)> = Seq::empty();
        let handle = self.state.acquire_read();
        let st = handle.borrow();
        let mut i: usize = 0;
        while i < st.entries.len()
            invariant
                builder.wf(),
                builder.source_view() == kv_fold(m0, cur, es),
                builder.cur_key() == cur,
                builder.prefixes() == old(builder).prefixes(),
                builder.source_name() == old(builder).source_name(),
                m0 == old(builder).source_view(),
                cur == old(builder).cur_key(),
            decreases st.entries@.len() - i,
        {
            let k = st.entries[i].0.clone();
            let v = st.entries[i].1.duplicate();
            proof {
                lemma_kv_fold_snoc(m0, cur, es, (k@, v@));
                es = es.push((k@, v@));
            }
            builder.set(k.as_str(), v);
            i += 1;
        }
        handle.release_read();
        Ok(())
    }

    fn allow_refresh(&self) -> bool {
        true
    }

    /// Report whether the contents changed since last asked, clearing the
    /// flag: with no intervening change, true is reported at most once.
    fn refreshable(&self) -> (r: Result<bool, ConfigError>) {
        let (mut st, handle) = self.state.acquire_write();
        let c = take_changed(&mut st);
        handle.release_write(st);
        Ok(c)
    }
}

} // verus!
