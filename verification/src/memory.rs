//! The flat key/value store and the builder sources use to populate it.
//!
//! The store is a flat mapping from canonical key string to a node holding an
//! optional scalar and a children descriptor (known literal name children and
//! one past the largest index child).  Nodes for intermediate path prefixes
//! exist purely to hold the children descriptor; no real tree is built.
//! Scalars follow a first-wins rule: once a node holds a scalar, later
//! insertions leave it unchanged, so the source registered first has
//! priority.

use vstd::prelude::*;

use crate::key::{normalize, render_seg, render_segs, segs, CacheKey, PartialKey, PartialKeyCollector, Seg, str_chars,
    chars_to_string, split_segments};
use crate::value::{str_eq, ConfigValue, Val};

verus! {

/// The mathematical shape of one store node.
#[allow(missing_debug_implementations)]
pub ghost struct NodeV {
    /// The scalar held at this key, if any.
    pub val: Option<Val>,
    /// The literal name children seen under this key, in insertion order.
    pub subs: Seq<Seq<char>>,
    /// One past the largest index child seen under this key, if any.
    pub subi: Option<usize>,
}

/// The node a store holds at a key: an absent key holds the empty node.
pub open spec fn node_at(m: Map<Seq<char>, NodeV>, k: Seq<char>) -> NodeV {
    if m.contains_key(k) {
        m[k]
    } else {
        NodeV { val: None, subs: Seq::empty(), subi: None }
    }
}

/// The scalar a store holds at a key, if any.
pub open spec fn val_at(m: Map<Seq<char>, NodeV>, k: Seq<char>) -> Option<Val> {
    node_at(m, k).val
}

/// Register `g` as a known child of the node at `parent`.
pub open spec fn reg_child(m: Map<Seq<char>, NodeV>, parent: Seq<char>, g: Seg) -> Map<
    Seq<char>,
    NodeV,
> {
    let n = node_at(m, parent);
    let n2 = match g {
        Seg::Name(t) => NodeV {
            subs: if n.subs.contains(t) {
                n.subs
            } else {
                n.subs.push(t)
            },
            ..n
        },
        Seg::Index(i) => NodeV {
            subi: match n.subi {
                Some(u) => if u as nat >= i {
                    Some(u)
                } else {
                    Some(i as usize)
                },
                None => Some(i as usize),
            },
            ..n
        },
    };
    m.insert(parent, n2)
}

/// Walk a segment path from the canonical key `cur`, registering each
/// segment as a child of the node it starts from; yields the updated store
/// and the canonical key reached.
pub open spec fn reg_path(m: Map<Seq<char>, NodeV>, cur: Seq<char>, sgs: Seq<Seg>) -> (
    Map<Seq<char>, NodeV>,
    Seq<char>,
)
    decreases sgs.len(),
{
    if sgs.len() == 0 {
        (m, cur)
    } else {
        reg_path(reg_child(m, cur, sgs[0]), render_seg(cur, sgs[0]), sgs.drop_first())
    }
}

/// Set the scalar at `k`, only if the node there holds none (first wins);
/// the node comes to exist either way.
pub open spec fn set_val(m: Map<Seq<char>, NodeV>, k: Seq<char>, v: Val) -> Map<Seq<char>, NodeV> {
    let n = node_at(m, k);
    if n.val is Some {
        m.insert(k, n)
    } else {
        m.insert(k, NodeV { val: Some(v), ..n })
    }
}

/// What one `set(key, value)` call does to the store.
pub open spec fn store_set(
    m: Map<Seq<char>, NodeV>,
    cur: Seq<char>,
    raw: Seq<char>,
    v: Val,
) -> Map<Seq<char>, NodeV> {
    let (m2, kk) = reg_path(m, cur, segs(raw));
    set_val(m2, kk, v)
}

// ---------------------------------------------------------------------------
// Store nodes
// ---------------------------------------------------------------------------

/// One store node.
#[derive(Debug)]
pub struct HashValue {
    sub_str: Vec<String>,
    sub_int: Option<usize>,
    value: Option<ConfigValue>,
}

impl View for HashValue {
    type V = NodeV;

    closed spec fn view(&self) -> NodeV {
        NodeV {
            val: if self.value is Some {
                Some(self.value->Some_0@)
            } else {
                None
            },
            subs: self.sub_str.deep_view(),
            subi: self.sub_int,
        }
    }
}

impl HashValue {
    fn new() -> (r: HashValue)
        ensures
            r@ == (NodeV { val: None, subs: Seq::<Seq<char>>::empty(), subi: None }),
    {
        let r = HashValue { sub_str: Vec::new(), sub_int: None, value: None };
        proof {
            assert(r@.subs =~= Seq::<Seq<char>>::empty());
        }
        r
    }

    /// Set the scalar, only if none is set yet (first wins).
    fn push_val(&mut self, val: ConfigValue)
        ensures
            final(self)@ == (NodeV {
                val: match old(self)@.val {
                    Some(v) => Some(v),
                    None => Some(val@),
                },
                ..old(self)@
            }),
    {
        if self.value.is_none() {
            self.value = Some(val);
        }
    }

    /// Record one child segment.
    fn push_key(&mut self, key: &PartialKey)
        ensures
            ({
                let n = old(self)@;
                final(self)@ == match key@ {
                    Seg::Name(t) => NodeV {
                        subs: if n.subs.contains(t) {
                            n.subs
                        } else {
                            n.subs.push(t)
                        },
                        ..n
                    },
                    Seg::Index(i) => NodeV {
                        subi: match n.subi {
                            Some(u) => if u as nat >= i {
                                Some(u)
                            } else {
                                Some(i as usize)
                            },
                            None => Some(i as usize),
                        },
                        ..n
                    },
                }
            }),
    {
        match key {
            PartialKey::Str(name) => {
                let mut found = false;
                let mut i: usize = 0;
                while i < self.sub_str.len()
                    invariant
                        i <= self.sub_str@.len(),
                        found <==> exists|k: int|
                            0 <= k < i && #[trigger] self.sub_str@[k]@ == name@,
                    decreases self.sub_str@.len() - i,
                {
                    if str_eq(self.sub_str[i].as_str(), name.as_str()) {
                        found = true;
                    }
                    i += 1;
                }
                proof {
                    assert(found == self@.subs.contains(name@)) by {
                        if found {
                            let k = choose|k: int|
                                0 <= k < self.sub_str@.len() && #[trigger] self.sub_str@[k]@
                                    == name@;
                            assert(self@.subs[k] == name@);
                        } else {
                            if self@.subs.contains(name@) {
                                let k = choose|k: int|
                                    0 <= k < self@.subs.len() && #[trigger] self@.subs[k] == name@;
                                assert(self.sub_str@[k]@ == name@);
                            }
                        }
                    }
                }
                if !found {
                    let ghost prev = self@.subs;
                    self.sub_str.push(name.clone());
                    proof {
                        assert(self@.subs =~= prev.push(name@));
                    }
                }
            },
            PartialKey::Int(i) => {
                match self.sub_int {
                    Some(u) => {
                        if u < *i {
                            self.sub_int = Some(*i);
                        }
                    },
                    None => {
                        self.sub_int = Some(*i);
                    },
                }
            },
        }
    }
}

// ---------------------------------------------------------------------------
// The store
// ---------------------------------------------------------------------------

/// The association list a store holds, as key/node views.
pub open spec fn entries_view(v: Seq<(String, HashValue)>) -> Seq<(Seq<char>, NodeV)> {
    Seq::new(v.len(), |i: int| (v[i].0@, v[i].1@))
}

/// The map an association list denotes (later entries would win; the store
/// keeps its keys unique, so order never matters).
pub open spec fn assoc_map(s: Seq<(Seq<char>, NodeV)>) -> Map<Seq<char>, NodeV>
    decreases s.len(),
{
    if s.len() == 0 {
        Map::empty()
    } else {
        assoc_map(s.drop_last()).insert(s.last().0, s.last().1)
    }
}

pub open spec fn unique_keys(s: Seq<(Seq<char>, NodeV)>) -> bool {
    forall|i: int, j: int| 0 <= i < j < s.len() ==> (#[trigger] s[i]).0 != (#[trigger] s[j]).0
}

proof fn lemma_assoc_map_entry(s: Seq<(Seq<char>, NodeV)>, i: int)
    requires
        unique_keys(s),
        0 <= i < s.len(),
    ensures
        assoc_map(s).contains_key(s[i].0),
        assoc_map(s)[s[i].0] == s[i].1,
    decreases s.len(),
{
    if i == s.len() - 1 {
    } else {
        assert(unique_keys(s.drop_last())) by {
            assert(forall|a: int, b: int|
                0 <= a < b < s.drop_last().len() ==> (#[trigger] s.drop_last()[a]).0 != (
                #[trigger] s.drop_last()[b]).0) by {
                assert(forall|a: int|
                    0 <= a < s.drop_last().len() ==> #[trigger] s.drop_last()[a] == s[a]);
            }
        }
        assert(s.drop_last()[i] == s[i]);
        lemma_assoc_map_entry(s.drop_last(), i);
        assert(s[i].0 != s.last().0);
    }
}

proof fn lemma_assoc_map_absent(s: Seq<(Seq<char>, NodeV)>, k: Seq<char>)
    requires
        forall|i: int| 0 <= i < s.len() ==> (#[trigger] s[i]).0 != k,
    ensures
        !assoc_map(s).contains_key(k),
    decreases s.len(),
{
    if s.len() > 0 {
        assert(forall|a: int| 0 <= a < s.drop_last().len() ==> #[trigger] s.drop_last()[a] == s[a]);
        lemma_assoc_map_absent(s.drop_last(), k);
    }
}

proof fn lemma_assoc_map_dom_finite(s: Seq<(Seq<char>, NodeV)>)
    ensures
        assoc_map(s).dom().finite(),
    decreases s.len(),
{
    if s.len() > 0 {
        lemma_assoc_map_dom_finite(s.drop_last());
    }
}

/// In-memory source and the merged store of a configuration.
#[derive(Debug)]
pub struct HashSource {
    value: Vec<(String, HashValue)>,
    name: String,
}

impl View for HashSource {
    type V = Map<Seq<char>, NodeV>;

    closed spec fn view(&self) -> Map<Seq<char>, NodeV> {
        assoc_map(entries_view(self.value@))
    }
}

impl HashSource {
    /// Keys are never stored twice.
    pub closed spec fn wf(&self) -> bool {
        unique_keys(entries_view(self.value@))
    }

    pub closed spec fn name_view(&self) -> Seq<char> {
        self.name@
    }

    /// The store's key set is finite.
    pub proof fn lemma_dom_finite(&self)
        ensures
            self@.dom().finite(),
    {
        lemma_assoc_map_dom_finite(entries_view(self.value@));
    }

    /// An empty store.
    pub fn new(name: String) -> (r: HashSource)
        ensures
            r.wf(),
            r@ == Map::<Seq<char>, NodeV>::empty(),
            r.name_view() == name@,
    {
        let r = HashSource { value: Vec::new(), name };
        proof {
            assert(entries_view(r.value@) =~= Seq::<(Seq<char>, NodeV)>::empty());
        }
        r
    }

    /// The source's name.
    pub fn name(&self) -> (r: String)
        ensures
            r@ == self.name_view(),
    {
        self.name.clone()
    }

    /// The position of the node stored at `key`, if any.
    fn find_index(&self, key: &str) -> (r: Option<usize>)
        ensures
            match r {
                Some(i) => i < self.value@.len() && self.value@[i as int].0@ == key@,
                None => forall|i: int|
                    0 <= i < self.value@.len() ==> (#[trigger] self.value@[i]).0@ != key@,
            },
    {
        let mut i: usize = 0;
        while i < self.value.len()
            invariant
                i <= self.value@.len(),
                forall|k: int| 0 <= k < i ==> (#[trigger] self.value@[k]).0@ != key@,
            decreases self.value@.len() - i,
        {
            if str_eq(self.value[i].0.as_str(), key) {
                return Some(i);
            }
            i += 1;
        }
        None
    }

    /// The scalar stored at a canonical key, if any.
    pub fn get_value_str(&self, key: &str) -> (r: Option<ConfigValue>)
        requires
            self.wf(),
        ensures
            match r {
                Some(v) => val_at(self@, key@) matches Some(w) && v@ == w,
                None => val_at(self@, key@) is None,
            },
    {
        match self.find_index(key) {
            Some(i) => {
                proof {
                    lemma_assoc_map_entry(entries_view(self.value@), i as int);
                }
                match &self.value[i].1.value {
                    Some(v) => Some(v.duplicate()),
                    None => None,
                }
            },
            None => {
                proof {
                    lemma_assoc_map_absent(entries_view(self.value@), key@);
                }
                None
            },
        }
    }

    /// The scalar stored at a key, if any.
    pub fn get_value(&self, key: &CacheKey) -> (r: Option<ConfigValue>)
        requires
            self.wf(),
        ensures
            match r {
                Some(v) => val_at(self@, key@) matches Some(w) && v@ == w,
                None => val_at(self@, key@) is None,
            },
    {
        let ks = key.as_str();
        self.get_value_str(ks.as_str())
    }

    /// Merge the children descriptor at `prefix` into the collector.
    pub fn collect_keys(&self, prefix: &CacheKey, sub: &mut PartialKeyCollector)
        requires
            self.wf(),
        ensures
            ({
                let n = node_at(self@, prefix@);
                // every known name child is collected
                (forall|t: Seq<char>|
                    n.subs.contains(t) ==> final(sub).names().contains(t))
                // nothing else appears
                && (forall|t: Seq<char>|
                    final(sub).names().contains(t) ==> old(sub).names().contains(t)
                        || n.subs.contains(t))
                // the index bound is merged
                && final(sub).index_bound() == match n.subi {
                    Some(i) => match old(sub).index_bound() {
                        Some(u) => if u > i {
                            Some(u)
                        } else if i == usize::MAX {
                            Some(usize::MAX)
                        } else {
                            Some((i + 1) as usize)
                        },
                        None => if i == usize::MAX {
                            Some(usize::MAX)
                        } else {
                            Some((i + 1) as usize)
                        },
                    },
                    None => old(sub).index_bound(),
                }
            }),
    {
        let ks = prefix.as_str();
        match self.find_index(ks.as_str()) {
            Some(i) => {
                proof {
                    lemma_assoc_map_entry(entries_view(self.value@), i as int);
                }
                let node = &self.value[i].1;
                let mut j: usize = 0;
                while j < node.sub_str.len()
                    invariant
                        j <= node.sub_str@.len(),
                        forall|t: Seq<char>|
                            node@.subs.subrange(0, j as int).contains(t) ==> sub.names().contains(
                                t,
                            ),
                        forall|t: Seq<char>|
                            sub.names().contains(t) ==> old(sub).names().contains(t)
                                || node@.subs.contains(t),
                        sub.index_bound() == old(sub).index_bound(),
                    decreases node.sub_str@.len() - j,
                {
                    let ghost pre = node@.subs.subrange(0, j as int);
                    let ghost names_before = sub.names();
                    sub.insert_name(&node.sub_str[j]);
                    proof {
                        assert(node@.subs[j as int] == node.sub_str@[j as int]@);
                        assert forall|t: Seq<char>| names_before.contains(t) implies sub.names()
                            .contains(t) by {
                            let k = choose|k: int|
                                0 <= k < names_before.len() && #[trigger] names_before[k] == t;
                            assert(sub.names()[k] == t);
                        }
                        assert forall|t: Seq<char>|
                            node@.subs.subrange(0, j + 1).contains(t) implies sub.names().contains(
                            t,
                        ) by {
                            let w = choose|w: int|
                                0 <= w < j + 1 && #[trigger] node@.subs.subrange(0, j + 1)[w] == t;
                            if w < j {
                                assert(pre[w] == t);
                                assert(names_before.contains(t));
                            } else {
                                assert(node@.subs[j as int] == t);
                            }
                        }
                    }
                    j += 1;
                }
                proof {
                    assert(node@.subs.subrange(0, node.sub_str@.len() as int) =~= node@.subs);
                }
                if let Some(u) = node.sub_int {
                    sub.insert_int(u);
                }
            },
            None => {
                proof {
                    lemma_assoc_map_absent(entries_view(self.value@), prefix@);
                }
            },
        }
    }
}

// ---------------------------------------------------------------------------
// The builder sources populate the store through
// ---------------------------------------------------------------------------

proof fn lemma_unique_keys_drop_last(s: Seq<(Seq<char>, NodeV)>)
    requires
        unique_keys(s),
        s.len() > 0,
    ensures
        unique_keys(s.drop_last()),
{
    assert(forall|a: int| 0 <= a < s.drop_last().len() ==> #[trigger] s.drop_last()[a] == s[a]);
}

proof fn lemma_assoc_map_update(s: Seq<(Seq<char>, NodeV)>, i: int, n: NodeV)
    requires
        unique_keys(s),
        0 <= i < s.len(),
    ensures
        assoc_map(s.update(i, (s[i].0, n))) == assoc_map(s).insert(s[i].0, n),
    decreases s.len(),
{
    let k = s[i].0;
    let s2 = s.update(i, (k, n));
    if i == s.len() - 1 {
        assert(s2.drop_last() =~= s.drop_last());
        assert(s2.last() == (k, n));
        assert(assoc_map(s2) == assoc_map(s.drop_last()).insert(k, n));
        assert(assoc_map(s).insert(k, n) =~= assoc_map(s.drop_last()).insert(k, s.last().1).insert(
            k,
            n,
        ));
        assert(assoc_map(s.drop_last()).insert(k, s.last().1).insert(k, n) =~= assoc_map(
            s.drop_last(),
        ).insert(k, n));
    } else {
        lemma_unique_keys_drop_last(s);
        assert(s2.drop_last() =~= s.drop_last().update(i, (k, n)));
        assert(s.drop_last()[i] == s[i]);
        lemma_assoc_map_update(s.drop_last(), i, n);
        assert(s2.last() == s.last());
        assert(k != s.last().0);
        assert(assoc_map(s2) == assoc_map(s.drop_last()).insert(k, n).insert(
            s.last().0,
            s.last().1,
        ));
        assert(assoc_map(s.drop_last()).insert(k, n).insert(s.last().0, s.last().1) =~= assoc_map(
            s.drop_last(),
        ).insert(s.last().0, s.last().1).insert(k, n));
    }
}

impl HashSource {
    /// Record `seg` as a known child of the node at the canonical key
    /// `parent`, creating the node first where none exists.
    fn node_push_key(&mut self, parent: &str, seg: &PartialKey)
        requires
            old(self).wf(),
        ensures
            final(self).wf(),
            final(self)@ == reg_child(old(self)@, parent@, seg@),
            final(self).name_view() == old(self).name_view(),
    {
        let ghost es = entries_view(self.value@);
        match self.find_index(parent) {
            Some(i) => {
                proof {
                    lemma_assoc_map_entry(es, i as int);
                }
                let mut entry = self.value.remove(i);
                entry.1.push_key(seg);
                let ghost n2 = entry.1@;
                self.value.insert(i, entry);
                proof {
                    assert(entries_view(self.value@) =~= es.update(i as int, (parent@, n2)));
                    lemma_assoc_map_update(es, i as int, n2);
                    assert(unique_keys(entries_view(self.value@))) by {
                        assert(forall|a: int|
                            0 <= a < es.len() ==> (#[trigger] entries_view(self.value@)[a]).0
                                == es[a].0);
                    }
                    assert(node_at(old(self)@, parent@) == es[i as int].1);
                    assert(self@ =~= reg_child(old(self)@, parent@, seg@));
                }
            },
            None => {
                proof {
                    lemma_assoc_map_absent(es, parent@);
                }
                let mut node = HashValue::new();
                node.push_key(seg);
                let ghost n2 = node@;
                let owned: String = parent.to_owned();
                self.value.push((owned, node));
                proof {
                    assert(entries_view(self.value@) =~= es.push((parent@, n2)));
                    assert(entries_view(self.value@).drop_last() =~= es);
                    assert(unique_keys(entries_view(self.value@))) by {
                        assert(forall|a: int|
                            0 <= a < es.len() ==> (#[trigger] entries_view(self.value@)[a]).0
                                == es[a].0);
                    }
                    assert(node_at(old(self)@, parent@) == (NodeV {
                        val: None,
                        subs: Seq::<Seq<char>>::empty(),
                        subi: None,
                    }));
                    assert(self@ =~= reg_child(old(self)@, parent@, seg@));
                }
            },
        }
    }

    /// Set the scalar at the canonical key `at`, only where none is set yet;
    /// the node comes to exist either way.
    fn node_push_val(&mut self, at: &str, v: ConfigValue)
        requires
            old(self).wf(),
        ensures
            final(self).wf(),
            final(self)@ == set_val(old(self)@, at@, v@),
            final(self).name_view() == old(self).name_view(),
    {
        let ghost es = entries_view(self.value@);
        match self.find_index(at) {
            Some(i) => {
                proof {
                    lemma_assoc_map_entry(es, i as int);
                }
                let mut entry = self.value.remove(i);
                entry.1.push_val(v);
                let ghost n2 = entry.1@;
                self.value.insert(i, entry);
                proof {
                    assert(entries_view(self.value@) =~= es.update(i as int, (at@, n2)));
                    lemma_assoc_map_update(es, i as int, n2);
                    assert(unique_keys(entries_view(self.value@))) by {
                        assert(forall|a: int|
                            0 <= a < es.len() ==> (#[trigger] entries_view(self.value@)[a]).0
                                == es[a].0);
                    }
                    assert(node_at(old(self)@, at@) == es[i as int].1);
                    assert(self@ =~= set_val(old(self)@, at@, v@));
                }
            },
            None => {
                proof {
                    lemma_assoc_map_absent(es, at@);
                }
                let mut node = HashValue::new();
                node.push_val(v);
                let ghost n2 = node@;
                let owned: String = at.to_owned();
                self.value.push((owned, node));
                proof {
                    assert(entries_view(self.value@) =~= es.push((at@, n2)));
                    assert(entries_view(self.value@).drop_last() =~= es);
                    assert(unique_keys(entries_view(self.value@))) by {
                        assert(forall|a: int|
                            0 <= a < es.len() ==> (#[trigger] entries_view(self.value@)[a]).0
                                == es[a].0);
                    }
                    assert(self@ =~= set_val(old(self)@, at@, v@));
                }
            },
        }
    }

    /// The association list the store holds, as key/node views.
    pub closed spec fn entries(&self) -> Seq<(Seq<char>, NodeV)> {
        entries_view(self.value@)
    }

    /// How many entries the store holds.
    pub fn entry_count(&self) -> (r: usize)
        ensures
            r == self.entries().len(),
    {
        self.value.len()
    }

    /// The key and scalar of one entry.
    pub fn entry_kv(&self, i: usize) -> (r: (String, Option<ConfigValue>))
        requires
            i < self.entries().len(),
        ensures
            r.0@ == self.entries()[i as int].0,
            match r.1 {
                Some(v) => self.entries()[i as int].1.val == Some(v@),
                None => self.entries()[i as int].1.val is None,
            },
    {
        let k = self.value[i].0.clone();
        let v = match &self.value[i].1.value {
            Some(cv) => Some(cv.duplicate()),
            None => None,
        };
        (k, v)
    }

    /// Start a builder that populates this store from the root.
    pub fn prefixed(self) -> (r: ConfigSourceBuilder)
        ensures
            r.wf() == self.wf(),
            r.source_view() == self@,
            r.source_name() == self.name_view(),
            r.prefixes() == Seq::<Seq<char>>::empty(),
            r.cur_key() == Seq::<char>::empty(),
            r.count_view() == 0,
    {
        let r = ConfigSourceBuilder { key: Vec::new(), source: self, count: 0 };
        proof {
            assert(r.prefixes() =~= Seq::<Seq<char>>::empty());
        }
        r
    }

    /// Set one key to a value (first write to a key wins).
    pub fn set(self, k: &str, v: ConfigValue) -> (r: HashSource)
        requires
            self.wf(),
        ensures
            r.wf(),
            r@ == store_set(self@, Seq::empty(), k@, v@),
            r.name_view() == self.name_view(),
    {
        let mut b = self.prefixed();
        b.set(k, v);
        b.finish()
    }
}

proof fn lemma_reg_path_snoc(m: Map<Seq<char>, NodeV>, cur: Seq<char>, sgs: Seq<Seg>, g: Seg)
    ensures
        reg_path(m, cur, sgs.push(g)) == ({
            let p = reg_path(m, cur, sgs);
            (reg_child(p.0, p.1, g), render_seg(p.1, g))
        }),
    decreases sgs.len(),
{
    if sgs.len() == 0 {
        assert(sgs.push(g)[0] == g);
        assert(sgs.push(g).drop_first() =~= Seq::<Seg>::empty());
        assert(reg_path(m, cur, sgs.push(g)) == reg_path(
            reg_child(m, cur, g),
            render_seg(cur, g),
            Seq::<Seg>::empty(),
        ));
        assert(reg_path(m, cur, sgs) == (m, cur));
    } else {
        assert(sgs.push(g)[0] == sgs[0]);
        assert(sgs.push(g).drop_first() =~= sgs.drop_first().push(g));
        lemma_reg_path_snoc(reg_child(m, cur, sgs[0]), render_seg(cur, sgs[0]), sgs.drop_first(), g);
        assert(reg_path(m, cur, sgs.push(g)) == reg_path(
            reg_child(m, cur, sgs[0]),
            render_seg(cur, sgs[0]),
            sgs.drop_first().push(g),
        ));
        assert(reg_path(m, cur, sgs) == reg_path(
            reg_child(m, cur, sgs[0]),
            render_seg(cur, sgs[0]),
            sgs.drop_first(),
        ));
    }
}

/// Config source builder: a cursor into the store that sources use to
/// register keys and insert scalars while they load.
#[derive(Debug)]
pub struct ConfigSourceBuilder {
    key: Vec<String>,
    source: HashSource,
    count: usize,
}

impl ConfigSourceBuilder {
    /// The store being populated.
    pub closed spec fn source_view(&self) -> Map<Seq<char>, NodeV> {
        self.source@
    }

    pub closed spec fn source_name(&self) -> Seq<char> {
        self.source.name_view()
    }

    /// The stack of canonical key prefixes pushed so far.
    pub closed spec fn prefixes(&self) -> Seq<Seq<char>> {
        self.key.deep_view()
    }

    /// The canonical key the cursor stands on.
    pub open spec fn cur_key(&self) -> Seq<char> {
        if self.prefixes().len() == 0 {
            Seq::empty()
        } else {
            self.prefixes().last()
        }
    }

    pub closed spec fn wf(&self) -> bool {
        self.source.wf()
    }

    /// How many scalars have been inserted through this builder.
    pub closed spec fn count_view(&self) -> usize {
        self.count
    }

    /// How many scalars have been inserted through this builder.
    pub fn count(&self) -> (r: usize)
        ensures
            r == self.count_view(),
    {
        self.count
    }

    /// The canonical key the cursor stands on.
    pub fn curr(&self) -> (r: String)
        ensures
            r@ == self.cur_key(),
    {
        if self.key.len() > 0 {
            self.key[self.key.len() - 1].clone()
        } else {
            String::new()
        }
    }

    /// Advance the cursor along a raw (sub-)key, registering each segment
    /// crossed as a child of the node it starts from.
    pub fn push(&mut self, raw: &str)
        requires
            old(self).wf(),
        ensures
            final(self).wf(),
            final(self).source_view() == reg_path(
                old(self).source_view(),
                old(self).cur_key(),
                segs(raw@),
            ).0,
            final(self).prefixes() == old(self).prefixes().push(
                render_segs(old(self).cur_key(), segs(raw@)),
            ),
            final(self).count_view() == old(self).count_view(),
            final(self).source_name() == old(self).source_name(),
    {
        let segs_v = split_segments(raw);
        let ghost all = segs(raw@);
        let ghost m0 = self.source@;
        let ghost cur0 = self.cur_key();
        let cur_s = self.curr();
        let mut cs: Vec<char> = str_chars(cur_s.as_str());
        let mut j: usize = 0;
        proof {
            assert(all.subrange(0, 0) =~= Seq::<Seg>::empty());
        }
        while j < segs_v.len()
            invariant
                j <= segs_v.len(),
                segs_v.deep_view() == all,
                self.source.wf(),
                self.source@ == reg_path(m0, cur0, all.subrange(0, j as int)).0,
                cs@ == reg_path(m0, cur0, all.subrange(0, j as int)).1,
                self.key@ == old(self).key@,
                self.count == old(self).count,
                self.source.name_view() == old(self).source_name(),
                m0 == old(self).source_view(),
                cur0 == old(self).cur_key(),
            decreases segs_v.len() - j,
        {
            let pk = &segs_v[j];
            assert(pk@ == all[j as int]);
            let parent = chars_to_string(&cs);
            self.source.node_push_key(parent.as_str(), pk);
            pk.update_string(&mut cs);
            proof {
                lemma_reg_path_snoc(m0, cur0, all.subrange(0, j as int), all[j as int]);
                assert(all.subrange(0, j + 1) =~= all.subrange(0, j as int).push(all[j as int]));
            }
            j += 1;
        }
        proof {
            assert(all.subrange(0, segs_v.len() as int) =~= all);
            crate::key::lemma_segs_wf(raw@);
            lemma_reg_path_key(m0, cur0, all);
        }
        let new_key = chars_to_string(&cs);
        self.key.push(new_key);
        proof {
            assert(self.prefixes() =~= old(self).prefixes().push(render_segs(cur0, all)));
        }
    }

    /// Advance the cursor by one index segment.
    pub fn push_index(&mut self, idx: usize)
        requires
            old(self).wf(),
        ensures
            final(self).wf(),
            final(self).source_view() == reg_child(
                old(self).source_view(),
                old(self).cur_key(),
                Seg::Index(idx as nat),
            ),
            final(self).prefixes() == old(self).prefixes().push(
                render_seg(old(self).cur_key(), Seg::Index(idx as nat)),
            ),
            final(self).count_view() == old(self).count_view(),
            final(self).source_name() == old(self).source_name(),
    {
        let pk = PartialKey::Int(idx);
        let cur_s = self.curr();
        let mut cs: Vec<char> = str_chars(cur_s.as_str());
        self.source.node_push_key(cur_s.as_str(), &pk);
        pk.update_string(&mut cs);
        let new_key = chars_to_string(&cs);
        self.key.push(new_key);
        proof {
            assert(self.prefixes() =~= old(self).prefixes().push(
                render_seg(old(self).cur_key(), Seg::Index(idx as nat)),
            ));
        }
    }

    /// Retract the cursor to where it stood before the matching `push`.
    pub fn pop(&mut self)
        ensures
            final(self).source_view() == old(self).source_view(),
            final(self).prefixes() == if old(self).prefixes().len() == 0 {
                old(self).prefixes()
            } else {
                old(self).prefixes().drop_last()
            },
            final(self).wf() == old(self).wf(),
            final(self).count_view() == old(self).count_view(),
            final(self).source_name() == old(self).source_name(),
    {
        let popped = self.key.pop();
        proof {
            if old(self).prefixes().len() > 0 {
                assert(self.prefixes() =~= old(self).prefixes().drop_last());
            } else {
                assert(self.prefixes() =~= old(self).prefixes());
            }
        }
    }

    /// Insert a scalar at the cursor, only where none is set yet
    /// (first wins).
    pub fn insert(&mut self, value: ConfigValue)
        requires
            old(self).wf(),
        ensures
            final(self).wf(),
            final(self).source_view() == set_val(
                old(self).source_view(),
                old(self).cur_key(),
                value@,
            ),
            final(self).prefixes() == old(self).prefixes(),
            final(self).count_view() == if old(self).count_view() == usize::MAX {
                usize::MAX
            } else {
                (old(self).count_view() + 1) as usize
            },
            final(self).source_name() == old(self).source_name(),
    {
        let cur_s = self.curr();
        self.source.node_push_val(cur_s.as_str(), value);
        if self.count < usize::MAX {
            self.count = self.count + 1;
        }
    }

    /// Set one key to a value: push, insert, pop.
    pub fn set(&mut self, k: &str, v: ConfigValue)
        requires
            old(self).wf(),
        ensures
            final(self).wf(),
            final(self).source_view() == store_set(
                old(self).source_view(),
                old(self).cur_key(),
                k@,
                v@,
            ),
            final(self).prefixes() == old(self).prefixes(),
            final(self).count_view() == if old(self).count_view() == usize::MAX {
                usize::MAX
            } else {
                (old(self).count_view() + 1) as usize
            },
            final(self).source_name() == old(self).source_name(),
    {
        self.push(k);
        self.insert(v);
        self.pop();
        proof {
            assert(old(self).prefixes().push(render_segs(old(self).cur_key(), segs(k@))).drop_last()
                =~= old(self).prefixes());
            crate::key::lemma_segs_wf(k@);
            lemma_reg_path_key(old(self).source_view(), old(self).cur_key(), segs(k@));
        }
    }

    /// Hand the populated store back.
    pub fn finish(self) -> (r: HashSource)
        ensures
            r.wf() == self.wf(),
            r@ == self.source_view(),
            r.name_view() == self.source_name(),
    {
        self.source
    }
}

// ---------------------------------------------------------------------------
// Store-update lemmas
// ---------------------------------------------------------------------------

/// Node ordering: one node knows at most what the other knows.
pub open spec fn node_le(a: NodeV, b: NodeV) -> bool {
    &&& forall|t: Seq<char>| a.subs.contains(t) ==> b.subs.contains(t)
    &&& match a.subi {
        Some(i) => b.subi matches Some(j) && j >= i,
        None => true,
    }
    &&& (a.val is Some ==> b.val == a.val)
}

/// Store ordering: scalars are never overwritten and children never vanish.
pub open spec fn store_le(m1: Map<Seq<char>, NodeV>, m2: Map<Seq<char>, NodeV>) -> bool {
    forall|k: Seq<char>| node_le(#[trigger] node_at(m1, k), node_at(m2, k))
}

/// Registering a child keeps every scalar exactly as it was.
pub proof fn lemma_reg_child_vals(m: Map<Seq<char>, NodeV>, p: Seq<char>, g: Seg)
    requires
        crate::key::wf_seg(g),
    ensures
        forall|k: Seq<char>| val_at(#[trigger] reg_child(m, p, g), k) == val_at(m, k),
        store_le(m, reg_child(m, p, g)),
{
    assert forall|k: Seq<char>| node_le(#[trigger] node_at(m, k), node_at(reg_child(m, p, g), k)) by {
        if k == p {
            let n = node_at(m, p);
            let n2 = node_at(reg_child(m, p, g), p);
            match g {
                Seg::Name(t) => {
                    assert forall|u: Seq<char>| n.subs.contains(u) implies n2.subs.contains(u) by {
                        let w = choose|w: int| 0 <= w < n.subs.len() && #[trigger] n.subs[w] == u;
                        assert(n2.subs[w] == u);
                    }
                },
                Seg::Index(_) => {
                },
            }
        }
    }
}

/// Walking a path keeps every scalar exactly as it was.
pub proof fn lemma_reg_path_vals(m: Map<Seq<char>, NodeV>, cur: Seq<char>, sgs: Seq<Seg>)
    requires
        crate::key::wf_segs(sgs),
    ensures
        forall|k: Seq<char>| val_at(#[trigger] reg_path(m, cur, sgs).0, k) == val_at(m, k),
        store_le(m, reg_path(m, cur, sgs).0),
    decreases sgs.len(),
{
    if sgs.len() > 0 {
        assert(crate::key::wf_seg(sgs[0]));
        assert(crate::key::wf_segs(sgs.drop_first())) by {
            assert(forall|i: int|
                0 <= i < sgs.drop_first().len() ==> #[trigger] sgs.drop_first()[i] == sgs[i + 1]);
        }
        lemma_reg_child_vals(m, cur, sgs[0]);
        lemma_reg_path_vals(reg_child(m, cur, sgs[0]), render_seg(cur, sgs[0]), sgs.drop_first());
        let m1 = reg_child(m, cur, sgs[0]);
        let m2 = reg_path(m1, render_seg(cur, sgs[0]), sgs.drop_first()).0;
        assert forall|k: Seq<char>| node_le(#[trigger] node_at(m, k), node_at(m2, k)) by {
            assert(node_le(node_at(m, k), node_at(m1, k)));
            assert(node_le(node_at(m1, k), node_at(m2, k)));
        }
    }
}

/// The key a path walk ends on is the canonical rendering of the segments.
pub proof fn lemma_reg_path_key(m: Map<Seq<char>, NodeV>, cur: Seq<char>, sgs: Seq<Seg>)
    ensures
        reg_path(m, cur, sgs).1 == render_segs(cur, sgs),
    decreases sgs.len(),
{
    if sgs.len() > 0 {
        lemma_reg_path_key(reg_child(m, cur, sgs[0]), render_seg(cur, sgs[0]), sgs.drop_first());
    }
}

/// Setting a scalar touches no other key, and an existing scalar wins.
pub proof fn lemma_set_val(m: Map<Seq<char>, NodeV>, k: Seq<char>, v: Val)
    ensures
        forall|k2: Seq<char>|
            k2 != k ==> node_at(#[trigger] set_val(m, k, v), k2) == node_at(m, k2),
        node_at(set_val(m, k, v), k) == (NodeV {
            val: match node_at(m, k).val {
                Some(w) => Some(w),
                None => Some(v),
            },
            ..node_at(m, k)
        }),
        store_le(m, set_val(m, k, v)),
{
}

/// Walking a path, then setting: the whole of one `set` call.
pub proof fn lemma_store_set(m: Map<Seq<char>, NodeV>, cur: Seq<char>, raw: Seq<char>, v: Val)
    ensures
        val_at(store_set(m, cur, raw, v), render_segs(cur, segs(raw))) == (match val_at(
            m,
            render_segs(cur, segs(raw)),
        ) {
            Some(w) => Some(w),
            None => Some(v),
        }),
        forall|k2: Seq<char>|
            k2 != render_segs(cur, segs(raw)) ==> val_at(#[trigger] store_set(m, cur, raw, v), k2)
                == val_at(m, k2),
        store_le(m, store_set(m, cur, raw, v)),
{
    let sgs = segs(raw);
    crate::key::lemma_segs_wf(raw);
    let m2 = reg_path(m, cur, sgs).0;
    let kk = reg_path(m, cur, sgs).1;
    lemma_reg_path_key(m, cur, sgs);
    lemma_reg_path_vals(m, cur, sgs);
    lemma_set_val(m2, kk, v);
    assert forall|k: Seq<char>|
        node_le(#[trigger] node_at(m, k), node_at(store_set(m, cur, raw, v), k)) by {
        assert(node_le(node_at(m, k), node_at(m2, k)));
        assert(node_le(node_at(m2, k), node_at(set_val(m2, kk, v), k)));
    }
}

/// Layering priority: when two sources set a scalar at the same key, in
/// registration order, the first one's value is the one the store returns,
/// and scalars at every other key are untouched by either write.
pub proof fn lemma_layering_first_wins(m: Map<Seq<char>, NodeV>, raw: Seq<char>, v1: Val, v2: Val)
    requires
        val_at(m, normalize(raw)) is None,
    ensures
        ({
            let m1 = store_set(m, Seq::empty(), raw, v1);
            let m2 = store_set(m1, Seq::empty(), raw, v2);
            &&& val_at(m1, normalize(raw)) == Some(v1)
            &&& val_at(m2, normalize(raw)) == Some(v1)
            &&& forall|k: Seq<char>|
                k != normalize(raw) ==> #[trigger] val_at(m2, k) == val_at(m, k)
        }),
{
    let m1 = store_set(m, Seq::empty(), raw, v1);
    let m2 = store_set(m1, Seq::empty(), raw, v2);
    lemma_store_set(m, Seq::empty(), raw, v1);
    lemma_store_set(m1, Seq::empty(), raw, v2);
}

/// Does the node know this segment as a child?
pub open spec fn child_known(n: NodeV, g: Seg) -> bool {
    match g {
        Seg::Name(t) => n.subs.contains(t),
        Seg::Index(i) => n.subi matches Some(u) && u as nat >= i,
    }
}

proof fn lemma_node_le_child(a: NodeV, b: NodeV, g: Seg)
    requires
        node_le(a, b),
        child_known(a, g),
    ensures
        child_known(b, g),
{
}

proof fn lemma_reg_child_registers(m: Map<Seq<char>, NodeV>, p: Seq<char>, g: Seg)
    requires
        crate::key::wf_seg(g),
    ensures
        child_known(node_at(reg_child(m, p, g), p), g),
{
    match g {
        Seg::Name(t) => {
            let n = node_at(m, p);
            if n.subs.contains(t) {
            } else {
                assert(node_at(reg_child(m, p, g), p).subs.last() == t);
            }
        },
        Seg::Index(_) => {
        },
    }
}

proof fn lemma_reg_path_children(m: Map<Seq<char>, NodeV>, cur: Seq<char>, sgs: Seq<Seg>)
    requires
        crate::key::wf_segs(sgs),
    ensures
        forall|j: int|
            0 <= j < sgs.len() ==> child_known(
                #[trigger] node_at(
                    reg_path(m, cur, sgs).0,
                    render_segs(cur, sgs.subrange(0, j)),
                ),
                sgs[j],
            ),
    decreases sgs.len(),
{
    if sgs.len() > 0 {
        let g0 = sgs[0];
        let m1 = reg_child(m, cur, g0);
        let cur1 = render_seg(cur, g0);
        let rest = sgs.drop_first();
        assert(crate::key::wf_seg(g0));
        assert(crate::key::wf_segs(rest)) by {
            assert(forall|i: int| 0 <= i < rest.len() ==> #[trigger] rest[i] == sgs[i + 1]);
        }
        lemma_reg_child_registers(m, cur, g0);
        lemma_reg_path_vals(m1, cur1, rest);
        lemma_reg_path_children(m1, cur1, rest);
        assert forall|j: int| 0 <= j < sgs.len() implies child_known(
            node_at(reg_path(m, cur, sgs).0, render_segs(cur, sgs.subrange(0, j))),
            sgs[j],
        ) by {
            if j == 0 {
                assert(sgs.subrange(0, 0) =~= Seq::<Seg>::empty());
                assert(render_segs(cur, sgs.subrange(0, 0)) == cur);
                assert(node_le(
                    node_at(m1, cur),
                    node_at(reg_path(m1, cur1, rest).0, cur),
                ));
                lemma_node_le_child(
                    node_at(m1, cur),
                    node_at(reg_path(m1, cur1, rest).0, cur),
                    g0,
                );
            } else {
                assert(rest.subrange(0, j - 1) =~= sgs.subrange(1, j));
                assert(sgs.subrange(0, j)[0] == g0);
                assert(sgs.subrange(0, j).drop_first() =~= sgs.subrange(1, j));
                assert(render_segs(cur, sgs.subrange(0, j)) == render_segs(
                    cur1,
                    rest.subrange(0, j - 1),
                ));
                assert(rest[j - 1] == sgs[j]);
            }
        }
    }
}

/// Setting a key makes every segment of its path a known child of the node
/// the segment starts from: the enumeration of array slots and map keys
/// sees each one.
pub proof fn lemma_store_set_children(
    m: Map<Seq<char>, NodeV>,
    cur: Seq<char>,
    raw: Seq<char>,
    v: Val,
)
    ensures
        forall|j: int|
            0 <= j < segs(raw).len() ==> child_known(
                #[trigger] node_at(
                    store_set(m, cur, raw, v),
                    render_segs(cur, segs(raw).subrange(0, j)),
                ),
                segs(raw)[j],
            ),
{
    let sgs = segs(raw);
    crate::key::lemma_segs_wf(raw);
    lemma_reg_path_children(m, cur, sgs);
    let m2 = reg_path(m, cur, sgs).0;
    let kk = reg_path(m, cur, sgs).1;
    lemma_set_val(m2, kk, v);
    assert forall|j: int| 0 <= j < sgs.len() implies child_known(
        node_at(store_set(m, cur, raw, v), render_segs(cur, sgs.subrange(0, j))),
        sgs[j],
    ) by {
        let at = render_segs(cur, sgs.subrange(0, j));
        assert(child_known(node_at(m2, at), sgs[j]));
        assert(node_le(node_at(m2, at), node_at(set_val(m2, kk, v), at)));
        lemma_node_le_child(node_at(m2, at), node_at(set_val(m2, kk, v), at), sgs[j]);
    }
}

/// A store knows at least what it knows.
pub proof fn lemma_store_le_refl(m: Map<Seq<char>, NodeV>)
    ensures
        store_le(m, m),
{
    assert forall|k: Seq<char>| node_le(#[trigger] node_at(m, k), node_at(m, k)) by {
        let n = node_at(m, k);
        assert(forall|t: Seq<char>| n.subs.contains(t) ==> n.subs.contains(t));
    }
}

/// Store growth is transitive.
pub proof fn lemma_store_le_trans(
    a: Map<Seq<char>, NodeV>,
    b: Map<Seq<char>, NodeV>,
    c: Map<Seq<char>, NodeV>,
)
    requires
        store_le(a, b),
        store_le(b, c),
    ensures
        store_le(a, c),
{
    assert forall|k: Seq<char>| node_le(#[trigger] node_at(a, k), node_at(c, k)) by {
        assert(node_le(node_at(a, k), node_at(b, k)));
        assert(node_le(node_at(b, k), node_at(c, k)));
    }
}

/// Merging never loses what an earlier source put in the store: later writes
/// only add children or fill scalars that were absent.
pub proof fn lemma_store_set_monotone(
    m: Map<Seq<char>, NodeV>,
    cur: Seq<char>,
    raw: Seq<char>,
    v: Val,
)
    ensures
        store_le(m, store_set(m, cur, raw, v)),
{
    lemma_store_set(m, cur, raw, v);
}

} // verus!
