//! Placeholder resolution.
//!
//! A string value may embed `${key}` expressions: the key is looked up in the
//! store and the expression is replaced by the resolved value; `${key:default}`
//! falls back to the literal default when the key is absent; expressions
//! nest (`${${a}}`); `\c` escapes any character `c`; a key currently being
//! resolved may not be referenced again in its own chain (cycle detection).
//!
//! The scanner walks the value once, keeping an output buffer and a stack of
//! expression start offsets into that buffer; closing braces resolve the
//! innermost open expression in place.

use vstd::prelude::*;

use crate::err::ConfigError;
use crate::key::{chars_to_string, normalize, str_chars, CacheKey};
use crate::memory::{val_at, HashSource, NodeV};
use crate::value::{int_chars, render_i64, str_eq, ConfigValue, Val};

verus! {

/// The characters that begin or end placeholder syntax.
pub open spec fn special(c: char) -> bool {
    c == '$' || c == '\\' || c == '}'
}

pub open spec fn has_special(s: Seq<char>) -> bool {
    exists|i: int| 0 <= i < s.len() && special(#[trigger] s[i])
}

pub open spec fn bool_chars(b: bool) -> Seq<char> {
    if b {
        seq!['t', 'r', 'u', 'e']
    } else {
        seq!['f', 'a', 'l', 's', 'e']
    }
}

/// The text a non-string scalar contributes when a placeholder names it.
pub open spec fn scalar_chars(v: Val) -> Seq<char> {
    match v {
        Val::Str(s) => s,
        Val::Int(x) => int_chars(x as int),
        Val::Bool(b) => bool_chars(b),
        Val::Rand(_) => Seq::empty(),
    }
}

/// No random markers anywhere in the store: resolution is then a function.
pub open spec fn no_rand(m: Map<Seq<char>, NodeV>) -> bool {
    forall|k: Seq<char>| !(#[trigger] val_at(m, k) matches Some(Val::Rand(_)))
}

/// Position of the first `:` in `s` at or after `i`.
pub open spec fn first_colon(s: Seq<char>, i: int) -> Option<int>
    decreases s.len() - i,
    when 0 <= i
{
    if i >= s.len() {
        None
    } else if s[i] == ':' {
        Some(i)
    } else {
        first_colon(s, i + 1)
    }
}

/// How a resolution fails.
#[allow(missing_debug_implementations)]
pub ghost enum ResolveErr {
    /// Malformed placeholder syntax: the key under resolution and its whole
    /// raw value.
    Parse(Seq<char>, Seq<char>),
    /// A key reappeared in its own resolution chain: names the key the whole
    /// chain was resolved for.
    Cycle(Seq<char>),
    /// A placeholder named an absent key and carried no default: the inner
    /// key, in canonical form.
    Missing(Seq<char>),
}

/// The outcome of scanning one raw value.
#[allow(missing_debug_implementations)]
pub ghost enum ScanResult {
    Done(Seq<char>),
    Fail(ResolveErr),
}

/// The outcome of preparing a value for conversion: the value handed over,
/// or the expansion failure that precedes conversion.
#[allow(missing_debug_implementations)]
pub ghost enum Prepared {
    Handed(Option<crate::value::Val>),
    Failed(ResolveErr),
}

/// How many store keys are still free to enter the resolution chain.
pub open spec fn resolve_measure(m: Map<Seq<char>, NodeV>, hist: Set<Seq<char>>) -> nat {
    m.dom().difference(hist).len()
}

/// One step at a time, what the placeholder scanner computes.
///
/// `m` is the store, `hist` the set of canonical keys currently in flight,
/// `root` the key the whole resolution chain was started for (cycle errors
/// name it), `cur` the canonical key whose raw value `orig` is being
/// scanned (parse errors name it), `i` the position reached, `buf` the
/// output so far, `stack` the expression start offsets into `buf`.
pub open spec fn scan(
    m: Map<Seq<char>, NodeV>,
    hist: Set<Seq<char>>,
    root: Seq<char>,
    cur: Seq<char>,
    orig: Seq<char>,
    i: int,
    buf: Seq<char>,
    stack: Seq<int>,
) -> ScanResult
    decreases resolve_measure(m, hist), orig.len() - i,
    when m.dom().finite() && 0 <= i
    via scan_decreases
{
    if i >= orig.len() {
        if stack.len() == 0 {
            ScanResult::Done(buf)
        } else {
            ScanResult::Fail(ResolveErr::Parse(cur, orig))
        }
    } else {
        let c = orig[i];
        if c == '\\' {
            if i + 1 < orig.len() {
                scan(m, hist, root, cur, orig, i + 2, buf.push(orig[i + 1]), stack)
            } else {
                ScanResult::Fail(ResolveErr::Parse(cur, orig))
            }
        } else if c == '$' {
            if i + 1 < orig.len() && orig[i + 1] == '{' {
                scan(m, hist, root, cur, orig, i + 2, buf, stack.push(buf.len() as int))
            } else {
                ScanResult::Fail(ResolveErr::Parse(cur, orig))
            }
        } else if c == '}' {
            if stack.len() == 0 {
                ScanResult::Fail(ResolveErr::Parse(cur, orig))
            } else {
                let last = stack.last();
                if 0 <= last <= buf.len() {
                    let body = buf.subrange(last, buf.len() as int);
                    let rawk = match first_colon(body, 0) {
                        Some(p) => body.subrange(0, p),
                        None => body,
                    };
                    let defo = match first_colon(body, 0) {
                        Some(p) => Some(body.subrange(p + 1, body.len() as int)),
                        None => None,
                    };
                    let kn = normalize(rawk);
                    if hist.contains(kn) {
                        ScanResult::Fail(ResolveErr::Cycle(root))
                    } else {
                        match val_at(m, kn) {
                            None => match defo {
                                Some(d) => scan(
                                    m,
                                    hist,
                                    root,
                                    cur,
                                    orig,
                                    i + 1,
                                    buf.subrange(0, last) + d,
                                    stack.drop_last(),
                                ),
                                None => ScanResult::Fail(ResolveErr::Missing(kn)),
                            },
                            Some(v) => {
                                let inner = match v {
                                    Val::Str(s) => scan(
                                        m,
                                        hist.insert(kn),
                                        root,
                                        kn,
                                        s,
                                        0,
                                        Seq::empty(),
                                        Seq::empty(),
                                    ),
                                    _ => ScanResult::Done(scalar_chars(v)),
                                };
                                match inner {
                                    ScanResult::Fail(e) => ScanResult::Fail(e),
                                    ScanResult::Done(out) => scan(
                                        m,
                                        hist,
                                        root,
                                        cur,
                                        orig,
                                        i + 1,
                                        buf.subrange(0, last) + out,
                                        stack.drop_last(),
                                    ),
                                }
                            },
                        }
                    }
                } else {
                    ScanResult::Fail(ResolveErr::Parse(cur, orig))
                }
            }
        } else {
            scan(m, hist, root, cur, orig, i + 1, buf.push(c), stack)
        }
    }
}

#[via_fn]
proof fn scan_decreases(
    m: Map<Seq<char>, NodeV>,
    hist: Set<Seq<char>>,
    root: Seq<char>,
    cur: Seq<char>,
    orig: Seq<char>,
    i: int,
    buf: Seq<char>,
    stack: Seq<int>,
) {
    if 0 <= i < orig.len() {
        let c = orig[i];
        if c == '}' && stack.len() > 0 {
            let last = stack.last();
            if 0 <= last <= buf.len() {
                let body = buf.subrange(last, buf.len() as int);
                let rawk = match first_colon(body, 0) {
                    Some(p) => body.subrange(0, p),
                    None => body,
                };
                let kn = normalize(rawk);
                if !hist.contains(kn) {
                    match val_at(m, kn) {
                        Some(v) => {
                            assert(m.dom().contains(kn));
                            m.dom().lemma_set_insert_diff_decreases(hist, kn);
                        },
                        None => {},
                    }
                }
            }
        }
    }
}

/// What resolving the raw string value of the key `cur` yields, in a chain
/// rooted at `root`.
pub open spec fn resolve_spec(
    m: Map<Seq<char>, NodeV>,
    hist: Set<Seq<char>>,
    root: Seq<char>,
    cur: Seq<char>,
    value: Seq<char>,
) -> ScanResult {
    scan(m, hist, root, cur, value, 0, Seq::empty(), Seq::empty())
}

proof fn lemma_scan_plain(
    m: Map<Seq<char>, NodeV>,
    hist: Set<Seq<char>>,
    root: Seq<char>,
    cur: Seq<char>,
    orig: Seq<char>,
    i: int,
    buf: Seq<char>,
)
    requires
        m.dom().finite(),
        0 <= i <= orig.len(),
        forall|j: int| i <= j < orig.len() ==> !special(#[trigger] orig[j]),
    ensures
        scan(m, hist, root, cur, orig, i, buf, Seq::empty()) == ScanResult::Done(
            buf + orig.subrange(i, orig.len() as int),
        ),
    decreases orig.len() - i,
{
    if i >= orig.len() {
        assert(buf + orig.subrange(i, orig.len() as int) =~= buf);
    } else {
        let c = orig[i];
        assert(!special(c));
        lemma_scan_plain(m, hist, root, cur, orig, i + 1, buf.push(c));
        assert(buf.push(c) + orig.subrange(i + 1, orig.len() as int) =~= buf + orig.subrange(
            i,
            orig.len() as int,
        ));
    }
}

// ---------------------------------------------------------------------------
// The executable scanner
// ---------------------------------------------------------------------------

/// The set of keys a history list holds.
pub open spec fn hist_set(h: Seq<Seq<char>>) -> Set<Seq<char>> {
    Set::new(|x: Seq<char>| h.contains(x))
}

pub open spec fn stack_ints(s: Seq<usize>) -> Seq<int> {
    s.map_values(|u: usize| u as int)
}

/// Does the exec error carry exactly what the spec failure names?
pub open spec fn err_matches(ce: ConfigError, e: ResolveErr) -> bool {
    match e {
        ResolveErr::Parse(k, v) => ce matches ConfigError::ConfigParseError(a, b) && a@ == k && b@
            == v,
        ResolveErr::Cycle(k) => ce matches ConfigError::ConfigRecursiveError(a) && a@ == k,
        ResolveErr::Missing(k) => ce matches ConfigError::ConfigRecursiveNotFound(a) && a@ == k,
    }
}

/// Pushing a key onto the history inserts it into the key set.
proof fn lemma_hist_push(h: Seq<Seq<char>>, x: Seq<char>)
    ensures
        hist_set(h.push(x)) == hist_set(h).insert(x),
{
    assert forall|y: Seq<char>|
        hist_set(h.push(x)).contains(y) == hist_set(h).insert(x).contains(y) by {
        if h.push(x).contains(y) {
            let w = choose|w: int| 0 <= w < h.push(x).len() && #[trigger] h.push(x)[w] == y;
            if w < h.len() {
                assert(h[w] == y);
            }
        }
        if h.contains(y) {
            let w = choose|w: int| 0 <= w < h.len() && #[trigger] h[w] == y;
            assert(h.push(x)[w] == y);
        }
        if y == x {
            assert(h.push(x)[h.len() as int] == y);
        }
    }
    assert(hist_set(h.push(x)) =~= hist_set(h).insert(x));
}

/// Where the first colon is, it is a colon, lies in range, and none comes
/// before it.
proof fn lemma_first_colon(s: Seq<char>, i: int)
    requires
        0 <= i,
    ensures
        match first_colon(s, i) {
            Some(p) => i <= p < s.len() && s[p] == ':',
            None => true,
        },
    decreases s.len() - i,
{
    if i < s.len() && s[i] != ':' {
        lemma_first_colon(s, i + 1);
    }
}

/// A copy of the elements between two positions.
fn vec_range(v: &Vec<char>, a: usize, b: usize) -> (r: Vec<char>)
    requires
        a <= b <= v@.len(),
    ensures
        r@ == v@.subrange(a as int, b as int),
{
    let mut r: Vec<char> = Vec::new();
    let mut i: usize = a;
    while i < b
        invariant
            a <= i <= b <= v@.len(),
            r@ == v@.subrange(a as int, i as int),
        decreases b - i,
    {
        r.push(v[i]);
        assert(r@ =~= v@.subrange(a as int, i + 1));
        i += 1;
    }
    r
}

/// The position of the first `:`, if any.
fn find_colon_vec(v: &Vec<char>) -> (r: Option<usize>)
    ensures
        match r {
            Some(p) => first_colon(v@, 0) == Some(p as int),
            None => first_colon(v@, 0) is None,
        },
{
    let mut i: usize = 0;
    while i < v.len()
        invariant
            i <= v@.len(),
            first_colon(v@, 0) == first_colon(v@, i as int),
        decreases v@.len() - i,
    {
        if v[i] == ':' {
            return Some(i);
        }
        i += 1;
    }
    None
}

/// Does the history hold this canonical key?
fn hist_contains(h: &Vec<String>, s: &str) -> (r: bool)
    ensures
        r == hist_set(h.deep_view()).contains(s@),
{
    let mut i: usize = 0;
    while i < h.len()
        invariant
            i <= h@.len(),
            forall|k: int| 0 <= k < i ==> #[trigger] h@[k]@ != s@,
        decreases h@.len() - i,
    {
        if str_eq(h[i].as_str(), s) {
            assert(h.deep_view()[i as int] == s@);
            assert(h.deep_view().contains(s@));
            return true;
        }
        i += 1;
    }
    proof {
        if h.deep_view().contains(s@) {
            let k = choose|k: int|
                0 <= k < h.deep_view().len() && #[trigger] h.deep_view()[k] == s@;
            assert(h@[k]@ == s@);
        }
    }
    false
}

/// Expand every placeholder expression in the raw string `val`, which is the
/// value of the key `current_key`, in a resolution chain started for
/// `root_key` (a cycle error names the root); `history` holds the canonical
/// keys whose resolution is in flight, for cycle detection, and is left as
/// it was found.
///
/// Where the store holds no random markers the outcome is exactly what the
/// scanner specification `resolve_spec` yields; a drawn random value takes a
/// marker's place otherwise.
pub fn parse_placeholder(
    source: &HashSource,
    root_key: &str,
    current_key: &str,
    val: &str,
    history: &mut Vec<String>,
) -> (r: Result<String, ConfigError>)
    requires
        source.wf(),
    ensures
        final(history).deep_view() == old(history).deep_view(),
        no_rand(source@) ==> (match resolve_spec(
            source@,
            hist_set(old(history).deep_view()),
            root_key@,
            current_key@,
            val@,
        ) {
            ScanResult::Done(out) => r matches Ok(s) && s@ == out,
            ScanResult::Fail(e) => r matches Err(ce) && err_matches(ce, e),
        }),
    decreases resolve_measure(source@, hist_set(old(history).deep_view())),
{
    let ghost m = source@;
    let ghost h0 = hist_set(old(history).deep_view());
    let ghost root = root_key@;
    let ghost cur = current_key@;
    proof {
        source.lemma_dom_finite();
    }
    let cs = str_chars(val);
    let mut buf: Vec<char> = Vec::new();
    let mut stack: Vec<usize> = Vec::new();
    let mut flag = true;
    let mut i: usize = 0;
    proof {
        assert(stack_ints(stack@) =~= Seq::<int>::empty());
        assert(buf@ =~= val@.subrange(0, 0));
    }
    while i < cs.len()
        invariant
            i <= cs@.len(),
            cs@ == val@,
            source.wf(),
            m == source@,
            m.dom().finite(),
            cur == current_key@,
            h0 == hist_set(history.deep_view()),
            history.deep_view() == old(history).deep_view(),
            forall|k: int| 0 <= k < stack@.len() ==> #[trigger] stack@[k] <= buf@.len(),
            forall|k1: int, k2: int|
                0 <= k1 <= k2 < stack@.len() ==> #[trigger] stack@[k1] <= #[trigger] stack@[k2],
            root == root_key@,
            no_rand(m) ==> scan(m, h0, root, cur, val@, 0, Seq::empty(), Seq::empty()) == scan(
                m,
                h0,
                root,
                cur,
                val@,
                i as int,
                buf@,
                stack_ints(stack@),
            ),
            flag ==> stack@.len() == 0 && buf@ == val@.subrange(0, i as int),
        decreases cs@.len() - i,
    {
        let ghost buf0 = buf@;
        let ghost stack0 = stack_ints(stack@);
        let c = cs[i];
        if c == '\\' {
            flag = false;
            if i + 1 >= cs.len() {
                return Err(
                    ConfigError::ConfigParseError(current_key.to_owned(), val.to_owned()),
                );
            }
            buf.push(cs[i + 1]);
            i += 2;
            proof {
                assert(buf@ =~= buf0.push(val@[i - 1]));
            }
        } else if c == '$' {
            flag = false;
            if i + 1 >= cs.len() || cs[i + 1] != '{' {
                return Err(
                    ConfigError::ConfigParseError(current_key.to_owned(), val.to_owned()),
                );
            }
            let mark = buf.len();
            stack.push(mark);
            i += 2;
            proof {
                assert(stack_ints(stack@) =~= stack0.push(buf0.len() as int));
            }
        } else if c == '}' {
            flag = false;
            if stack.len() == 0 {
                return Err(
                    ConfigError::ConfigParseError(current_key.to_owned(), val.to_owned()),
                );
            }
            let last = stack[stack.len() - 1];
            stack.pop();
            proof {
                assert(stack_ints(stack@) =~= stack0.drop_last());
                assert(stack0.last() == last as int);
            }
            let body = vec_range(&buf, last, buf.len());
            let colon = find_colon_vec(&body);
            proof {
                lemma_first_colon(body@, 0);
            }
            let rawk = match colon {
                Some(p) => vec_range(&body, 0, p),
                None => vec_range(&body, 0, body.len()),
            };
            proof {
                if colon is None {
                    assert(rawk@ =~= body@);
                }
            }
            let rawk_str = chars_to_string(&rawk);
            let mut ck = CacheKey::new();
            ck.push(rawk_str.as_str());
            let kn = ck.as_str();
            if hist_contains(history, kn.as_str()) {
                return Err(ConfigError::ConfigRecursiveError(root_key.to_owned()));
            }
            match source.get_value_str(kn.as_str()) {
                None => {
                    match colon {
                        Some(p) => {
                            let mut d = vec_range(&body, p + 1, body.len());
                            let ghost dd = d@;
                            buf.truncate(last);
                            buf.append(&mut d);
                            i += 1;
                            proof {
                                assert(buf@ =~= buf0.subrange(0, last as int) + dd);
                            }
                        },
                        None => {
                            return Err(ConfigError::ConfigRecursiveNotFound(kn));
                        },
                    }
                },
                Some(v) => {
                    let out: String = match v {
                        ConfigValue::Str(s) => {
                            proof {
                                assert(m.dom().contains(kn@));
                                m.dom().lemma_set_insert_diff_decreases(h0, kn@);
                            }
                            let ghost h_before = history.deep_view();
                            history.push(kn.clone());
                            proof {
                                assert(history.deep_view() =~= h_before.push(kn@));
                                lemma_hist_push(h_before, kn@);
                            }
                            let rr = parse_placeholder(
                                source,
                                root_key,
                                kn.as_str(),
                                s.as_str(),
                                history,
                            );
                            let ghost h_rec = history.deep_view();
                            history.pop();
                            proof {
                                assert(h_rec == h_before.push(kn@));
                                assert forall|k: int|
                                    0 <= k < history.deep_view().len() implies history.deep_view()[k]
                                    == h_before[k] by {
                                    assert(history.deep_view()[k] == h_rec[k]);
                                }
                                assert(history.deep_view() =~= h_before);
                            }
                            match rr {
                                Err(e) => {
                                    return Err(e);
                                },
                                Ok(o) => o,
                            }
                        },
                        ConfigValue::Int(x) => render_i64(x),
                        ConfigValue::Bool(b) => {
                            let mut bv: Vec<char> = Vec::new();
                            if b {
                                bv.push('t');
                                bv.push('r');
                                bv.push('u');
                                bv.push('e');
                            } else {
                                bv.push('f');
                                bv.push('a');
                                bv.push('l');
                                bv.push('s');
                                bv.push('e');
                            }
                            proof {
                                assert(bv@ =~= bool_chars(b));
                            }
                            chars_to_string(&bv)
                        },
                        ConfigValue::Rand(rv) => {
                            proof {
                                assert(!no_rand(m));
                            }
                            crate::random::rand_scalar_string(rv)
                        },
                    };
                    let mut out_chars = str_chars(out.as_str());
                    let ghost oo = out_chars@;
                    buf.truncate(last);
                    buf.append(&mut out_chars);
                    i += 1;
                    proof {
                        assert(buf@ =~= buf0.subrange(0, last as int) + oo);
                    }
                },
            }
        } else {
            buf.push(c);
            i += 1;
            proof {
                assert(buf@ =~= buf0.push(c));
                if flag {
                    assert(buf@ =~= val@.subrange(0, i as int));
                }
            }
        }
    }
    proof {
        assert(val@.subrange(0, cs@.len() as int) =~= val@);
    }
    if flag {
        let r = val.to_owned();
        return Ok(r);
    }
    if stack.len() > 0 {
        return Err(ConfigError::ConfigParseError(current_key.to_owned(), val.to_owned()));
    }
    Ok(chars_to_string(&buf))
}

/// Placeholder fast path: a string without `$`, `\` or `}` resolves to
/// itself, whatever the store, the history and the key being resolved.
pub proof fn lemma_resolve_plain(
    m: Map<Seq<char>, NodeV>,
    hist: Set<Seq<char>>,
    root: Seq<char>,
    cur: Seq<char>,
    value: Seq<char>,
)
    requires
        m.dom().finite(),
        !has_special(value),
    ensures
        resolve_spec(m, hist, root, cur, value) == ScanResult::Done(value),
{
    lemma_scan_plain(m, hist, root, cur, value, 0, Seq::empty());
    assert(Seq::<char>::empty() + value.subrange(0, value.len() as int) =~= value);
}

} // verus!
