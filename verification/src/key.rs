//! Canonical config keys.
//!
//! A raw key string such as `"a.0.b"` or `"a[0].b"` is split on the
//! separators `.`, `[` and `]` into tokens; empty tokens are dropped; a token
//! that reads as a non-negative machine integer (an optional `+` followed by
//! decimal digits, within the `usize` range) becomes an index segment, any
//! other token a name segment.  The canonical string form joins name segments
//! with `.` (no leading dot) and renders an index segment as `[i]`, so both
//! spellings above normalize to the single form `"a[0].b"`.

use vstd::prelude::*;
use vstd::string::StrSliceExecFns;

verus! {

// ---------------------------------------------------------------------------
// Character classes and tokenization
// ---------------------------------------------------------------------------

/// The three separator characters of the raw key grammar.
pub open spec fn is_sep(c: char) -> bool {
    c == '.' || c == '[' || c == ']'
}

pub open spec fn is_digit(c: char) -> bool {
    48 <= c as u32 <= 57
}

pub open spec fn digit_val(c: char) -> nat {
    (c as u32 - 48) as nat
}

/// One step of the tokenizer: state is (tokens emitted, pending token).
pub open spec fn tok_step(st: (Seq<Seq<char>>, Seq<char>), c: char) -> (Seq<Seq<char>>, Seq<char>) {
    if is_sep(c) {
        if st.1.len() == 0 {
            st
        } else {
            (st.0.push(st.1), Seq::empty())
        }
    } else {
        (st.0, st.1.push(c))
    }
}

pub open spec fn tok_fold(s: Seq<char>, st: (Seq<Seq<char>>, Seq<char>)) -> (Seq<Seq<char>>, Seq<char>)
    decreases s.len(),
{
    if s.len() == 0 {
        st
    } else {
        tok_fold(s.drop_first(), tok_step(st, s[0]))
    }
}

/// The non-empty tokens of a raw key string, in order.
pub open spec fn tokens(s: Seq<char>) -> Seq<Seq<char>> {
    let st = tok_fold(s, (Seq::empty(), Seq::empty()));
    if st.1.len() == 0 {
        st.0
    } else {
        st.0.push(st.1)
    }
}

// ---------------------------------------------------------------------------
// Token classification
// ---------------------------------------------------------------------------

pub open spec fn all_digits(t: Seq<char>) -> bool {
    forall|i: int| 0 <= i < t.len() ==> is_digit(#[trigger] t[i])
}

/// Value of a digit string, most significant digit first.
pub open spec fn digits_val(t: Seq<char>) -> nat
    decreases t.len(),
{
    if t.len() == 0 {
        0
    } else {
        digits_val(t.drop_last()) * 10 + digit_val(t.last())
    }
}

/// The digits of a token, past an optional leading `+` sign.
pub open spec fn index_body(t: Seq<char>) -> Seq<char> {
    if t.len() >= 1 && t[0] == '+' {
        t.drop_first()
    } else {
        t
    }
}

/// Does the token read as a non-negative machine integer?
pub open spec fn is_index_token(t: Seq<char>) -> bool {
    let b = index_body(t);
    b.len() > 0 && all_digits(b) && digits_val(b) <= usize::MAX
}

/// A key segment: a literal name or an array index.
#[allow(missing_debug_implementations)]
pub ghost enum Seg {
    Name(Seq<char>),
    Index(nat),
}

pub open spec fn seg_of_token(t: Seq<char>) -> Seg {
    if is_index_token(t) {
        Seg::Index(digits_val(index_body(t)))
    } else {
        Seg::Name(t)
    }
}

/// The segments a raw key string denotes.
pub open spec fn segs(s: Seq<char>) -> Seq<Seg> {
    tokens(s).map_values(|t: Seq<char>| seg_of_token(t))
}

// ---------------------------------------------------------------------------
// Canonical rendering
// ---------------------------------------------------------------------------

pub open spec fn digit_char(d: nat) -> char {
    ((d + 48) as u8) as char
}

/// Decimal rendering of a number, no leading zeros (except for 0 itself).
pub open spec fn dec_digits(n: nat) -> Seq<char>
    decreases n,
{
    if n < 10 {
        seq![digit_char(n)]
    } else {
        dec_digits(n / 10).push(digit_char(n % 10))
    }
}

/// Append the canonical rendering of one segment to a canonical string.
pub open spec fn render_seg(cur: Seq<char>, g: Seg) -> Seq<char> {
    match g {
        Seg::Name(t) => if cur.len() == 0 {
            t
        } else {
            cur + seq!['.'] + t
        },
        Seg::Index(n) => cur + seq!['['] + dec_digits(n) + seq![']'],
    }
}

pub open spec fn render_segs(cur: Seq<char>, sgs: Seq<Seg>) -> Seq<char>
    decreases sgs.len(),
{
    if sgs.len() == 0 {
        cur
    } else {
        render_segs(render_seg(cur, sgs[0]), sgs.drop_first())
    }
}

/// What pushing a raw key string onto the canonical string `cur` yields.
pub open spec fn push_str_spec(cur: Seq<char>, raw: Seq<char>) -> Seq<char> {
    render_segs(cur, segs(raw))
}

/// The canonical string form of a raw key string.
pub open spec fn normalize(raw: Seq<char>) -> Seq<char> {
    push_str_spec(Seq::empty(), raw)
}

// ---------------------------------------------------------------------------
// Executable helpers
// ---------------------------------------------------------------------------

/// The characters of a string slice, in order.
pub fn str_chars(s: &str) -> (r: Vec<char>)
    ensures
        r@ == s@,
{
    let n = s.unicode_len();
    let mut r: Vec<char> = Vec::new();
    let mut i: usize = 0;
    while i < n
        invariant
            i <= n,
            n == s@.len(),
            r@ == s@.subrange(0, i as int),
        decreases n - i,
    {
        r.push(s.get_char(i));
        i += 1;
    }
    assert(r@ =~= s@);
    r
}

/// Relies on `String: FromIterator<char>`: the collected string holds exactly
/// the characters of the vector, in order.
#[verifier::external_body]
pub fn chars_to_string(v: &Vec<char>) -> (r: String)
    ensures
        r@ == v@,
{
    v.iter().copied().collect()
}

fn digit_to_char(d: u8) -> (c: char)
    requires
        d < 10,
    ensures
        c == digit_char(d as nat),
{
    (48 + d) as char
}

/// Append the decimal rendering of `n`.
pub fn push_dec(v: &mut Vec<char>, n: usize)
    ensures
        final(v)@ == old(v)@ + dec_digits(n as nat),
    decreases n,
{
    if n < 10 {
        v.push(digit_to_char(n as u8));
        assert(v@ =~= old(v)@ + dec_digits(n as nat));
    } else {
        push_dec(v, n / 10);
        v.push(digit_to_char((n % 10) as u8));
        assert(v@ =~= old(v)@ + dec_digits(n as nat));
    }
}

// ---------------------------------------------------------------------------
// Segments as data
// ---------------------------------------------------------------------------

/// Partial key: one segment of a config key.
#[derive(Debug)]
pub enum PartialKey {
    /// String partial key (a literal name).
    Str(String),
    /// Index partial key.
    Int(usize),
}

impl View for PartialKey {
    type V = Seg;

    open spec fn view(&self) -> Seg {
        match self {
            PartialKey::Str(s) => Seg::Name(s@),
            PartialKey::Int(i) => Seg::Index(*i as nat),
        }
    }
}

impl DeepView for PartialKey {
    type V = Seg;

    open spec fn deep_view(&self) -> Seg {
        self.view()
    }
}

proof fn lemma_digits_val_prefix_le(t: Seq<char>, k: int)
    requires
        0 <= k <= t.len(),
    ensures
        digits_val(t.subrange(0, k)) <= digits_val(t),
    decreases t.len(),
{
    if k == t.len() {
        assert(t.subrange(0, k) =~= t);
    } else {
        assert(t.subrange(0, k) =~= t.drop_last().subrange(0, k));
        lemma_digits_val_prefix_le(t.drop_last(), k);
    }
}

/// Classify one non-empty token as a name or an index segment.
fn classify_token(t: Vec<char>) -> (r: PartialKey)
    ensures
        r@ == seg_of_token(t@),
{
    let start: usize = if t.len() >= 1 && t[0] == '+' { 1 } else { 0 };
    let ghost body = index_body(t@);
    proof {
        assert(body =~= t@.subrange(start as int, t@.len() as int));
    }
    if t.len() == start {
        // a lone `+`: no digits, so a name
        assert(!is_index_token(t@));
        return PartialKey::Str(chars_to_string(&t));
    }
    let mut acc: usize = 0;
    let mut j: usize = start;
    while j < t.len()
        invariant
            start <= j <= t.len(),
            start < t@.len() || start == 0,
            body == index_body(t@),
            body == t@.subrange(start as int, t@.len() as int),
            start <= 1,
            all_digits(body.subrange(0, j - start)),
            acc == digits_val(body.subrange(0, j - start)),
        decreases t.len() - j,
    {
        let c = t[j];
        let code = c as u32;
        if code < 48 || code > 57 {
            assert(body[j - start] == c && !is_digit(c));
            assert(!all_digits(body));
            return PartialKey::Str(chars_to_string(&t));
        }
        let d = (code - 48) as usize;
        let ghost pre = body.subrange(0, j - start);
        let ghost pre1 = body.subrange(0, j + 1 - start);
        proof {
            assert(pre1.drop_last() =~= pre);
            assert(pre1.last() == body[j - start]);
            assert(digits_val(pre1) == digits_val(pre) * 10 + digit_val(body[j - start]));
        }
        let next = match acc.checked_mul(10) {
            Some(x) => x.checked_add(d),
            None => None,
        };
        match next {
            Some(y) => {
                acc = y;
            },
            None => {
                proof {
                    assert(digits_val(pre1) > usize::MAX);
                    lemma_digits_val_prefix_le(body, j + 1 - start);
                    assert(!is_index_token(t@));
                }
                return PartialKey::Str(chars_to_string(&t));
            },
        }
        j += 1;
    }
    proof {
        assert(body.subrange(0, t@.len() - start) =~= body);
        assert(is_index_token(t@));
    }
    PartialKey::Int(acc)
}

/// Split a raw key string into its segments.
pub fn split_segments(raw: &str) -> (r: Vec<PartialKey>)
    ensures
        r.deep_view() == segs(raw@),
{
    let cs = str_chars(raw);
    let mut r: Vec<PartialKey> = Vec::new();
    let mut cur: Vec<char> = Vec::new();
    let ghost mut em: Seq<Seq<char>> = Seq::empty();
    let mut i: usize = 0;
    proof {
        assert(raw@.subrange(0, raw@.len() as int) =~= raw@);
    }
    while i < cs.len()
        invariant
            i <= cs.len(),
            cs@ == raw@,
            tok_fold(raw@, (Seq::empty(), Seq::empty())) == tok_fold(
                raw@.subrange(i as int, raw@.len() as int),
                (em, cur@),
            ),
            r.deep_view() == em.map_values(|t: Seq<char>| seg_of_token(t)),
        decreases cs.len() - i,
    {
        let ghost rest = raw@.subrange(i as int, raw@.len() as int);
        let c = cs[i];
        proof {
            assert(rest[0] == c);
            assert(rest.drop_first() =~= raw@.subrange(i + 1, raw@.len() as int));
            assert(tok_fold(rest, (em, cur@)) == tok_fold(rest.drop_first(), tok_step((em, cur@), c)));
        }
        if c == '.' || c == '[' || c == ']' {
            assert(is_sep(c));
            if cur.len() > 0 {
                let ghost t = cur@;
                let ghost prev_dv = r.deep_view();
                let pk = classify_token(cur);
                r.push(pk);
                cur = Vec::new();
                proof {
                    em = em.push(t);
                    assert(r.deep_view() =~= prev_dv.push(pk@));
                    assert(em.map_values(|u: Seq<char>| seg_of_token(u)) =~= prev_dv.push(
                        seg_of_token(t),
                    ));
                }
            }
        } else {
            assert(!is_sep(c));
            cur.push(c);
        }
        i += 1;
    }
    proof {
        assert(raw@.subrange(i as int, raw@.len() as int) =~= Seq::<char>::empty());
    }
    if cur.len() > 0 {
        let ghost t = cur@;
        let ghost prev_dv = r.deep_view();
        let pk = classify_token(cur);
        r.push(pk);
        proof {
            em = em.push(t);
            assert(r.deep_view() =~= prev_dv.push(pk@));
            assert(em.map_values(|u: Seq<char>| seg_of_token(u)) =~= prev_dv.push(seg_of_token(t)));
        }
    }
    proof {
        assert(em.map_values(|u: Seq<char>| seg_of_token(u)) =~= segs(raw@));
    }
    r
}

impl PartialKey {
    /// A copy of this segment.
    pub fn duplicate(&self) -> (r: PartialKey)
        ensures
            r@ == self@,
    {
        match self {
            PartialKey::Str(s) => PartialKey::Str(s.clone()),
            PartialKey::Int(i) => PartialKey::Int(*i),
        }
    }

    /// Append the canonical rendering of this segment to a canonical string.
    pub fn update_string(&self, key_long: &mut Vec<char>)
        ensures
            final(key_long)@ == render_seg(old(key_long)@, self@),
    {
        match self {
            PartialKey::Int(i) => {
                key_long.push('[');
                push_dec(key_long, *i);
                key_long.push(']');
                assert(key_long@ =~= render_seg(old(key_long)@, self@));
            },
            PartialKey::Str(v) => {
                if key_long.len() > 0 {
                    key_long.push('.');
                }
                let cs = str_chars(v.as_str());
                let ghost mid = key_long@;
                let mut k: usize = 0;
                while k < cs.len()
                    invariant
                        k <= cs.len(),
                        cs@ == v@,
                        key_long@ == mid + cs@.subrange(0, k as int),
                    decreases cs.len() - k,
                {
                    key_long.push(cs[k]);
                    assert(key_long@ =~= mid + cs@.subrange(0, k + 1));
                    k += 1;
                }
                assert(key_long@ =~= render_seg(old(key_long)@, self@));
            },
        }
    }
}

// ---------------------------------------------------------------------------
// Rendering lemmas
// ---------------------------------------------------------------------------

/// Appending a segment keeps the old canonical string as a prefix.
pub proof fn lemma_render_seg_extends(cur: Seq<char>, g: Seg)
    ensures
        render_seg(cur, g).len() >= cur.len(),
        render_seg(cur, g).subrange(0, cur.len() as int) == cur,
{
    match g {
        Seg::Name(t) => {
            if cur.len() == 0 {
                assert(render_seg(cur, g).subrange(0, 0) =~= cur);
            } else {
                assert(render_seg(cur, g).subrange(0, cur.len() as int) =~= cur);
            }
        },
        Seg::Index(n) => {
            assert(render_seg(cur, g).subrange(0, cur.len() as int) =~= cur);
        },
    }
}

/// Appending segments keeps the old canonical string as a prefix.
pub proof fn lemma_render_segs_extends(cur: Seq<char>, sgs: Seq<Seg>)
    ensures
        render_segs(cur, sgs).len() >= cur.len(),
        render_segs(cur, sgs).subrange(0, cur.len() as int) == cur,
    decreases sgs.len(),
{
    if sgs.len() == 0 {
        assert(render_segs(cur, sgs).subrange(0, cur.len() as int) =~= cur);
    } else {
        let mid = render_seg(cur, sgs[0]);
        lemma_render_seg_extends(cur, sgs[0]);
        lemma_render_segs_extends(mid, sgs.drop_first());
        let full = render_segs(cur, sgs);
        assert(full.subrange(0, cur.len() as int) =~= full.subrange(0, mid.len() as int).subrange(
            0,
            cur.len() as int,
        ));
    }
}

pub proof fn lemma_render_segs_snoc(cur: Seq<char>, sgs: Seq<Seg>, g: Seg)
    ensures
        render_segs(cur, sgs.push(g)) == render_seg(render_segs(cur, sgs), g),
    decreases sgs.len(),
{
    if sgs.len() == 0 {
        assert(sgs.push(g)[0] == g);
        assert(sgs.push(g).drop_first() =~= Seq::<Seg>::empty());
        assert(render_segs(cur, sgs.push(g)) == render_segs(render_seg(cur, g), Seq::empty()));
    } else {
        assert(sgs.push(g)[0] == sgs[0]);
        assert(sgs.push(g).drop_first() =~= sgs.drop_first().push(g));
        lemma_render_segs_snoc(render_seg(cur, sgs[0]), sgs.drop_first(), g);
    }
}

// ---------------------------------------------------------------------------
// Canonicalization is idempotent
// ---------------------------------------------------------------------------

pub open spec fn no_seps(t: Seq<char>) -> bool {
    forall|i: int| 0 <= i < t.len() ==> !is_sep(#[trigger] t[i])
}

/// A segment that tokenization can produce: names are non-empty, free of
/// separators and do not read as an index; indices fit the machine bound.
pub open spec fn wf_seg(g: Seg) -> bool {
    match g {
        Seg::Name(t) => t.len() > 0 && no_seps(t) && !is_index_token(t),
        Seg::Index(n) => n <= usize::MAX,
    }
}

pub open spec fn wf_segs(sgs: Seq<Seg>) -> bool {
    forall|i: int| 0 <= i < sgs.len() ==> wf_seg(#[trigger] sgs[i])
}

/// The token that re-tokenizing a rendered segment yields.
pub open spec fn tok_of_seg(g: Seg) -> Seq<char> {
    match g {
        Seg::Name(t) => t,
        Seg::Index(n) => dec_digits(n),
    }
}

pub open spec fn toks_of_segs(sgs: Seq<Seg>) -> Seq<Seq<char>> {
    sgs.map_values(|g: Seg| tok_of_seg(g))
}

proof fn lemma_dec_digits_wf(n: nat)
    ensures
        dec_digits(n).len() > 0,
        all_digits(dec_digits(n)),
        no_seps(dec_digits(n)),
        dec_digits(n)[0] != '+',
        digits_val(dec_digits(n)) == n,
    decreases n,
{
    if n < 10 {
        let c = digit_char(n);
        assert(c as u32 == 48 + n);
        assert(is_digit(c) && !is_sep(c) && c != '+');
        let d = dec_digits(n);
        assert(d == seq![c]);
        assert(d.len() == 1 && d.last() == c && d[0] == c);
        assert(d.drop_last() =~= Seq::<char>::empty());
        assert(digits_val(d) == digits_val(d.drop_last()) * 10 + digit_val(d.last()));
        assert(digits_val(d.drop_last()) == 0);
        assert(digit_val(c) == n);
    } else {
        lemma_dec_digits_wf(n / 10);
        let c = digit_char(n % 10);
        assert(c as u32 == 48 + n % 10);
        assert(is_digit(c) && !is_sep(c) && c != '+');
        let d = dec_digits(n);
        assert(d == dec_digits(n / 10).push(c));
        assert(d.drop_last() =~= dec_digits(n / 10));
        assert(d.last() == c);
        assert(digits_val(d) == (n / 10) * 10 + n % 10);
        assert(d[0] == dec_digits(n / 10)[0]);
        assert forall|i: int| 0 <= i < d.len() implies is_digit(#[trigger] d[i]) by {
            if i < d.len() - 1 {
                assert(d[i] == dec_digits(n / 10)[i]);
            }
        }
        assert forall|i: int| 0 <= i < d.len() implies !is_sep(#[trigger] d[i]) by {
            if i < d.len() - 1 {
                assert(d[i] == dec_digits(n / 10)[i]);
            }
        }
    }
}

/// Folding a concatenation folds the parts in order.
proof fn lemma_tok_fold_concat(a: Seq<char>, b: Seq<char>, st: (Seq<Seq<char>>, Seq<char>))
    ensures
        tok_fold(a + b, st) == tok_fold(b, tok_fold(a, st)),
    decreases a.len(),
{
    if a.len() == 0 {
        assert(a + b =~= b);
    } else {
        assert((a + b)[0] == a[0]);
        assert((a + b).drop_first() =~= a.drop_first() + b);
        lemma_tok_fold_concat(a.drop_first(), b, tok_step(st, a[0]));
    }
}

/// Folding separator-free text extends the pending token.
proof fn lemma_tok_fold_nonsep(x: Seq<char>, st: (Seq<Seq<char>>, Seq<char>))
    requires
        no_seps(x),
    ensures
        tok_fold(x, st) == (st.0, st.1 + x),
    decreases x.len(),
{
    if x.len() == 0 {
        assert(st.1 + x =~= st.1);
    } else {
        assert(!is_sep(x[0]));
        assert(x.drop_first().len() == x.len() - 1);
        assert(no_seps(x.drop_first())) by {
            assert forall|i: int| 0 <= i < x.drop_first().len() implies !is_sep(
                #[trigger] x.drop_first()[i],
            ) by {
                assert(x.drop_first()[i] == x[i + 1]);
            }
        }
        lemma_tok_fold_nonsep(x.drop_first(), tok_step(st, x[0]));
        assert(st.1.push(x[0]) + x.drop_first() =~= st.1 + x);
    }
}

/// State of the tokenizer after folding a canonical rendering: all tokens
/// are emitted, except a trailing name which is still pending.
proof fn lemma_tok_fold_render(sgs: Seq<Seg>)
    requires
        wf_segs(sgs),
    ensures
        sgs.len() == 0 ==> render_segs(Seq::empty(), sgs).len() == 0,
        sgs.len() > 0 ==> render_segs(Seq::empty(), sgs).len() > 0,
        ({
            let st = tok_fold(render_segs(Seq::empty(), sgs), (Seq::empty(), Seq::empty()));
            if sgs.len() > 0 && sgs.last() is Name {
                st == (toks_of_segs(sgs).drop_last(), sgs.last()->Name_0)
            } else {
                st == (toks_of_segs(sgs), Seq::<char>::empty())
            }
        }),
    decreases sgs.len(),
{
    if sgs.len() == 0 {
        assert(toks_of_segs(sgs) =~= Seq::<Seq<char>>::empty());
    } else {
        let pre = sgs.drop_last();
        let g = sgs.last();
        assert(wf_segs(pre)) by {
            assert(forall|i: int| 0 <= i < pre.len() ==> pre[i] == #[trigger] sgs[i]);
        }
        assert(wf_seg(g));
        lemma_tok_fold_render(pre);
        assert(pre.push(g) =~= sgs);
        lemma_render_segs_snoc(Seq::empty(), pre, g);
        let rendered_pre = render_segs(Seq::empty(), pre);
        let rendered = render_segs(Seq::empty(), sgs);
        assert(rendered == render_seg(rendered_pre, g));
        let init = (Seq::<Seq<char>>::empty(), Seq::<char>::empty());
        let st_pre = tok_fold(rendered_pre, init);
        assert(toks_of_segs(sgs) =~= toks_of_segs(pre).push(tok_of_seg(g)));
        // flushing the state after `pre` with any separator emits all of
        // `pre`'s tokens
        assert(is_sep('.') && is_sep('[') && is_sep(']'));
        let flushed = (toks_of_segs(pre), Seq::<char>::empty());
        assert forall|c: char| is_sep(c) implies tok_step(st_pre, c) == flushed by {
            if pre.len() > 0 && pre.last() is Name {
                assert(st_pre == (toks_of_segs(pre).drop_last(), pre.last()->Name_0));
                assert(wf_seg(pre.last()));
                assert(st_pre.1.len() > 0);
                assert(toks_of_segs(pre).last() == tok_of_seg(pre.last()));
                assert(toks_of_segs(pre).drop_last().push(pre.last()->Name_0)
                    =~= toks_of_segs(pre));
            } else {
                assert(st_pre == flushed);
            }
        }
        match g {
            Seg::Name(t) => {
                assert(t.len() > 0 && no_seps(t));
                if rendered_pre.len() == 0 {
                    // at the very start: the name is rendered bare
                    assert(pre.len() == 0);
                    assert(rendered == t);
                    lemma_tok_fold_nonsep(t, init);
                    assert(Seq::<char>::empty() + t =~= t);
                    assert(toks_of_segs(sgs).drop_last() =~= Seq::<Seq<char>>::empty());
                } else {
                    assert(pre.len() > 0);
                    assert(rendered == rendered_pre + seq!['.'] + t);
                    assert(rendered =~= rendered_pre + (seq!['.'] + t));
                    lemma_tok_fold_concat(rendered_pre, seq!['.'] + t, init);
                    lemma_tok_fold_concat(seq!['.'], t, st_pre);
                    // the dot flushes, then the name accumulates
                    let st_dot = tok_fold(seq!['.'], st_pre);
                    assert(seq!['.'].len() == 1 && seq!['.'][0] == '.');
                    assert(seq!['.'].drop_first() =~= Seq::<char>::empty());
                    assert(tok_step(st_pre, '.') == flushed);
                    assert(st_dot == tok_fold(seq!['.'].drop_first(), tok_step(st_pre, '.')));
                    assert(st_dot == flushed);
                    lemma_tok_fold_nonsep(t, st_dot);
                    assert(Seq::<char>::empty() + t =~= t);
                    assert(tok_fold(rendered, init) == (toks_of_segs(pre), t));
                    assert(toks_of_segs(sgs).drop_last() =~= toks_of_segs(pre));
                }
            },
            Seg::Index(n) => {
                lemma_dec_digits_wf(n);
                let dd = dec_digits(n);
                assert(rendered == rendered_pre + seq!['['] + dd + seq![']']);
                assert(rendered =~= rendered_pre + (seq!['['] + dd + seq![']']));
                lemma_tok_fold_concat(rendered_pre, seq!['['] + dd + seq![']'], init);
                assert(seq!['['] + dd + seq![']'] =~= seq!['['] + (dd + seq![']']));
                lemma_tok_fold_concat(seq!['['], dd + seq![']'], st_pre);
                // `[` flushes, the digits accumulate, `]` flushes them
                let st_open = tok_fold(seq!['['], st_pre);
                assert(seq!['['].len() == 1 && seq!['['][0] == '[');
                assert(seq!['['].drop_first() =~= Seq::<char>::empty());
                assert(tok_step(st_pre, '[') == flushed);
                assert(st_open == tok_fold(seq!['['].drop_first(), tok_step(st_pre, '[')));
                assert(st_open == flushed);
                lemma_tok_fold_concat(dd, seq![']'], st_open);
                lemma_tok_fold_nonsep(dd, st_open);
                assert(Seq::<char>::empty() + dd =~= dd);
                let st_digits = tok_fold(dd, st_open);
                assert(st_digits == (toks_of_segs(pre), dd));
                let st_close = tok_fold(seq![']'], st_digits);
                assert(seq![']'].len() == 1 && seq![']'][0] == ']');
                assert(seq![']'].drop_first() =~= Seq::<char>::empty());
                assert(dd.len() > 0);
                assert(tok_step(st_digits, ']') == (toks_of_segs(pre).push(dd),
                    Seq::<char>::empty()));
                assert(st_close == tok_fold(seq![']'].drop_first(), tok_step(st_digits, ']')));
                assert(st_close == (toks_of_segs(pre).push(dd), Seq::<char>::empty()));
                assert(tok_fold(rendered, init) == st_close);
            },
        }
    }
}

/// Re-tokenizing a rendered token gives back the segment it came from.
proof fn lemma_classify_tok_of_seg(g: Seg)
    requires
        wf_seg(g),
    ensures
        seg_of_token(tok_of_seg(g)) == g,
{
    match g {
        Seg::Name(t) => {
        },
        Seg::Index(n) => {
            lemma_dec_digits_wf(n);
            let d = dec_digits(n);
            assert(index_body(d) == d);
            assert(is_index_token(d));
        },
    }
}

/// Tokens produced by the tokenizer are non-empty and separator-free,
/// so the segments of any string are well formed.
proof fn lemma_tok_fold_wf(s: Seq<char>, st: (Seq<Seq<char>>, Seq<char>))
    requires
        forall|i: int|
            0 <= i < st.0.len() ==> (#[trigger] st.0[i]).len() > 0 && no_seps(st.0[i]),
        no_seps(st.1),
    ensures
        ({
            let r = tok_fold(s, st);
            (forall|i: int| 0 <= i < r.0.len() ==> (#[trigger] r.0[i]).len() > 0 && no_seps(r.0[i]))
                && no_seps(r.1)
        }),
    decreases s.len(),
{
    if s.len() == 0 {
    } else {
        let c = s[0];
        let st2 = tok_step(st, c);
        assert(forall|i: int|
            0 <= i < st2.0.len() ==> (#[trigger] st2.0[i]).len() > 0 && no_seps(st2.0[i])) by {
            if is_sep(c) && st.1.len() > 0 {
                assert(forall|i: int|
                    0 <= i < st.0.len() ==> st2.0[i] == #[trigger] st.0[i]);
                assert(st2.0.last() == st.1);
            }
        }
        assert(no_seps(st2.1)) by {
            if !is_sep(c) {
                assert(forall|i: int|
                    0 <= i < st.1.len() ==> st2.1[i] == #[trigger] st.1[i]);
                assert(st2.1.last() == c);
                assert(forall|i: int| 0 <= i < st2.1.len() ==> !is_sep(#[trigger] st2.1[i]));
            }
        }
        lemma_tok_fold_wf(s.drop_first(), st2);
    }
}

/// The segments of any raw key string are well formed.
pub proof fn lemma_segs_wf(s: Seq<char>)
    ensures
        wf_segs(segs(s)),
{
    lemma_tok_fold_wf(s, (Seq::empty(), Seq::empty()));
    let st = tok_fold(s, (Seq::<Seq<char>>::empty(), Seq::<char>::empty()));
    assert forall|i: int| 0 <= i < segs(s).len() implies wf_seg(#[trigger] segs(s)[i]) by {
        let t = tokens(s)[i];
        assert(t.len() > 0 && no_seps(t)) by {
            if st.1.len() > 0 && i == st.0.len() {
                assert(tokens(s)[i] == st.1);
            } else {
                assert(tokens(s)[i] == st.0[i]);
            }
        }
        assert(segs(s)[i] == seg_of_token(t));
    }
}

/// Tokenizing a canonical rendering gives back the rendered tokens.
proof fn lemma_tokens_of_render(sgs: Seq<Seg>)
    requires
        wf_segs(sgs),
    ensures
        tokens(render_segs(Seq::empty(), sgs)) == toks_of_segs(sgs),
{
    lemma_tok_fold_render(sgs);
    if sgs.len() > 0 && sgs.last() is Name {
        assert(toks_of_segs(sgs).drop_last().push(tok_of_seg(sgs.last())) =~= toks_of_segs(sgs));
        assert(wf_seg(sgs.last()));
    }
}

/// Normalizing a raw key string is idempotent: the canonical form of the
/// canonical form is the canonical form itself.
pub proof fn lemma_normalize_idempotent(x: Seq<char>)
    ensures
        normalize(normalize(x)) == normalize(x),
{
    let sgs = segs(x);
    lemma_segs_wf(x);
    lemma_tokens_of_render(sgs);
    assert(segs(normalize(x)) =~= sgs) by {
        assert(tokens(normalize(x)) == toks_of_segs(sgs));
        assert forall|i: int| 0 <= i < sgs.len() implies #[trigger] segs(normalize(x))[i]
            == sgs[i] by {
            assert(segs(normalize(x))[i] == seg_of_token(toks_of_segs(sgs)[i]));
            assert(toks_of_segs(sgs)[i] == tok_of_seg(sgs[i]));
            lemma_classify_tok_of_seg(sgs[i]);
        }
    }
}

// ---------------------------------------------------------------------------
// The canonical key string buffer
// ---------------------------------------------------------------------------

/// A canonical key string under construction, with a stack of restore marks.
#[derive(Debug)]
pub struct CacheString {
    current: Vec<char>,
    mark: Vec<usize>,
}

impl CacheString {
    /// The canonical string currently held.
    pub closed spec fn str_view(&self) -> Seq<char> {
        self.current@
    }

    /// The stack of restore lengths, one per unmatched `push`.
    pub closed spec fn marks(&self) -> Seq<usize> {
        self.mark@
    }

    /// Every mark lies within the string, and marks grow with the stack.
    pub closed spec fn wf(&self) -> bool {
        &&& forall|i: int|
            0 <= i < self.mark@.len() ==> #[trigger] self.mark@[i] <= self.current@.len()
        &&& forall|i: int, j: int|
            0 <= i <= j < self.mark@.len() ==> #[trigger] self.mark@[i] <= #[trigger] self.mark@[j]
    }

    /// An empty buffer.
    pub fn new() -> (r: CacheString)
        ensures
            r.wf(),
            r.str_view() == Seq::<char>::empty(),
            r.marks() == Seq::<usize>::empty(),
    {
        CacheString { current: Vec::new(), mark: Vec::new() }
    }

    /// Parse a raw key string and append its canonical rendering,
    /// recording a restore mark.
    pub fn push(&mut self, raw: &str)
        requires
            old(self).wf(),
        ensures
            final(self).wf(),
            final(self).str_view() == push_str_spec(old(self).str_view(), raw@),
            final(self).marks() == old(self).marks().push(old(self).str_view().len() as usize),
            old(self).str_view().len() <= usize::MAX,
    {
        let old_len = self.current.len();
        let segs_v = split_segments(raw);
        let ghost all = segs(raw@);
        let ghost cur0 = self.current@;
        let mut j: usize = 0;
        proof {
            assert(all.subrange(0, 0) =~= Seq::<Seg>::empty());
        }
        while j < segs_v.len()
            invariant
                j <= segs_v.len(),
                segs_v.deep_view() == all,
                self.current@ == render_segs(cur0, all.subrange(0, j as int)),
                self.mark@ == old(self).mark@,
                old(self).wf(),
                cur0 == old(self).current@,
            decreases segs_v.len() - j,
        {
            let pk = &segs_v[j];
            assert(pk@ == all[j as int]);
            pk.update_string(&mut self.current);
            proof {
                lemma_render_segs_snoc(cur0, all.subrange(0, j as int), all[j as int]);
                assert(all.subrange(0, j + 1) =~= all.subrange(0, j as int).push(all[j as int]));
            }
            j += 1;
        }
        proof {
            assert(all.subrange(0, segs_v.len() as int) =~= all);
            lemma_render_segs_extends(cur0, all);
        }
        self.mark.push(old_len);
    }

    /// Append one index segment, recording a restore mark.
    pub fn push_index(&mut self, idx: usize)
        requires
            old(self).wf(),
        ensures
            final(self).wf(),
            final(self).str_view() == render_seg(old(self).str_view(), Seg::Index(idx as nat)),
            final(self).marks() == old(self).marks().push(old(self).str_view().len() as usize),
            old(self).str_view().len() <= usize::MAX,
    {
        let old_len = self.current.len();
        let pk = PartialKey::Int(idx);
        pk.update_string(&mut self.current);
        proof {
            lemma_render_seg_extends(old(self).current@, Seg::Index(idx as nat));
        }
        self.mark.push(old_len);
    }

    /// Restore the string to its state before the matching `push`.
    pub fn pop(&mut self)
        requires
            old(self).wf(),
        ensures
            final(self).wf(),
            old(self).marks().len() == 0 ==> final(self).marks() == old(self).marks()
                && final(self).str_view() == old(self).str_view(),
            old(self).marks().len() > 0 ==> final(self).marks() == old(self).marks().drop_last()
                && final(self).str_view() == old(self).str_view().subrange(
                0,
                old(self).marks().last() as int,
            ),
    {
        if let Some(l) = self.mark.pop() {
            self.current.truncate(l);
        }
    }

    /// Drop everything.
    pub fn clear(&mut self)
        ensures
            final(self).wf(),
            final(self).str_view() == Seq::<char>::empty(),
            final(self).marks() == Seq::<usize>::empty(),
    {
        self.current.clear();
        self.mark.clear();
    }

    /// The current canonical string.
    pub fn as_str(&self) -> (r: String)
        ensures
            r@ == self.str_view(),
    {
        chars_to_string(&self.current)
    }

    /// Turn the buffer into a config key.
    pub fn new_key(self) -> (r: CacheKey)
        ensures
            r@ == self.str_view(),
            r.marks() == self.marks(),
            self.wf() ==> r.wf(),
    {
        CacheKey { cache: self }
    }
}

/// A config key: a canonical key string with scoped push/pop.
#[derive(Debug)]
pub struct CacheKey {
    cache: CacheString,
}

impl View for CacheKey {
    type V = Seq<char>;

    closed spec fn view(&self) -> Seq<char> {
        self.cache.str_view()
    }
}

impl CacheKey {
    pub closed spec fn marks(&self) -> Seq<usize> {
        self.cache.marks()
    }

    pub closed spec fn wf(&self) -> bool {
        self.cache.wf()
    }

    /// An empty key.
    pub fn new() -> (r: CacheKey)
        ensures
            r.wf(),
            r@ == Seq::<char>::empty(),
            r.marks() == Seq::<usize>::empty(),
    {
        CacheString::new().new_key()
    }

    /// Push a raw (sub-)key string; the canonical rendering of its segments
    /// is appended to the current canonical string.
    pub fn push(&mut self, raw: &str)
        requires
            old(self).wf(),
        ensures
            final(self).wf(),
            final(self)@ == push_str_spec(old(self)@, raw@),
            final(self).marks() == old(self).marks().push(old(self)@.len() as usize),
            old(self)@.len() <= usize::MAX,
    {
        self.cache.push(raw);
    }

    /// Push one index segment.
    pub fn push_index(&mut self, idx: usize)
        requires
            old(self).wf(),
        ensures
            final(self).wf(),
            final(self)@ == render_seg(old(self)@, Seg::Index(idx as nat)),
            final(self).marks() == old(self).marks().push(old(self)@.len() as usize),
            old(self)@.len() <= usize::MAX,
    {
        self.cache.push_index(idx);
    }

    /// Undo the matching `push`, restoring the exact prior string.
    pub fn pop(&mut self)
        requires
            old(self).wf(),
        ensures
            final(self).wf(),
            old(self).marks().len() == 0 ==> final(self).marks() == old(self).marks()
                && final(self)@ == old(self)@,
            old(self).marks().len() > 0 ==> final(self).marks() == old(self).marks().drop_last()
                && final(self)@ == old(self)@.subrange(0, old(self).marks().last() as int),
    {
        self.cache.pop();
    }

    /// The current canonical string.
    pub fn as_str(&self) -> (r: String)
        ensures
            r@ == self@,
    {
        self.cache.as_str()
    }

    /// The current canonical string (same as `as_str`).
    pub fn to_string(&self) -> (r: String)
        ensures
            r@ == self@,
    {
        self.cache.as_str()
    }
}

// ---------------------------------------------------------------------------
// Segment iterator and child-segment collector
// ---------------------------------------------------------------------------

/// Iterator over the segments of a raw key string or a single index.
#[derive(Debug)]
pub struct PartialKeyIter {
    segs: Vec<PartialKey>,
    pos: usize,
}

impl PartialKeyIter {
    /// The segments not yet returned.
    pub closed spec fn remaining(&self) -> Seq<Seg> {
        if self.pos <= self.segs.deep_view().len() {
            self.segs.deep_view().skip(self.pos as int)
        } else {
            Seq::empty()
        }
    }

    /// Segments of a raw key string.
    pub fn from_str(raw: &str) -> (r: PartialKeyIter)
        ensures
            r.remaining() == segs(raw@),
    {
        let segs_v = split_segments(raw);
        let r = PartialKeyIter { segs: segs_v, pos: 0 };
        proof {
            assert(r.remaining() =~= segs(raw@));
        }
        r
    }

    /// A single index segment.
    pub fn from_index(idx: usize) -> (r: PartialKeyIter)
        ensures
            r.remaining() == seq![Seg::Index(idx as nat)],
    {
        let mut v: Vec<PartialKey> = Vec::new();
        v.push(PartialKey::Int(idx));
        let r = PartialKeyIter { segs: v, pos: 0 };
        proof {
            assert(r.remaining() =~= seq![Seg::Index(idx as nat)]);
        }
        r
    }

    /// The next segment, if any.
    pub fn next(&mut self) -> (r: Option<PartialKey>)
        ensures
            match r {
                Option::None => old(self).remaining().len() == 0 && final(self).remaining()
                    == old(self).remaining(),
                Option::Some(pk) => old(self).remaining().len() > 0 && pk@ == old(
                    self,
                ).remaining()[0] && final(self).remaining() == old(self).remaining().drop_first(),
            },
    {
        if self.pos < self.segs.len() {
            let pk = self.segs[self.pos].duplicate();
            self.pos += 1;
            proof {
                assert(final(self).remaining() =~= old(self).remaining().drop_first());
            }
            Some(pk)
        } else {
            None
        }
    }
}

/// Collects the child segments known under a key prefix: literal name
/// children, and one past the largest index child seen.
#[derive(Debug)]
pub struct PartialKeyCollector {
    pub(crate) str_key: Vec<String>,
    pub(crate) int_key: Option<usize>,
}

impl PartialKeyCollector {
    /// The name children collected so far.
    pub closed spec fn names(&self) -> Seq<Seq<char>> {
        self.str_key.deep_view()
    }

    /// One past the largest index child seen, if any.
    pub closed spec fn index_bound(&self) -> Option<usize> {
        self.int_key
    }

    /// An empty collector.
    pub fn new() -> (r: PartialKeyCollector)
        ensures
            r.names() == Seq::<Seq<char>>::empty(),
            r.index_bound() is None,
    {
        PartialKeyCollector { str_key: Vec::new(), int_key: None }
    }

    /// Record a name child, unless it is already present.
    pub fn insert_name(&mut self, name: &String)
        ensures
            final(self).index_bound() == old(self).index_bound(),
            final(self).names() == if old(self).names().contains(name@) {
                old(self).names()
            } else {
                old(self).names().push(name@)
            },
            final(self).names().contains(name@),
    {
        let mut found = false;
        let mut i: usize = 0;
        while i < self.str_key.len()
            invariant
                i <= self.str_key@.len(),
                found <==> exists|k: int| 0 <= k < i && #[trigger] self.str_key@[k]@ == name@,
            decreases self.str_key@.len() - i,
        {
            if crate::value::str_eq(self.str_key[i].as_str(), name.as_str()) {
                found = true;
            }
            i += 1;
        }
        proof {
            assert(found == self.names().contains(name@)) by {
                if found {
                    let k = choose|k: int|
                        0 <= k < self.str_key@.len() && #[trigger] self.str_key@[k]@ == name@;
                    assert(self.names()[k] == name@);
                } else {
                    if self.names().contains(name@) {
                        let k = choose|k: int|
                            0 <= k < self.names().len() && #[trigger] self.names()[k] == name@;
                        assert(self.str_key@[k]@ == name@);
                    }
                }
            }
        }
        if !found {
            let ghost prev = self.names();
            self.str_key.push(name.clone());
            proof {
                assert(self.names() =~= prev.push(name@));
                assert(self.names()[self.names().len() - 1] == name@);
            }
        }
    }

    /// The name children collected, in insertion order.
    pub fn name_list(self) -> (r: Vec<String>)
        ensures
            r.deep_view() == self.names(),
    {
        self.str_key
    }

    /// One past the largest index child seen, if any.
    pub fn int_bound(&self) -> (r: Option<usize>)
        ensures
            r == self.index_bound(),
    {
        self.int_key
    }

    /// Record an index child: the bound becomes one past the largest index
    /// seen (saturating at the machine bound).
    pub fn insert_int(&mut self, key: usize)
        ensures
            final(self).names() == old(self).names(),
            final(self).index_bound() == match old(self).index_bound() {
                Option::Some(u) => if u > key {
                    Option::Some(u)
                } else if key == usize::MAX {
                    Option::Some(usize::MAX)
                } else {
                    Option::Some((key + 1) as usize)
                },
                Option::None => if key == usize::MAX {
                    Option::Some(usize::MAX)
                } else {
                    Option::Some((key + 1) as usize)
                },
            },
    {
        if let Some(u) = self.int_key {
            if u > key {
                return ;
            }
        }
        if key == usize::MAX {
            self.int_key = Some(usize::MAX);
        } else {
            self.int_key = Some(key + 1);
        }
    }
}

} // verus!
