//! Config values and conversions between scalars and text.

use vstd::prelude::*;
use vstd::string::StrSliceExecFns;

use crate::key::{all_digits, dec_digits, digit_val, digits_val, is_digit, str_chars,
    chars_to_string};

verus! {

/// A marker for a random value of one integer type; the marker is replaced by
/// a freshly drawn value when the key is read.
#[derive(Debug, Clone, Copy, PartialEq, Eq, Structural)]
pub enum RandValue {
    U8,
    U16,
    U32,
    U64,
    U128,
    Usize,
    I8,
    I16,
    I32,
    I64,
    I128,
    Isize,
}

/// Config value, as stored in a source.
#[derive(Debug)]
pub enum ConfigValue {
    /// String; supports placeholder expressions.
    Str(String),
    /// Integer.
    Int(i64),
    /// Bool value.
    Bool(bool),
    /// Random value marker.
    Rand(RandValue),
}

/// The mathematical shape of a config value.
#[allow(missing_debug_implementations)]
pub ghost enum Val {
    Str(Seq<char>),
    Int(i64),
    Bool(bool),
    Rand(RandValue),
}

impl View for ConfigValue {
    type V = Val;

    open spec fn view(&self) -> Val {
        match self {
            ConfigValue::Str(s) => Val::Str(s@),
            ConfigValue::Int(i) => Val::Int(*i),
            ConfigValue::Bool(b) => Val::Bool(*b),
            ConfigValue::Rand(r) => Val::Rand(*r),
        }
    }
}

impl ConfigValue {
    /// A copy of this value.
    pub fn duplicate(&self) -> (r: ConfigValue)
        ensures
            r@ == self@,
    {
        match self {
            ConfigValue::Str(s) => ConfigValue::Str(s.clone()),
            ConfigValue::Int(i) => ConfigValue::Int(*i),
            ConfigValue::Bool(b) => ConfigValue::Bool(*b),
            ConfigValue::Rand(r) => ConfigValue::Rand(*r),
        }
    }
}

// ---------------------------------------------------------------------------
// Rendering integers as decimal text
// ---------------------------------------------------------------------------

/// Decimal text of an integer, with a `-` sign when negative.
pub open spec fn int_chars(i: int) -> Seq<char> {
    if i < 0 {
        seq!['-'] + dec_digits((-i) as nat)
    } else {
        dec_digits(i as nat)
    }
}

fn push_dec_u128(v: &mut Vec<char>, n: u128)
    ensures
        final(v)@ == old(v)@ + dec_digits(n as nat),
    decreases n,
{
    if n < 10 {
        let d: u8 = (n as u8) + 48;
        v.push(d as char);
        assert(d as char == crate::key::digit_char(n as nat));
        assert(v@ =~= old(v)@ + dec_digits(n as nat));
    } else {
        push_dec_u128(v, n / 10);
        let d: u8 = ((n % 10) as u8) + 48;
        v.push(d as char);
        assert(d as char == crate::key::digit_char((n % 10) as nat));
        assert(v@ =~= old(v)@ + dec_digits(n as nat));
    }
}

/// The decimal text of an unsigned integer.
pub fn render_u128(n: u128) -> (r: String)
    ensures
        r@ == dec_digits(n as nat),
        r@ == int_chars(n as int),
{
    let mut v: Vec<char> = Vec::new();
    push_dec_u128(&mut v, n);
    assert(v@ =~= dec_digits(n as nat));
    chars_to_string(&v)
}

/// The decimal text of a signed integer, `-` sign included.
pub fn render_i128(n: i128) -> (r: String)
    ensures
        r@ == int_chars(n as int),
{
    let mut v: Vec<char> = Vec::new();
    if n < 0 {
        v.push('-');
        // magnitude without overflow, valid for the minimum value too
        let mag: u128 = ((-(n + 1)) as u128) + 1;
        assert(mag == -(n as int));
        push_dec_u128(&mut v, mag);
        assert(v@ =~= int_chars(n as int));
    } else {
        push_dec_u128(&mut v, n as u128);
        assert(v@ =~= int_chars(n as int));
    }
    chars_to_string(&v)
}

/// The decimal text of an `i64`.
pub fn render_i64(n: i64) -> (r: String)
    ensures
        r@ == int_chars(n as int),
{
    render_i128(n as i128)
}

// ---------------------------------------------------------------------------
// Parsing decimal text
// ---------------------------------------------------------------------------

/// The integer a string denotes: an optional sign (`-` only where permitted,
/// `+` always) followed by at least one digit.  `None` where the string is
/// not of that shape.
pub open spec fn num_of_str(s: Seq<char>, allow_neg: bool) -> Option<int> {
    let neg = s.len() >= 1 && s[0] == '-';
    let signed = s.len() >= 1 && (s[0] == '-' || s[0] == '+');
    let body = if signed {
        s.drop_first()
    } else {
        s
    };
    if body.len() > 0 && all_digits(body) && (allow_neg || !neg) {
        if neg {
            Some(-(digits_val(body) as int))
        } else {
            Some(digits_val(body) as int)
        }
    } else {
        None
    }
}

/// Outcome of reading decimal text: not a number at all, a number too large
/// in magnitude for any machine type, or a sign and a magnitude.
#[allow(missing_debug_implementations)]
pub enum ParsedNum {
    /// Not an optionally-signed digit string.
    Bad,
    /// A number, but its magnitude exceeds the largest machine integer.
    Huge(bool),
    /// A sign (`true` = negative) and a magnitude.
    Num(bool, u128),
}

proof fn lemma_digits_val_prefix_le(t: Seq<char>, k: int)
    requires
        0 <= k <= t.len(),
    ensures
        digits_val(t.subrange(0, k)) <= digits_val(t),
    decreases t.len(),
{
    if k == t.len() {
        assert(t.subrange(0, k) =~= t);
    } else {
        assert(t.subrange(0, k) =~= t.drop_last().subrange(0, k));
        lemma_digits_val_prefix_le(t.drop_last(), k);
    }
}

/// Read an optionally signed decimal string.
pub fn parse_num(s: &str, allow_neg: bool) -> (r: ParsedNum)
    ensures
        (r is Bad) <==> (num_of_str(s@, allow_neg) is None),
        r matches ParsedNum::Huge(neg) ==> num_of_str(s@, allow_neg) matches Some(v) && (if neg {
            v < -(u128::MAX as int)
        } else {
            v > u128::MAX as int
        }),
        r matches ParsedNum::Num(neg, mag) ==> num_of_str(s@, allow_neg) == Some(
            if neg {
                -(mag as int)
            } else {
                mag as int
            },
        ),
{
    let cs = str_chars(s);
    let signed = cs.len() >= 1 && (cs[0] == '-' || cs[0] == '+');
    let neg = cs.len() >= 1 && cs[0] == '-';
    let start: usize = if signed {
        1
    } else {
        0
    };
    let ghost body = if signed {
        s@.drop_first()
    } else {
        s@
    };
    proof {
        assert(body =~= s@.subrange(start as int, s@.len() as int));
    }
    if cs.len() == start || (neg && !allow_neg) {
        return ParsedNum::Bad;
    }
    let mut acc: u128 = 0;
    let mut huge = false;
    let mut j: usize = start;
    while j < cs.len()
        invariant
            start <= j <= cs.len(),
            cs@ == s@,
            start <= 1,
            (start == 1) == (s@.len() >= 1 && (s@[0] == '-' || s@[0] == '+')),
            body == s@.subrange(start as int, s@.len() as int),
            all_digits(body.subrange(0, j - start)),
            !huge ==> acc == digits_val(body.subrange(0, j - start)),
            huge ==> digits_val(body.subrange(0, j - start)) > u128::MAX,
        decreases cs.len() - j,
    {
        let c = cs[j];
        let code = c as u32;
        if code < 48 || code > 57 {
            assert(body[j - start] == c && !is_digit(c));
            assert(!all_digits(body));
            return ParsedNum::Bad;
        }
        let d = (code - 48) as u128;
        let ghost pre = body.subrange(0, j - start);
        let ghost pre1 = body.subrange(0, j + 1 - start);
        proof {
            assert(pre1.drop_last() =~= pre);
            assert(pre1.last() == body[j - start]);
            assert(digits_val(pre1) == digits_val(pre) * 10 + digit_val(body[j - start]));
        }
        if !huge {
            let next = match acc.checked_mul(10) {
                Some(x) => x.checked_add(d),
                None => None,
            };
            match next {
                Some(y) => {
                    acc = y;
                },
                None => {
                    huge = true;
                },
            }
        }
        j += 1;
    }
    proof {
        assert(body.subrange(0, s@.len() - start) =~= body);
        assert(body.len() > 0);
    }
    if huge {
        proof {
            if neg {
                assert(num_of_str(s@, allow_neg) == Some(-(digits_val(body) as int)));
            }
        }
        ParsedNum::Huge(neg)
    } else {
        ParsedNum::Num(neg, acc)
    }
}

// ---------------------------------------------------------------------------
// Booleans
// ---------------------------------------------------------------------------

/// What a lowercased string means as a bool: `true`/`yes` and `false`/`no`.
pub open spec fn bool_of_lower(l: Seq<char>) -> Option<bool> {
    if l == seq!['t', 'r', 'u', 'e'] || l == seq!['y', 'e', 's'] {
        Some(true)
    } else if l == seq!['f', 'a', 'l', 's', 'e'] || l == seq!['n', 'o'] {
        Some(false)
    } else {
        None
    }
}

// ---------------------------------------------------------------------------
// Durations
// ---------------------------------------------------------------------------

/// One step of the duration scanner, which walks the text from the end:
/// state is (magnitude, place value of the next digit, unit seen).  A unit
/// letter may appear only at the very end (`h`, `m`, `s`, with `ms`, `us`,
/// `ns` as two-letter forms; `M` marks minutes); digits accumulate from the
/// right; anything else fails.
pub open spec fn dur_step(st: (nat, nat, Option<char>), c: char) -> Option<
    (nat, nat, Option<char>),
> {
    if (c == 'h' || c == 'm' || c == 's') && st.2 is None {
        if c == 'm' {
            Some((st.0, st.1, Some('M')))
        } else {
            Some((st.0, st.1, Some(c)))
        }
    } else if (c == 'm' || c == 'u' || c == 'n') && st.2 == Some('s') {
        Some((st.0, st.1, Some(c)))
    } else if is_digit(c) {
        let last = if st.2 is None {
            Some('s')
        } else {
            st.2
        };
        Some((st.0 + st.1 * digit_val(c), st.1 * 10, last))
    } else {
        None
    }
}

/// Fold the duration scanner over the text, from the end.
pub open spec fn dur_fold(s: Seq<char>, st: (nat, nat, Option<char>)) -> Option<
    (nat, nat, Option<char>),
>
    decreases s.len(),
{
    if s.len() == 0 {
        Some(st)
    } else {
        match dur_step(st, s.last()) {
            Some(st2) => dur_fold(s.drop_last(), st2),
            None => None,
        }
    }
}

/// The seconds and nanoseconds a duration string denotes, if well formed:
/// a bare number means seconds.
pub open spec fn duration_spec(s: Seq<char>) -> Option<(nat, nat)> {
    match dur_fold(s, (0, 1, None)) {
        None => None,
        Some((i, _, last)) => {
            let unit = match last {
                Some(u) => u,
                None => 's',
            };
            if unit == 'h' {
                Some(((i * 3600) as nat, 0))
            } else if unit == 'M' {
                Some(((i * 60) as nat, 0))
            } else if unit == 's' {
                Some((i, 0))
            } else if unit == 'm' {
                Some((i / 1000, (i % 1000) * 1000000))
            } else if unit == 'u' {
                Some((i / 1000000, (i % 1000000) * 1000))
            } else {
                Some((i / 1000000000, i % 1000000000))
            }
        },
    }
}

/// Parse a duration string into whole seconds and nanoseconds: digits with
/// an optional trailing unit (`h`, `m`, `s`, `ms`, `us`, `ns`; none means
/// seconds).  `None` where the text is malformed, or where the magnitude or
/// the seconds leave the machine's range.
pub fn parse_duration_str(du: &str) -> (r: Option<(u64, u32)>)
    ensures
        match duration_spec(du@) {
            None => r is None,
            Some((secs, nanos)) => if (dur_fold(du@, (0nat, 1nat, None::<char>)) matches Some(st)
                && st.0 <= u64::MAX && st.1 <= u128::MAX && secs <= u64::MAX) {
                r == Some((secs as u64, nanos as u32))
            } else {
                r is None
            },
        },
{
    let cs = str_chars(du);
    let mut i: u128 = 0;
    let mut multi: u128 = 1;
    let mut last: Option<char> = None;
    let mut sat = false;
    let mut j: usize = cs.len();
    let ghost s = du@;
    let ghost mut gi: nat = 0;
    let ghost mut gmulti: nat = 1;
    proof {
        assert(s.subrange(0, s.len() as int) =~= s);
    }
    while j > 0
        invariant
            j <= cs@.len(),
            cs@ == s,
            s == du@,
            dur_fold(s, (0nat, 1nat, None::<char>)) == dur_fold(
                s.subrange(0, j as int),
                (gi, gmulti, last),
            ),
            !sat ==> i == gi && multi == gmulti,
            sat ==> gi > u128::MAX || gmulti > u128::MAX,
        decreases j,
    {
        let c = cs[j - 1];
        let ghost pre = s.subrange(0, j as int);
        proof {
            assert(pre.len() == j);
            assert(pre.last() == c);
            assert(pre.drop_last() =~= s.subrange(0, j - 1));
        }
        let code = c as u32;
        let last_is_none = last.is_none();
        let last_is_s = match last {
            Some(x) => x == 's',
            None => false,
        };
        if (c == 'h' || c == 'm' || c == 's') && last_is_none {
            if c == 'm' {
                last = Some('M');
            } else {
                last = Some(c);
            }
        } else if (c == 'm' || c == 'u' || c == 'n') && last_is_s {
            last = Some(c);
        } else if 48 <= code && code <= 57 {
            let d = (code - 48) as u128;
            if last_is_none {
                last = Some('s');
            }
            proof {
                let prev_gi = gi;
                let prev_gm = gmulti;
                gi = gi + gmulti * digit_val(c);
                gmulti = gmulti * 10;
                assert(gi >= prev_gi);
                assert(gmulti >= prev_gm) by (nonlinear_arith)
                    requires
                        gmulti == prev_gm * 10,
                        prev_gm >= 0,
                ;
            }
            if !sat {
                let add = multi.checked_mul(d);
                let next_i = match add {
                    Some(a) => i.checked_add(a),
                    None => None,
                };
                match next_i {
                    Some(x) => {
                        i = x;
                    },
                    None => {
                        sat = true;
                        proof {
                            assert(gi > u128::MAX);
                        }
                    },
                }
                if !sat {
                    match multi.checked_mul(10) {
                        Some(m) => {
                            multi = m;
                        },
                        None => {
                            sat = true;
                        },
                    }
                }
            }
        } else {
            proof {
                assert(dur_step((gi, gmulti, last), c) is None);
                assert(dur_fold(s.subrange(0, j as int), (gi, gmulti, last)) is None);
                assert(dur_fold(s, (0nat, 1nat, None::<char>)) is None);
                assert(dur_fold(du@, (0nat, 1nat, None::<char>)) is None);
                assert(duration_spec(du@) is None);
            }
            return None;
        }
        j -= 1;
    }
    proof {
        assert(s.subrange(0, 0) =~= Seq::<char>::empty());
    }
    if sat {
        return None;
    }
    let unit = match last {
        Some(u) => u,
        None => 's',
    };
    if i > u64::MAX as u128 {
        return None;
    }
    let iv = i as u64;
    if unit == 'h' {
        match iv.checked_mul(3600) {
            Some(x) => Some((x, 0)),
            None => None,
        }
    } else if unit == 'M' {
        match iv.checked_mul(60) {
            Some(x) => Some((x, 0)),
            None => None,
        }
    } else if unit == 's' {
        Some((iv, 0))
    } else if unit == 'm' {
        Some((iv / 1000, ((iv % 1000) as u32) * 1000000))
    } else if unit == 'u' {
        Some((iv / 1000000, ((iv % 1000000) as u32) * 1000))
    } else {
        Some((iv / 1000000000, (iv % 1000000000) as u32))
    }
}

/// What lowercasing yields: the result depends on the characters alone.
pub uninterp spec fn lower_of(s: Seq<char>) -> Seq<char>;

/// Relies on `str::to_lowercase`: the result is a function of the characters
/// alone.
#[verifier::external_body]
pub fn lowercase(s: &str) -> (r: String)
    ensures
        r@ == lower_of(s@),
{
    s.to_lowercase()
}

/// Are two strings the same sequence of characters?
pub fn str_eq(a: &str, b: &str) -> (r: bool)
    ensures
        r == (a@ == b@),
{
    let an = a.unicode_len();
    let bn = b.unicode_len();
    if an != bn {
        assert(a@ != b@);
        return false;
    }
    let mut i: usize = 0;
    while i < an
        invariant
            i <= an,
            an == a@.len(),
            an == b@.len(),
            forall|k: int| 0 <= k < i ==> a@[k] == b@[k],
        decreases an - i,
    {
        if a.get_char(i) != b.get_char(i) {
            return false;
        }
        i += 1;
    }
    proof {
        assert(a@ =~= b@);
    }
    true
}

} // verus!
