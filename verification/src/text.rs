//! Character-level text primitives with exact mathematical models.
//!
//! Everything in the library that inspects text works on `Seq<char>` models:
//! Unicode whitespace, ASCII case folding, `trim`, `lines`, whitespace
//! tokenisation, unsigned-integer parsing, substring search and replacement.
//! Each executable helper is proved to agree with its model.

use vstd::prelude::*;

verus! {

// ---------------------------------------------------------------------------
// Character classes
// ---------------------------------------------------------------------------

/// Unicode `White_Space` (the property behind `char::is_whitespace`).
pub open spec fn is_ws(c: char) -> bool {
    ||| ('\u{9}' <= c && c <= '\u{d}')
    ||| c == ' '
    ||| c == '\u{85}'
    ||| c == '\u{a0}'
    ||| c == '\u{1680}'
    ||| ('\u{2000}' <= c && c <= '\u{200a}')
    ||| c == '\u{2028}'
    ||| c == '\u{2029}'
    ||| c == '\u{202f}'
    ||| c == '\u{205f}'
    ||| c == '\u{3000}'
}

pub open spec fn is_digit(c: char) -> bool {
    '0' <= c && c <= '9'
}

pub open spec fn is_upper(c: char) -> bool {
    'A' <= c && c <= 'Z'
}

pub open spec fn is_lower(c: char) -> bool {
    'a' <= c && c <= 'z'
}

pub open spec fn is_alnum(c: char) -> bool {
    is_digit(c) || is_upper(c) || is_lower(c)
}

/// ASCII lower-casing of one character; every other character is unchanged.
pub open spec fn lower_char(c: char) -> char {
    if is_upper(c) {
        ((c as u32) + 32) as char
    } else {
        c
    }
}

/// ASCII upper-casing of one character; every other character is unchanged.
pub open spec fn upper_char(c: char) -> char {
    if is_lower(c) {
        ((c as u32) - 32) as char
    } else {
        c
    }
}

pub open spec fn lower(s: Seq<char>) -> Seq<char> {
    Seq::new(s.len(), |i: int| lower_char(s[i]))
}

pub open spec fn upper(s: Seq<char>) -> Seq<char> {
    Seq::new(s.len(), |i: int| upper_char(s[i]))
}

pub open spec fn digit_value(c: char) -> nat {
    ((c as u32) - ('0' as u32)) as nat
}

pub fn is_ws_char(c: char) -> (r: bool)
    ensures
        r == is_ws(c),
{
    ('\u{9}' <= c && c <= '\u{d}') || c == ' ' || c == '\u{85}' || c == '\u{a0}' || c
        == '\u{1680}' || ('\u{2000}' <= c && c <= '\u{200a}') || c == '\u{2028}' || c
        == '\u{2029}' || c == '\u{202f}' || c == '\u{205f}' || c == '\u{3000}'
}

pub fn is_digit_char(c: char) -> (r: bool)
    ensures
        r == is_digit(c),
{
    '0' <= c && c <= '9'
}

pub fn is_alnum_char(c: char) -> (r: bool)
    ensures
        r == is_alnum(c),
{
    ('0' <= c && c <= '9') || ('A' <= c && c <= 'Z') || ('a' <= c && c <= 'z')
}

pub fn lower_char_exec(c: char) -> (r: char)
    ensures
        r == lower_char(c),
{
    if 'A' <= c && c <= 'Z' {
        let u: u32 = c as u32;
        let l: u8 = (u + 32) as u8;
        assert(l as u32 == u + 32);
        l as char
    } else {
        c
    }
}

pub fn upper_char_exec(c: char) -> (r: char)
    ensures
        r == upper_char(c),
{
    if 'a' <= c && c <= 'z' {
        let u: u32 = c as u32;
        let l: u8 = (u - 32) as u8;
        assert(l as u32 == u - 32);
        l as char
    } else {
        c
    }
}

pub fn digit_value_exec(c: char) -> (r: u32)
    requires
        is_digit(c),
    ensures
        r as nat == digit_value(c),
        r < 10,
{
    (c as u32) - ('0' as u32)
}

// ---------------------------------------------------------------------------
// Conversions between `str`/`String` and character vectors
// ---------------------------------------------------------------------------

pub fn chars_of(s: &str) -> (v: Vec<char>)
    ensures
        v@ == s@,
{
    let mut v: Vec<char> = Vec::new();
    for c in it: s.chars()
        invariant
            v@ == it.seq().take(it.index() as int),
            it.seq() == s@,
    {
        v.push(c);
    }
    v
}

/// Appends one character to a `String` (`String::push`).
#[verifier::external_body]
fn push_char(s: &mut String, c: char)
    ensures
        final(s)@ == old(s)@.push(c),
{
    s.push(c);
}

pub fn string_of(v: &[char]) -> (s: String)
    ensures
        s@ == v@,
{
    let mut s = String::new();
    let mut i: usize = 0;
    while i < v.len()
        invariant
            i <= v@.len(),
            s@ == v@.take(i as int),
        decreases v@.len() - i,
    {
        push_char(&mut s, v[i]);
        i = i + 1;
        assert(s@ =~= v@.take(i as int));
    }
    assert(v@.take(v@.len() as int) =~= v@);
    s
}

pub fn lower_vec(v: &[char]) -> (r: Vec<char>)
    ensures
        r@ == lower(v@),
{
    let mut r: Vec<char> = Vec::new();
    let mut i: usize = 0;
    while i < v.len()
        invariant
            i <= v@.len(),
            r@ == lower(v@).take(i as int),
        decreases v@.len() - i,
    {
        r.push(lower_char_exec(v[i]));
        i = i + 1;
        assert(r@ =~= lower(v@).take(i as int));
    }
    assert(lower(v@).take(v@.len() as int) =~= lower(v@));
    r
}

pub fn upper_vec(v: &[char]) -> (r: Vec<char>)
    ensures
        r@ == upper(v@),
{
    let mut r: Vec<char> = Vec::new();
    let mut i: usize = 0;
    while i < v.len()
        invariant
            i <= v@.len(),
            r@ == upper(v@).take(i as int),
        decreases v@.len() - i,
    {
        r.push(upper_char_exec(v[i]));
        i = i + 1;
        assert(r@ =~= upper(v@).take(i as int));
    }
    assert(upper(v@).take(v@.len() as int) =~= upper(v@));
    r
}

/// Copy of `v[lo..hi]`.
pub fn slice_range(v: &[char], lo: usize, hi: usize) -> (r: Vec<char>)
    requires
        lo <= hi <= v@.len(),
    ensures
        r@ == v@.subrange(lo as int, hi as int),
{
    let mut r: Vec<char> = Vec::new();
    let mut i: usize = lo;
    while i < hi
        invariant
            lo <= i <= hi,
            hi <= v@.len(),
            r@ == v@.subrange(lo as int, i as int),
        decreases hi - i,
    {
        r.push(v[i]);
        i = i + 1;
        assert(r@ =~= v@.subrange(lo as int, i as int));
    }
    r
}

pub fn chars_eq(a: &[char], b: &[char]) -> (r: bool)
    ensures
        r == (a@ == b@),
{
    if a.len() != b.len() {
        return false;
    }
    let mut i: usize = 0;
    while i < a.len()
        invariant
            i <= a@.len(),
            a@.len() == b@.len(),
            forall|k: int| 0 <= k < i ==> a@[k] == b@[k],
        decreases a@.len() - i,
    {
        if a[i] != b[i] {
            return false;
        }
        i = i + 1;
    }
    assert(a@ =~= b@);
    true
}

/// Whether `v` equals the text of `lit`.
pub fn eq_lit(v: &[char], lit: &str) -> (r: bool)
    ensures
        r == (v@ == lit@),
{
    let l = chars_of(lit);
    chars_eq(v, l.as_slice())
}

// ---------------------------------------------------------------------------
// Prefixes and substring search
// ---------------------------------------------------------------------------

/// `pat` occurs in `s` starting at position `p`.
pub open spec fn occurs_at(s: Seq<char>, pat: Seq<char>, p: int) -> bool {
    0 <= p && p + pat.len() <= s.len() && s.subrange(p, p + pat.len()) == pat
}

pub open spec fn starts_with(s: Seq<char>, pat: Seq<char>) -> bool {
    occurs_at(s, pat, 0)
}

pub fn occurs_at_exec(s: &[char], pat: &[char], p: usize) -> (r: bool)
    ensures
        r == occurs_at(s@, pat@, p as int),
{
    let n = s.len();
    if p > n || pat.len() > n - p {
        return false;
    }
    let mut k: usize = 0;
    while k < pat.len()
        invariant
            n == s@.len(),
            k <= pat@.len(),
            p + pat@.len() <= s@.len(),
            forall|j: int| 0 <= j < k ==> s@[p + j] == pat@[j],
        decreases pat@.len() - k,
    {
        if s[p + k] != pat[k] {
            assert(s@.subrange(p as int, p + pat@.len())[k as int] != pat@[k as int]);
            return false;
        }
        k = k + 1;
    }
    assert(s@.subrange(p as int, p + pat@.len()) =~= pat@);
    true
}

/// The first position `>= from` at which `pat` occurs in `s`.
pub open spec fn find_from(s: Seq<char>, pat: Seq<char>, from: int) -> Option<int>
    decreases s.len() + 1 - from,
{
    if from < 0 || from + pat.len() > s.len() {
        None
    } else if occurs_at(s, pat, from) {
        Some(from)
    } else {
        find_from(s, pat, from + 1)
    }
}

pub proof fn lemma_find_from(s: Seq<char>, pat: Seq<char>, from: int)
    requires
        0 <= from,
    ensures
        find_from(s, pat, from) matches Some(p) ==> from <= p && occurs_at(s, pat, p) && forall|
            q: int,
        |
            from <= q < p ==> !occurs_at(s, pat, q),
        find_from(s, pat, from) is None ==> forall|q: int| from <= q ==> !occurs_at(s, pat, q),
    decreases s.len() + 1 - from,
{
    if from + pat.len() > s.len() {
    } else if occurs_at(s, pat, from) {
    } else {
        lemma_find_from(s, pat, from + 1);
    }
}

pub fn find_from_exec(s: &[char], pat: &[char], from: usize) -> (r: Option<usize>)
    ensures
        match r {
            Some(p) => find_from(s@, pat@, from as int) == Some(p as int),
            None => find_from(s@, pat@, from as int) is None,
        },
{
    if pat.len() == 0 {
        if from <= s.len() {
            assert(occurs_at(s@, pat@, from as int)) by {
                assert(s@.subrange(from as int, from as int) =~= pat@);
            }
            return Some(from);
        }
        return None;
    }
    if pat.len() > s.len() {
        return None;
    }
    let mut i: usize = from;
    while i <= s.len() - pat.len()
        invariant
            from <= i,
            1 <= pat@.len() <= s@.len(),
            find_from(s@, pat@, from as int) == find_from(s@, pat@, i as int),
        decreases s@.len() - i,
    {
        if occurs_at_exec(s, pat, i) {
            return Some(i);
        }
        i = i + 1;
    }
    None
}

// ---------------------------------------------------------------------------
// Trimming
// ---------------------------------------------------------------------------

/// Number of leading whitespace characters.
pub open spec fn ws_prefix_len(s: Seq<char>) -> nat
    decreases s.len(),
{
    if s.len() > 0 && is_ws(s[0]) {
        1 + ws_prefix_len(s.drop_first())
    } else {
        0
    }
}

/// Number of trailing whitespace characters.
pub open spec fn ws_suffix_len(s: Seq<char>) -> nat
    decreases s.len(),
{
    if s.len() > 0 && is_ws(s.last()) {
        1 + ws_suffix_len(s.drop_last())
    } else {
        0
    }
}

/// `str::trim_start`.
pub open spec fn trim_start(s: Seq<char>) -> Seq<char> {
    s.skip(ws_prefix_len(s) as int)
}

/// `str::trim_end`.
pub open spec fn trim_end(s: Seq<char>) -> Seq<char> {
    s.take(s.len() - ws_suffix_len(s))
}

/// `str::trim`.
pub open spec fn trim(s: Seq<char>) -> Seq<char> {
    trim_start(trim_end(s))
}

pub proof fn lemma_ws_prefix_len(s: Seq<char>, i: int)
    requires
        0 <= i <= s.len(),
        forall|k: int| 0 <= k < i ==> is_ws(#[trigger] s[k]),
        i == s.len() || !is_ws(s[i]),
    ensures
        ws_prefix_len(s) == i,
    decreases i,
{
    if i > 0 {
        let t = s.drop_first();
        assert forall|k: int| 0 <= k < i - 1 implies is_ws(#[trigger] t[k]) by {
            assert(t[k] == s[k + 1]);
        }
        lemma_ws_prefix_len(t, i - 1);
    }
}

pub proof fn lemma_ws_suffix_len(s: Seq<char>, j: int)
    requires
        0 <= j <= s.len(),
        forall|k: int| j <= k < s.len() ==> is_ws(#[trigger] s[k]),
        j == 0 || !is_ws(s[j - 1]),
    ensures
        ws_suffix_len(s) == s.len() - j,
    decreases s.len() - j,
{
    if j < s.len() {
        let t = s.drop_last();
        assert forall|k: int| j <= k < t.len() implies is_ws(#[trigger] t[k]) by {
            assert(t[k] == s[k]);
        }
        lemma_ws_suffix_len(t, j);
    }
}

pub proof fn lemma_ws_prefix_bound(s: Seq<char>)
    ensures
        ws_prefix_len(s) <= s.len(),
        forall|k: int| 0 <= k < ws_prefix_len(s) ==> is_ws(#[trigger] s[k]),
        ws_prefix_len(s) < s.len() ==> !is_ws(s[ws_prefix_len(s) as int]),
    decreases s.len(),
{
    if s.len() > 0 && is_ws(s[0]) {
        let t = s.drop_first();
        lemma_ws_prefix_bound(t);
        assert forall|k: int| 0 <= k < ws_prefix_len(s) implies is_ws(#[trigger] s[k]) by {
            if k > 0 {
                assert(s[k] == t[k - 1]);
            }
        }
        if ws_prefix_len(s) < s.len() {
            assert(s[ws_prefix_len(s) as int] == t[ws_prefix_len(t) as int]);
        }
    }
}

pub proof fn lemma_ws_suffix_bound(s: Seq<char>)
    ensures
        ws_suffix_len(s) <= s.len(),
        forall|k: int| s.len() - ws_suffix_len(s) <= k < s.len() ==> is_ws(#[trigger] s[k]),
        ws_suffix_len(s) < s.len() ==> !is_ws(s[s.len() - ws_suffix_len(s) - 1]),
    decreases s.len(),
{
    if s.len() > 0 && is_ws(s.last()) {
        let t = s.drop_last();
        lemma_ws_suffix_bound(t);
        assert forall|k: int| s.len() - ws_suffix_len(s) <= k < s.len() implies is_ws(
            #[trigger] s[k],
        ) by {
            if k < s.len() - 1 {
                assert(s[k] == t[k]);
            }
        }
        if ws_suffix_len(s) < s.len() {
            assert(s[s.len() - ws_suffix_len(s) - 1] == t[t.len() - ws_suffix_len(t) - 1]);
        }
    }
}

/// Index of the first non-whitespace character of `v[lo..hi]` (or `hi`).
pub fn skip_ws(v: &[char], lo: usize, hi: usize) -> (r: usize)
    requires
        lo <= hi <= v@.len(),
    ensures
        lo <= r <= hi,
        r - lo == ws_prefix_len(v@.subrange(lo as int, hi as int)),
{
    let mut i = lo;
    while i < hi && is_ws_char(v[i])
        invariant
            lo <= i <= hi,
            hi <= v@.len(),
            forall|k: int| lo <= k < i ==> is_ws(#[trigger] v@[k]),
        decreases hi - i,
    {
        i = i + 1;
    }
    proof {
        let s = v@.subrange(lo as int, hi as int);
        assert forall|k: int| 0 <= k < i - lo implies is_ws(#[trigger] s[k]) by {
            assert(s[k] == v@[lo + k]);
        }
        if i < hi {
            assert(s[i - lo] == v@[i as int]);
        }
        lemma_ws_prefix_len(s, i - lo);
    }
    i
}

/// One past the last non-whitespace character of `v[lo..hi]` (or `lo`).
pub fn skip_ws_back(v: &[char], lo: usize, hi: usize) -> (r: usize)
    requires
        lo <= hi <= v@.len(),
    ensures
        lo <= r <= hi,
        hi - r == ws_suffix_len(v@.subrange(lo as int, hi as int)),
{
    let mut j = hi;
    while j > lo && is_ws_char(v[j - 1])
        invariant
            lo <= j <= hi,
            hi <= v@.len(),
            forall|k: int| j <= k < hi ==> is_ws(#[trigger] v@[k]),
        decreases j - lo,
    {
        j = j - 1;
    }
    proof {
        let s = v@.subrange(lo as int, hi as int);
        assert forall|k: int| j - lo <= k < s.len() implies is_ws(#[trigger] s[k]) by {
            assert(s[k] == v@[lo + k]);
        }
        if j > lo {
            assert(s[j - lo - 1] == v@[j - 1]);
        }
        lemma_ws_suffix_len(s, j - lo);
    }
    j
}

/// Bounds `(a, b)` such that `v[a..b]` is `trim(v[lo..hi])`.
pub fn trim_bounds(v: &[char], lo: usize, hi: usize) -> (r: (usize, usize))
    requires
        lo <= hi <= v@.len(),
    ensures
        lo <= r.0 <= r.1 <= hi,
        v@.subrange(r.0 as int, r.1 as int) == trim(v@.subrange(lo as int, hi as int)),
{
    let b = skip_ws_back(v, lo, hi);
    let a = skip_ws(v, lo, b);
    proof {
        let s = v@.subrange(lo as int, hi as int);
        assert(trim_end(s) =~= v@.subrange(lo as int, b as int));
        assert(trim(s) =~= v@.subrange(a as int, b as int));
    }
    (a, b)
}

pub fn trim_vec(v: &[char]) -> (r: Vec<char>)
    ensures
        r@ == trim(v@),
{
    let (a, b) = trim_bounds(v, 0, v.len());
    assert(v@.subrange(0, v@.len() as int) =~= v@);
    slice_range(v, a, b)
}

/// Number of leading copies of `c`.
pub open spec fn lead_len(s: Seq<char>, c: char) -> nat
    decreases s.len(),
{
    if s.len() > 0 && s[0] == c {
        1 + lead_len(s.drop_first(), c)
    } else {
        0
    }
}

proof fn lemma_lead_len(s: Seq<char>, c: char, i: int)
    requires
        0 <= i <= s.len(),
        forall|k: int| 0 <= k < i ==> #[trigger] s[k] == c,
        i == s.len() || s[i] != c,
    ensures
        lead_len(s, c) == i,
    decreases i,
{
    if i > 0 {
        let t = s.drop_first();
        assert forall|k: int| 0 <= k < i - 1 implies #[trigger] t[k] == c by {
            assert(t[k] == s[k + 1]);
        }
        lemma_lead_len(t, c, i - 1);
    }
}

/// `str::trim_start_matches(c)`: the text after its leading copies of `c`.
pub fn skip_lead(v: &[char], c: char) -> (r: Vec<char>)
    ensures
        r@ == v@.skip(lead_len(v@, c) as int),
{
    let mut i: usize = 0;
    while i < v.len() && v[i] == c
        invariant
            i <= v@.len(),
            forall|k: int| 0 <= k < i ==> #[trigger] v@[k] == c,
        decreases v@.len() - i,
    {
        i = i + 1;
    }
    proof {
        lemma_lead_len(v@, c, i as int);
    }
    let r = slice_range(v, i, v.len());
    assert(r@ =~= v@.skip(i as int));
    r
}

/// Text that starts and ends with a non-whitespace character is its own trim.
pub proof fn lemma_trim_plain(s: Seq<char>)
    requires
        s.len() == 0 || (!is_ws(s[0]) && !is_ws(s.last())),
    ensures
        trim(s) == s,
{
    lemma_ws_suffix_len(s, s.len() as int);
    assert(trim_end(s) =~= s);
    lemma_ws_prefix_len(s, 0);
    assert(trim_start(s) =~= s);
}

pub open spec fn all_ws(s: Seq<char>) -> bool {
    forall|i: int| 0 <= i < s.len() ==> is_ws(#[trigger] s[i])
}

/// Whitespace added around a text disappears again under `trim`.
pub proof fn lemma_trim_padded(pre: Seq<char>, s: Seq<char>, post: Seq<char>)
    requires
        all_ws(pre),
        all_ws(post),
    ensures
        trim(pre + s + post) == trim(s),
{
    let x = pre + s + post;
    let a = pre.len() as int;
    let b = a + s.len();
    lemma_ws_prefix_bound(s);
    lemma_ws_suffix_bound(s);
    let p = ws_prefix_len(s) as int;
    let q = ws_suffix_len(s) as int;
    if p == s.len() {
        // `s` is all whitespace, and so is `x`: both trim to nothing.
        assert forall|k: int| 0 <= k < x.len() implies is_ws(#[trigger] x[k]) by {
            if k < a {
                assert(x[k] == pre[k]);
            } else if k < b {
                assert(x[k] == s[k - a]);
            } else {
                assert(x[k] == post[k - b]);
            }
        }
        lemma_ws_suffix_len(x, 0);
        lemma_ws_suffix_len(s, 0);
        assert(trim_end(x).len() == 0);
        assert(trim_end(s).len() == 0);
        assert(trim(x) =~= trim(s));
    } else {
        // The first and last non-blank characters of `s` bound both trims.
        let last = s.len() - q - 1;
        assert(p <= last) by {
            if p > last {
                assert(!is_ws(s[last]));
                assert(is_ws(s[last]));
            }
        }
        assert forall|k: int| b - q <= k < x.len() implies is_ws(
            #[trigger] x[k],
        ) by {
            if k < b {
                assert(x[k] == s[k - a]);
            } else {
                assert(x[k] == post[k - b]);
            }
        }
        assert(x[a + last] == s[last]);
        lemma_ws_suffix_len(x, a + last + 1);
        let xe = trim_end(x);
        let se = trim_end(s);
        assert forall|k: int| 0 <= k < a + p implies is_ws(#[trigger] xe[k]) by {
            if k < a {
                assert(xe[k] == pre[k]);
            } else {
                assert(xe[k] == s[k - a]);
            }
        }
        assert(xe[a + p] == s[p]);
        lemma_ws_prefix_len(xe, a + p);
        assert(se[p] == s[p]);
        assert forall|k: int| 0 <= k < p implies is_ws(#[trigger] se[k]) by {
            assert(se[k] == s[k]);
        }
        lemma_ws_prefix_len(se, p);
        assert(trim(x) =~= trim(s));
    }
}

/// A non-empty trim starts and ends with a non-whitespace character.
pub proof fn lemma_trim_ends(s: Seq<char>)
    ensures
        trim(s).len() <= s.len(),
        trim(s).len() > 0 ==> !is_ws(trim(s)[0]) && !is_ws(trim(s).last()),
{
    lemma_ws_suffix_bound(s);
    let e = trim_end(s);
    lemma_ws_prefix_bound(e);
    let t = trim(s);
    if t.len() > 0 {
        let p = ws_prefix_len(e) as int;
        assert(t[0] == e[p]);
        assert(t.last() == s[s.len() - ws_suffix_len(s) - 1]);
    }
}

/// Text without ASCII capitals is its own lower-casing.
pub proof fn lemma_lower_plain(s: Seq<char>)
    requires
        forall|i: int| 0 <= i < s.len() ==> !is_upper(#[trigger] s[i]),
    ensures
        lower(s) == s,
{
    assert(lower(s) =~= s);
}

/// Two texts whose characters agree on being whitespace have whitespace
/// margins of the same widths.
proof fn lemma_same_ws_margins(s: Seq<char>, t: Seq<char>)
    requires
        s.len() == t.len(),
        forall|i: int| 0 <= i < s.len() ==> is_ws(#[trigger] s[i]) == is_ws(t[i]),
    ensures
        ws_prefix_len(t) == ws_prefix_len(s),
        ws_suffix_len(t) == ws_suffix_len(s),
{
    lemma_ws_prefix_bound(s);
    let p = ws_prefix_len(s) as int;
    assert forall|k: int| 0 <= k < p implies is_ws(#[trigger] t[k]) by {
        assert(is_ws(s[k]));
    }
    lemma_ws_prefix_len(t, p);
    lemma_ws_suffix_bound(s);
    let q = s.len() - ws_suffix_len(s);
    assert forall|k: int| q <= k < t.len() implies is_ws(#[trigger] t[k]) by {
        assert(is_ws(s[k]));
    }
    lemma_ws_suffix_len(t, q);
}

/// Trimming commutes with ASCII case changes, and a case change forgets any
/// earlier one: so the trimmed, case-folded key every name parser in this
/// library looks up does not depend on the ASCII case of its input.
pub proof fn lemma_trimmed_key_ignores_case(s: Seq<char>)
    ensures
        lower(trim(upper(s))) == lower(trim(s)),
        lower(trim(lower(s))) == lower(trim(s)),
        upper(trim(upper(s))) == upper(trim(s)),
        upper(trim(lower(s))) == upper(trim(s)),
{
    let u = upper(s);
    let l = lower(s);
    lemma_same_ws_margins(s, u);
    lemma_same_ws_margins(s, l);
    lemma_ws_suffix_bound(s);
    let te = trim_end(s);
    let ue = trim_end(u);
    let le = trim_end(l);
    assert(ue =~= upper(te));
    assert(le =~= lower(te));
    lemma_same_ws_margins(te, ue);
    lemma_same_ws_margins(te, le);
    lemma_ws_prefix_bound(te);
    assert(trim(u) =~= upper(trim(s)));
    assert(trim(l) =~= lower(trim(s)));
    assert(lower(upper(trim(s))) =~= lower(trim(s)));
    assert(lower(lower(trim(s))) =~= lower(trim(s)));
    assert(upper(upper(trim(s))) =~= upper(trim(s)));
    assert(upper(lower(trim(s))) =~= upper(trim(s)));
}

// ---------------------------------------------------------------------------
// Lines (`str::lines`)
// ---------------------------------------------------------------------------

/// Index of the first `'\n'` in `s`, or `s.len()` when there is none.
pub open spec fn newline_index(s: Seq<char>) -> nat
    decreases s.len(),
{
    if s.len() == 0 {
        0
    } else if s[0] == '\n' {
        0
    } else {
        1 + newline_index(s.drop_first())
    }
}

/// A line ending in `"\r\n"` loses its `'\r'` as well.
pub open spec fn strip_cr(s: Seq<char>) -> Seq<char> {
    if s.len() > 0 && s.last() == '\r' {
        s.drop_last()
    } else {
        s
    }
}

/// `str::lines`: pieces between `'\n'`s, a `'\r'` before a `'\n'` dropped, and
/// no empty piece after a final line ending.
pub open spec fn lines(s: Seq<char>) -> Seq<Seq<char>>
    decreases s.len(),
{
    if s.len() == 0 {
        Seq::empty()
    } else {
        let i = newline_index(s);
        if i < s.len() {
            seq![strip_cr(s.take(i as int))] + lines(s.skip(i as int + 1))
        } else {
            seq![s]
        }
    }
}

pub proof fn lemma_newline_index(s: Seq<char>, i: int)
    requires
        0 <= i <= s.len(),
        forall|k: int| 0 <= k < i ==> #[trigger] s[k] != '\n',
        i == s.len() || s[i] == '\n',
    ensures
        newline_index(s) == i,
    decreases i,
{
    if i > 0 {
        let t = s.drop_first();
        assert forall|k: int| 0 <= k < i - 1 implies #[trigger] t[k] != '\n' by {
            assert(t[k] == s[k + 1]);
        }
        lemma_newline_index(t, i - 1);
    }
}

/// Splits `v[pos..]` into its first line `v[pos..end]` (before stripping) and
/// the position `next` where the remaining text starts.
pub fn next_line(v: &[char], pos: usize) -> (r: (usize, usize, usize))
    requires
        pos < v@.len(),
    ensures
        ({
            let (lo, hi, next) = r;
            let s = v@.skip(pos as int);
            &&& pos <= lo <= hi <= next <= v@.len()
            &&& pos < next
            &&& lines(s) == seq![v@.subrange(lo as int, hi as int)] + lines(v@.skip(next as int))
        }),
{
    let mut i = pos;
    while i < v.len() && v[i] != '\n'
        invariant
            pos <= i <= v@.len(),
            forall|k: int| pos <= k < i ==> v@[k] != '\n',
        decreases v@.len() - i,
    {
        i = i + 1;
    }
    let ghost s = v@.skip(pos as int);
    proof {
        assert forall|k: int| 0 <= k < i - pos implies #[trigger] s[k] != '\n' by {
            assert(s[k] == v@[pos + k]);
        }
        if i < v.len() {
            assert(s[i - pos] == v@[i as int]);
        }
        lemma_newline_index(s, i - pos);
    }
    if i < v.len() {
        let hi = if i > pos && v[i - 1] == '\r' {
            i - 1
        } else {
            i
        };
        proof {
            assert(s.take(i - pos) =~= v@.subrange(pos as int, i as int));
            assert(s.skip(i - pos + 1) =~= v@.skip(i + 1));
            assert(strip_cr(s.take(i - pos)) =~= v@.subrange(pos as int, hi as int));
        }
        (pos, hi, i + 1)
    } else {
        proof {
            assert(s =~= v@.subrange(pos as int, v@.len() as int));
            assert(v@.skip(v@.len() as int) =~= Seq::<char>::empty());
            assert(lines(Seq::<char>::empty()) =~= Seq::<Seq<char>>::empty());
            assert(seq![s] + Seq::<Seq<char>>::empty() =~= seq![s]);
        }
        (pos, v.len(), v.len())
    }
}

// ---------------------------------------------------------------------------
// Whitespace tokens (`str::split_whitespace`)
// ---------------------------------------------------------------------------

/// Number of leading non-whitespace characters.
pub open spec fn word_len(s: Seq<char>) -> nat
    decreases s.len(),
{
    if s.len() > 0 && !is_ws(s[0]) {
        1 + word_len(s.drop_first())
    } else {
        0
    }
}

pub proof fn lemma_word_len(s: Seq<char>, i: int)
    requires
        0 <= i <= s.len(),
        forall|k: int| 0 <= k < i ==> !is_ws(#[trigger] s[k]),
        i == s.len() || is_ws(s[i]),
    ensures
        word_len(s) == i,
    decreases i,
{
    if i > 0 {
        let t = s.drop_first();
        assert forall|k: int| 0 <= k < i - 1 implies !is_ws(#[trigger] t[k]) by {
            assert(t[k] == s[k + 1]);
        }
        lemma_word_len(t, i - 1);
    }
}

pub proof fn lemma_word_len_bound(s: Seq<char>)
    ensures
        word_len(s) <= s.len(),
        s.len() > 0 && !is_ws(s[0]) ==> word_len(s) > 0,
    decreases s.len(),
{
    if s.len() > 0 && !is_ws(s[0]) {
        lemma_word_len_bound(s.drop_first());
    }
}

/// The maximal runs of non-whitespace characters, in order.
pub open spec fn words(s: Seq<char>) -> Seq<Seq<char>>
    decreases s.len(),
{
    let t = trim_start(s);
    if t.len() == 0 {
        Seq::empty()
    } else {
        let k = word_len(t);
        if k == 0 {
            Seq::empty()
        } else {
            proof {
                lemma_words_step(s);
            }
            seq![t.take(k as int)] + words(t.skip(k as int))
        }
    }
}

pub proof fn lemma_words_step(s: Seq<char>)
    ensures
        ({
            let t = trim_start(s);
            t.len() > 0 ==> word_len(t) > 0 && word_len(t) <= t.len() && t.len() <= s.len()
        }),
{
    lemma_ws_prefix_bound(s);
    let t = trim_start(s);
    if t.len() > 0 {
        assert(t[0] == s[ws_prefix_len(s) as int]);
        lemma_word_len_bound(t);
    }
}

/// Whitespace in front of a text adds to its leading whitespace.
proof fn lemma_ws_prefix_after_ws(u: Seq<char>, v: Seq<char>)
    requires
        all_ws(u),
    ensures
        ws_prefix_len(u + v) == u.len() + ws_prefix_len(v),
{
    lemma_ws_prefix_bound(v);
    let x = u + v;
    let p = u.len() + ws_prefix_len(v) as int;
    assert forall|k: int| 0 <= k < p implies is_ws(#[trigger] x[k]) by {
        if k < u.len() {
            assert(x[k] == u[k]);
        } else {
            assert(x[k] == v[k - u.len()]);
        }
    }
    if p < x.len() {
        assert(x[p] == v[ws_prefix_len(v) as int]);
    }
    lemma_ws_prefix_len(x, p);
}

/// What follows a text with a non-blank character does not change its
/// leading whitespace.
proof fn lemma_ws_prefix_before(u: Seq<char>, v: Seq<char>)
    requires
        ws_prefix_len(u) < u.len(),
    ensures
        ws_prefix_len(u + v) == ws_prefix_len(u),
{
    lemma_ws_prefix_bound(u);
    let x = u + v;
    let p = ws_prefix_len(u) as int;
    assert forall|k: int| 0 <= k < p implies is_ws(#[trigger] x[k]) by {
        assert(x[k] == u[k]);
    }
    assert(x[p] == u[p]);
    lemma_ws_prefix_len(x, p);
}

/// A word ends where it ended before anything was appended, or at the
/// appended whitespace.
proof fn lemma_word_len_before(t: Seq<char>, v: Seq<char>)
    requires
        word_len(t) < t.len() || v.len() == 0 || is_ws(v[0]),
    ensures
        word_len(t + v) == word_len(t),
{
    lemma_word_len_bound(t);
    let k = word_len(t) as int;
    let x = t + v;
    assert forall|j: int| 0 <= j < k implies !is_ws(#[trigger] x[j]) by {
        assert(x[j] == t[j]);
        lemma_word_prefix_nonws(t, j);
    }
    if k < t.len() {
        lemma_word_end_ws(t);
        assert(x[k] == t[k]);
    } else if v.len() > 0 {
        assert(x[k] == v[0]);
    }
    lemma_word_len(x, k);
}

proof fn lemma_word_prefix_nonws(t: Seq<char>, j: int)
    requires
        0 <= j < word_len(t),
    ensures
        !is_ws(t[j]),
    decreases j,
{
    lemma_word_len_bound(t);
    if j > 0 {
        lemma_word_prefix_nonws(t.drop_first(), j - 1);
        assert(t[j] == t.drop_first()[j - 1]);
    }
}

proof fn lemma_word_end_ws(t: Seq<char>)
    requires
        word_len(t) < t.len(),
    ensures
        is_ws(t[word_len(t) as int]),
    decreases t.len(),
{
    if t.len() > 0 && !is_ws(t[0]) {
        lemma_word_end_ws(t.drop_first());
    }
}

/// Words of an all-whitespace text: none.
proof fn lemma_words_blank(s: Seq<char>)
    requires
        all_ws(s),
    ensures
        words(s) == Seq::<Seq<char>>::empty(),
{
    lemma_ws_prefix_len(s, s.len() as int);
}

/// Joining two texts with whitespace joins their words.
pub proof fn lemma_words_concat(a: Seq<char>, w: Seq<char>, b: Seq<char>)
    requires
        all_ws(w),
        w.len() > 0,
    ensures
        words(a + w + b) == words(a) + words(b),
    decreases a.len(),
{
    let x = a + w + b;
    lemma_ws_prefix_bound(a);
    let p = ws_prefix_len(a) as int;
    if p == a.len() {
        let aw = a + w;
        assert(all_ws(aw)) by {
            assert forall|k: int| 0 <= k < aw.len() implies is_ws(#[trigger] aw[k]) by {
                if k < a.len() {
                    assert(aw[k] == a[k]);
                } else {
                    assert(aw[k] == w[k - a.len()]);
                }
            }
        }
        assert(x =~= aw + b);
        lemma_ws_prefix_after_ws(aw, b);
        lemma_ws_prefix_bound(b);
        assert(trim_start(x) =~= trim_start(b));
        assert(all_ws(a));
        lemma_words_blank(a);
        assert(words(a) + words(b) =~= words(b));
    } else {
        let ta = trim_start(a);
        assert(x =~= a + (w + b));
        lemma_ws_prefix_before(a, w + b);
        let tx = trim_start(x);
        assert(tx =~= ta + (w + b));
        assert(ta[0] == a[p]);
        lemma_word_len_bound(ta);
        let k = word_len(ta) as int;
        if k < ta.len() {
            lemma_word_len_before(ta, w + b);
        } else {
            assert((w + b)[0] == w[0]);
            lemma_word_len_before(ta, w + b);
        }
        assert(word_len(tx) == k);
        let rest = ta.skip(k);
        assert(tx.take(k) =~= ta.take(k));
        assert(tx.skip(k) =~= rest + w + b);
        lemma_words_step(x);
        lemma_words_step(a);
        lemma_words_concat(rest, w, b);
        assert(words(x) == seq![ta.take(k)] + words(rest + w + b));
        assert(words(a) == seq![ta.take(k)] + words(rest));
        assert(words(x) =~= words(a) + words(b));
    }
}

/// Finds the next word of `v[pos..]`: returns `(a, b)` with `v[a..b]` the
/// word, or `a == b == v.len()` when only whitespace remains.
pub fn next_word(v: &[char], pos: usize) -> (r: (usize, usize))
    requires
        pos <= v@.len(),
    ensures
        pos <= r.0 <= r.1 <= v@.len(),
        r.0 == r.1 ==> r.1 == v@.len() && words(v@.skip(pos as int)) == Seq::<Seq<char>>::empty(),
        r.0 < r.1 ==> words(v@.skip(pos as int)) == seq![v@.subrange(r.0 as int, r.1 as int)]
            + words(v@.skip(r.1 as int)),
{
    let a = skip_ws(v, pos, v.len());
    let mut b = a;
    while b < v.len() && !is_ws_char(v[b])
        invariant
            a <= b <= v@.len(),
            forall|k: int| a <= k < b ==> !is_ws(#[trigger] v@[k]),
        decreases v@.len() - b,
    {
        b = b + 1;
    }
    proof {
        let s = v@.skip(pos as int);
        assert(v@.subrange(pos as int, v@.len() as int) =~= s);
        let t = trim_start(s);
        assert(t =~= v@.skip(a as int));
        assert forall|k: int| 0 <= k < b - a implies !is_ws(#[trigger] t[k]) by {
            assert(t[k] == v@[a + k]);
        }
        if b < v.len() {
            assert(t[b - a] == v@[b as int]);
        }
        lemma_word_len(t, b - a);
        lemma_words_step(s);
        if a < b {
            assert(t.take(b - a) =~= v@.subrange(a as int, b as int));
            assert(t.skip(b - a) =~= v@.skip(b as int));
        } else if a < v.len() {
            lemma_ws_prefix_bound(s);
            assert(t[0] == v@[a as int]);
        }
    }
    (a, b)
}

// ---------------------------------------------------------------------------
// Unsigned integers (`str::parse::<u32>()` / `::<u64>()`)
// ---------------------------------------------------------------------------

pub open spec fn all_digits(s: Seq<char>) -> bool {
    forall|i: int| 0 <= i < s.len() ==> is_digit(#[trigger] s[i])
}

/// Decimal value of a digit string.
pub open spec fn digits_value(s: Seq<char>) -> nat
    decreases s.len(),
{
    if s.len() == 0 {
        0
    } else {
        digits_value(s.drop_last()) * 10 + digit_value(s.last())
    }
}

/// What `str::parse` gives for an unsigned integer type whose largest value is
/// `max`: an optional `'+'`, then one or more ASCII digits whose value fits.
pub open spec fn parse_unsigned(s: Seq<char>, max: nat) -> Option<nat> {
    let d = if s.len() > 0 && s[0] == '+' {
        s.drop_first()
    } else {
        s
    };
    if d.len() > 0 && all_digits(d) && digits_value(d) <= max {
        Some(digits_value(d))
    } else {
        None
    }
}

proof fn lemma_digits_value_mono(s: Seq<char>, c: char)
    requires
        is_digit(c),
    ensures
        digits_value(s.push(c)) == digits_value(s) * 10 + digit_value(c),
        digits_value(s.push(c)) >= digits_value(s),
{
    assert(s.push(c).drop_last() =~= s);
}

/// Parses `v[lo..hi]` as an unsigned integer no larger than `max`.
pub fn parse_unsigned_exec(v: &[char], lo: usize, hi: usize, max: u64) -> (r: Option<u64>)
    requires
        lo <= hi <= v@.len(),
    ensures
        match r {
            Some(n) => parse_unsigned(v@.subrange(lo as int, hi as int), max as nat) == Some(
                n as nat,
            ),
            None => parse_unsigned(v@.subrange(lo as int, hi as int), max as nat) is None,
        },
{
    let ghost s = v@.subrange(lo as int, hi as int);
    let start = if lo < hi && v[lo] == '+' {
        lo + 1
    } else {
        lo
    };
    let ghost d = v@.subrange(start as int, hi as int);
    proof {
        if lo < hi && v@[lo as int] == '+' {
            assert(s[0] == '+');
            assert(d =~= s.drop_first());
        } else {
            assert(d =~= s);
        }
    }
    assert(parse_unsigned(s, max as nat) == (if d.len() > 0 && all_digits(d) && digits_value(d)
        <= max {
        Some(digits_value(d))
    } else {
        None
    }));
    if start == hi {
        assert(d.len() == 0);
        return None;
    }
    let mut i = start;
    let mut acc: u64 = 0;
    while i < hi
        invariant
            start <= i <= hi,
            hi <= v@.len(),
            d == v@.subrange(start as int, hi as int),
            parse_unsigned(s, max as nat) == (if d.len() > 0 && all_digits(d) && digits_value(d)
                <= max {
                Some(digits_value(d))
            } else {
                None
            }),
            s == v@.subrange(lo as int, hi as int),
            all_digits(v@.subrange(start as int, i as int)),
            acc as nat == digits_value(v@.subrange(start as int, i as int)),
            acc <= max,
        decreases hi - i,
    {
        let c = v[i];
        if !is_digit_char(c) {
            assert(d[i - start] == c);
            return None;
        }
        let dv = digit_value_exec(c);
        proof {
            assert(v@.subrange(start as int, i + 1) =~= v@.subrange(start as int, i as int).push(c));
            lemma_digits_value_mono(v@.subrange(start as int, i as int), c);
        }
        let next: u128 = (acc as u128) * 10 + dv as u128;
        if next > max as u128 {
            proof {
                // Appending digits never decreases the value.
                assert(d.take(i - start + 1) =~= v@.subrange(start as int, i + 1));
                lemma_suffix_value_grows(d, i - start + 1);
            }
            return None;
        }
        acc = next as u64;
        i = i + 1;
    }
    assert(v@.subrange(start as int, hi as int) =~= d);
    Some(acc)
}

/// The value of a digit string is at least the value of any of its prefixes.
proof fn lemma_suffix_value_grows(d: Seq<char>, k: int)
    requires
        0 <= k <= d.len(),
        all_digits(d.take(k)),
    ensures
        all_digits(d) ==> digits_value(d) >= digits_value(d.take(k)),
    decreases d.len() - k,
{
    if k < d.len() && all_digits(d) {
        assert(d.take(k + 1) =~= d.take(k).push(d[k]));
        lemma_digits_value_mono(d.take(k), d[k]);
        lemma_suffix_value_grows(d, k + 1);
    } else if k == d.len() {
        assert(d.take(k) =~= d);
    }
}

// ---------------------------------------------------------------------------
// Replacement (`str::replace`)
// ---------------------------------------------------------------------------

/// Every non-overlapping occurrence of `pat`, scanning left to right, replaced
/// by `rep`.
pub open spec fn replace_all(s: Seq<char>, pat: Seq<char>, rep: Seq<char>) -> Seq<char>
    recommends
        pat.len() > 0,
    decreases s.len(),
{
    if s.len() == 0 || pat.len() == 0 {
        s
    } else if starts_with(s, pat) {
        rep + replace_all(s.skip(pat.len() as int), pat, rep)
    } else {
        seq![s[0]] + replace_all(s.drop_first(), pat, rep)
    }
}

/// Every `p` in `s` replaced by `rep`, character by character.
pub open spec fn subst_char(s: Seq<char>, p: char, rep: Seq<char>) -> Seq<char>
    decreases s.len(),
{
    if s.len() == 0 {
        s
    } else {
        (if s[0] == p {
            rep
        } else {
            seq![s[0]]
        }) + subst_char(s.drop_first(), p, rep)
    }
}

/// Replacing a one-character pattern replaces each occurrence on its own.
pub proof fn lemma_replace_single_char(s: Seq<char>, p: char, rep: Seq<char>)
    ensures
        replace_all(s, seq![p], rep) == subst_char(s, p, rep),
    decreases s.len(),
{
    if s.len() > 0 {
        let pat = seq![p];
        assert(starts_with(s, pat) <==> s[0] == p) by {
            if s[0] == p {
                assert(s.subrange(0, 1) =~= pat);
            }
            if starts_with(s, pat) {
                assert(s.subrange(0, 1)[0] == s[0]);
            }
        }
        assert(s.skip(1) =~= s.drop_first());
        lemma_replace_single_char(s.drop_first(), p, rep);
    }
}

/// Character-wise substitution distributes over concatenation.
pub proof fn lemma_subst_char_concat(a: Seq<char>, b: Seq<char>, p: char, rep: Seq<char>)
    ensures
        subst_char(a + b, p, rep) == subst_char(a, p, rep) + subst_char(b, p, rep),
    decreases a.len(),
{
    if a.len() == 0 {
        assert(a + b =~= b);
        assert(subst_char(a, p, rep) + subst_char(b, p, rep) =~= subst_char(b, p, rep));
    } else {
        assert((a + b).drop_first() =~= a.drop_first() + b);
        assert((a + b)[0] == a[0]);
        lemma_subst_char_concat(a.drop_first(), b, p, rep);
        let h = if a[0] == p {
            rep
        } else {
            seq![a[0]]
        };
        assert(h + (subst_char(a.drop_first(), p, rep) + subst_char(b, p, rep)) =~= (h
            + subst_char(a.drop_first(), p, rep)) + subst_char(b, p, rep));
    }
}

/// A character in the result of replacing a single character `p` comes from
/// the replacement, or is a character of the text other than `p`.
pub proof fn lemma_replace_char_origin(s: Seq<char>, p: char, rep: Seq<char>, x: char)
    requires
        replace_all(s, seq![p], rep).contains(x),
    ensures
        (x != p && s.contains(x)) || rep.contains(x),
    decreases s.len(),
{
    let pat = seq![p];
    if s.len() > 0 {
        let out = replace_all(s, pat, rep);
        let i = choose|i: int| 0 <= i < out.len() && out[i] == x;
        if starts_with(s, pat) {
            let t = s.skip(1);
            let r = replace_all(t, pat, rep);
            assert(out == rep + r);
            if i >= rep.len() {
                assert(r[i - rep.len()] == x);
                lemma_replace_char_origin(t, p, rep, x);
                if x != p && t.contains(x) {
                    let j = choose|j: int| 0 <= j < t.len() && t[j] == x;
                    assert(s[j + 1] == x);
                }
            } else {
                assert(rep[i] == x);
            }
        } else {
            let t = s.drop_first();
            let r = replace_all(t, pat, rep);
            assert(out == seq![s[0]] + r);
            if i == 0 {
                assert(s[0] != p) by {
                    if s[0] == p {
                        assert(s.subrange(0, 1) =~= pat);
                    }
                }
                assert(s[0] == x);
            } else {
                assert(r[i - 1] == x);
                lemma_replace_char_origin(t, p, rep, x);
                if x != p && t.contains(x) {
                    let j = choose|j: int| 0 <= j < t.len() && t[j] == x;
                    assert(s[j + 1] == x);
                }
            }
        }
    }
}

pub fn replace_vec(s: &[char], pat: &[char], rep: &[char]) -> (r: Vec<char>)
    requires
        pat@.len() > 0,
    ensures
        r@ == replace_all(s@, pat@, rep@),
{
    let mut out: Vec<char> = Vec::new();
    let mut i: usize = 0;
    assert(s@.skip(0) =~= s@);
    assert(out@ + s@ =~= s@);
    while i < s.len()
        invariant
            i <= s@.len(),
            pat@.len() > 0,
            out@ + replace_all(s@.skip(i as int), pat@, rep@) == replace_all(s@, pat@, rep@),
        decreases s@.len() - i,
    {
        let ghost rest = s@.skip(i as int);
        if occurs_at_exec(s, pat, i) {
            proof {
                assert(rest.subrange(0, pat@.len() as int) =~= s@.subrange(
                    i as int,
                    i + pat@.len(),
                ));
                assert(rest.skip(pat@.len() as int) =~= s@.skip(i + pat@.len()));
                assert(out@ + replace_all(rest, pat@, rep@) =~= (out@ + rep@) + replace_all(
                    s@.skip(i + pat@.len()),
                    pat@,
                    rep@,
                ));
            }
            out.extend_from_slice(rep);
            i = i + pat.len();
        } else {
            proof {
                if pat@.len() <= rest.len() {
                    assert(rest.subrange(0, pat@.len() as int) =~= s@.subrange(
                        i as int,
                        i + pat@.len(),
                    ));
                }
                assert(rest.drop_first() =~= s@.skip(i + 1));
                assert(out@ + replace_all(rest, pat@, rep@) =~= out@.push(s@[i as int])
                    + replace_all(s@.skip(i + 1), pat@, rep@));
            }
            out.push(s[i]);
            i = i + 1;
        }
    }
    assert(s@.skip(i as int) =~= Seq::<char>::empty());
    assert(out@ + Seq::<char>::empty() =~= out@);
    out
}

/// `str::replace` on a `String`/`str`, pattern and replacement as literals.
pub fn replace_str(s: &[char], pat: &str, rep: &str) -> (r: Vec<char>)
    requires
        pat@.len() > 0,
    ensures
        r@ == replace_all(s@, pat@, rep@),
{
    let p = chars_of(pat);
    let q = chars_of(rep);
    replace_vec(s, p.as_slice(), q.as_slice())
}

} // verus!

verus! {

/// `s.trim().to_ascii_lowercase()` as characters.
pub fn trimmed_lower(s: &str) -> (r: Vec<char>)
    ensures
        r@ == lower(trim(s@)),
{
    let v = chars_of(s);
    let t = trim_vec(v.as_slice());
    lower_vec(t.as_slice())
}

/// `s.trim().to_ascii_uppercase()` as characters.
pub fn trimmed_upper(s: &str) -> (r: Vec<char>)
    ensures
        r@ == upper(trim(s@)),
{
    let v = chars_of(s);
    let t = trim_vec(v.as_slice());
    upper_vec(t.as_slice())
}

/// Appends the text of `lit` to `out`.
pub fn push_lit(out: &mut Vec<char>, lit: &str)
    ensures
        final(out)@ == old(out)@ + lit@,
{
    let l = chars_of(lit);
    out.extend_from_slice(l.as_slice());
}

/// Appends `more` to `out`.
pub fn push_chars(out: &mut Vec<char>, more: &[char])
    ensures
        final(out)@ == old(out)@ + more@,
{
    out.extend_from_slice(more);
}

/// `a` followed by `b` followed by `c`, as a `String`.
pub fn concat3(a: &str, b: &[char], c: &str) -> (r: String)
    ensures
        r@ == a@ + b@ + c@,
{
    let mut out = chars_of(a);
    push_chars(&mut out, b);
    push_lit(&mut out, c);
    string_of(out.as_slice())
}

} // verus!

verus! {

// ---------------------------------------------------------------------------
// Decimal formatting of unsigned integers
// ---------------------------------------------------------------------------

pub open spec fn digit_char(d: nat) -> char
    recommends
        d < 10,
{
    (('0' as u32) + d) as char
}

/// Decimal representation without leading zeros (`"0"` for zero).
pub open spec fn decimal(n: nat) -> Seq<char>
    decreases n,
{
    if n < 10 {
        seq![digit_char(n)]
    } else {
        decimal(n / 10).push(digit_char(n % 10))
    }
}

fn digit_char_exec(d: u64) -> (c: char)
    requires
        d < 10,
    ensures
        c == digit_char(d as nat),
{
    let b: u8 = (48u64 + d) as u8;
    b as char
}

/// Appends the decimal representation of `n` to `out`.
pub fn push_decimal(out: &mut Vec<char>, n: u64)
    ensures
        final(out)@ == old(out)@ + decimal(n as nat),
    decreases n,
{
    if n < 10 {
        out.push(digit_char_exec(n));
        assert(final(out)@ =~= old(out)@ + decimal(n as nat)) by {
            assert(decimal(n as nat) == seq![digit_char(n as nat)]);
        }
    } else {
        push_decimal(out, n / 10);
        out.push(digit_char_exec(n % 10));
        assert(out@ =~= old(out)@ + decimal(n as nat));
    }
}

} // verus!

verus! {

// ---------------------------------------------------------------------------
// Paths (Unix `PathBuf::join` with a single argument)
// ---------------------------------------------------------------------------

/// `Path::new(base).join(name)` on Unix: an absolute `name` replaces `base`;
/// otherwise a `'/'` is inserted unless `base` is empty or already ends in one.
pub open spec fn join_path(base: Seq<char>, name: Seq<char>) -> Seq<char> {
    if name.len() > 0 && name[0] == '/' {
        name
    } else if base.len() == 0 || base.last() == '/' {
        base + name
    } else {
        base + "/"@ + name
    }
}

pub fn join_path_exec(base: &str, name: &str) -> (r: String)
    ensures
        r@ == join_path(base@, name@),
{
    let b = chars_of(base);
    let n = chars_of(name);
    if n.len() > 0 && n[0] == '/' {
        return string_of(n.as_slice());
    }
    let mut out = b;
    if out.len() > 0 && out[out.len() - 1] != '/' {
        push_lit(&mut out, "/");
    }
    push_chars(&mut out, n.as_slice());
    string_of(out.as_slice())
}

} // verus!

verus! {

/// Index of the first `c` in `s`, or `s.len()` when there is none.
pub open spec fn char_index(s: Seq<char>, c: char) -> nat
    decreases s.len(),
{
    if s.len() == 0 {
        0
    } else if s[0] == c {
        0
    } else {
        1 + char_index(s.drop_first(), c)
    }
}

pub proof fn lemma_char_index(s: Seq<char>, c: char, i: int)
    requires
        0 <= i <= s.len(),
        forall|k: int| 0 <= k < i ==> #[trigger] s[k] != c,
        i == s.len() || s[i] == c,
    ensures
        char_index(s, c) == i,
    decreases i,
{
    if i > 0 {
        let t = s.drop_first();
        assert forall|k: int| 0 <= k < i - 1 implies #[trigger] t[k] != c by {
            assert(t[k] == s[k + 1]);
        }
        lemma_char_index(t, c, i - 1);
    }
}

/// Index of the first `c` in `v[lo..]` (absolute), or `v.len()`.
pub fn char_index_exec(v: &[char], lo: usize, c: char) -> (r: usize)
    requires
        lo <= v@.len(),
    ensures
        lo <= r <= v@.len(),
        r - lo == char_index(v@.skip(lo as int), c),
{
    let mut i = lo;
    while i < v.len() && v[i] != c
        invariant
            lo <= i <= v@.len(),
            forall|k: int| lo <= k < i ==> v@[k] != c,
        decreases v@.len() - i,
    {
        i = i + 1;
    }
    proof {
        let s = v@.skip(lo as int);
        assert forall|k: int| 0 <= k < i - lo implies #[trigger] s[k] != c by {
            assert(s[k] == v@[lo + k]);
        }
        if i < v.len() {
            assert(s[i - lo] == v@[i as int]);
        }
        lemma_char_index(s, c, i - lo);
    }
    i
}

} // verus!
