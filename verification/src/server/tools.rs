//! Text helpers of the tool handlers: the one-line summary of a failed
//! OpenSCAD run, the scan of library sources for `module`/`function`
//! definitions, and sorted, de-duplicated name lists.

use vstd::prelude::*;

use crate::scad::diagnostics::{Diagnostic, Severity};
use crate::scad::run::RunOutput;
use crate::text::{
    chars_of, find_from, find_from_exec, lemma_find_from, lines, lower, lower_vec, next_line,
    occurs_at, push_chars, push_lit, skip_ws, slice_range, starts_with, string_of, trim_start,
};

verus! {

/// Unicode `Alphanumeric` (`Alphabetic` or `Numeric`), as `char::is_alphanumeric`
/// decides it.
pub uninterp spec fn unicode_alphanumeric(c: char) -> bool;

/// `char::is_alphanumeric`. The contract names its result for every
/// character and states the ASCII case, which its documentation fixes:
/// ASCII letters and digits are alphanumeric, other ASCII characters are not.
#[verifier::external_body]
fn is_alphanumeric(c: char) -> (r: bool)
    ensures
        r == unicode_alphanumeric(c),
        (c as u32) < 128 ==> r == crate::text::is_alnum(c),
{
    c.is_alphanumeric()
}

pub open spec fn ident_char(c: char) -> bool {
    unicode_alphanumeric(c) || c == '_'
}

/// Length of the leading run of identifier characters.
pub open spec fn ident_len(s: Seq<char>) -> nat
    decreases s.len(),
{
    if s.len() > 0 && ident_char(s[0]) {
        1 + ident_len(s.drop_first())
    } else {
        0
    }
}

/// The identifier at the start of `s`, if any.
pub open spec fn ident_model(s: Seq<char>) -> Option<Seq<char>> {
    let k = ident_len(s);
    if k == 0 {
        None
    } else {
        Some(s.take(k as int))
    }
}

proof fn lemma_ident_len(s: Seq<char>, i: int)
    requires
        0 <= i <= s.len(),
        forall|k: int| 0 <= k < i ==> ident_char(#[trigger] s[k]),
        i == s.len() || !ident_char(s[i]),
    ensures
        ident_len(s) == i,
    decreases i,
{
    if i > 0 {
        let t = s.drop_first();
        assert forall|k: int| 0 <= k < i - 1 implies ident_char(#[trigger] t[k]) by {
            assert(t[k] == s[k + 1]);
        }
        lemma_ident_len(t, i - 1);
    }
}

/// End of the identifier starting at `v[a]` (exclusive).
fn ident_end(v: &[char], a: usize) -> (r: usize)
    requires
        a <= v@.len(),
    ensures
        a <= r <= v@.len(),
        r - a == ident_len(v@.skip(a as int)),
{
    let mut i = a;
    while i < v.len() && (is_alphanumeric(v[i]) || v[i] == '_')
        invariant
            a <= i <= v@.len(),
            forall|k: int| a <= k < i ==> ident_char(#[trigger] v@[k]),
        decreases v@.len() - i,
    {
        i = i + 1;
    }
    proof {
        let s = v@.skip(a as int);
        assert forall|k: int| 0 <= k < i - a implies ident_char(#[trigger] s[k]) by {
            assert(s[k] == v@[a + k]);
        }
        if i < v.len() {
            assert(s[i - a] == v@[i as int]);
        }
        lemma_ident_len(s, i - a);
    }
    i
}

/// Identifier that precedes a `(` (an OpenSCAD module/function name): the
/// leading run of alphanumeric characters and underscores, if non-empty.
pub fn ident_before_paren(s: &str) -> (r: Option<String>)
    ensures
        match r {
            Some(n) => ident_model(s@) == Some(n@),
            None => ident_model(s@) is None,
        },
{
    let v = chars_of(s);
    let e = ident_end(v.as_slice(), 0);
    assert(v@.skip(0) =~= v@);
    if e == 0 {
        None
    } else {
        let n = slice_range(v.as_slice(), 0, e);
        assert(n@ =~= v@.take(e as int));
        Some(string_of(n.as_slice()))
    }
}

/// Whether a definition name passes the optional lower-case substring filter.
pub open spec fn keeps(name: Seq<char>, filter: Option<Seq<char>>) -> bool {
    match filter {
        Some(f) => name_matches(name, f),
        None => true,
    }
}

/// `f` occurs in the lower-cased `name`.
pub open spec fn name_matches(name: Seq<char>, f: Seq<char>) -> bool {
    exists|p: int| #[trigger] occurs_at(lower(name), f, p)
}

/// The name a line defines with keyword `kw` (e.g. `"module "`), if it does.
pub open spec fn defined_name(line: Seq<char>, kw: Seq<char>) -> Option<Seq<char>> {
    let t = trim_start(line);
    if starts_with(t, kw) {
        ident_model(trim_start(t.skip(kw.len() as int)))
    } else {
        None
    }
}

/// Module and function names defined by a sequence of lines, in order,
/// filtered.
pub open spec fn scan_lines(ls: Seq<Seq<char>>, filter: Option<Seq<char>>) -> (Seq<Seq<char>>, Seq<Seq<char>>)
    decreases ls.len(),
{
    if ls.len() == 0 {
        (Seq::empty(), Seq::empty())
    } else {
        let (ms, fs) = scan_lines(ls.drop_last(), filter);
        let l = ls.last();
        if starts_with(trim_start(l), "module "@) {
            match defined_name(l, "module "@) {
                Some(n) => if keeps(n, filter) {
                    (ms.push(n), fs)
                } else {
                    (ms, fs)
                },
                None => (ms, fs),
            }
        } else if starts_with(trim_start(l), "function "@) {
            match defined_name(l, "function "@) {
                Some(n) => if keeps(n, filter) {
                    (ms, fs.push(n))
                } else {
                    (ms, fs)
                },
                None => (ms, fs),
            }
        } else {
            (ms, fs)
        }
    }
}

pub open spec fn opt_view(o: Option<String>) -> Option<Seq<char>> {
    match o {
        Some(s) => Some(s@),
        None => None,
    }
}

pub open spec fn opt_chars(o: Option<Vec<char>>) -> Option<Seq<char>> {
    match o {
        Some(v) => Some(v@),
        None => None,
    }
}

pub open spec fn strings_view(v: Seq<String>) -> Seq<Seq<char>> {
    v.map_values(|s: String| s@)
}

/// If `v[a..b]` (after leading whitespace) starts with `kw`, the bounds of
/// the identifier that follows (possibly empty).
fn def_bounds(v: &[char], a: usize, b: usize, kw: &str) -> (r: Option<(usize, usize)>)
    requires
        a <= b <= v@.len(),
    ensures
        ({
            let line = v@.subrange(a as int, b as int);
            match r {
                Some((c, d)) => starts_with(trim_start(line), kw@) && c <= d <= b && (if c == d {
                    defined_name(line, kw@) is None
                } else {
                    defined_name(line, kw@) == Some(v@.subrange(c as int, d as int))
                }),
                None => !starts_with(trim_start(line), kw@),
            }
        }),
{
    let t0 = skip_ws(v, a, b);
    let k = chars_of(kw);
    let ghost line = v@.subrange(a as int, b as int);
    assert(trim_start(line) =~= v@.subrange(t0 as int, b as int));
    if k.len() > b - t0 || !crate::text::occurs_at_exec(v, k.as_slice(), t0) {
        proof {
            if k@.len() <= b - t0 {
                assert(v@.subrange(t0 as int, b as int).subrange(0, k@.len() as int) =~= v@.subrange(
                    t0 as int,
                    t0 + k@.len(),
                ));
            }
        }
        return None;
    }
    assert(v@.subrange(t0 as int, b as int).subrange(0, k@.len() as int) =~= v@.subrange(
        t0 as int,
        t0 + k@.len(),
    ));
    let s0 = t0 + k.len();
    let c = skip_ws(v, s0, b);
    let slice = slice_range(v, 0, b);
    let d = ident_end(slice.as_slice(), c);
    proof {
        let t = trim_start(line);
        assert(t.skip(k@.len() as int) =~= v@.subrange(s0 as int, b as int));
        assert(trim_start(t.skip(k@.len() as int)) =~= v@.subrange(c as int, b as int));
        assert(slice@.skip(c as int) =~= v@.subrange(c as int, b as int));
        if c < d {
            assert(v@.subrange(c as int, b as int).take(d - c) =~= v@.subrange(c as int, d as int));
        }
    }
    Some((c, d))
}

/// Scan SCAD source for `module`/`function` definitions, appending the names
/// that pass the optional lower-case substring filter.
pub fn scan_defs(
    src: &str,
    filter: &Option<String>,
    modules: &mut Vec<String>,
    functions: &mut Vec<String>,
)
    ensures
        strings_view(final(modules)@) == strings_view(old(modules)@) + scan_lines(
            lines(src@),
            opt_view(*filter),
        ).0,
        strings_view(final(functions)@) == strings_view(old(functions)@) + scan_lines(
            lines(src@),
            opt_view(*filter),
        ).1,
{
    let v = chars_of(src);
    let fv: Option<Vec<char>> = match filter {
        Some(f) => Some(chars_of(f.as_str())),
        None => None,
    };
    let ghost fspec = opt_view(*filter);
    let mut pos: usize = 0;
    let ghost mut done: Seq<Seq<char>> = Seq::empty();
    assert(v@.skip(0) =~= v@);
    assert(done + lines(v@) =~= lines(v@));
    assert(strings_view(modules@) =~= strings_view(old(modules)@) + scan_lines(done, fspec).0);
    assert(strings_view(functions@) =~= strings_view(old(functions)@) + scan_lines(done, fspec).1);
    while pos < v.len()
        invariant
            v@ == src@,
            pos <= v@.len(),
            fspec == opt_view(*filter),
            fspec == opt_chars(fv),
            done + lines(v@.skip(pos as int)) == lines(src@),
            strings_view(modules@) == strings_view(old(modules)@) + scan_lines(done, fspec).0,
            strings_view(functions@) == strings_view(old(functions)@) + scan_lines(done, fspec).1,
        decreases v@.len() - pos,
    {
        let (lo, hi, next) = next_line(v.as_slice(), pos);
        let ghost l = v@.subrange(lo as int, hi as int);
        let ghost ms = strings_view(modules@);
        let ghost fs = strings_view(functions@);
        match def_bounds(v.as_slice(), lo, hi, "module ") {
            Some((c, d)) => {
                if c < d {
                    let name = slice_range(v.as_slice(), c, d);
                    if keep(name.as_slice(), &fv) {
                        modules.push(string_of(name.as_slice()));
                        assert(strings_view(modules@) =~= ms.push(name@));
                    }
                }
            },
            None => {
                match def_bounds(v.as_slice(), lo, hi, "function ") {
                    Some((c, d)) => {
                        if c < d {
                            let name = slice_range(v.as_slice(), c, d);
                            if keep(name.as_slice(), &fv) {
                                functions.push(string_of(name.as_slice()));
                                assert(strings_view(functions@) =~= fs.push(name@));
                            }
                        }
                    },
                    None => {},
                }
            },
        }
        proof {
            let rest = lines(v@.skip(next as int));
            assert(done.push(l) + rest =~= done + (seq![l] + rest));
            assert(done.push(l).drop_last() =~= done);
            done = done.push(l);
        }
        pos = next;
    }
    proof {
        assert(v@.skip(pos as int) =~= Seq::<char>::empty());
        assert(lines(Seq::<char>::empty()) =~= Seq::<Seq<char>>::empty());
        assert(done + Seq::<Seq<char>>::empty() =~= done);
    }
}

/// Whether `name` passes the filter `f` (lower-cased substring).
fn keep(name: &[char], f: &Option<Vec<char>>) -> (r: bool)
    ensures
        r == keeps(name@, opt_chars(*f)),
{
    if let Some(pat) = f {
        let l = lower_vec(name);
        let found = find_from_exec(l.as_slice(), pat.as_slice(), 0);
        proof {
            assert(opt_chars(*f) == Some(pat@));
            lemma_find_from(l@, pat@, 0);
            if let Some(p) = found {
                assert(occurs_at(lower(name@), pat@, p as int));
                assert(name_matches(name@, pat@));
            } else {
                assert(!name_matches(name@, pat@));
            }
        }
        found.is_some()
    } else {
        true
    }
}

/// The detail a failure summary quotes: the first error's message, else the
/// last line of stderr, else a fixed note.
pub open spec fn failure_detail(errors: Seq<Diagnostic>, stderr: Seq<char>) -> Seq<char> {
    if errors.len() > 0 {
        errors[0].message@
    } else if lines(stderr).len() > 0 {
        lines(stderr).last()
    } else {
        "no diagnostics captured"@
    }
}

/// One-line summary of a failed OpenSCAD run at `stage`.
pub fn failure_summary(stage: &str, run: &RunOutput) -> (r: String)
    ensures
        r@ == "OpenSCAD "@ + stage@ + " failed: "@ + failure_detail(
            run.parsed.diagnostics@.filter(|d: Diagnostic| d.severity == Severity::Error),
            run.stderr@,
        ),
{
    let errs = run.parsed.errors();
    let mut out = chars_of("OpenSCAD ");
    push_lit(&mut out, stage);
    push_lit(&mut out, " failed: ");
    let ghost errors = run.parsed.diagnostics@.filter(|d: Diagnostic| d.severity == Severity::Error);
    if errs.len() > 0 {
        push_lit(&mut out, errs[0].message.as_str());
    } else {
        let v = chars_of(run.stderr.as_str());
        let mut pos: usize = 0;
        let mut last: Option<(usize, usize)> = None;
        assert(v@.skip(0) =~= v@);
        while pos < v.len()
            invariant
                v@ == run.stderr@,
                pos <= v@.len(),
                match last {
                    Some((a, b)) => a <= b <= v@.len() && lines(v@).len() > 0 && lines(v@).last()
                        == (if lines(v@.skip(pos as int)).len() > 0 {
                        lines(v@.skip(pos as int)).last()
                    } else {
                        v@.subrange(a as int, b as int)
                    }),
                    None => lines(v@) == lines(v@.skip(pos as int)),
                },
            decreases v@.len() - pos,
        {
            let (lo, hi, next) = next_line(v.as_slice(), pos);
            proof {
                let rest = lines(v@.skip(next as int));
                let cur = v@.subrange(lo as int, hi as int);
                assert((seq![cur] + rest).last() == (if rest.len() > 0 {
                    rest.last()
                } else {
                    cur
                }));
            }
            last = Some((lo, hi));
            pos = next;
        }
        proof {
            assert(v@.skip(pos as int) =~= Seq::<char>::empty());
            assert(lines(Seq::<char>::empty()) =~= Seq::<Seq<char>>::empty());
        }
        match last {
            Some((a, b)) => {
                let l = slice_range(v.as_slice(), a, b);
                push_chars(&mut out, l.as_slice());
            },
            None => {
                push_lit(&mut out, "no diagnostics captured");
            },
        }
    }
    string_of(out.as_slice())
}


// ---------------------------------------------------------------------------
// Sorted name lists
// ---------------------------------------------------------------------------

/// `a` sorts strictly before `b` in `str` order: at the first position where
/// they differ `a` has the smaller character, or `a` is a proper prefix of
/// `b`.
pub open spec fn text_lt(a: Seq<char>, b: Seq<char>) -> bool
    decreases a.len(),
{
    if a.len() == 0 {
        b.len() > 0
    } else if b.len() == 0 {
        false
    } else if a[0] != b[0] {
        a[0] < b[0]
    } else {
        text_lt(a.drop_first(), b.drop_first())
    }
}

/// Every name sorts strictly before the ones after it: sorted, no
/// duplicates.
pub open spec fn strictly_sorted(s: Seq<Seq<char>>) -> bool {
    forall|i: int, j: int| 0 <= i < j < s.len() ==> text_lt(#[trigger] s[i], #[trigger] s[j])
}

/// No text sorts before itself.
pub proof fn lemma_text_lt_irreflexive(a: Seq<char>)
    ensures
        !text_lt(a, a),
    decreases a.len(),
{
    if a.len() > 0 {
        lemma_text_lt_irreflexive(a.drop_first());
    }
}

/// The order is transitive.
pub proof fn lemma_text_lt_transitive(a: Seq<char>, b: Seq<char>, c: Seq<char>)
    requires
        text_lt(a, b),
        text_lt(b, c),
    ensures
        text_lt(a, c),
    decreases a.len(),
{
    if a.len() > 0 && b.len() > 0 && c.len() > 0 && a[0] == b[0] && b[0] == c[0] {
        lemma_text_lt_transitive(a.drop_first(), b.drop_first(), c.drop_first());
    }
}

/// Of two different texts, one sorts before the other.
pub proof fn lemma_text_lt_total(a: Seq<char>, b: Seq<char>)
    requires
        a != b,
    ensures
        text_lt(a, b) || text_lt(b, a),
    decreases a.len(),
{
    if a.len() > 0 && b.len() > 0 && a[0] == b[0] {
        if a.drop_first() == b.drop_first() {
            assert(a =~= seq![a[0]] + a.drop_first());
            assert(b =~= seq![b[0]] + b.drop_first());
        }
        lemma_text_lt_total(a.drop_first(), b.drop_first());
    } else if a.len() == 0 && b.len() == 0 {
        assert(a =~= b);
    }
}

/// Texts that agree on their first `i` characters compare as their rests do.
proof fn lemma_text_lt_skip(a: Seq<char>, b: Seq<char>, i: int)
    requires
        0 <= i <= a.len(),
        i <= b.len(),
        forall|k: int| 0 <= k < i ==> a[k] == b[k],
    ensures
        text_lt(a, b) == text_lt(a.skip(i), b.skip(i)),
    decreases i,
{
    if i > 0 {
        let a1 = a.drop_first();
        let b1 = b.drop_first();
        assert forall|k: int| 0 <= k < i - 1 implies a1[k] == b1[k] by {
            assert(a1[k] == a[k + 1]);
        }
        lemma_text_lt_skip(a1, b1, i - 1);
        assert(a1.skip(i - 1) =~= a.skip(i));
        assert(b1.skip(i - 1) =~= b.skip(i));
    } else {
        assert(a.skip(0) =~= a);
        assert(b.skip(0) =~= b);
    }
}

/// Whether `a` sorts strictly before `b`.
fn text_less(a: &str, b: &str) -> (r: bool)
    ensures
        r == text_lt(a@, b@),
{
    let av = chars_of(a);
    let bv = chars_of(b);
    let mut i: usize = 0;
    while i < av.len() && i < bv.len() && av[i] == bv[i]
        invariant
            i <= av@.len(),
            i <= bv@.len(),
            forall|k: int| 0 <= k < i ==> av@[k] == bv@[k],
        decreases av@.len() - i,
    {
        i = i + 1;
    }
    proof {
        lemma_text_lt_skip(av@, bv@, i as int);
    }
    if i == av.len() {
        i < bv.len()
    } else if i == bv.len() {
        false
    } else {
        av[i] < bv[i]
    }
}

proof fn lemma_strings_view_insert(v: Seq<String>, i: int, x: String)
    requires
        0 <= i <= v.len(),
    ensures
        strings_view(v.insert(i, x)) == strings_view(v).insert(i, x@),
{
    assert(strings_view(v.insert(i, x)) =~= strings_view(v).insert(i, x@));
}

/// Add `x` to the strictly sorted `v` unless it is there already.
fn insert_sorted(v: &mut Vec<String>, x: String)
    requires
        strictly_sorted(strings_view(old(v)@)),
    ensures
        strictly_sorted(strings_view(final(v)@)),
        forall|t: Seq<char>|
            #![trigger strings_view(final(v)@).contains(t)]
            strings_view(final(v)@).contains(t) <==> (strings_view(old(v)@).contains(t) || t == x@),
{
    let ghost s = strings_view(v@);
    let mut p: usize = 0;
    while p < v.len() && text_less(v[p].as_str(), x.as_str())
        invariant
            p <= v@.len(),
            s == strings_view(v@),
            forall|k: int| 0 <= k < p ==> text_lt(#[trigger] s[k], x@),
        decreases v@.len() - p,
    {
        p = p + 1;
    }
    if p < v.len() && text_less(x.as_str(), v[p].as_str()) == false {
        // Neither sorts before the other: `x` is already at `p`.
        proof {
            if s[p as int] != x@ {
                lemma_text_lt_total(s[p as int], x@);
            }
        }
        assert forall|t: Seq<char>| #![trigger s.contains(t)] s.contains(t) <==> (s.contains(t) || t == x@) by {
            if t == x@ {
                assert(s[p as int] == t);
            }
        }
        return;
    }
    let ghost xs = x@;
    v.insert(p, x);
    proof {
        lemma_strings_view_insert(old(v)@, p as int, x);
        let n = s.insert(p as int, xs);
        assert(strings_view(v@) == n);
        // Everything after `p` sorts after `x`.
        assert forall|j: int| p <= j < s.len() implies text_lt(xs, #[trigger] s[j]) by {
            if j > p {
                assert(text_lt(s[p as int], s[j]));
            }
            if s[p as int] != xs {
                lemma_text_lt_total(s[p as int], xs);
            } else {
                lemma_text_lt_irreflexive(xs);
            }
            if j > p {
                lemma_text_lt_transitive(xs, s[p as int], s[j]);
            }
        }
        assert forall|i: int, j: int| 0 <= i < j < n.len() implies text_lt(
            #[trigger] n[i],
            #[trigger] n[j],
        ) by {
            if i < p && j < p {
                assert(n[i] == s[i] && n[j] == s[j]);
            } else if i < p && j == p {
                assert(n[i] == s[i]);
            } else if i < p {
                assert(n[i] == s[i] && n[j] == s[j - 1]);
                lemma_text_lt_transitive(s[i], xs, s[j - 1]);
            } else if i == p {
                assert(n[j] == s[j - 1]);
            } else {
                assert(n[i] == s[i - 1] && n[j] == s[j - 1]);
            }
        }
        assert forall|t: Seq<char>| #![trigger n.contains(t)] n.contains(t) <==> (s.contains(t) || t == xs) by {
            if n.contains(t) {
                let k = choose|k: int| 0 <= k < n.len() && n[k] == t;
                if k < p {
                    assert(s[k] == t);
                } else if k > p {
                    assert(s[k - 1] == t);
                }
            }
            if s.contains(t) {
                let k = choose|k: int| 0 <= k < s.len() && s[k] == t;
                if k < p {
                    assert(n[k] == t);
                } else {
                    assert(n[k + 1] == t);
                }
            }
            if t == xs {
                assert(n[p as int] == t);
            }
        }
    }
}

/// The distinct names in `str` order, keeping only the first `cap` of them:
/// the result is strictly sorted, holds at most `cap` names, each one given,
/// and every given name is kept unless `cap` names that sort before it were.
pub fn sorted_unique(names: Vec<String>, cap: usize) -> (r: Vec<String>)
    ensures
        strictly_sorted(strings_view(r@)),
        r@.len() <= cap,
        forall|i: int| 0 <= i < r@.len() ==> strings_view(names@).contains(#[trigger] r@[i]@),
        forall|k: int|
            0 <= k < names@.len() ==> strings_view(r@).contains(#[trigger] names@[k]@) || (r@.len()
                == cap && forall|i: int| 0 <= i < r@.len() ==> text_lt(#[trigger] r@[i]@, names@[k]@)),
{
    let ghost given = strings_view(names@);
    let mut all: Vec<String> = Vec::new();
    let mut i: usize = 0;
    proof {
        assert(strings_view(all@) =~= Seq::<Seq<char>>::empty());
    }
    while i < names.len()
        invariant
            i <= names@.len(),
            given == strings_view(names@),
            strictly_sorted(strings_view(all@)),
            forall|t: Seq<char>|
                #![trigger strings_view(all@).contains(t)]
                strings_view(all@).contains(t) <==> exists|k: int| 0 <= k < i && given[k] == t,
        decreases names@.len() - i,
    {
        let x = names[i].clone();
        proof {
            assert(given[i as int] == x@);
        }
        insert_sorted(&mut all, x);
        i = i + 1;
        proof {
            assert forall|t: Seq<char>| #![trigger strings_view(all@).contains(t)] strings_view(
                all@,
            ).contains(t) <==> exists|k: int| 0 <= k < i && given[k] == t by {
                if exists|k: int| 0 <= k < i && given[k] == t {
                    let k = choose|k: int| 0 <= k < i && given[k] == t;
                    if k < i - 1 {
                        assert(exists|k2: int| 0 <= k2 < i - 1 && given[k2] == t);
                    }
                }
            }
        }
    }
    let ghost full = strings_view(all@);
    all.truncate(cap);
    proof {
        let r = strings_view(all@);
        if cap <= full.len() {
            assert(r =~= full.take(cap as int));
        } else {
            assert(r =~= full);
        }
        assert forall|a: int, b: int| 0 <= a < b < r.len() implies text_lt(#[trigger] r[a], #[trigger] r[b]) by {
            assert(r[a] == full[a] && r[b] == full[b]);
        }
        assert forall|j: int| 0 <= j < all@.len() implies given.contains(#[trigger] all@[j]@) by {
            assert(r[j] == all@[j]@);
            assert(full[j] == r[j]);
            assert(full.contains(full[j]));
            let k = choose|k: int| 0 <= k < names@.len() && given[k] == full[j];
            assert(given[k] == all@[j]@);
        }
        assert forall|k: int| 0 <= k < names@.len() implies r.contains(#[trigger] names@[k]@) || (
        all@.len() == cap && forall|a: int| 0 <= a < all@.len() ==> text_lt(
            #[trigger] all@[a]@,
            names@[k]@,
        )) by {
            let t = names@[k]@;
            assert(given[k] == t);
            assert(full.contains(t));
            let q = choose|q: int| 0 <= q < full.len() && full[q] == t;
            if q < r.len() {
                assert(r[q] == t);
            } else {
                assert forall|a: int| 0 <= a < all@.len() implies text_lt(#[trigger] all@[a]@, t) by {
                    assert(all@[a]@ == r[a]);
                    assert(r[a] == full[a]);
                }
            }
        }
    }
    all
}

} // verus!
