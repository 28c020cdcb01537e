//! Slicer output: the value after `=` in PrusaSlicer-style footer comments,
//! and durations such as `1d 2h 23m 45s`.

use vstd::prelude::*;

use crate::server::tools::{opt_view, strings_view};
use crate::text::{
    all_ws, lemma_words_concat, lead_len, lines, lower, lower_vec, next_line, occurs_at_exec, skip_lead,
    starts_with, trim_vec,
    char_index, char_index_exec, chars_of, is_digit, next_word, parse_unsigned, parse_unsigned_exec, slice_range, string_of,
    trim, trim_bounds, words,
};

verus! {

/// Seconds per unit letter of a duration token.
pub open spec fn unit_seconds(c: char) -> Option<nat> {
    if c == 'd' {
        Some(86400)
    } else if c == 'h' {
        Some(3600)
    } else if c == 'm' {
        Some(60)
    } else if c == 's' {
        Some(1)
    } else {
        None
    }
}

/// The seconds of one token `<number><unit>`, the number as `u64::from_str`
/// reads it and the unit one of `d`, `h`, `m`, `s`.
pub open spec fn token_seconds(tok: Seq<char>) -> Option<nat> {
    if tok.len() == 0 {
        None
    } else {
        match (parse_unsigned(tok.drop_last(), u64::MAX as nat), unit_seconds(tok.last())) {
            (Some(n), Some(m)) => Some(n * m),
            _ => None,
        }
    }
}

/// Total seconds of a sequence of tokens (None if any token is malformed).
pub open spec fn tokens_seconds(toks: Seq<Seq<char>>) -> Option<nat>
    decreases toks.len(),
{
    if toks.len() == 0 {
        Some(0)
    } else {
        match (tokens_seconds(toks.drop_last()), token_seconds(toks.last())) {
            (Some(a), Some(b)) => Some(a + b),
            _ => None,
        }
    }
}

/// What `parse_duration` returns: the total of the whitespace-separated
/// tokens, or None for no tokens or a malformed one.
pub open spec fn duration_model(s: Seq<char>) -> Option<nat> {
    let toks = words(s);
    if toks.len() == 0 {
        None
    } else {
        tokens_seconds(toks)
    }
}

/// The total of two token lists run one after the other.
proof fn lemma_tokens_seconds_concat(t1: Seq<Seq<char>>, t2: Seq<Seq<char>>)
    ensures
        tokens_seconds(t1 + t2) == match (tokens_seconds(t1), tokens_seconds(t2)) {
            (Some(x), Some(y)) => Some(x + y),
            _ => None::<nat>,
        },
    decreases t2.len(),
{
    if t2.len() == 0 {
        assert(t1 + t2 =~= t1);
    } else {
        let u = t1 + t2;
        assert(u.drop_last() =~= t1 + t2.drop_last());
        assert(u.last() == t2.last());
        lemma_tokens_seconds_concat(t1, t2.drop_last());
    }
}

/// Durations add: two durations written one after the other, separated by
/// whitespace, last their sum (`1h` then `30m` is `1h 30m`).
pub proof fn lemma_duration_concat(a: Seq<char>, w: Seq<char>, b: Seq<char>)
    requires
        all_ws(w),
        w.len() > 0,
        duration_model(a) is Some,
        duration_model(b) is Some,
    ensures
        duration_model(a + w + b) == Some(
            (duration_model(a)->Some_0 + duration_model(b)->Some_0) as nat,
        ),
{
    lemma_words_concat(a, w, b);
    lemma_tokens_seconds_concat(words(a), words(b));
}

/// Every running total the parse computes fits in a `u64`.
pub open spec fn duration_fits(s: Seq<char>) -> bool {
    let toks = words(s);
    forall|j: int|
        0 <= j <= toks.len() ==> (#[trigger] tokens_seconds(toks.take(j)) matches Some(t) ==> t
            <= u64::MAX)
}

proof fn lemma_tokens_prefix_none(toks: Seq<Seq<char>>, j: int)
    requires
        0 <= j <= toks.len(),
        tokens_seconds(toks.take(j)) is None,
    ensures
        tokens_seconds(toks) is None,
    decreases toks.len(),
{
    if j < toks.len() {
        assert(toks.drop_last().take(j) =~= toks.take(j));
        lemma_tokens_prefix_none(toks.drop_last(), j);
    } else {
        assert(toks.take(j) =~= toks);
    }
}

fn unit_seconds_exec(c: char) -> (r: Option<u64>)
    ensures
        match r {
            Some(m) => unit_seconds(c) == Some(m as nat) && m <= 86400,
            None => unit_seconds(c) is None,
        },
{
    if c == 'd' {
        Some(86400)
    } else if c == 'h' {
        Some(3600)
    } else if c == 'm' {
        Some(60)
    } else if c == 's' {
        Some(1)
    } else {
        None
    }
}

/// The seconds of the token `v[a..b]`.
fn token_seconds_exec(v: &[char], a: usize, b: usize) -> (r: Option<(u64, u64)>)
    requires
        a < b <= v@.len(),
    ensures
        match r {
            Some((n, m)) => token_seconds(v@.subrange(a as int, b as int)) == Some(
                (n * m) as nat,
            ) && m <= 86400,
            None => token_seconds(v@.subrange(a as int, b as int)) is None,
        },
{
    let ghost tok = v@.subrange(a as int, b as int);
    assert(tok.drop_last() =~= v@.subrange(a as int, b - 1));
    assert(tok.last() == v@[b - 1]);
    match unit_seconds_exec(v[b - 1]) {
        None => None,
        Some(m) => match parse_unsigned_exec(v, a, b - 1, u64::MAX) {
            None => None,
            Some(n) => Some((n, m)),
        },
    }
}

/// Parse a duration like `1d 2h 23m 45s` (any subset, any order) into seconds.
pub fn parse_duration(s: &str) -> (r: Option<u64>)
    requires
        duration_fits(s@),
    ensures
        match r {
            Some(t) => duration_model(s@) == Some(t as nat),
            None => duration_model(s@) is None,
        },
{
    let v = chars_of(s);
    let ghost all = words(s@);
    let mut pos: usize = 0;
    let mut total: u64 = 0;
    let mut any = false;
    let ghost mut done: Seq<Seq<char>> = Seq::empty();
    assert(v@.skip(0) =~= v@);
    assert(done + words(v@) =~= words(v@));
    loop
        invariant
            v@ == s@,
            all == words(s@),
            duration_fits(s@),
            pos <= v@.len(),
            done + words(v@.skip(pos as int)) == all,
            tokens_seconds(done) == Some(total as nat),
            any == (done.len() > 0),
        ensures
            done == all,
            tokens_seconds(done) == Some(total as nat),
            any == (done.len() > 0),
        decreases v@.len() - pos,
    {
        let (a, b) = next_word(v.as_slice(), pos);
        if a == b {
            assert(done + Seq::<Seq<char>>::empty() =~= done);
            break;
        }
        let ghost tok = v@.subrange(a as int, b as int);
        let ghost rest = words(v@.skip(b as int));
        assert(all == done.push(tok) + rest) by {
            assert(done + (seq![tok] + rest) =~= done.push(tok) + rest);
        }
        assert(all.take(done.len() as int + 1) =~= done.push(tok));
        assert(done.push(tok).drop_last() =~= done);
        match token_seconds_exec(v.as_slice(), a, b) {
            None => {
                proof {
                    lemma_tokens_prefix_none(all, done.len() as int + 1);
                }
                return None;
            },
            Some((n, m)) => {
                proof {
                    let j: int = done.len() as int + 1;
                    assert(tokens_seconds(all.take(j)) == Some((total + n * m) as nat));
                    assert(total + n * m <= u64::MAX);
                    assert(0 <= n * m) by (nonlinear_arith)
                        requires
                            0 <= n,
                            0 <= m,
                    ;
                }
                total = total + n * m;
                any = true;
                proof {
                    done = done.push(tok);
                }
                pos = b;
            },
        }
    }
    if any {
        Some(total)
    } else {
        None
    }
}

/// Whether every running total `parse_duration` computes on `s` fits in a
/// `u64` (its precondition).
pub fn duration_in_range(s: &str) -> (r: bool)
    ensures
        r == duration_fits(s@),
{
    let v = chars_of(s);
    let ghost all = words(s@);
    let mut pos: usize = 0;
    let mut total: u64 = 0;
    let ghost mut done: Seq<Seq<char>> = Seq::empty();
    assert(v@.skip(0) =~= v@);
    assert(done + words(v@) =~= words(v@));
    assert(all.take(0) =~= done);
    loop
        invariant
            v@ == s@,
            all == words(s@),
            pos <= v@.len(),
            done + words(v@.skip(pos as int)) == all,
            all.take(done.len() as int) == done,
            tokens_seconds(done) == Some(total as nat),
            forall|j: int|
                0 <= j <= done.len() ==> (#[trigger] tokens_seconds(all.take(j)) matches Some(t)
                    ==> t <= u64::MAX),
        decreases v@.len() - pos,
    {
        let (a, b) = next_word(v.as_slice(), pos);
        if a == b {
            assert(done + Seq::<Seq<char>>::empty() =~= done);
            assert(all.len() == done.len());
            return true;
        }
        let ghost tok = v@.subrange(a as int, b as int);
        let ghost rest = words(v@.skip(b as int));
        assert(all == done.push(tok) + rest) by {
            assert(done + (seq![tok] + rest) =~= done.push(tok) + rest);
        }
        assert(all.take(done.len() as int + 1) =~= done.push(tok));
        assert(done.push(tok).drop_last() =~= done);
        match token_seconds_exec(v.as_slice(), a, b) {
            None => {
                proof {
                    assert forall|j: int| 0 <= j <= all.len() implies (#[trigger] tokens_seconds(
                        all.take(j),
                    ) matches Some(t) ==> t <= u64::MAX) by {
                        if j > done.len() {
                            assert(all.take(j).take(done.len() as int + 1) =~= done.push(tok));
                            lemma_tokens_prefix_none(all.take(j), done.len() as int + 1);
                        }
                    }
                }
                return true;
            },
            Some((n, m)) => {
                assert((n as u128) * (m as u128) <= 18446744073709551615u128 * 86400u128)
                    by (nonlinear_arith)
                    requires
                        m <= 86400,
                        n <= 18446744073709551615u64,
                ;
                let sum: u128 = total as u128 + (n as u128) * (m as u128);
                proof {
                    assert(tokens_seconds(all.take(done.len() as int + 1)) == Some(sum as nat));
                }
                if sum > u64::MAX as u128 {
                    return false;
                }
                total = sum as u64;
                proof {
                    done = done.push(tok);
                }
                pos = b;
            },
        }
    }
}

/// The value after the first `=` of a line, trimmed.
pub open spec fn after_eq_model(line: Seq<char>) -> Option<Seq<char>> {
    let i = char_index(line, '=');
    if i < line.len() {
        Some(trim(line.skip(i as int + 1)))
    } else {
        None
    }
}

/// Extract the value after the first `=` on a line.
pub fn after_eq(line: &str) -> (r: Option<String>)
    ensures
        match r {
            Some(v) => after_eq_model(line@) == Some(v@),
            None => after_eq_model(line@) is None,
        },
{
    let v = chars_of(line);
    let i = char_index_exec(v.as_slice(), 0, '=');
    assert(v@.skip(0) =~= v@);
    if i < v.len() {
        let (a, b) = trim_bounds(v.as_slice(), i + 1, v.len());
        let t = slice_range(v.as_slice(), a, b);
        assert(line@.skip(i + 1) =~= v@.subrange(i + 1, v@.len() as int));
        Some(string_of(t.as_slice()))
    } else {
        None
    }
}

/// The text of a footer line: its leading `;`s dropped, then trimmed.
pub open spec fn footer_text(line: Seq<char>) -> Seq<char> {
    trim(line.skip(lead_len(line, ';') as int))
}

/// What a footer comment reports, by the start of its lower-cased text.
#[derive(Clone, Copy, Debug, PartialEq, Eq, Structural)]
pub enum FooterKind {
    PrintTime,
    FilamentMm,
    FilamentCm3,
    FilamentG,
    Other,
}

pub open spec fn footer_kind_model(t: Seq<char>) -> FooterKind {
    let l = lower(t);
    if starts_with(l, "estimated printing time"@) {
        FooterKind::PrintTime
    } else if starts_with(l, "filament used [mm]"@) {
        FooterKind::FilamentMm
    } else if starts_with(l, "filament used [cm3]"@) {
        FooterKind::FilamentCm3
    } else if starts_with(l, "filament used [g]"@) || starts_with(l, "total filament used [g]"@) {
        FooterKind::FilamentG
    } else {
        FooterKind::Other
    }
}

fn begins(v: &[char], lit: &str) -> (r: bool)
    ensures
        r == starts_with(v@, lit@),
{
    let p = chars_of(lit);
    occurs_at_exec(v, p.as_slice(), 0)
}

/// Classifies the text of a footer line.
pub fn footer_kind(t: &[char]) -> (k: FooterKind)
    ensures
        k == footer_kind_model(t@),
{
    let l = lower_vec(t);
    if begins(l.as_slice(), "estimated printing time") {
        FooterKind::PrintTime
    } else if begins(l.as_slice(), "filament used [mm]") {
        FooterKind::FilamentMm
    } else if begins(l.as_slice(), "filament used [cm3]") {
        FooterKind::FilamentCm3
    } else if begins(l.as_slice(), "filament used [g]") || begins(
        l.as_slice(),
        "total filament used [g]",
    ) {
        FooterKind::FilamentG
    } else {
        FooterKind::Other
    }
}

/// The raw values of a slicer footer: the last print-time value, the value
/// of the last `[mm]` and `[cm3]` lines (None where that line has no `=`),
/// and every `[g]` value in order.
pub struct GcodeFooter {
    pub print_time: Option<String>,
    pub filament_mm: Option<String>,
    pub filament_cm3: Option<String>,
    pub filament_g: Vec<String>,
}

pub type FooterModel = (Option<Seq<char>>, Option<Seq<char>>, Option<Seq<char>>, Seq<Seq<char>>);

pub open spec fn footer_view(f: GcodeFooter) -> FooterModel {
    (opt_view(f.print_time), opt_view(f.filament_mm), opt_view(f.filament_cm3), strings_view(f.filament_g@))
}

/// The footer read from a sequence of lines, one line after another.
pub open spec fn footer_model(ls: Seq<Seq<char>>) -> FooterModel
    decreases ls.len(),
{
    if ls.len() == 0 {
        (None, None, None, Seq::empty())
    } else {
        let p = footer_model(ls.drop_last());
        let t = footer_text(ls.last());
        let v = after_eq_model(t);
        match footer_kind_model(t) {
            FooterKind::PrintTime => if v is Some {
                (v, p.1, p.2, p.3)
            } else {
                p
            },
            FooterKind::FilamentMm => (p.0, v, p.2, p.3),
            FooterKind::FilamentCm3 => (p.0, p.1, v, p.3),
            FooterKind::FilamentG => match v {
                Some(x) => (p.0, p.1, p.2, p.3.push(x)),
                None => p,
            },
            FooterKind::Other => p,
        }
    }
}

/// Reads PrusaSlicer/Slic3r-style footer comments out of G-code.
pub fn gcode_footer(gcode: &str) -> (r: GcodeFooter)
    ensures
        footer_view(r) == footer_model(lines(gcode@)),
{
    let v = chars_of(gcode);
    let mut r = GcodeFooter { print_time: None, filament_mm: None, filament_cm3: None, filament_g: Vec::new() };
    let mut pos: usize = 0;
    let ghost mut done: Seq<Seq<char>> = Seq::empty();
    assert(v@.skip(0) =~= v@);
    assert(done + lines(v@) =~= lines(v@));
    assert(strings_view(r.filament_g@) =~= Seq::<Seq<char>>::empty());
    while pos < v.len()
        invariant
            v@ == gcode@,
            pos <= v@.len(),
            done + lines(v@.skip(pos as int)) == lines(gcode@),
            footer_view(r) == footer_model(done),
        decreases v@.len() - pos,
    {
        let (lo, hi, next) = next_line(v.as_slice(), pos);
        let ghost l = v@.subrange(lo as int, hi as int);
        let line = slice_range(v.as_slice(), lo, hi);
        let body = skip_lead(line.as_slice(), ';');
        let t = trim_vec(body.as_slice());
        let ts = string_of(t.as_slice());
        let ghost g = strings_view(r.filament_g@);
        match footer_kind(t.as_slice()) {
            FooterKind::PrintTime => {
                let val = after_eq(ts.as_str());
                if val.is_some() {
                    r.print_time = val;
                }
            },
            FooterKind::FilamentMm => {
                r.filament_mm = after_eq(ts.as_str());
            },
            FooterKind::FilamentCm3 => {
                r.filament_cm3 = after_eq(ts.as_str());
            },
            FooterKind::FilamentG => {
                match after_eq(ts.as_str()) {
                    Some(x) => {
                        r.filament_g.push(x);
                        assert(strings_view(r.filament_g@) =~= g.push(x@));
                    },
                    None => {},
                }
            },
            FooterKind::Other => {},
        }
        proof {
            let rest = lines(v@.skip(next as int));
            assert(done.push(l) + rest =~= done + (seq![l] + rest));
            assert(done.push(l).drop_last() =~= done);
            assert(done.push(l).last() == l);
            done = done.push(l);
        }
        pos = next;
    }
    proof {
        assert(v@.skip(pos as int) =~= Seq::<char>::empty());
        assert(lines(Seq::<char>::empty()) =~= Seq::<Seq<char>>::empty());
        assert(done + Seq::<Seq<char>>::empty() =~= done);
    }
    r
}

} // verus!
