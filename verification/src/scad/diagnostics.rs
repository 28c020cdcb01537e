//! Parsing of OpenSCAD's stderr/stdout into structured diagnostics.
//!
//! OpenSCAD prints lines such as `ECHO: "hello", 42`,
//! `WARNING: Ignoring unknown variable 'foo' in file part.scad, line 12` or
//! `ERROR: Parser error in line 7: syntax error`. Each line is classified by
//! its prefix (after trimming), the message is trimmed, and the first
//! `line N` reference that parses as a `u32` becomes the diagnostic's line.
//! `ECHO:` payloads are collected separately.

use vstd::prelude::*;

use crate::text::{
    chars_of, find_from, is_digit, is_digit_char, lemma_find_from, lines, lower, lower_vec,
    next_line, occurs_at, occurs_at_exec, parse_unsigned, parse_unsigned_exec, slice_range,
    starts_with, string_of, trim, trim_bounds, find_from_exec,
};

verus! {

/// Severity of a parsed diagnostic.
#[derive(Debug, Clone, Copy, PartialEq, Eq, Structural)]
pub enum Severity {
    Error,
    Warning,
    /// `TRACE:`/`DEBUG:` and other informational prefixes.
    Info,
}

/// A single parsed OpenSCAD diagnostic.
#[derive(Debug, Clone, PartialEq, Eq)]
pub struct Diagnostic {
    pub severity: Severity,
    pub message: String,
    /// 1-based source line, when OpenSCAD reported one.
    pub line: Option<u32>,
}

/// Result of scanning an OpenSCAD run's textual output.
#[derive(Debug, Clone, PartialEq, Eq)]
pub struct ParsedOutput {
    pub diagnostics: Vec<Diagnostic>,
    /// `ECHO:` payloads with the prefix stripped.
    pub echos: Vec<String>,
}

/// Abstract diagnostic: severity, message text, optional line.
pub type DiagnosticModel = (Severity, Seq<char>, Option<u32>);

impl View for Diagnostic {
    type V = DiagnosticModel;

    open spec fn view(&self) -> DiagnosticModel {
        (self.severity, self.message@, self.line)
    }
}

impl View for ParsedOutput {
    type V = (Seq<DiagnosticModel>, Seq<Seq<char>>);

    open spec fn view(&self) -> (Seq<DiagnosticModel>, Seq<Seq<char>>) {
        (
            self.diagnostics@.map_values(|d: Diagnostic| d@),
            self.echos@.map_values(|e: String| e@),
        )
    }
}

// ---------------------------------------------------------------------------
// The model
// ---------------------------------------------------------------------------

/// Length of the run of ASCII digits in `s` starting at `i`.
pub open spec fn digit_run(s: Seq<char>, i: int) -> nat
    decreases s.len() - i,
{
    if 0 <= i < s.len() && is_digit(s[i]) {
        1 + digit_run(s, i + 1)
    } else {
        0
    }
}

/// The number written right after an occurrence of `"line "` at `p`, when the
/// digits there parse as a `u32`.
pub open spec fn line_number_at(m: Seq<char>, p: int) -> Option<u32> {
    let start = p + "line "@.len();
    match parse_unsigned(m.subrange(start, start + digit_run(m, start)), u32::MAX as nat) {
        Some(n) => Some(n as u32),
        None => None,
    }
}

/// The first case-insensitive `"line "` at or after `from` that is followed by
/// a number fitting a `u32`, and that number.
pub open spec fn line_number_from(m: Seq<char>, from: int) -> Option<u32>
    decreases m.len() + 1 - from,
{
    if from < 0 || from + "line "@.len() > m.len() {
        None
    } else if occurs_at(lower(m), "line "@, from) && line_number_at(m, from) is Some {
        line_number_at(m, from)
    } else {
        line_number_from(m, from + 1)
    }
}

/// The line number a diagnostic message refers to.
pub open spec fn line_number(m: Seq<char>) -> Option<u32> {
    line_number_from(m, 0)
}

/// The payload of an `ECHO:` line (trimmed), if the trimmed line is one.
pub open spec fn echo_payload(raw: Seq<char>) -> Option<Seq<char>> {
    let t = trim(raw);
    if starts_with(t, "ECHO:"@) {
        Some(trim(t.skip("ECHO:"@.len() as int)))
    } else {
        None
    }
}

/// Severity and remaining text of a diagnostic line, by its prefix.
pub open spec fn severity_prefix(t: Seq<char>) -> Option<(Severity, Seq<char>)> {
    if starts_with(t, "ERROR:"@) {
        Some((Severity::Error, t.skip("ERROR:"@.len() as int)))
    } else if starts_with(t, "WARNING:"@) {
        Some((Severity::Warning, t.skip("WARNING:"@.len() as int)))
    } else if starts_with(t, "TRACE:"@) {
        Some((Severity::Info, t.skip("TRACE:"@.len() as int)))
    } else if starts_with(t, "DEBUG:"@) {
        Some((Severity::Info, t.skip("DEBUG:"@.len() as int)))
    } else {
        None
    }
}

/// The diagnostic a (non-`ECHO:`) line describes; noise lines describe none.
pub open spec fn line_diagnostic(raw: Seq<char>) -> Option<DiagnosticModel> {
    match severity_prefix(trim(raw)) {
        Some((sev, rest)) => {
            let msg = trim(rest);
            Some((sev, msg, line_number(msg)))
        },
        None => None,
    }
}

/// Diagnostics and echoes of a sequence of lines, in order.
pub open spec fn parse_lines(ls: Seq<Seq<char>>) -> (Seq<DiagnosticModel>, Seq<Seq<char>>)
    decreases ls.len(),
{
    if ls.len() == 0 {
        (Seq::empty(), Seq::empty())
    } else {
        let (ds, es) = parse_lines(ls.drop_last());
        let raw = ls.last();
        match echo_payload(raw) {
            Some(e) => (ds, es.push(e)),
            None => match line_diagnostic(raw) {
                Some(d) => (ds.push(d), es),
                None => (ds, es),
            },
        }
    }
}

/// What `parse` returns for `output`.
pub open spec fn parse_model(output: Seq<char>) -> (Seq<DiagnosticModel>, Seq<Seq<char>>) {
    parse_lines(lines(output))
}

// ---------------------------------------------------------------------------
// Implementation
// ---------------------------------------------------------------------------

/// Whether `v[a..b]` starts with the text of `lit`.
fn has_prefix(v: &[char], a: usize, b: usize, lit: &str) -> (r: bool)
    requires
        a <= b <= v@.len(),
    ensures
        r == starts_with(v@.subrange(a as int, b as int), lit@),
{
    let p = chars_of(lit);
    if p.len() > b - a {
        return false;
    }
    let r = occurs_at_exec(v, p.as_slice(), a);
    assert(v@.subrange(a as int, b as int).subrange(0, p@.len() as int) =~= v@.subrange(
        a as int,
        a + p@.len(),
    ));
    r
}

fn lit_len(lit: &str) -> (r: usize)
    ensures
        r == lit@.len(),
{
    chars_of(lit).len()
}

proof fn lemma_line_number_skip(m: Seq<char>, from: int, to: int)
    requires
        0 <= from <= to,
        forall|q: int| from <= q < to ==> !occurs_at(lower(m), "line "@, q),
    ensures
        line_number_from(m, from) == line_number_from(m, to),
    decreases to - from,
{
    if from < to {
        assert(!occurs_at(lower(m), "line "@, from));
        lemma_line_number_skip(m, from + 1, to);
    }
}

proof fn lemma_line_number_none(m: Seq<char>, from: int)
    requires
        0 <= from,
        forall|q: int| from <= q ==> !occurs_at(lower(m), "line "@, q),
    ensures
        line_number_from(m, from) is None,
    decreases m.len() + 1 - from,
{
    if from + "line "@.len() <= m.len() {
        assert(!occurs_at(lower(m), "line "@, from));
        lemma_line_number_none(m, from + 1);
    }
}

/// An occurrence of `"line "` cannot start inside another one.
proof fn lemma_line_no_overlap(m: Seq<char>, p: int)
    requires
        occurs_at(lower(m), "line "@, p),
    ensures
        forall|q: int| p < q < p + 5 ==> !occurs_at(lower(m), "line "@, q),
{
    reveal_strlit("line ");
    let l = lower(m);
    assert forall|q: int| p < q < p + 5 implies !occurs_at(l, "line "@, q) by {
        if occurs_at(l, "line "@, q) {
            assert(l.subrange(q, q + 5)[0] == 'l');
            assert(l.subrange(p, p + 5)[q - p] == l[q]);
        }
    }
}

/// Find a `line N` reference anywhere in a message, returning the number.
///
/// Handles both `in line 7` and `, line 12` phrasings, case-insensitively.
pub fn extract_line_number(message: &[char]) -> (r: Option<u32>)
    ensures
        r == line_number(message@),
{
    let lowered = lower_vec(message);
    let pat = chars_of("line ");
    let plen = pat.len();
    let n = message.len();
    let mut from: usize = 0;
    loop
        invariant
            lowered@ == lower(message@),
            pat@ == "line "@,
            plen == pat@.len(),
            n == message@.len(),
            line_number(message@) == line_number_from(message@, from as int),
        decreases n + 1 - from,
    {
        match find_from_exec(lowered.as_slice(), pat.as_slice(), from) {
            None => {
                proof {
                    lemma_find_from(lowered@, pat@, from as int);
                    lemma_line_number_none(message@, from as int);
                }
                return None;
            },
            Some(idx) => {
                proof {
                    lemma_find_from(lowered@, pat@, from as int);
                    lemma_line_number_skip(message@, from as int, idx as int);
                }
                let start = idx + plen;
                let mut e = start;
                while e < n && is_digit_char(message[e])
                    invariant
                        start <= e <= n,
                        n == message@.len(),
                        forall|k: int| start <= k < e ==> is_digit(#[trigger] message@[k]),
                    decreases n - e,
                {
                    e = e + 1;
                }
                proof {
                    lemma_digit_run(message@, start as int, e as int);
                }
                match parse_unsigned_exec(message, start, e, 4294967295u64) {
                    Some(v) => {
                        return Some(v as u32);
                    },
                    None => {
                        proof {
                            reveal_strlit("line ");
                            lemma_line_no_overlap(message@, idx as int);
                            lemma_line_number_skip(message@, idx as int + 1, start as int);
                        }
                        from = start;
                    },
                }
            },
        }
    }
}

proof fn lemma_digit_run(s: Seq<char>, i: int, e: int)
    requires
        0 <= i <= e <= s.len(),
        forall|k: int| i <= k < e ==> is_digit(#[trigger] s[k]),
        e == s.len() || !is_digit(s[e]),
    ensures
        digit_run(s, i) == e - i,
    decreases e - i,
{
    if i < e {
        lemma_digit_run(s, i + 1, e);
    }
}

/// Parse a blob of OpenSCAD output (typically stderr, optionally with stdout
/// merged) into structured diagnostics and echo lines.
pub fn parse(output: &str) -> (r: ParsedOutput)
    ensures
        r@ == parse_model(output@),
{
    let v = chars_of(output);
    let mut diagnostics: Vec<Diagnostic> = Vec::new();
    let mut echos: Vec<String> = Vec::new();
    let mut pos: usize = 0;
    let ghost mut done: Seq<Seq<char>> = Seq::empty();
    assert(v@.skip(0) =~= v@);
    assert(done + lines(v@) =~= lines(v@));
    while pos < v.len()
        invariant
            v@ == output@,
            pos <= v@.len(),
            done + lines(v@.skip(pos as int)) == lines(output@),
            parse_lines(done) == (
                diagnostics@.map_values(|d: Diagnostic| d@),
                echos@.map_values(|e: String| e@),
            ),
        decreases v@.len() - pos,
    {
        let (lo, hi, next) = next_line(v.as_slice(), pos);
        let ghost raw = v@.subrange(lo as int, hi as int);
        let (a, b) = trim_bounds(v.as_slice(), lo, hi);
        let ghost t = trim(raw);
        assert(t == v@.subrange(a as int, b as int));
        let ghost old_d = diagnostics@;
        let ghost old_e = echos@;
        if has_prefix(v.as_slice(), a, b, "ECHO:") {
            let k = lit_len("ECHO:");
            let (c, d) = trim_bounds(v.as_slice(), a + k, b);
            assert(t.skip(k as int) =~= v@.subrange(a + k, b as int));
            let payload = slice_range(v.as_slice(), c, d);
            echos.push(string_of(payload.as_slice()));
            proof {
                assert(echo_payload(raw) == Some(payload@));
                assert(echos@.map_values(|e: String| e@) =~= old_e.map_values(|e: String| e@).push(
                    payload@,
                ));
            }
        } else {
            let mut sev = Severity::Info;
            let mut k: usize = 0;
            let mut found = true;
            if has_prefix(v.as_slice(), a, b, "ERROR:") {
                sev = Severity::Error;
                k = lit_len("ERROR:");
            } else if has_prefix(v.as_slice(), a, b, "WARNING:") {
                sev = Severity::Warning;
                k = lit_len("WARNING:");
            } else if has_prefix(v.as_slice(), a, b, "TRACE:") {
                k = lit_len("TRACE:");
            } else if has_prefix(v.as_slice(), a, b, "DEBUG:") {
                k = lit_len("DEBUG:");
            } else {
                found = false;
            }
            assert(found <==> severity_prefix(t) is Some);
            if found {
                assert(severity_prefix(t) == Some((sev, t.skip(k as int))));
                let (c, d) = trim_bounds(v.as_slice(), a + k, b);
                assert(t.skip(k as int) =~= v@.subrange(a + k, b as int));
                let msg = slice_range(v.as_slice(), c, d);
                let line = extract_line_number(msg.as_slice());
                let diag = Diagnostic { severity: sev, message: string_of(msg.as_slice()), line };
                diagnostics.push(diag);
                proof {
                    assert(line_diagnostic(raw) == Some((sev, msg@, line)));
                    assert(diagnostics@.map_values(|d: Diagnostic| d@) =~= old_d.map_values(
                        |d: Diagnostic| d@,
                    ).push((sev, msg@, line)));
                }
            }
        }
        proof {
            let rest = lines(v@.skip(next as int));
            assert(lines(v@.skip(pos as int)) == seq![raw] + rest);
            assert(done.push(raw) + rest =~= done + (seq![raw] + rest));
            assert(done.push(raw).drop_last() =~= done);
            done = done.push(raw);
        }
        pos = next;
    }
    proof {
        assert(v@.skip(pos as int) =~= Seq::<char>::empty());
        assert(lines(Seq::<char>::empty()) =~= Seq::<Seq<char>>::empty());
        assert(done + Seq::<Seq<char>>::empty() =~= done);
    }
    ParsedOutput { diagnostics, echos }
}

/// Output has errors exactly when its list of errors is not empty.
pub proof fn lemma_has_errors_iff_errors_listed(out: ParsedOutput)
    ensures
        (exists|i: int|
            0 <= i < out.diagnostics@.len() && #[trigger] out.diagnostics@[i].severity
                == Severity::Error) <==> out.diagnostics@.filter(
            |d: Diagnostic| d.severity == Severity::Error,
        ).len() > 0,
{
    let ds = out.diagnostics@;
    let p = |d: Diagnostic| d.severity == Severity::Error;
    if exists|i: int| 0 <= i < ds.len() && #[trigger] ds[i].severity == Severity::Error {
        let i = choose|i: int| 0 <= i < ds.len() && #[trigger] ds[i].severity == Severity::Error;
        ds.lemma_filter_contains(p, i);
    }
    if ds.filter(p).len() > 0 {
        ds.lemma_filter_pred(p, 0);
        let e = ds.filter(p)[0];
        assert(ds.filter(p).contains(e));
        ds.lemma_filter_contains_rev(p, e);
    }
}

impl ParsedOutput {
    /// Whether any diagnostic is an error.
    pub fn has_errors(&self) -> (r: bool)
        ensures
            r == exists|i: int|
                0 <= i < self.diagnostics@.len() && #[trigger] self.diagnostics@[i].severity
                    == Severity::Error,
    {
        let mut i: usize = 0;
        while i < self.diagnostics.len()
            invariant
                i <= self.diagnostics@.len(),
                forall|k: int| 0 <= k < i ==> #[trigger] self.diagnostics@[k].severity != Severity::Error,
            decreases self.diagnostics@.len() - i,
        {
            if self.diagnostics[i].severity == Severity::Error {
                return true;
            }
            i = i + 1;
        }
        false
    }

    /// The diagnostics of the given severity, in order.
    fn of_severity(&self, sev: Severity) -> (r: Vec<&Diagnostic>)
        ensures
            r@.len() == self.diagnostics@.filter(|d: Diagnostic| d.severity == sev).len(),
            forall|i: int|
                0 <= i < r@.len() ==> *r@[i] == self.diagnostics@.filter(
                    |d: Diagnostic| d.severity == sev,
                )[i],
    {
        let ghost pred = |d: Diagnostic| d.severity == sev;
        let mut r: Vec<&Diagnostic> = Vec::new();
        let mut i: usize = 0;
        while i < self.diagnostics.len()
            invariant
                i <= self.diagnostics@.len(),
                pred == (|d: Diagnostic| d.severity == sev),
                r@.len() == self.diagnostics@.take(i as int).filter(pred).len(),
                forall|k: int|
                    0 <= k < r@.len() ==> *r@[k] == self.diagnostics@.take(i as int).filter(
                        pred,
                    )[k],
            decreases self.diagnostics@.len() - i,
        {
            proof {
                reveal_with_fuel(Seq::<_>::filter, 1);
                assert(self.diagnostics@.take(i + 1).drop_last() =~= self.diagnostics@.take(
                    i as int,
                ));
            }
            let d = &self.diagnostics[i];
            if d.severity == sev {
                r.push(d);
            }
            i = i + 1;
        }
        assert(self.diagnostics@.take(i as int) =~= self.diagnostics@);
        r
    }

    /// The error diagnostics, in order.
    pub fn errors(&self) -> (r: Vec<&Diagnostic>)
        ensures
            r@.len() == self.diagnostics@.filter(|d: Diagnostic| d.severity == Severity::Error).len(),
            forall|i: int|
                0 <= i < r@.len() ==> *r@[i] == self.diagnostics@.filter(
                    |d: Diagnostic| d.severity == Severity::Error,
                )[i],
    {
        self.of_severity(Severity::Error)
    }

    /// The warning diagnostics, in order.
    pub fn warnings(&self) -> (r: Vec<&Diagnostic>)
        ensures
            r@.len() == self.diagnostics@.filter(|d: Diagnostic| d.severity == Severity::Warning).len(),
            forall|i: int|
                0 <= i < r@.len() ==> *r@[i] == self.diagnostics@.filter(
                    |d: Diagnostic| d.severity == Severity::Warning,
                )[i],
    {
        self.of_severity(Severity::Warning)
    }
}

} // verus!
