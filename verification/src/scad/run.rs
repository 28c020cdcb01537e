//! Bookkeeping around one OpenSCAD invocation: what a discovered installation
//! looks like, the version banner, library detection, and how captured
//! output becomes a [`RunOutput`]. Spawning the process, the timeout and the
//! process-group kill are the caller's job.

use vstd::prelude::*;

use crate::scad::diagnostics::{parse, parse_model, ParsedOutput};
use crate::text::{
    chars_of, find_from, find_from_exec, is_digit, lines, next_line, next_word, push_chars,
    push_lit, slice_range, string_of, words,
};

verus! {

/// Outcome of a single OpenSCAD invocation.
#[derive(Debug, Clone)]
pub struct RunOutput {
    /// Whether OpenSCAD exited with status 0.
    pub success: bool,
    pub exit_code: Option<i32>,
    pub stdout: String,
    pub stderr: String,
    /// Diagnostics and ECHO output parsed from stderr+stdout.
    pub parsed: ParsedOutput,
}

/// A discovered OpenSCAD installation.
#[derive(Debug, Clone)]
pub struct OpenScad {
    /// Absolute or PATH-resolvable command used to invoke OpenSCAD.
    pub binary: String,
    /// Version string as reported by `openscad --version` (e.g. `2021.01`).
    pub version: String,
    /// Library directories OpenSCAD will search (best-effort).
    pub library_paths: Vec<String>,
    /// Names of notable libraries detected (currently just `BOSL2`).
    pub libraries: Vec<String>,
}

/// The text diagnostics are parsed from: stderr, then (when non-empty) a
/// newline and stdout.
pub open spec fn combined_output(stdout: Seq<char>, stderr: Seq<char>) -> Seq<char> {
    if stdout.len() == 0 {
        stderr
    } else {
        stderr + "\n"@ + stdout
    }
}

impl RunOutput {
    /// Assemble the outcome of a finished run from its exit status and
    /// captured streams, parsing diagnostics from both streams.
    pub fn from_captured(success: bool, exit_code: Option<i32>, stdout: String, stderr: String) -> (r: RunOutput)
        ensures
            r.success == success,
            r.exit_code == exit_code,
            r.stdout@ == stdout@,
            r.stderr@ == stderr@,
            r.parsed@ == parse_model(combined_output(stdout@, stderr@)),
    {
        let mut combined = chars_of(stderr.as_str());
        let out = chars_of(stdout.as_str());
        if out.len() > 0 {
            push_lit(&mut combined, "\n");
            push_chars(&mut combined, out.as_slice());
        }
        let text = string_of(combined.as_slice());
        let parsed = parse(text.as_str());
        RunOutput { success, exit_code, stdout, stderr, parsed }
    }
}

/// The version token of one banner line: the first whitespace-separated word
/// after the first `"version"`, when it starts with an ASCII digit.
pub open spec fn line_version(line: Seq<char>) -> Option<Seq<char>> {
    match find_from(line, "version"@, 0) {
        Some(idx) => {
            let ws = words(line.skip(idx + "version"@.len()));
            if ws.len() > 0 && ws[0].len() > 0 && is_digit(ws[0][0]) {
                Some(ws[0])
            } else {
                None
            }
        },
        None => None,
    }
}

/// The version of the first line that has one.
pub open spec fn version_in_lines(ls: Seq<Seq<char>>) -> Option<Seq<char>>
    decreases ls.len(),
{
    if ls.len() == 0 {
        None
    } else {
        match line_version(ls[0]) {
            Some(v) => Some(v),
            None => version_in_lines(ls.drop_first()),
        }
    }
}

/// Extract the version number from `openscad --version` output.
pub fn parse_version(text: &str) -> (r: Option<String>)
    ensures
        match r {
            Some(v) => version_in_lines(lines(text@)) == Some(v@),
            None => version_in_lines(lines(text@)) is None,
        },
{
    let v = chars_of(text);
    let pat = chars_of("version");
    let mut pos: usize = 0;
    assert(v@.skip(0) =~= v@);
    while pos < v.len()
        invariant
            v@ == text@,
            pat@ == "version"@,
            pos <= v@.len(),
            version_in_lines(lines(text@)) == version_in_lines(lines(v@.skip(pos as int))),
        decreases v@.len() - pos,
    {
        let (lo, hi, next) = next_line(v.as_slice(), pos);
        let line = slice_range(v.as_slice(), lo, hi);
        let ghost rest = lines(v@.skip(next as int));
        assert((seq![line@] + rest)[0] == line@);
        assert((seq![line@] + rest).drop_first() =~= rest);
        match find_from_exec(line.as_slice(), pat.as_slice(), 0) {
            Some(idx) => {
                proof {
                    crate::text::lemma_find_from(line@, pat@, 0);
                }
                let start = idx + pat.len();
                let (a, b) = next_word(line.as_slice(), start);
                if a < b && is_digit_exec(line[a]) {
                    let tok = slice_range(line.as_slice(), a, b);
                    proof {
                        let ws = words(line@.skip(start as int));
                        assert(ws[0] == tok@);
                        assert(tok@[0] == line@[a as int]);
                    }
                    return Some(string_of(tok.as_slice()));
                }
                proof {
                    let ws = words(line@.skip(start as int));
                    if a < b {
                        assert(ws[0] == line@.subrange(a as int, b as int));
                        assert(ws[0][0] == line@[a as int]);
                    }
                }
            },
            None => {},
        }
        pos = next;
    }
    assert(v@.skip(pos as int) =~= Seq::<char>::empty());
    assert(lines(Seq::<char>::empty()) =~= Seq::<Seq<char>>::empty());
    None
}

fn is_digit_exec(c: char) -> (r: bool)
    ensures
        r == is_digit(c),
{
    crate::text::is_digit_char(c)
}

/// Notable libraries found, given whether each search directory holds a
/// `BOSL2` directory: `["BOSL2"]` if any does, else nothing.
pub fn detect_libraries(has_bosl2: &[bool]) -> (r: Vec<String>)
    ensures
        r@.len() <= 1,
        r@.len() == 1 <==> has_bosl2@.contains(true),
        r@.len() == 1 ==> r@[0]@ == "BOSL2"@,
{
    let mut found: Vec<String> = Vec::new();
    let mut i: usize = 0;
    while i < has_bosl2.len()
        invariant
            i <= has_bosl2@.len(),
            found@.len() <= 1,
            found@.len() == 1 <==> has_bosl2@.take(i as int).contains(true),
            found@.len() == 1 ==> found@[0]@ == "BOSL2"@,
        decreases has_bosl2@.len() - i,
    {
        proof {
            assert(has_bosl2@.take(i + 1) =~= has_bosl2@.take(i as int).push(has_bosl2@[i as int]));
            if has_bosl2@.take(i as int).contains(true) {
                let k = choose|k: int| 0 <= k < i && #[trigger] has_bosl2@.take(i as int)[k] == true;
                assert(has_bosl2@.take(i + 1)[k] == true);
            }
            if has_bosl2@.take(i + 1).contains(true) && !has_bosl2@[i as int] {
                let k = choose|k: int| 0 <= k < i + 1 && #[trigger] has_bosl2@.take(i + 1)[k] == true;
                assert(has_bosl2@.take(i as int)[k] == true);
            }
        }
        if has_bosl2[i] && found.len() == 0 {
            found.push("BOSL2".to_owned());
            assert(has_bosl2@.take(i + 1)[i as int] == true);
        }
        i = i + 1;
    }
    assert(has_bosl2@.take(i as int) =~= has_bosl2@);
    found
}

} // verus!
