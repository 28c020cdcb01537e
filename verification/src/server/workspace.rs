//! The workspace: a directory of `.scad` models plus an `artifacts/`
//! subdirectory for rendered images and exported meshes.
//!
//! Model names are sanitized so a tool call can never read or write outside
//! the workspace: a valid name is a single path segment (no separators, and
//! the name as given holds no `..`), ends in `.scad`, and its stem uses only
//! ASCII letters, digits, `_`, `-` and `.`.

use vstd::prelude::*;

use crate::text::{
    chars_of, concat3, find_from, find_from_exec, is_alnum, is_alnum_char, join_path,
    lemma_trim_ends, lemma_trim_plain,
    join_path_exec, lemma_find_from, occurs_at, push_lit, slice_range, string_of, trim, trim_vec,
    eq_lit,
};

verus! {

/// The text of a model file name's extension.
pub open spec fn scad_ext() -> Seq<char> {
    ".scad"@
}

pub open spec fn ends_with(s: Seq<char>, suffix: Seq<char>) -> bool {
    suffix.len() <= s.len() && s.skip(s.len() - suffix.len()) == suffix
}

pub open spec fn stem_char_ok(c: char) -> bool {
    is_alnum(c) || c == '_' || c == '-' || c == '.'
}

/// `s` contains `sub` somewhere.
pub open spec fn contains_text(s: Seq<char>, sub: Seq<char>) -> bool {
    exists|p: int| occurs_at(s, sub, p)
}

/// The file name a (trimmed, otherwise valid) model name maps to.
pub open spec fn with_scad_ext(t: Seq<char>) -> Seq<char> {
    if ends_with(t, scad_ext()) {
        t
    } else {
        t + scad_ext()
    }
}

/// A file name without its `.scad` extension.
pub open spec fn stem_of(f: Seq<char>) -> Seq<char> {
    if ends_with(f, scad_ext()) {
        f.take(f.len() - scad_ext().len())
    } else {
        f
    }
}

/// What `Workspace::validate_name` returns: the normalized file name, or the
/// error message.
pub open spec fn validate_name_model(name: Seq<char>) -> Result<Seq<char>, Seq<char>> {
    let t = trim(name);
    if t.len() == 0 {
        Err("model name must not be empty"@)
    } else if t.contains('/') || t.contains('\\') {
        Err("model name '"@ + t + "' must not contain path separators"@)
    } else if t == "."@ || t == ".."@ || contains_text(t, ".."@) {
        Err("model name '"@ + t + "' is not allowed"@)
    } else {
        let f = with_scad_ext(t);
        let stem = stem_of(f);
        if forall|i: int| 0 <= i < stem.len() ==> stem_char_ok(#[trigger] stem[i]) {
            Ok(f)
        } else {
            Err("model name '"@ + stem
                + "' may only contain letters, digits, '_', '-', and '.'"@)
        }
    }
}

/// A name that validates becomes a single path segment ending in `.scad`:
/// it holds no path separator, and its stem followed by `.scad` gives it back.
pub proof fn lemma_valid_name_shape(raw: Seq<char>)
    requires
        validate_name_model(raw) is Ok,
    ensures
        ({
            let f = validate_name_model(raw)->Ok_0;
            &&& ends_with(f, scad_ext())
            &&& !f.contains('/')
            &&& !f.contains('\\')
            &&& stem_of(f) + scad_ext() == f
        }),
{
    reveal_strlit(".scad");
    let t = trim(raw);
    let f = validate_name_model(raw)->Ok_0;
    assert(f == with_scad_ext(t));
    if !ends_with(t, scad_ext()) {
        assert(f.skip(f.len() - 5) =~= scad_ext());
        assert forall|i: int| 0 <= i < f.len() implies f[i] != '/' && f[i] != '\\' by {
            if i < t.len() {
                assert(f[i] == t[i]);
            } else {
                assert(f[i] == scad_ext()[i - t.len()]);
            }
        }
    }
    assert(stem_of(f) + scad_ext() =~= f);
}

/// Validating a name that validation produced gives it back unchanged, as
/// long as appending `.scad` did not put two dots side by side (`a.` becomes
/// `a..scad`, which is then refused).
pub proof fn lemma_validate_name_idempotent(raw: Seq<char>)
    requires
        validate_name_model(raw) is Ok,
        !contains_text(validate_name_model(raw)->Ok_0, ".."@),
    ensures
        validate_name_model(validate_name_model(raw)->Ok_0) == validate_name_model(raw),
{
    reveal_strlit(".scad");
    reveal_strlit(".");
    reveal_strlit("..");
    let t = trim(raw);
    let f = validate_name_model(raw)->Ok_0;
    lemma_valid_name_shape(raw);
    lemma_trim_ends(raw);
    assert(f[0] == t[0]);
    assert(f.last() == scad_ext().last()) by {
        assert(f.last() == f.skip(f.len() - 5)[4]);
    }
    lemma_trim_plain(f);
    assert(with_scad_ext(f) == f);
}

/// A model name that has been validated as a safe, single-segment `.scad` file.
#[derive(Debug, PartialEq, Eq)]
pub struct ModelName(String);

impl Clone for ModelName {
    fn clone(&self) -> (r: ModelName)
        ensures
            r.name() == self.name(),
    {
        proof {
            use_type_invariant(self);
        }
        ModelName(self.0.clone())
    }
}

impl ModelName {
    /// Every `ModelName` is a successful result of `validate_name`.
    #[verifier::type_invariant]
    pub closed spec fn valid(self) -> bool {
        exists|raw: Seq<char>| validate_name_model(raw) == Ok::<Seq<char>, Seq<char>>(self.0@)
    }

    pub closed spec fn name(self) -> Seq<char> {
        self.0@
    }

    /// The file name including the `.scad` extension.
    pub fn file_name(&self) -> (r: &str)
        ensures
            r@ == self.name(),
    {
        self.0.as_str()
    }

    /// The name without the `.scad` extension (used to name artifacts).
    pub fn stem(&self) -> (r: String)
        ensures
            r@ == stem_of(self.name()),
    {
        let v = chars_of(self.0.as_str());
        let n = v.len();
        if n >= 5 {
            let ext = slice_range(v.as_slice(), n - 5, n);
            proof {
                reveal_strlit(".scad");
                assert(v@.skip(n - 5) =~= v@.subrange(n - 5, n as int));
            }
            if eq_lit(ext.as_slice(), ".scad") {
                let s = slice_range(v.as_slice(), 0, n - 5);
                proof {
                    reveal_strlit(".scad");
                    assert(s@ =~= v@.take(n - 5));
                }
                return string_of(s.as_slice());
            }
        }
        proof {
            reveal_strlit(".scad");
        }
        string_of(v.as_slice())
    }
}

/// Whether `v` ends with `.scad`.
fn ends_with_scad(v: &[char]) -> (r: bool)
    ensures
        r == ends_with(v@, scad_ext()),
{
    let n = v.len();
    proof {
        reveal_strlit(".scad");
    }
    if n < 5 {
        return false;
    }
    let ext = slice_range(v, n - 5, n);
    assert(v@.skip(n - 5) =~= v@.subrange(n - 5, n as int));
    eq_lit(ext.as_slice(), ".scad")
}

fn contains_char(v: &[char], c: char) -> (r: bool)
    ensures
        r == v@.contains(c),
{
    let mut i: usize = 0;
    while i < v.len()
        invariant
            i <= v@.len(),
            forall|k: int| 0 <= k < i ==> v@[k] != c,
        decreases v@.len() - i,
    {
        if v[i] == c {
            return true;
        }
        i = i + 1;
    }
    false
}

/// Manages the on-disk workspace: its root and its artifacts directory.
#[derive(Debug, Clone)]
pub struct Workspace {
    root: String,
    artifacts: String,
}

/// A validated model's file lies directly inside the workspace root: its
/// path is the root, a separator where the root does not end in one, and the
/// file name, which holds no separator of its own.
pub proof fn lemma_model_path_inside_root(ws: Workspace, raw: Seq<char>)
    requires
        validate_name_model(raw) is Ok,
    ensures
        ({
            let f = validate_name_model(raw)->Ok_0;
            let p = join_path(ws.root_path(), f);
            &&& p == ws.root_path() + f || p == ws.root_path() + "/"@ + f
            &&& !f.contains('/')
        }),
{
    let f = validate_name_model(raw)->Ok_0;
    lemma_valid_name_shape(raw);
    reveal_strlit(".scad");
    assert(f.len() >= 5);
    assert(f[0] != '/');
}

impl Workspace {
    /// A workspace with the given (already created and canonicalized) root
    /// and artifacts directories.
    pub fn from_dirs(root: &str, artifacts: &str) -> (r: Workspace)
        ensures
            r.root_path() == root@,
            r.artifacts_path() == artifacts@,
    {
        Workspace { root: root.to_owned(), artifacts: artifacts.to_owned() }
    }

    pub closed spec fn root_path(self) -> Seq<char> {
        self.root@
    }

    pub closed spec fn artifacts_path(self) -> Seq<char> {
        self.artifacts@
    }

    pub fn root(&self) -> (r: &str)
        ensures
            r@ == self.root_path(),
    {
        self.root.as_str()
    }

    pub fn artifacts_dir(&self) -> (r: &str)
        ensures
            r@ == self.artifacts_path(),
    {
        self.artifacts.as_str()
    }

    /// Validate and normalize a user-supplied model name. Appends `.scad` if
    /// the caller omitted it. Rejects anything that isn't a single safe path
    /// segment.
    pub fn validate_name(name: &str) -> (r: Result<ModelName, String>)
        ensures
            match r {
                Ok(m) => validate_name_model(name@) == Ok::<Seq<char>, Seq<char>>(m.name()),
                Err(e) => validate_name_model(name@) == Err::<Seq<char>, Seq<char>>(e@),
            },
    {
        let v = chars_of(name);
        let t = trim_vec(v.as_slice());
        let t = t.as_slice();
        if t.len() == 0 {
            return Err("model name must not be empty".to_owned());
        }
        if contains_char(t, '/') || contains_char(t, '\\') {
            return Err(concat3("model name '", t, "' must not contain path separators"));
        }
        let dots = chars_of("..");
        let found = find_from_exec(t, dots.as_slice(), 0);
        proof {
            lemma_find_from(t@, ".."@, 0);
            if found is Some {
                assert(contains_text(t@, ".."@));
            }
        }
        if eq_lit(t, ".") || eq_lit(t, "..") || found.is_some() {
            return Err(concat3("model name '", t, "' is not allowed"));
        }
        // With no separator and no "..", the name is a single normal path
        // component, so it is exactly its own file name.
        let mut file_name: Vec<char> = slice_range(t, 0, t.len());
        assert(file_name@ =~= t@);
        if !ends_with_scad(t) {
            push_lit(&mut file_name, ".scad");
        }
        assert(file_name@ == with_scad_ext(t@));
        proof {
            reveal_strlit(".scad");
        }
        let stem_len = file_name.len() - 5;
        assert(ends_with(file_name@, scad_ext())) by {
            if !ends_with(t@, scad_ext()) {
                assert(file_name@.skip(file_name@.len() - 5) =~= scad_ext());
            }
        }
        let stem = slice_range(file_name.as_slice(), 0, stem_len);
        assert(stem@ =~= stem_of(file_name@));
        assert(validate_name_model(name@) == (if forall|k: int|
            0 <= k < stem@.len() ==> stem_char_ok(#[trigger] stem@[k]) {
            Ok::<Seq<char>, Seq<char>>(file_name@)
        } else {
            Err("model name '"@ + stem@ + "' may only contain letters, digits, '_', '-', and '.'"@)
        }));
        let mut i: usize = 0;
        while i < stem.len()
            invariant
                i <= stem@.len(),
                validate_name_model(name@) == (if forall|k: int|
                    0 <= k < stem@.len() ==> stem_char_ok(#[trigger] stem@[k]) {
                    Ok::<Seq<char>, Seq<char>>(file_name@)
                } else {
                    Err("model name '"@ + stem@
                        + "' may only contain letters, digits, '_', '-', and '.'"@)
                }),
                forall|k: int| 0 <= k < i ==> stem_char_ok(#[trigger] stem@[k]),
            decreases stem@.len() - i,
        {
            let c = stem[i];
            if !(is_alnum_char(c) || c == '_' || c == '-' || c == '.') {
                assert(!stem_char_ok(stem@[i as int]));
                return Err(concat3(
                    "model name '",
                    stem.as_slice(),
                    "' may only contain letters, digits, '_', '-', and '.'",
                ));
            }
            i = i + 1;
        }
        let r = ModelName(string_of(file_name.as_slice()));
        Ok(r)
    }

    /// Path to a model's `.scad` file (whether or not it exists).
    pub fn model_path(&self, name: &ModelName) -> (r: String)
        ensures
            r@ == join_path(self.root_path(), name.name()),
    {
        join_path_exec(self.root.as_str(), name.file_name())
    }

    /// Path for a generated artifact file name.
    pub fn artifact_path(&self, file_name: &str) -> (r: String)
        ensures
            r@ == join_path(self.artifacts_path(), file_name@),
    {
        join_path_exec(self.artifacts.as_str(), file_name)
    }
}

} // verus!
