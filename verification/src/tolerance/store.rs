//! Where the tolerance store keeps its two files inside its data directory:
//! `profiles.json` (the baseline registry) and `outcomes.ndjson` (the
//! append-only outcome log). Reading and writing them is the caller's job.

use vstd::prelude::*;

use crate::text::{join_path, join_path_exec};

verus! {

/// A filesystem-backed tolerance store rooted at `dir`.
#[derive(Debug, Clone)]
pub struct Store {
    pub dir: String,
}

impl Store {
    /// A store rooted at `dir` (the directory itself is created by the caller).
    pub fn at(dir: &str) -> (r: Store)
        ensures
            r.dir@ == dir@,
    {
        Store { dir: dir.to_owned() }
    }

    /// Path of the baseline registry.
    pub fn profiles_path(&self) -> (r: String)
        ensures
            r@ == join_path(self.dir@, "profiles.json"@),
    {
        join_path_exec(self.dir.as_str(), "profiles.json")
    }

    /// Path of the outcome log.
    pub fn outcomes_path(&self) -> (r: String)
        ensures
            r@ == join_path(self.dir@, "outcomes.ndjson"@),
    {
        join_path_exec(self.dir.as_str(), "outcomes.ndjson")
    }
}

} // verus!
