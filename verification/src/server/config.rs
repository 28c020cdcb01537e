//! Runtime configuration, resolved from environment values at startup.
//!
//! - `DEMIOURGOS_WORKSPACE` — workspace directory (default `workspace`).
//! - `DEMIOURGOS_DATA` — tolerance store directory (default
//!   `<workspace>/.demiourgos`).
//! - `DEMIOURGOS_RENDER_TIMEOUT` / `DEMIOURGOS_EXPORT_TIMEOUT` /
//!   `DEMIOURGOS_CHECK_TIMEOUT` — timeouts in whole seconds (defaults 60, 120
//!   and 30); a value that is not a positive integer is ignored.

use vstd::prelude::*;

use crate::text::{chars_of, join_path, join_path_exec, parse_unsigned, parse_unsigned_exec};

verus! {

/// Default render timeout (seconds).
pub const DEFAULT_RENDER_TIMEOUT: u64 = 60;

/// Default export timeout (seconds).
pub const DEFAULT_EXPORT_TIMEOUT: u64 = 120;

/// Default compile-check timeout (seconds) — the cheap inner loop.
pub const DEFAULT_CHECK_TIMEOUT: u64 = 30;

/// Server configuration. Timeouts are in whole seconds.
#[derive(Debug, Clone)]
pub struct Config {
    /// Root of the `.scad` workspace.
    pub workspace_root: String,
    /// Directory for the tolerance store (profiles + outcomes).
    pub data_dir: String,
    pub render_timeout: u64,
    pub export_timeout: u64,
    pub check_timeout: u64,
}

/// A timeout setting: the value when it parses as a positive `u64`, else the
/// default.
pub open spec fn timeout_model(value: Option<Seq<char>>, default: u64) -> u64 {
    match value {
        Some(v) => match parse_unsigned(v, u64::MAX as nat) {
            Some(n) => if n > 0 {
                n as u64
            } else {
                default
            },
            None => default,
        },
        None => default,
    }
}

pub open spec fn opt_text(o: Option<&str>) -> Option<Seq<char>> {
    match o {
        Some(s) => Some(s@),
        None => None,
    }
}

/// A timeout is never zero: an absent, unparsable or zero setting falls back
/// to its (positive) default.
pub proof fn lemma_timeout_positive(value: Option<Seq<char>>, default: u64)
    requires
        default > 0,
    ensures
        timeout_model(value, default) > 0,
{
}

/// A timeout in seconds from the (possibly unset) environment value.
pub fn secs_from_env(value: Option<&str>, default: u64) -> (r: u64)
    ensures
        r == timeout_model(opt_text(value), default),
{
    match value {
        Some(v) => {
            let c = chars_of(v);
            assert(c@.subrange(0, c@.len() as int) =~= c@);
            match parse_unsigned_exec(c.as_slice(), 0, c.len(), u64::MAX) {
                Some(n) => if n > 0 {
                    n
                } else {
                    default
                },
                None => default,
            }
        },
        None => default,
    }
}

impl Config {
    /// Resolve the configuration from the environment values (each `None`
    /// when its variable is unset).
    pub fn from_values(
        workspace: Option<&str>,
        data: Option<&str>,
        render_timeout: Option<&str>,
        export_timeout: Option<&str>,
        check_timeout: Option<&str>,
    ) -> (r: Config)
        ensures
            r.workspace_root@ == (match workspace {
                Some(w) => w@,
                None => "workspace"@,
            }),
            r.data_dir@ == (match data {
                Some(d) => d@,
                None => join_path(r.workspace_root@, ".demiourgos"@),
            }),
            r.render_timeout == timeout_model(opt_text(render_timeout), DEFAULT_RENDER_TIMEOUT),
            r.export_timeout == timeout_model(opt_text(export_timeout), DEFAULT_EXPORT_TIMEOUT),
            r.check_timeout == timeout_model(opt_text(check_timeout), DEFAULT_CHECK_TIMEOUT),
    {
        let workspace_root = match workspace {
            Some(w) => w.to_owned(),
            None => "workspace".to_owned(),
        };
        let data_dir = match data {
            Some(d) => d.to_owned(),
            None => join_path_exec(workspace_root.as_str(), ".demiourgos"),
        };
        Config {
            workspace_root,
            data_dir,
            render_timeout: secs_from_env(render_timeout, DEFAULT_RENDER_TIMEOUT),
            export_timeout: secs_from_env(export_timeout, DEFAULT_EXPORT_TIMEOUT),
            check_timeout: secs_from_env(check_timeout, DEFAULT_CHECK_TIMEOUT),
        }
    }
}

} // verus!
