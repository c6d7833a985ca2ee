//! Settings of the proxy core, and paths relative to the home directory.
use vstd::prelude::*;
use crate::text::{chars_of, str_starts_with, string_from_range};
use crate::uri::has_prefix;

verus! {

/// The settings the proxy core is started with.
#[derive(Debug, Clone)]
pub struct Cli {
    /// Proxy listen address (`host:port`).
    pub listen: String,
    /// Event-stream listen address (`host:port`).
    pub api_listen: String,
    pub ca_cert: String,
    pub ca_key: String,
    pub plugin_dir: String,
    pub log_level: String,
    /// Time a plugin hook may take, in milliseconds.
    pub wasm_timeout_ms: u64,
}

/// The part of a path under the home directory: what follows a leading
/// `~/`, if there is one.
pub open spec fn home_part(path: Seq<char>) -> Option<Seq<char>> {
    if has_prefix(path, "~/"@) {
        Some(path.subrange(2, path.len() as int))
    } else {
        None
    }
}

/// `path.strip_prefix("~/")`: the rest of a home-relative path.
pub fn home_relative(path: &str) -> (r: Option<String>)
    ensures
        match r {
            Some(rest) => home_part(path@) == Some(rest@),
            None => home_part(path@) is None,
        },
{
    proof {
        reveal_strlit("~/");
    }
    if !str_starts_with(path, "~/") {
        return None;
    }
    let v = chars_of(path);
    Some(string_from_range(&v, 2, v.len()))
}

} // verus!
