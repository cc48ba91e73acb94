//! Shell-style path patterns.

use vstd::prelude::*;

verus! {

/// Whether `glob::Pattern::new` accepts a text as a pattern.
pub uninterp spec fn is_pattern(pattern: Seq<char>) -> bool;

/// Whether the pattern that `glob::Pattern::new` compiles from a text
/// matches a path, by `glob::Pattern::matches`; false for a text that is no
/// pattern.
pub uninterp spec fn pattern_matches(pattern: Seq<char>, path: Seq<char>) -> bool;

/// Calls `glob::Pattern::new` and says whether it compiled the pattern.
#[verifier::external_body]
pub(crate) fn compiles(pattern: &str) -> (ok: bool)
    ensures
        ok == is_pattern(pattern@),
{
    glob::Pattern::new(pattern).is_ok()
}

/// Compiles the pattern and calls `glob::Pattern::matches` on the path,
/// with the default match options.
#[verifier::external_body]
pub(crate) fn matches_path(pattern: &str, path: &str) -> (hit: bool)
    ensures
        hit == pattern_matches(pattern@, path@),
{
    match glob::Pattern::new(pattern) {
        Ok(compiled) => compiled.matches(path),
        Err(_) => false,
    }
}

/// Whether a path passes an optional pattern: every path passes when there
/// is none.
pub open spec fn path_passes(pattern: Option<Seq<char>>, path: Seq<char>) -> bool {
    match pattern {
        Some(p) => pattern_matches(p, path),
        None => true,
    }
}

/// Matches a path against an optional pattern.
pub fn path_allowed(pattern: &Option<String>, path: &str) -> (ok: bool)
    ensures
        ok == path_passes(
            match pattern {
                Some(p) => Some(p@),
                None => None,
            },
            path@,
        ),
{
    match pattern {
        Some(p) => matches_path(p.as_str(), path),
        None => true,
    }
}

/// Whether a text can be used as a pattern.
pub fn is_valid_pattern(pattern: &str) -> (ok: bool)
    ensures
        ok == is_pattern(pattern@),
{
    compiles(pattern)
}

} // verus!
