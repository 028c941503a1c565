//! Trusted boundary to the `glob` crate: pattern validity and pattern
//! matching, named as spec functions so the filter's contracts can speak
//! of them.
use vstd::prelude::*;

verus! {

/// Whether `glob::Pattern::new` accepts the pattern text as well formed.
pub uninterp spec fn pattern_ok(pattern: Seq<char>) -> bool;

/// What `glob::Pattern::matches_with` answers for a well-formed pattern and a
/// path under the options that `glob::glob` expands with (`*` and `?` do not
/// cross `/`), a function of the two texts alone.
pub uninterp spec fn glob_matches(pattern: Seq<char>, path: Seq<char>) -> bool;

/// Relies on `glob::Pattern::new`: it returns `Ok` or `Err` from the pattern
/// text alone.
#[verifier::external_body]
pub(crate) fn glob_pattern_ok(pattern: &str) -> (r: bool)
    ensures
        r == pattern_ok(pattern@),
{
    glob::Pattern::new(pattern).is_ok()
}

/// Relies on `glob::Pattern::new` and `glob::Pattern::matches_with`: compiling
/// a well-formed pattern succeeds, and matching it against a path is a
/// function of the pattern and path texts alone once the options are fixed.
/// The options are those `glob::glob` forces: `require_literal_separator`
/// on, the rest as `MatchOptions::new` has them.
#[verifier::external_body]
pub(crate) fn glob_match(pattern: &str, path: &str) -> (r: bool)
    ensures
        pattern_ok(pattern@) ==> r == glob_matches(pattern@, path@),
{
    let options = glob::MatchOptions {
        case_sensitive: true,
        require_literal_separator: true,
        require_literal_leading_dot: false,
    };
    match glob::Pattern::new(pattern) {
        Ok(p) => p.matches_with(path, options),
        Err(_) => false,
    }
}

} // verus!
