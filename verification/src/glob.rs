//! Glob patterns, compiled and matched by the `globset` crate.

use vstd::prelude::*;

verus! {

/// What compiling a single glob reports for a pattern (`globset::Glob::new`,
/// then `GlobSetBuilder::build` of a set holding that one glob): `None`
/// when both succeed, otherwise the text of the error. A pattern that parses
/// but whose matcher exceeds globset's size limit has an error here.
pub uninterp spec fn glob_error(pattern: Seq<char>) -> Option<Seq<char>>;

/// Whether a path matches a (valid) glob pattern, as `globset` decides it.
pub uninterp spec fn glob_match(pattern: Seq<char>, path: Seq<char>) -> bool;

/// Compiles `pattern` with `globset::Glob::new` and builds a one-glob
/// `GlobSet` from it, so that a matcher over the size limit is reported
/// instead of panicking. Claims only that the result is a function of the
/// pattern: `Ok` exactly when both steps succeed, otherwise the error's
/// display text. Which patterns compile is not stated.
#[verifier::external_body]
pub(crate) fn glob_check(pattern: &str) -> (r: Result<(), String>)
    ensures
        r is Ok <==> glob_error(pattern@) is None,
        r matches Err(e) ==> glob_error(pattern@) == Some(e@),
{
    match globset::Glob::new(pattern) {
        Ok(g) => match globset::GlobSetBuilder::new().add(g).build() {
            Ok(_) => Ok(()),
            Err(e) => Err(e.to_string()),
        },
        Err(e) => Err(e.to_string()),
    }
}

/// Tests `path` against a pattern that compiles, through the one-glob
/// `GlobSet` that `glob_check` builds (`GlobSet::is_match`, true when the
/// glob matches). Claims only that the answer is a function of the pattern
/// and the path; the glob semantics are not stated.
#[verifier::external_body]
pub(crate) fn glob_is_match(pattern: &str, path: &str) -> (r: bool)
    requires
        glob_error(pattern@) is None,
    ensures
        r == glob_match(pattern@, path@),
{
    match globset::Glob::new(pattern) {
        Ok(g) => match globset::GlobSetBuilder::new().add(g).build() {
            Ok(set) => set.is_match(std::path::Path::new(path)),
            Err(_) => false,
        },
        Err(_) => false,
    }
}

} // verus!
