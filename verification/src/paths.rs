//! Paths, held as strings, and the path operations of std and pathdiff that
//! the library relies on. How a path splits into components is std's rule
//! for the platform the library is built for; the names below stand for
//! the results under that one rule.
use vstd::prelude::*;

use std::path::{Path, PathBuf};

verus! {

/// Whether std's `Path::extension` finds an extension in `path`.
pub uninterp spec fn path_has_extension(path: Seq<char>) -> bool;

/// What is left of `path` after std's `PathBuf::pop`.
pub uninterp spec fn path_popped(path: Seq<char>) -> Seq<char>;

/// The result of `pathdiff::diff_paths(path, base)`: the path that leads from
/// `base` to `path`, when there is one.
pub uninterp spec fn relative_path(path: Seq<char>, base: Seq<char>) -> Option<Seq<char>>;

/// The text of an optional string.
pub open spec fn opt_view(s: Option<String>) -> Option<Seq<char>> {
    match s {
        Some(t) => Some(t@),
        None => None,
    }
}

/// Calls std's `Path::extension` on `path` and tells whether it found one.
#[verifier::external_body]
pub(crate) fn has_extension(path: &str) -> (r: bool)
    ensures
        r == path_has_extension(path@),
{
    Path::new(path).extension().is_some()
}

/// Calls std's `PathBuf::pop` on `path` and returns what is left. The path
/// came from a `&str`, so it is valid UTF-8 and its text comes back whole.
#[verifier::external_body]
pub(crate) fn pop_path(path: &str) -> (r: String)
    ensures
        r@ == path_popped(path@),
{
    let mut p = PathBuf::from(path);
    p.pop();
    p.to_string_lossy().into_owned()
}

/// Calls `pathdiff::diff_paths(path, base)`. The paths came from `&str`s, so
/// the result is valid UTF-8 and its text comes back whole.
#[verifier::external_body]
pub(crate) fn diff_paths(path: &str, base: &str) -> (r: Option<String>)
    ensures
        opt_view(r) == relative_path(path@, base@),
{
    match pathdiff::diff_paths(path, base) {
        Some(p) => Some(p.to_string_lossy().into_owned()),
        None => None,
    }
}

} // verus!
