//! The few path operations the library needs, by the rules of the platform it
//! is built for.
use vstd::prelude::*;

verus! {

/// The view of an optional `String`.
pub open spec fn string_opt_view(o: Option<String>) -> Option<Seq<char>> {
    match o {
        Some(s) => Some(s@),
        None => None,
    }
}

/// What `Path::join` gives for `base` and `part`, by the path rules of the
/// platform the library is built for.
pub uninterp spec fn platform_join(base: Seq<char>, part: Seq<char>) -> Seq<char>;

/// Calls `Path::join`. Both sides come from `&str`, so the joined path is valid
/// UTF-8 and `to_string_lossy` changes nothing.
#[verifier::external_body]
pub(crate) fn join_path(base: &str, part: &str) -> (r: String)
    ensures
        r@ == platform_join(base@, part@),
{
    std::path::Path::new(base).join(part).to_string_lossy().into_owned()
}

/// What `Path::file_name` gives for `path`, by the path rules of the platform the
/// library is built for.
pub uninterp spec fn platform_file_name(path: Seq<char>) -> Option<Seq<char>>;

/// Calls `Path::file_name`. The paths handled here come from `&str`, so the name
/// is valid UTF-8 and `to_string_lossy` changes nothing.
#[verifier::external_body]
pub(crate) fn file_name_of(path: &str) -> (r: Option<String>)
    ensures
        string_opt_view(r) == platform_file_name(path@),
{
    match std::path::Path::new(path).file_name() {
        Some(name) => Some(name.to_string_lossy().into_owned()),
        None => None,
    }
}

/// What `Path::with_file_name` gives for `path` and `name`, by the path rules of
/// the platform the library is built for.
pub uninterp spec fn platform_with_file_name(path: Seq<char>, name: Seq<char>) -> Seq<char>;

/// Calls `Path::with_file_name`.
#[verifier::external_body]
pub(crate) fn with_file_name_of(path: &str, name: &str) -> (r: String)
    ensures
        r@ == platform_with_file_name(path@, name@),
{
    std::path::Path::new(path).with_file_name(name).to_string_lossy().into_owned()
}

/// Whether `check` answered `answer` when asked about `path`.
pub open spec fn answered<F: Fn(&str) -> bool>(check: F, path: Seq<char>, answer: bool) -> bool {
    exists|t: &str| t@ == path && #[trigger] call_ensures(check, (t,), answer)
}

/// What `Path::parent` gives for `path`, by the path rules of the platform the
/// library is built for.
pub uninterp spec fn platform_parent(path: Seq<char>) -> Option<Seq<char>>;

/// Calls `Path::parent`.
#[verifier::external_body]
pub(crate) fn parent_of(path: &str) -> (r: Option<String>)
    ensures
        string_opt_view(r) == platform_parent(path@),
{
    match std::path::Path::new(path).parent() {
        Some(parent) => Some(parent.to_string_lossy().into_owned()),
        None => None,
    }
}

} // verus!
