//! What the standard library's `Path` reports about a path string.
//!
//! Each item here makes one call on `std::path::Path`. Where the answer depends
//! on the file system, nothing is claimed about it.

use vstd::prelude::*;

verus! {

/// What `Path::extension` gives for a path: the part of the final component
/// after its last `.`, when there is one.
pub uninterp spec fn path_extension(path: Seq<char>) -> Option<Seq<char>>;

/// What `Path::parent` gives for a path.
pub uninterp spec fn path_parent(path: Seq<char>) -> Option<Seq<char>>;

/// Whether `Path::eq` holds of two paths, that is whether their components agree.
pub uninterp spec fn path_eq(a: Seq<char>, b: Seq<char>) -> bool;

/// `Path::extension` of `path`, as an owned string. Its contract claims only
/// that the result is the one `Path::extension` computes from the path.
#[verifier::external_body]
pub(crate) fn extension_of(path: &str) -> (r: Option<String>)
    ensures
        match r {
            Some(e) => path_extension(path@) == Some(e@),
            None => path_extension(path@) is None,
        },
{
    std::path::Path::new(path).extension().and_then(|e| e.to_str()).map(|e| e.to_string())
}

/// `Path::parent` of `path`, as an owned string. Its contract claims only that
/// the result is the one `Path::parent` computes from the path.
#[verifier::external_body]
pub(crate) fn parent_of(path: &str) -> (r: Option<String>)
    ensures
        match r {
            Some(p) => path_parent(path@) == Some(p@),
            None => path_parent(path@) is None,
        },
{
    std::path::Path::new(path).parent().and_then(|p| p.to_str()).map(|p| p.to_string())
}

/// `Path::eq` on two paths. Its contract claims that the result is the name
/// above, and that a path equals itself (`Path` is `Eq`).
#[verifier::external_body]
pub(crate) fn paths_equal(a: &str, b: &str) -> (r: bool)
    ensures
        r == path_eq(a@, b@),
        a@ == b@ ==> r,
{
    std::path::Path::new(a) == std::path::Path::new(b)
}

/// `Path::exists`. It asks the file system; nothing is claimed of the answer.
#[verifier::external_body]
pub(crate) fn path_exists(path: &str) -> bool {
    std::path::Path::new(path).exists()
}

/// `Path::is_file`. It asks the file system; nothing is claimed of the answer.
#[verifier::external_body]
pub(crate) fn path_is_file(path: &str) -> bool {
    std::path::Path::new(path).is_file()
}

/// `Path::metadata` followed by `is_file` on the metadata (false when the
/// metadata cannot be read). It asks the file system; nothing is claimed of
/// the answer.
#[verifier::external_body]
pub(crate) fn metadata_is_file(path: &str) -> bool {
    std::path::Path::new(path).metadata().map(|m| m.is_file()).unwrap_or(false)
}

} // verus!
