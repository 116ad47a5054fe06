//! File system paths as text: what `std::path::Path` makes of them.
//!
//! The path syntax is that of the platform the crate is built for; the
//! names below stand for what `Path` gives on that platform.
use vstd::prelude::*;

verus! {

/// The parent that `std::path::Path::parent` gives for a path.
pub uninterp spec fn parent_of(path: Seq<char>) -> Option<Seq<char>>;

/// The extension that `std::path::Path::extension` gives for a path.
pub uninterp spec fn extension_of(path: Seq<char>) -> Option<Seq<char>>;

/// The path that `std::path::Path::join` gives for a path and a name.
pub uninterp spec fn joined(base: Seq<char>, name: Seq<char>) -> Seq<char>;

/// `Path::parent` of a UTF-8 path. The parent is the path without its final
/// component, so it is shorter than the path; nothing more is claimed.
#[verifier::external_body]
pub(crate) fn path_parent(path: &str) -> (r: Option<String>)
    ensures
        match r {
            Some(p) => parent_of(path@) == Some(p@) && p@.len() < path@.len(),
            None => parent_of(path@) is None,
        },
{
    std::path::Path::new(path).parent().map(|p| p.to_string_lossy().into_owned())
}

/// `Path::extension` of a UTF-8 path, as text (an extension that is not
/// UTF-8 counts as none, as `to_str` gives it).
#[verifier::external_body]
pub(crate) fn path_extension(path: &str) -> (r: Option<String>)
    ensures
        match r {
            Some(e) => extension_of(path@) == Some(e@),
            None => extension_of(path@) is None,
        },
{
    std::path::Path::new(path).extension().and_then(|e| e.to_str()).map(|e| e.to_string())
}

/// `Path::join` of two UTF-8 paths, as text.
#[verifier::external_body]
pub(crate) fn path_join(base: &str, name: &str) -> (r: String)
    ensures
        r@ == joined(base@, name@),
{
    std::path::Path::new(base).join(name).to_string_lossy().into_owned()
}

} // verus!
