//! The few path operations the pipeline takes from `std::path`.
use vstd::prelude::*;

verus! {

/// What `Path::with_extension` gives for a path and an extension.
pub uninterp spec fn path_with_extension(path: Seq<char>, ext: Seq<char>) -> Seq<char>;

/// What `Path::extension` gives for a path, if anything.
pub uninterp spec fn path_extension(path: Seq<char>) -> Option<Seq<char>>;

/// What `Path::file_stem` gives for a path, if anything.
pub uninterp spec fn path_stem(path: Seq<char>) -> Option<Seq<char>>;

/// Relies on `std::path::Path::with_extension`: the result depends on the
/// path and the extension alone. A `&str` path is valid UTF-8, so the
/// conversion back to a string loses nothing. An extension holding a path
/// separator (`/`, or `\` on Windows) may panic, so neither is allowed.
#[verifier::external_body]
pub(crate) fn with_extension(path: &str, ext: &str) -> (r: String)
    requires
        forall|i: int| 0 <= i < ext@.len() ==> ext@[i] != '/' && ext@[i] != '\\',
    ensures
        r@ == path_with_extension(path@, ext@),
{
    std::path::Path::new(path).with_extension(ext).to_string_lossy().into_owned()
}

/// Relies on `std::path::Path::extension`: the text after the last dot of
/// the file name, when there is one.
#[verifier::external_body]
pub(crate) fn extension(path: &str) -> (r: Option<String>)
    ensures
        match r {
            Some(e) => path_extension(path@) == Some(e@),
            None => path_extension(path@) is None,
        },
{
    std::path::Path::new(path).extension().map(|e| e.to_string_lossy().into_owned())
}

/// Relies on `std::path::Path::file_stem`: the file name without its extension.
#[verifier::external_body]
pub(crate) fn file_stem(path: &str) -> (r: Option<String>)
    ensures
        match r {
            Some(e) => path_stem(path@) == Some(e@),
            None => path_stem(path@) is None,
        },
{
    std::path::Path::new(path).file_stem().map(|e| e.to_string_lossy().into_owned())
}

} // verus!
