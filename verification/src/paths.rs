//! Filesystem path questions answered by `std::path::Path`, over UTF-8 path
//! texts. The named results below are those of `Path` on the Unix targets
//! this library is built for.
use vstd::prelude::*;

use crate::text::option_text;

verus! {

/// What `Path::extension` returns for the path text, as text.
pub uninterp spec fn path_extension_text(path: Seq<char>) -> Option<Seq<char>>;

/// What `Path::file_name` returns for the path text, as text.
pub uninterp spec fn path_file_name_text(path: Seq<char>) -> Option<Seq<char>>;

/// What `Path::parent` returns for the path text, as text.
pub uninterp spec fn path_parent_text(path: Seq<char>) -> Option<Seq<char>>;

/// The texts of the items that `Path::components` yields for the path text.
pub uninterp spec fn path_component_texts(path: Seq<char>) -> Seq<Seq<char>>;

/// What `Path::join` returns for the two path texts, as text.
pub uninterp spec fn path_joined_text(base: Seq<char>, more: Seq<char>) -> Seq<char>;

/// Calls `std::path::Path::extension`; the contract claims that the result is
/// the named extension of the path text. The extension of a `&str` path is
/// valid UTF-8, so the text conversion never drops it.
#[verifier::external_body]
pub(crate) fn path_extension(path: &str) -> (r: Option<String>)
    ensures
        option_text(r) == path_extension_text(path@),
{
    std::path::Path::new(path).extension().and_then(|e| e.to_str()).map(|e| e.to_string())
}

/// Calls `std::path::Path::file_name`; the contract claims that the result is
/// the named final component of the path text.
#[verifier::external_body]
pub(crate) fn path_file_name(path: &str) -> (r: Option<String>)
    ensures
        option_text(r) == path_file_name_text(path@),
{
    std::path::Path::new(path).file_name().and_then(|e| e.to_str()).map(|e| e.to_string())
}

/// Calls `std::path::Path::parent`; the contract claims that the result is the
/// named parent of the path text.
#[verifier::external_body]
pub(crate) fn path_parent(path: &str) -> (r: Option<String>)
    ensures
        option_text(r) == path_parent_text(path@),
{
    std::path::Path::new(path).parent().and_then(|p| p.to_str()).map(|p| p.to_string())
}

/// Calls `std::path::Path::components`; the contract claims that the result
/// lists, in order, the text of each component (`Component::as_os_str`).
#[verifier::external_body]
pub(crate) fn path_components(path: &str) -> (r: Vec<String>)
    ensures
        crate::text::texts_model(r@) == path_component_texts(path@),
{
    std::path::Path::new(path)
        .components()
        .map(|c| c.as_os_str().to_string_lossy().into_owned())
        .collect()
}

/// Calls `std::path::Path::join`; the contract claims that the result is the
/// named joined path text, and, as `Path::join` and `PathBuf::push` document
/// on Unix: an absolute `more` replaces `base`; a relative `more` is adjoined
/// (when non-empty) to a non-empty `base` that does not end in a separator,
/// with one `/` between them. What it gives for an empty `base` or `more`,
/// or a `base` that ends in `/`, is left to the name.
#[verifier::external_body]
pub(crate) fn path_join(base: &str, more: &str) -> (r: String)
    ensures
        r@ == path_joined_text(base@, more@),
        more@.len() > 0 && more@[0] == '/' ==> r@ == more@,
        more@.len() > 0 && more@[0] != '/' && base@.len() > 0 && base@.last() != '/'
            ==> r@ == base@ + seq!['/'] + more@,
{
    std::path::Path::new(base).join(more).to_string_lossy().into_owned()
}

} // verus!
