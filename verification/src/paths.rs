//! Path queries.  Component-wise path semantics (separators, `.` and `..`
//! components, trailing slashes) are std's; each query here calls the std
//! method once and names its result, so that callers state their contracts
//! over that name.

use vstd::prelude::*;

use crate::text::opt_text;

verus! {

/// What `Path::parent` returns for a path spelled `path`.
pub uninterp spec fn path_parent(path: Seq<char>) -> Option<Seq<char>>;

/// What `Path::extension` returns for a path spelled `path`.
pub uninterp spec fn path_extension(path: Seq<char>) -> Option<Seq<char>>;

/// What `Path::file_name` returns for a path spelled `path`.
pub uninterp spec fn path_file_name(path: Seq<char>) -> Option<Seq<char>>;

/// What `Path::starts_with` answers: `base` is a component-wise prefix of `path`.
pub uninterp spec fn path_starts_with(path: Seq<char>, base: Seq<char>) -> bool;

/// What `Path::strip_prefix` returns: `path` with the components of `base` removed.
pub uninterp spec fn path_strip_prefix(path: Seq<char>, base: Seq<char>) -> Option<Seq<char>>;

/// The parent of `path` (std `Path::parent`).  The input is valid UTF-8, so
/// the parent, a prefix of it, converts to a `String` without loss.
/// The contract names the result; it states nothing about how std splits
/// components.
#[verifier::external_body]
pub(crate) fn parent_of(path: &str) -> (r: Option<String>)
    ensures
        opt_text(r) == path_parent(path@),
{
    std::path::Path::new(path).parent().map(|p| p.to_string_lossy().into_owned())
}

/// The extension of `path` (std `Path::extension`), without the dot.
/// The contract names the result and states nothing more about it.
#[verifier::external_body]
pub(crate) fn extension_of(path: &str) -> (r: Option<String>)
    ensures
        opt_text(r) == path_extension(path@),
{
    std::path::Path::new(path).extension().map(|e| e.to_string_lossy().into_owned())
}

/// The final component of `path` (std `Path::file_name`).
/// The contract names the result and states nothing more about it.
#[verifier::external_body]
pub(crate) fn file_name_of(path: &str) -> (r: Option<String>)
    ensures
        opt_text(r) == path_file_name(path@),
{
    std::path::Path::new(path).file_name().map(|e| e.to_string_lossy().into_owned())
}

/// Whether `base` is a component-wise prefix of `path` (std `Path::starts_with`).
/// The contract names the answer and states nothing more about it.
#[verifier::external_body]
pub(crate) fn starts_with_path(path: &str, base: &str) -> (r: bool)
    ensures
        r == path_starts_with(path@, base@),
{
    std::path::Path::new(path).starts_with(base)
}

/// `path` relative to `base` (std `Path::strip_prefix`), `None` where
/// `base` is not a prefix.  The contract names the result.
#[verifier::external_body]
pub(crate) fn strip_prefix_of(path: &str, base: &str) -> (r: Option<String>)
    ensures
        opt_text(r) == path_strip_prefix(path@, base@),
{
    std::path::Path::new(path).strip_prefix(base).ok().map(|p| p.to_string_lossy().into_owned())
}

/// What `str::to_lowercase` returns: the full Unicode lowercase mapping.
pub uninterp spec fn lowercase(s: Seq<char>) -> Seq<char>;

/// What `str::to_uppercase` returns: the full Unicode uppercase mapping.
pub uninterp spec fn uppercase(s: Seq<char>) -> Seq<char>;

/// What `char::is_alphanumeric` answers (Unicode Alphabetic or Numeric).
pub uninterp spec fn alphanumeric(c: char) -> bool;

/// Unicode lowercase of `s` (std `str::to_lowercase`).  The mapping takes
/// pages of tables; the contract names the result.
#[verifier::external_body]
pub(crate) fn to_lowercase(s: &str) -> (r: String)
    ensures
        r@ == lowercase(s@),
{
    s.to_lowercase()
}

/// Unicode uppercase of `s` (std `str::to_uppercase`).  The contract names
/// the result.
#[verifier::external_body]
pub(crate) fn to_uppercase(s: &str) -> (r: String)
    ensures
        r@ == uppercase(s@),
{
    s.to_uppercase()
}

/// Whether `c` is alphabetic or numeric in Unicode (std
/// `char::is_alphanumeric`).  The contract names the answer.
#[verifier::external_body]
pub(crate) fn is_alphanumeric(c: char) -> (r: bool)
    ensures
        r == alphanumeric(c),
{
    c.is_alphanumeric()
}

/// Whether a path spelled `path` is absolute on Unix: it starts at the
/// root, `/`.
pub open spec fn path_is_absolute(path: Seq<char>) -> bool {
    path.len() > 0 && path[0] == '/'
}

/// What `Path::join` gives for `base` joined with `tail`.
pub uninterp spec fn path_joined(base: Seq<char>, tail: Seq<char>) -> Seq<char>;

/// Whether `path` is absolute (std `Path::is_absolute`, which on Unix is
/// documented to be the same as `has_root`: the path starts with `/`).
#[verifier::external_body]
pub(crate) fn is_absolute_path(path: &str) -> (r: bool)
    ensures
        r == path_is_absolute(path@),
{
    std::path::Path::new(path).is_absolute()
}

/// `tail` joined onto `base` (std `Path::join`).  Both are valid UTF-8, so
/// the result converts to a `String` without loss.  The contract names the
/// result.
#[verifier::external_body]
pub(crate) fn join_path(base: &str, tail: &str) -> (r: String)
    ensures
        r@ == path_joined(base@, tail@),
{
    std::path::Path::new(base).join(tail).to_string_lossy().into_owned()
}

/// What `Path::eq` answers: the two paths have the same components.
pub uninterp spec fn same_path(a: Seq<char>, b: Seq<char>) -> bool;

/// Whether two paths are equal component-wise (std `Path`'s `==`).  The
/// contract names the answer, and states that equal spellings are equal
/// paths.
#[verifier::external_body]
pub(crate) fn path_eq(a: &str, b: &str) -> (r: bool)
    ensures
        r == same_path(a@, b@),
        a@ == b@ ==> r,
{
    std::path::Path::new(a) == std::path::Path::new(b)
}

/// What `Path::components` yields for a path spelled `path`, each
/// component as text (the root as `/`, `.` and `..` as themselves).
pub uninterp spec fn path_components(path: Seq<char>) -> Seq<Seq<char>>;

/// The components of `path` (std `Path::components`), each converted to a
/// `String`; the input is valid UTF-8, so nothing is lost.  The contract
/// names the list and states nothing about how std splits it.
#[verifier::external_body]
pub(crate) fn components_of(path: &str) -> (r: Vec<String>)
    ensures
        r@.map_values(|c: String| c@) == path_components(path@),
{
    std::path::Path::new(path).components().map(|c| c.as_os_str().to_string_lossy().into_owned()).collect()
}

/// What `Path::file_stem` returns for a path spelled `path`.
pub uninterp spec fn path_file_stem(path: Seq<char>) -> Option<Seq<char>>;

/// The final component of `path` without its extension (std
/// `Path::file_stem`).  The contract names the result.
#[verifier::external_body]
pub(crate) fn file_stem_of(path: &str) -> (r: Option<String>)
    ensures
        opt_text(r) == path_file_stem(path@),
{
    std::path::Path::new(path).file_stem().map(|s| s.to_string_lossy().into_owned())
}

} // verus!
