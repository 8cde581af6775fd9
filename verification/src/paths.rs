//! File paths held as strings.
//!
//! How a path splits into components is each platform's own rule, so only
//! what holds on every platform is stated: for a path that is one plain file
//! name, where its extension starts and what replacing it gives.

use vstd::prelude::*;

verus! {

/// A path that is a single plain file name on every platform: not empty, not
/// `.` or `..`, and holding no `/`, `\` or `:`, the characters some platform
/// reads as a separator or a drive prefix.
pub open spec fn plain_name(p: Seq<char>) -> bool {
    &&& p.len() > 0
    &&& p != seq!['.']
    &&& p != seq!['.', '.']
    &&& forall|i: int| 0 <= i < p.len() ==> #[trigger] p[i] != '/' && p[i] != '\\' && p[i] != ':'
}

/// Text holding no character any platform reads as a separator.
pub open spec fn no_separator(s: Seq<char>) -> bool {
    forall|i: int| 0 <= i < s.len() ==> #[trigger] s[i] != '/' && s[i] != '\\'
}

/// Where the last `.` of `p` is, or `-1` when there is none.
pub open spec fn last_dot(p: Seq<char>) -> int
    decreases p.len(),
{
    if p.len() == 0 {
        -1
    } else if p.last() == '.' {
        p.len() - 1
    } else {
        last_dot(p.drop_last())
    }
}

/// Whether a file name has an extension: a `.` other than a leading one.
pub open spec fn name_has_extension(p: Seq<char>) -> bool {
    last_dot(p) > 0
}

/// A file name without its extension.
pub open spec fn name_stem(p: Seq<char>) -> Seq<char> {
    if last_dot(p) > 0 {
        p.subrange(0, last_dot(p))
    } else {
        p
    }
}

/// A file name with its extension replaced by `ext`, or removed when `ext`
/// is empty.
pub open spec fn name_with_extension(p: Seq<char>, ext: Seq<char>) -> Seq<char> {
    if ext.len() == 0 {
        name_stem(p)
    } else {
        name_stem(p) + seq!['.'] + ext
    }
}

/// `std::path::Path::with_extension`: `path` with its extension replaced by,
/// or extended with, `extension`. std panics on an extension holding a
/// separator, so that is ruled out. For a plain file name the result is its
/// stem and the new extension; for other paths nothing is stated, since
/// where components and extensions start is each platform's rule.
#[verifier::external_body]
pub(crate) fn with_extension(path: &str, extension: &str) -> (r: String)
    requires
        no_separator(extension@),
    ensures
        plain_name(path@) ==> r@ == name_with_extension(path@, extension@),
{
    std::path::Path::new(path).with_extension(extension).to_string_lossy().into_owned()
}

/// `std::path::Path::extension`: whether the file name of `path` has an
/// extension. For a plain file name that is whether it holds a `.` after its
/// first character; for other paths nothing is stated.
#[verifier::external_body]
pub(crate) fn has_extension(path: &str) -> (r: bool)
    ensures
        plain_name(path@) ==> r == name_has_extension(path@),
{
    std::path::Path::new(path).extension().is_some()
}

/// `PartialEq` on `std::path::Path`: whether two paths have the same
/// components. A path always equals itself, and two plain file names are
/// equal exactly when they are the same text.
#[verifier::external_body]
pub(crate) fn same_path(a: &str, b: &str) -> (r: bool)
    ensures
        a@ == b@ ==> r,
        plain_name(a@) && plain_name(b@) ==> r == (a@ == b@),
{
    std::path::Path::new(a) == std::path::Path::new(b)
}

/// `std::path::MAIN_SEPARATOR`, as a byte: `/`, or `\\` on Windows.
#[verifier::external_body]
pub(crate) fn path_separator() -> (r: u8)
    ensures
        r == 47 || r == 92,
{
    std::path::MAIN_SEPARATOR as u8
}

/// Whether this program runs on Windows, the one platform whose separator is
/// a backslash. Which platform it runs on depends on the machine, so nothing
/// is stated of the result.
pub(crate) fn host_is_windows() -> bool {
    path_separator() == 92
}

} // verus!
