//! Filesystem paths as std represents them. Verus sees no structure inside a
//! `Path`, so the few operations the library needs are trusted wrappers.

use std::path::{Path, PathBuf};
use vstd::prelude::*;

verus! {

#[verifier::external_type_specification]
#[verifier::external_body]
pub struct ExPath(Path);

#[verifier::external_type_specification]
#[verifier::external_body]
pub struct ExPathBuf(PathBuf);

/// A file name that is one ordinary path component on every platform:
/// non-empty, ASCII letters, digits, `_` and `-` only (so no separator, no
/// drive prefix, and neither `.` nor `..`).
pub open spec fn plain_name(s: Seq<char>) -> bool {
    s.len() > 0 && forall|i: int|
        0 <= i < s.len() ==> {
            let c = #[trigger] s[i];
            ('a' <= c && c <= 'z') || ('A' <= c && c <= 'Z') || ('0' <= c && c <= '9') || c
                == '_' || c == '-'
        }
}

/// What `Path::join` makes of `root` and `part` (a function of the two).
pub uninterp spec fn joined_path(root: &Path, part: Seq<char>) -> PathBuf;

/// `Path::join`: `root` with `part` adjoined.
#[verifier::external_body]
pub(crate) fn path_join(root: &Path, part: &str) -> (r: PathBuf)
    ensures
        r == joined_path(root, part@),
{
    root.join(part)
}

/// `Path::starts_with`: whether `base` is a prefix of `path`, compared by
/// whole components. A path made by adjoining one plain name to `base`
/// starts with `base` (adjoining a relative component appends it to the
/// components of `base`); nothing else is stated of the answer.
#[verifier::external_body]
pub(crate) fn path_starts_with(path: &PathBuf, base: &Path) -> (r: bool)
    ensures
        (exists|part: Seq<char>| plain_name(part) && #[trigger] joined_path(base, part) == *path)
            ==> r,
{
    path.starts_with(base)
}

/// The `Debug` rendering of a path (`{:?}`), as used in error messages.
/// Nothing is stated of the text.
#[verifier::external_body]
pub(crate) fn path_debug_text(path: &PathBuf) -> String {
    format!("{path:?}")
}

/// The extension `Path::extension` finds in a path (the text after the
/// last `.` of its file name, read lossily), `None` when there is none.
pub uninterp spec fn path_extension(p: &Path) -> Option<Seq<char>>;

/// `Path::extension`, read as text with `to_string_lossy`.
#[verifier::external_body]
pub(crate) fn path_extension_text(p: &Path) -> (r: Option<String>)
    ensures
        match r {
            Some(e) => path_extension(p) == Some(e@),
            None => path_extension(p) is None,
        },
{
    match p.extension() {
        Some(x) => Some(x.to_string_lossy().into_owned()),
        None => None,
    }
}

} // verus!
