//! The parts of a file path that the standard library picks out.
//!
//! How a path splits into components follows the platform's rules (on
//! Windows, `\`, `:` and a leading `//` have meanings of their own). For a
//! path made of a directory, one `/`, and a file name built from plain
//! characters, every platform agrees on the file stem and the extension;
//! that is what is stated here. Of other paths, only that the result is a
//! run of characters of the path is stated.

use vstd::prelude::*;

use crate::text::matches_at;

verus! {

/// `part` occurs in `whole` as a contiguous run of characters.
pub open spec fn is_infix(part: Seq<char>, whole: Seq<char>) -> bool {
    exists|i: int| #[trigger] matches_at(whole, part, i)
}

/// A non-empty run of characters that no platform reads as a separator or
/// a drive marker: no '/', '\\' or ':'.
pub open spec fn plain_segment(s: Seq<char>) -> bool {
    &&& s.len() > 0
    &&& !s.contains('/')
    &&& !s.contains('\\')
    &&& !s.contains(':')
}

/// A directory part that no platform reads as a prefix: no '\\', no ':',
/// and not one that makes the path start with "//".
pub open spec fn plain_dir(d: Seq<char>) -> bool {
    &&& !d.contains('\\')
    &&& !d.contains(':')
    &&& !(d.len() >= 1 && d[0] == '/' && (d.len() == 1 || d[1] == '/'))
}

/// `path` is `d`, '/', the stem `s`, '.', and the extension `e`, each plain,
/// with no '.' in the extension.
pub open spec fn splits_with_extension(
    path: Seq<char>,
    d: Seq<char>,
    s: Seq<char>,
    e: Seq<char>,
) -> bool {
    &&& plain_dir(d)
    &&& plain_segment(s)
    &&& plain_segment(e)
    &&& !e.contains('.')
    &&& path == d + seq!['/'] + s + seq!['.'] + e
}

/// `path` is `d`, '/' and a plain file name `s` that holds no '.'.
pub open spec fn splits_without_extension(path: Seq<char>, d: Seq<char>, s: Seq<char>) -> bool {
    &&& plain_dir(d)
    &&& plain_segment(s)
    &&& !s.contains('.')
    &&& path == d + seq!['/'] + s
}

/// The characters of an optional string.
pub open spec fn opt_view(o: Option<String>) -> Option<Seq<char>> {
    match o {
        Some(s) => Some(s@),
        None => None,
    }
}

/// What is known of the stem `stem` that the standard library picks out of
/// `path`: it is a run of characters of the path, and for a path of plain
/// parts it is the file name without its extension.
pub open spec fn stem_agrees(path: Seq<char>, stem: Option<Seq<char>>) -> bool {
    &&& stem matches Some(x) ==> is_infix(x, path)
    &&& forall|d: Seq<char>, s: Seq<char>, e: Seq<char>|
        #[trigger] splits_with_extension(path, d, s, e) ==> stem == Some(s)
    &&& forall|d: Seq<char>, s: Seq<char>|
        #[trigger] splits_without_extension(path, d, s) ==> stem == Some(s)
}

/// What is known of the extension `ext` that the standard library picks out
/// of `path`: it is a run of characters of the path, and for a path of
/// plain parts it is what follows the file name's last '.', or none when
/// the file name holds no '.'.
pub open spec fn extension_agrees(path: Seq<char>, ext: Option<Seq<char>>) -> bool {
    &&& ext matches Some(x) ==> is_infix(x, path)
    &&& forall|d: Seq<char>, s: Seq<char>, e: Seq<char>|
        #[trigger] splits_with_extension(path, d, s, e) ==> ext == Some(e)
    &&& forall|d: Seq<char>, s: Seq<char>|
        #[trigger] splits_without_extension(path, d, s) ==> ext is None
}

/// Calls `Path::file_stem` on `path` (converted losslessly, since it comes
/// from a `&str`). Stated (`stem_agrees`): a stem is a run of characters
/// of the path; for a path "d/s.e" or "d/s" of plain parts (see
/// `splits_with_extension` and `splits_without_extension`) it is `s`. Not
/// stated: the stem of other paths, which follows the platform's rules.
#[verifier::external_body]
pub(crate) fn file_stem(path: &str) -> (r: Option<String>)
    ensures
        stem_agrees(path@, opt_view(r)),
{
    std::path::Path::new(path).file_stem().map(|s| s.to_string_lossy().into_owned())
}

/// Calls `Path::extension` on `path`. Stated (`extension_agrees`): an
/// extension is a run of
/// characters of the path; for a path "d/s.e" of plain parts it is `e`, and
/// a path "d/s" whose plain file name holds no '.' has none. Not stated:
/// the extension of other paths, which follows the platform's rules.
#[verifier::external_body]
pub(crate) fn extension(path: &str) -> (r: Option<String>)
    ensures
        extension_agrees(path@, opt_view(r)),
{
    std::path::Path::new(path).extension().map(|s| s.to_string_lossy().into_owned())
}

} // verus!
