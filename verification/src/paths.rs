//! File-system paths, held as strings.
//!
//! How a path splits into components depends on the platform (its
//! separators and prefixes). What every platform agrees on is stated for
//! plain paths: those with `/` as their only separator, no `\` or `:` (which
//! some platforms read as a separator or the start of a prefix) and no
//! leading `//` (a network share on some platforms).
//!
//! Elsewhere the library compares paths as text; the program hands them in
//! in normal form (no redundant separators or `.` components), so that the
//! texts of two equal paths are equal.

use vstd::prelude::*;

verus! {

/// The index of the last `c` in `s`, or -1 when there is none.
pub open spec fn last_index_of(s: Seq<char>, c: char) -> int
    decreases s.len(),
{
    if s.len() == 0 {
        -1
    } else if s.last() == c {
        s.len() - 1
    } else {
        last_index_of(s.drop_last(), c)
    }
}

/// `/` is the only separator in `path`, and nothing in it reads as a prefix.
pub open spec fn is_plain_path(path: Seq<char>) -> bool {
    &&& forall|i: int| 0 <= i < path.len() ==> path[i] != '\\' && path[i] != ':'
    &&& !(path.len() >= 2 && path[0] == '/' && path[1] == '/')
}

/// What follows the last `/` of `path` (all of it when it has none).
pub open spec fn last_segment(path: Seq<char>) -> Seq<char> {
    path.subrange(last_index_of(path, '/') + 1, path.len() as int)
}

/// A plain path that ends in a named component: not empty, `.` or `..`.
pub open spec fn ends_in_name(path: Seq<char>) -> bool {
    let s = last_segment(path);
    &&& is_plain_path(path)
    &&& s.len() > 0
    &&& s != seq!['.']
    &&& s != seq!['.', '.']
}

/// The extension of the file name `name`: what follows its last dot, when
/// that dot is not its first character.
pub open spec fn dot_extension(name: Seq<char>) -> Option<Seq<char>> {
    let d = last_index_of(name, '.');
    if d >= 1 {
        Some(name.subrange(d + 1, name.len() as int))
    } else {
        None
    }
}

/// The parent of a plain path that ends in a component other than `.`: the
/// text before its last `/`, the root when that is the leading `/`, and the
/// empty path when there is no `/`.
pub open spec fn parent_text(path: Seq<char>) -> Seq<char> {
    let k = last_index_of(path, '/');
    if k < 0 {
        Seq::empty()
    } else if k == 0 {
        seq!['/']
    } else {
        path.subrange(0, k)
    }
}

/// A plain path whose final component is neither empty nor `.`, so that it
/// has a parent.
pub open spec fn has_final_component(path: Seq<char>) -> bool {
    let s = last_segment(path);
    &&& is_plain_path(path)
    &&& s.len() > 0
    &&& s != seq!['.']
}

/// A path with a parent that is exactly `parent_text`: the text before the
/// last `/` does not end in `/` or in a `.` component, which the platform
/// would drop too.
pub open spec fn parent_is_text(path: Seq<char>) -> bool {
    let k = last_index_of(path, '/');
    let before = path.subrange(0, k);
    &&& has_final_component(path)
    &&& k > 0 ==> before.last() != '/' && last_segment(before) != seq!['.']
}

/// The final component of `path`, if it has one.
///
/// Trusted: calls `std::path::Path::file_name` and converts the component to
/// a string (lossily, should it not be valid Unicode, which a `&str` always
/// is). Claimed: a component is never empty; a plain path that ends in a
/// name has that name as its final component; the root has none. What other
/// paths give depends on the platform and is left unsaid.
#[verifier::external_body]
pub(crate) fn file_name(path: &str) -> (r: Option<String>)
    ensures
        r matches Some(n) ==> n@.len() > 0,
        ends_in_name(path@) ==> match r {
            Some(n) => n@ == last_segment(path@),
            None => false,
        },
        path@ == seq!['/'] ==> r.is_none(),
{
    std::path::Path::new(path).file_name().map(|n| n.to_string_lossy().to_string())
}

/// The extension of the final component of `path`, if it has one.
///
/// Trusted: calls `std::path::Path::extension`, keeping it only when it is
/// valid Unicode (`to_str`). Claimed: for a plain path that ends in a name,
/// the extension is what follows the name's last dot, unless that dot is
/// the name's first character (then, or without a dot, there is none). What
/// other paths give depends on the platform and is left unsaid.
#[verifier::external_body]
pub(crate) fn extension(path: &str) -> (r: Option<String>)
    ensures
        ends_in_name(path@) ==> match r {
            Some(e) => dot_extension(last_segment(path@)) == Some(e@),
            None => dot_extension(last_segment(path@)) is None,
        },
{
    std::path::Path::new(path).extension().and_then(|e| e.to_str()).map(|e| e.to_string())
}

/// The path without its final component, if there is one.
///
/// Trusted: calls `std::path::Path::parent`. Claimed: a parent is a strictly
/// shorter leading part of the path; a plain path whose final component is
/// neither empty nor `.` has one, and it is `parent_text` when the text
/// before the last `/` is clean (`parent_is_text`). Which leading part other
/// paths give depends on the platform and is left unsaid.
#[verifier::external_body]
pub(crate) fn parent(path: &str) -> (r: Option<String>)
    ensures
        r matches Some(p) ==> p@.len() < path@.len() && p@ == path@.subrange(0, p@.len() as int),
        has_final_component(path@) ==> r.is_some(),
        parent_is_text(path@) ==> match r {
            Some(p) => p@ == parent_text(path@),
            None => false,
        },
{
    std::path::Path::new(path).parent().map(|p| p.to_string_lossy().to_string())
}

} // verus!
