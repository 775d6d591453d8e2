//! File paths as text.
//!
//! How a path comes apart depends on the target that the crate is built for: whether
//! a backslash separates, and whether a drive may stand in front.

use crate::text::{ascii_lower, chars_of, opt_text};
use vstd::prelude::*;

verus! {

// ---------------------------------------------------------------------------
// The parts of a path
// ---------------------------------------------------------------------------

/// What `std::path::is_separator` says of a character. It is fixed by the target that
/// the crate is built for, so that every process of a build has the same answer.
pub uninterp spec fn separates(c: char) -> bool;

/// `std::path::is_separator`. A slash separates everywhere, a backslash on some
/// targets, and nothing else does.
pub assume_specification[ std::path::is_separator ](c: char) -> (r: bool)
    ensures
        r == separates(c),
        c == '/' ==> r,
        c != '/' && c != '\\' ==> !r,
;

/// Whether paths are read as on Windows: with backslashes, and with drives.
pub fn reads_backslash() -> (r: bool)
    ensures
        r == separates('\\'),
{
    std::path::is_separator('\\')
}

/// Whether a character separates the parts of a path.
pub open spec fn is_boundary(c: char) -> bool {
    c == '/' || (c == '\\' && separates('\\'))
}

/// How many characters a path has up to its last separator.
pub open spec fn after_separators(path: Seq<char>) -> nat
    decreases path.len(),
{
    if path.len() == 0 || is_boundary(path.last()) {
        path.len()
    } else {
        after_separators(path.drop_last())
    }
}

/// Whether a character can stand for a drive.
pub open spec fn is_drive_letter(c: char) -> bool {
    'a' <= c <= 'z' || 'A' <= c <= 'Z'
}

/// Whether a path starts with a drive.
pub open spec fn has_drive(path: Seq<char>) -> bool {
    separates('\\') && path.len() >= 2 && is_drive_letter(path[0]) && path[1] == ':'
}

/// Where the final part of a path starts: behind the last separator, or behind the
/// drive.
pub open spec fn name_start(path: Seq<char>) -> int {
    let n = after_separators(path) as int;
    if n == 0 && has_drive(path) {
        2
    } else {
        n
    }
}

/// The final part of a path.
pub open spec fn final_part(path: Seq<char>) -> Seq<char> {
    path.skip(name_start(path))
}

/// Whether a path starts with the name of a share, `\\server\share`, with `a` and `b` the
/// ends of its two parts.
pub open spec fn is_share(path: Seq<char>, a: int, b: int) -> bool {
    &&& separates('\\')
    &&& 2 < a && a + 1 < b <= path.len()
    &&& is_boundary(path[0]) && is_boundary(path[1]) && is_boundary(path[a])
    &&& path[2] != '?' && path[2] != '.'
    &&& forall|i: int| 2 <= i < b && i != a ==> !is_boundary(#[trigger] path[i])
}

/// Whether a path lies in a share.
pub open spec fn is_in_share(path: Seq<char>) -> bool {
    exists|a: int, b: int| #[trigger] is_share(path, a, b) && b < path.len() && is_boundary(path[b])
}

/// Whether a path has one of the forms that Windows keeps for devices, which start
/// with two separators, or starts like a share or a drive without being one.
pub open spec fn is_special_form(path: Seq<char>) -> bool {
    &&& separates('\\')
    &&& path.len() >= 2
    &&& (is_boundary(path[0]) && is_boundary(path[1]) && !is_in_share(path)) || (path[1] == ':'
        && !is_drive_letter(path[0]))
}

/// Whether a path ends in a name, as that of a file does: not in a separator, and not
/// in dots that stand for a directory.
pub open spec fn ends_in_name(path: Seq<char>) -> bool {
    &&& !is_special_form(path)
    &&& final_part(path).len() > 0
    &&& final_part(path) != seq!['.']
    &&& final_part(path) != seq!['.', '.']
}

/// Whether `name` is what a path is known to end in.
pub open spec fn is_base_name(path: Seq<char>, name: Option<Seq<char>>) -> bool {
    ends_in_name(path) ==> name == Some(final_part(path))
}

/// Whether a directory is the root of everything, of a drive or of a share, without
/// its separator.
pub open spec fn is_root(dir: Seq<char>) -> bool {
    ||| dir.len() == 0
    ||| has_drive(dir) && dir.len() == 2
    ||| exists|a: int| #[trigger] is_share(dir, a, dir.len() as int)
}

/// Whether `dir` is the directory that a path is known to be in: what stands before
/// the separator in front of its name. The separator of a root belongs to it.
pub open spec fn is_parent(path: Seq<char>, dir: Option<Seq<char>>) -> bool {
    let n = name_start(path);
    let before = path.take(n - 1);
    ends_in_name(path) ==> {
        &&& n == 0 || !is_boundary(path[n - 1]) || is_root(before) ==> dir == Some(path.take(n))
        &&& n > 0 && is_boundary(path[n - 1]) && !is_root(before) && ends_in_name(before) ==> dir
            == Some(before)
    }
}

/// `std::path::Path::file_name`, the final part of a path. It is stated for paths that
/// end in a name; not for those that end in separators or dots, nor for the special
/// forms of Windows, whose prefixes are read in another way.
#[verifier::external_body]
pub(crate) fn file_name(path: &str) -> (r: Option<String>)
    ensures
        is_base_name(path@, opt_text(r)),
{
    std::path::Path::new(path).file_name().map(|n| n.to_string_lossy().into_owned())
}

/// `std::path::Path::parent`, a path without its final part. It is stated for paths
/// that end in a name, whose directory is a root or ends in a name too; not where
/// separators stand side by side or the directory ends in dots, nor for the special
/// forms of Windows.
#[verifier::external_body]
pub(crate) fn parent(path: &str) -> (r: Option<String>)
    ensures
        is_parent(path@, opt_text(r)),
{
    std::path::Path::new(path).parent().map(|p| p.to_string_lossy().into_owned())
}

// ---------------------------------------------------------------------------
// PNG files
// ---------------------------------------------------------------------------

/// Whether a file name has the extension `png`, in whatever case: it follows the
/// last dot, which is not the name's first character.
pub open spec fn has_png_extension(name: Seq<char>) -> bool {
    let n = name.len();
    &&& n > 4
    &&& name[n - 4] == '.'
    &&& ascii_lower(name[n - 3]) == 'p'
    &&& ascii_lower(name[n - 2]) == 'n'
    &&& ascii_lower(name[n - 1]) == 'g'
}

/// Whether the final part of a path, where it has one, has the extension `png`.
pub fn is_png_name(name: &Option<String>) -> (r: bool)
    ensures
        r == (name is Some && has_png_extension(name->0@)),
{
    match name {
        Some(name) => {
            let c = chars_of(name.as_str());
            let n: usize = c.len();
            n > 4 && c[n - 4] == '.' && (c[n - 3] == 'p' || c[n - 3] == 'P') && (c[n - 2] == 'n'
                || c[n - 2] == 'N') && (c[n - 1] == 'g' || c[n - 1] == 'G')
        },
        None => false,
    }
}

/// Whether a path names a file with the extension `png`.
pub fn is_png_path(path: &str) -> (r: bool)
    ensures
        ends_in_name(path@) ==> r == has_png_extension(final_part(path@)),
{
    is_png_name(&file_name(path))
}

/// Whether a character separates names, or ends a drive, on some target.
pub open spec fn is_special(c: char) -> bool {
    c == '/' || c == '\\' || c == ':'
}

/// Whether a path is that of a file on every target: it ends in none of the special
/// characters and in no dot, and starts neither with two separators nor like a drive
/// without being one.
pub open spec fn is_plain_path(path: Seq<char>) -> bool {
    &&& path.len() > 0
    &&& !is_special(path.last())
    &&& path.last() != '.'
    &&& path.len() >= 2 ==> !((path[0] == '/' || path[0] == '\\') && (path[1] == '/' || path[1]
        == '\\'))
    &&& path.len() >= 2 && path[1] == ':' ==> is_drive_letter(path[0])
}

/// Which files count as PNG does not depend on the target: a plain path counts where
/// it ends in the extension, unless nothing but the extension is left of its name.
pub proof fn law_png_paths_are_known_everywhere(path: Seq<char>)
    requires
        is_plain_path(path),
        path.len() >= 5 ==> !is_special(path[path.len() - 5]),
    ensures
        ends_in_name(path),
        has_png_extension(final_part(path)) == has_png_extension(path),
{
    let n = path.len() as int;
    let start = name_start(path);
    lemma_final_part(path);
    let name = final_part(path);
    assert(name.last() == path.last());
    if has_png_extension(path) {
        lemma_no_boundary(path, n - 5);
    }
    if n > 4 && start < n - 4 {
        assert(name[name.len() - 4] == path[n - 4]);
        assert(name[name.len() - 3] == path[n - 3]);
        assert(name[name.len() - 2] == path[n - 2]);
        assert(name[name.len() - 1] == path[n - 1]);
    }
}

/// The final part of a plain path is not empty, and what stands before it ends in a
/// special character.
pub proof fn lemma_final_part(path: Seq<char>)
    requires
        is_plain_path(path),
    ensures
        0 <= name_start(path) < path.len(),
        ends_in_name(path),
        name_start(path) > 0 ==> is_special(path[name_start(path) - 1]),
        final_part(path).last() == path.last(),
{
    lemma_after_separators(path);
    let start = name_start(path);
    if start == 2 && after_separators(path) == 0 {
        assert(path.len() > 2);
    }
    assert(final_part(path).last() == path.last());
}

/// The last separator of a path, by its place.
pub proof fn lemma_after_separators(path: Seq<char>)
    ensures
        after_separators(path) <= path.len(),
        after_separators(path) > 0 ==> is_boundary(path[after_separators(path) - 1]),
        path.len() > 0 && !is_boundary(path.last()) ==> after_separators(path) < path.len(),
        forall|i: int| after_separators(path) <= i < path.len() ==> !is_boundary(#[trigger] path[i]),
    decreases path.len(),
{
    if path.len() > 0 && !is_boundary(path.last()) {
        let rest = path.drop_last();
        lemma_after_separators(rest);
        assert forall|i: int| after_separators(path) <= i < path.len() implies !is_boundary(
            #[trigger] path[i],
        ) by {
            if i < rest.len() {
                assert(rest[i] == path[i]);
            }
        }
    }
}

/// The extension and the character before it belong to the final part.
proof fn lemma_no_boundary(path: Seq<char>, at: int)
    requires
        is_plain_path(path),
        path.len() >= 5,
        at == path.len() - 5,
        has_png_extension(path),
        !is_special(path[at]),
    ensures
        name_start(path) <= at,
{
    lemma_after_separators(path);
    let k = after_separators(path) as int;
    if k > at {
        assert(is_boundary(path[k - 1]));
        assert(k - 1 == at || k - 1 == at + 1 || k - 1 == at + 2 || k - 1 == at + 3 || k - 1 == at
            + 4);
    }
}

/// The content type under which a file is served.
pub fn content_type(png: bool) -> (r: &'static str)
    ensures
        r@ == if png {
            "image/png"@
        } else {
            "image/jpeg"@
        },
{
    if png {
        "image/png"
    } else {
        "image/jpeg"
    }
}

// ---------------------------------------------------------------------------
// Names
// ---------------------------------------------------------------------------

/// A name counts as that of a PNG exactly where its last four characters are the
/// extension, each letter in either case, and something stands before them.
pub proof fn law_png_names_end_in_the_extension(stem: Seq<char>, a: char, b: char, c: char, d: char)
    ensures
        has_png_extension(stem + seq![a, b, c, d]) <==> stem.len() > 0 && a == '.' && (b == 'p' || b
            == 'P') && (c == 'n' || c == 'N') && (d == 'g' || d == 'G'),
        stem.len() < 4 ==> !has_png_extension(stem),
{
    let name = stem + seq![a, b, c, d];
    let n = name.len() as int;
    assert(name[n - 4] == a && name[n - 3] == b && name[n - 2] == c && name[n - 1] == d);
}

/// The final part of a path is what follows its last separator: whatever the directory,
/// a name without separators, drives and dots alone is found again.
pub proof fn law_names_follow_the_last_separator(dir: Seq<char>, name: Seq<char>)
    requires
        name.len() > 0,
        forall|i: int| 0 <= i < name.len() ==> !is_special(#[trigger] name[i]),
        name != seq!['.'],
        name != seq!['.', '.'],
        !is_special_form(dir + seq!['/'] + name),
    ensures
        ends_in_name(dir + seq!['/'] + name),
        final_part(dir + seq!['/'] + name) == name,
{
    let path = dir + seq!['/'] + name;
    let n = dir.len() + 1;
    lemma_after_separators(path);
    let k = after_separators(path) as int;
    assert(path[dir.len() as int] == '/');
    assert(k >= n);
    if k > n {
        assert(path[k - 1] == name[k - 1 - n]);
    }
    assert(path.skip(n as int) =~= name);
}

} // verus!
