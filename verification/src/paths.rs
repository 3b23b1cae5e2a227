//! A plain-string model of the few filesystem-path notions the cleaner needs:
//! the file name of a path, its parent directory, its extension, and prefix
//! containment. Paths are `/`-separated strings as the build tool prints them;
//! the caller hands them over verbatim.

use vstd::prelude::*;
use vstd::string::*;

use crate::strings::{find_last, str_eq, str_starts_with, starts_with};

verus! {

/// The final `/`-separated segment of `p`: the whole string when `p` holds no
/// separator. A path whose final segment is empty, `.` or `..` names no file.
pub open spec fn file_name_of(p: Seq<char>) -> Option<Seq<char>> {
    let tail = match p.index_of_last('/') {
        Some(i) => p.skip(i + 1),
        None => p,
    };
    if tail.len() == 0 || tail == seq!['.'] || tail == seq!['.', '.'] {
        None
    } else {
        Some(tail)
    }
}

/// Everything before the last separator; a path without a separator has no
/// parent directory here.
pub open spec fn parent_dir_of(p: Seq<char>) -> Option<Seq<char>> {
    match p.index_of_last('/') {
        Some(i) => Some(p.take(i)),
        None => None,
    }
}

/// The extension of the file named by `p`: what follows the last `.` of its
/// file name, provided that dot is not the name's first character.
pub open spec fn extension_of(p: Seq<char>) -> Option<Seq<char>> {
    match file_name_of(p) {
        Some(name) => match name.index_of_last('.') {
            Some(i) => if i == 0 {
                None
            } else {
                Some(name.skip(i + 1))
            },
            None => None,
        },
        None => None,
    }
}

/// The file name of `p` with its last extension removed (a leading dot does
/// not start an extension).
pub open spec fn file_stem_of(p: Seq<char>) -> Option<Seq<char>> {
    match file_name_of(p) {
        Some(name) => match name.index_of_last('.') {
            Some(i) => if i == 0 {
                Some(name)
            } else {
                Some(name.take(i))
            },
            None => Some(name),
        },
        None => None,
    }
}

/// A file stem, where one exists, is never empty: the file name is nonempty
/// and a dot at its front separates no extension.
pub proof fn lemma_file_stem_nonempty(p: Seq<char>)
    ensures
        match file_stem_of(p) {
            Some(stem) => stem.len() > 0,
            None => true,
        },
{
    match file_name_of(p) {
        Some(name) => {
            name.index_of_last_ensures('.');
        },
        None => {},
    }
}

/// Whether path `p` lies at or below directory `dir`: equal to it, or
/// continuing it right after a separator.
pub open spec fn path_in_dir(p: Seq<char>, dir: Seq<char>) -> bool {
    ||| p == dir
    ||| (starts_with(p, dir) && p.len() > dir.len() && (p[dir.len() as int] == '/' || (dir.len()
        > 0 && dir.last() == '/')))
}

/// Executable form of [`file_name_of`].
pub fn file_name(p: &str) -> (r: Option<&str>)
    ensures
        r.deep_view() == file_name_of(p@),
{
    let n = p.unicode_len();
    let tail = match find_last(p, '/') {
        Some(i) => p.substring_char(i + 1, n),
        None => p,
    };
    let tn = tail.unicode_len();
    if tn == 0 {
        proof {
            assert(tail@ =~= Seq::<char>::empty());
        }
        return None;
    }
    if tn == 1 && tail.get_char(0) == '.' {
        proof {
            assert(tail@ =~= seq!['.']);
        }
        return None;
    }
    if tn == 2 && tail.get_char(0) == '.' && tail.get_char(1) == '.' {
        proof {
            assert(tail@ =~= seq!['.', '.']);
        }
        return None;
    }
    proof {
        assert(tail@ != seq!['.'] && tail@ != seq!['.', '.']) by {
            if tail@ == seq!['.'] {
                assert(tail@.len() == 1);
            }
            if tail@ == seq!['.', '.'] {
                assert(tail@.len() == 2);
                assert(tail@[0] == '.' && tail@[1] == '.');
            }
        }
    }
    Some(tail)
}

/// Executable form of [`parent_dir_of`].
pub fn parent_dir(p: &str) -> (r: Option<&str>)
    ensures
        r.deep_view() == parent_dir_of(p@),
{
    match find_last(p, '/') {
        Some(i) => Some(p.substring_char(0, i)),
        None => None,
    }
}

/// Executable form of [`extension_of`].
pub fn extension(p: &str) -> (r: Option<&str>)
    ensures
        r.deep_view() == extension_of(p@),
{
    match file_name(p) {
        Some(name) => {
            let n = name.unicode_len();
            match find_last(name, '.') {
                Some(i) => if i == 0 {
                    None
                } else {
                    Some(name.substring_char(i + 1, n))
                },
                None => None,
            }
        },
        None => None,
    }
}

/// Executable form of [`file_stem_of`].
pub fn file_stem(p: &str) -> (r: Option<&str>)
    ensures
        r.deep_view() == file_stem_of(p@),
{
    match file_name(p) {
        Some(name) => {
            match find_last(name, '.') {
                Some(i) => if i == 0 {
                    Some(name)
                } else {
                    Some(name.substring_char(0, i))
                },
                None => Some(name),
            }
        },
        None => None,
    }
}

/// Executable form of [`path_in_dir`].
pub fn path_is_in_dir(p: &str, dir: &str) -> (r: bool)
    ensures
        r == path_in_dir(p@, dir@),
{
    if str_eq(p, dir) {
        return true;
    }
    if !str_starts_with(p, dir) {
        return false;
    }
    let np = p.unicode_len();
    let nd = dir.unicode_len();
    if np <= nd {
        proof {
            assert(p@.subrange(0, dir@.len() as int) =~= p@);
        }
        return false;
    }
    p.get_char(nd) == '/' || (nd > 0 && dir.get_char(nd - 1) == '/')
}

} // verus!
