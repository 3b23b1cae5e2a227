//! Artifact filename conventions: a compiled unit leaves files named
//! `[lib]<crate_name>-<hash>.<extension chain>`, and everything the cleaner
//! decides hangs on taking such a name apart exactly the same way every time.

use vstd::prelude::*;
use vstd::string::*;

use crate::paths::{file_name, file_name_of, file_stem, file_stem_of};
use crate::strings::{find_first, find_last, push_char};

verus! {

/// One parsed artifact filename: the `lib` prefix (if any) stripped, the stem
/// split at its last interior `-` into crate name and build hash, and the
/// whole remainder after the first interior `.` kept as one extension chain.
/// No split ever leaves the crate name empty.
pub struct ParsedArtifact<'a> {
    pub lib_prefix: bool,
    pub crate_name: &'a str,
    pub hash: Option<&'a str>,
    pub ext: Option<&'a str>,
}

/// Whether a filename carries the conventional `lib` prefix.
pub open spec fn lib_prefixed(name: Seq<char>) -> bool {
    name.len() >= 3 && name[0] == 'l' && name[1] == 'i' && name[2] == 'b'
}

/// The filename with a `lib` prefix removed when present.
pub open spec fn strip_lib(name: Seq<char>) -> Seq<char> {
    if lib_prefixed(name) {
        name.skip(3)
    } else {
        name
    }
}

/// The part of `s` before the first occurrence of `c` (all of `s` when `c`
/// does not occur).
pub open spec fn before_first(s: Seq<char>, c: char) -> Seq<char> {
    match s.index_of_first(c) {
        Some(i) => s.take(i),
        None => s,
    }
}

/// The stem of an artifact filename: the `lib` prefix stripped, then
/// everything before the first `.`.
pub open spec fn stem_of_name(name: Seq<char>) -> Seq<char> {
    before_first(strip_lib(name), '.')
}

/// Where a stem splits into crate name and build hash: at its last `-`,
/// provided that leaves a nonempty crate name. A dash at the stem's front
/// separates nothing — a crate name is never empty — so such a stem has no
/// hash.
pub open spec fn hash_split_at(stem: Seq<char>) -> Option<int> {
    match stem.index_of_last('-') {
        Some(i) => if i > 0 {
            Some(i)
        } else {
            None
        },
        None => None,
    }
}

/// The `crate_name-hash` grouping stem of the file named by path `p`, present
/// only when the stem splits into a nonempty crate name and a hash; any other
/// name is not a recognized build artifact and takes part in no liveness
/// decision.
pub open spec fn artifact_stem_of(p: Seq<char>) -> Option<Seq<char>> {
    match file_name_of(p) {
        Some(name) => {
            let stem = stem_of_name(name);
            match hash_split_at(stem) {
                Some(_) => Some(stem),
                None => None,
            }
        },
        None => None,
    }
}

/// The crate-name key of the file named by path `p`: its file stem with a
/// `lib` prefix stripped and any `-hash` suffix dropped; `unknown` when the
/// path names no file. The key is never empty: a `lib` prefix with nothing
/// after it stays, and a dash at the front of the stem delimits no hash.
pub open spec fn crate_key_of(p: Seq<char>) -> Seq<char> {
    match file_stem_of(p) {
        Some(stem) => {
            let bare = if strip_lib(stem).len() == 0 {
                stem
            } else {
                strip_lib(stem)
            };
            let key = before_first(bare, '-');
            if key.len() == 0 {
                bare
            } else {
                key
            }
        },
        None => seq!['u', 'n', 'k', 'n', 'o', 'w', 'n'],
    }
}

/// A crate name with every `-` replaced by `_`: build tools use the two
/// interchangeably, so names are compared in this normalized form.
pub open spec fn normalized(name: Seq<char>) -> Seq<char> {
    name.map_values(
        |c: char|
            if c == '-' {
                '_'
            } else {
                c
            },
    )
}

/// Strips a `lib` prefix when present.
pub fn strip_lib_prefix(name: &str) -> (r: &str)
    ensures
        r@ == strip_lib(name@),
{
    let n = name.unicode_len();
    if n >= 3 && name.get_char(0) == 'l' && name.get_char(1) == 'i' && name.get_char(2) == 'b' {
        name.substring_char(3, n)
    } else {
        name
    }
}

/// The part of `name` before its first `.`.
fn before_first_dot(name: &str) -> (r: &str)
    ensures
        r@ == before_first(name@, '.'),
{
    match find_first(name, '.') {
        Some(i) => name.substring_char(0, i),
        None => name,
    }
}

/// Extracts the `crate_name-hash` stem from an artifact path, exactly when
/// the filename has a recognizable hash-bearing stem.
///
/// `libfoo-h.rlib`, `libfoo-h.rmeta`, `foo-h.d` and multi-extension names
/// such as `foo-h.foo.cgu.00.rcgu.dwo` all yield `foo-h`; a name whose stem
/// has no `-`, or only a leading one, yields nothing.
pub fn artifact_stem(path: &str) -> (r: Option<String>)
    ensures
        r.deep_view() == artifact_stem_of(path@),
{
    let name = match file_name(path) {
        Some(n) => n,
        None => {
            return None;
        },
    };
    let stem = before_first_dot(strip_lib_prefix(name));
    match find_last(stem, '-') {
        Some(i) => if i > 0 {
            Some(stem.to_owned())
        } else {
            None
        },
        None => None,
    }
}

/// The crate-name key of an artifact path: file stem, `lib` prefix stripped,
/// trailing `-hash` dropped. The key is never empty; unnameable paths map to
/// `unknown`.
pub fn crate_key(path: &str) -> (r: String)
    ensures
        r@ == crate_key_of(path@),
        r@.len() > 0,
{
    let stem = match file_stem(path) {
        Some(s) => s,
        None => {
            let u = "unknown";
            proof {
                reveal_strlit("unknown");
                assert(u@ =~= seq!['u', 'n', 'k', 'n', 'o', 'w', 'n']);
            }
            return u.to_owned();
        },
    };
    proof {
        crate::paths::lemma_file_stem_nonempty(path@);
    }
    let stripped = strip_lib_prefix(stem);
    let bare = if stripped.unicode_len() == 0 {
        stem
    } else {
        stripped
    };
    match find_first(bare, '-') {
        Some(i) => if i > 0 {
            bare.substring_char(0, i).to_owned()
        } else {
            bare.to_owned()
        },
        None => bare.to_owned(),
    }
}

/// Replaces every `-` with `_`.
pub fn normalize_name(name: &str) -> (r: String)
    ensures
        r@ == normalized(name@),
{
    let n = name.unicode_len();
    let mut out = String::new();
    let mut i: usize = 0;
    while i < n
        invariant
            0 <= i <= n,
            n == name@.len(),
            out@ == normalized(name@.take(i as int)),
        decreases n - i,
    {
        let c = name.get_char(i);
        if c == '-' {
            push_char(&mut out, '_');
        } else {
            push_char(&mut out, c);
        }
        i += 1;
        proof {
            assert(out@ =~= normalized(name@.take(i as int)));
        }
    }
    proof {
        assert(name@.take(n as int) =~= name@);
    }
    out
}

/// Whether the display parser treats `name` as `lib`-prefixed: the prefix
/// must leave a nonempty remainder, else it is part of the crate name.
pub open spec fn display_lib_prefix(name: Seq<char>) -> bool {
    lib_prefixed(name) && name.len() > 3
}

/// Where a parsed filename's extension chain begins: at the first `.` after
/// the first character. A leading dot starts no extension, so the crate-name
/// part is never empty.
pub open spec fn ext_split_at(rest: Seq<char>) -> Option<int> {
    if rest.len() <= 1 {
        None
    } else {
        match rest.skip(1).index_of_first('.') {
            Some(i) => Some(i + 1),
            None => None,
        }
    }
}

/// Parses an artifact filename into its `lib` prefix, crate name, optional
/// build hash and optional extension chain. The name splits at its first
/// interior `.` (extension chains may hold many dots) and the stem at its
/// last interior `-` (hashes never contain one); a split never leaves the
/// crate name empty, so on any nonempty filename `crate_name` is nonempty.
pub fn parse_artifact(filename: &str) -> (r: ParsedArtifact<'_>)
    ensures
        r.lib_prefix == display_lib_prefix(filename@),
        ({
            let rest = if display_lib_prefix(filename@) {
                filename@.skip(3)
            } else {
                filename@
            };
            let stem = match ext_split_at(rest) {
                Some(i) => rest.take(i),
                None => rest,
            };
            &&& r.ext.deep_view() == match ext_split_at(rest) {
                Some(i) => Some(rest.skip(i + 1)),
                None => None::<Seq<char>>,
            }
            &&& match hash_split_at(stem) {
                Some(i) => r.crate_name@ == stem.take(i) && r.hash.deep_view() == Some(
                    stem.skip(i + 1),
                ),
                None => r.crate_name@ == stem && r.hash.deep_view() == None::<Seq<char>>,
            }
        }),
        filename@.len() > 0 ==> r.crate_name@.len() > 0,
{
    let n = filename.unicode_len();
    let lib_prefix = n > 3 && filename.get_char(0) == 'l' && filename.get_char(1) == 'i'
        && filename.get_char(2) == 'b';
    let rest = if lib_prefix {
        filename.substring_char(3, n)
    } else {
        filename
    };
    let rn = rest.unicode_len();
    let (stem, ext) = if rn <= 1 {
        (rest, None)
    } else {
        let tail = rest.substring_char(1, rn);
        proof {
            assert(tail@ =~= rest@.skip(1));
        }
        match find_first(tail, '.') {
            Some(i) => (rest.substring_char(0, i + 1), Some(rest.substring_char(i + 2, rn))),
            None => (rest, None),
        }
    };
    let sn = stem.unicode_len();
    match find_last(stem, '-') {
        Some(i) => if i > 0 {
            ParsedArtifact {
                lib_prefix,
                crate_name: stem.substring_char(0, i),
                hash: Some(stem.substring_char(i + 1, sn)),
                ext,
            }
        } else {
            ParsedArtifact { lib_prefix, crate_name: stem, hash: None, ext }
        },
        None => ParsedArtifact { lib_prefix, crate_name: stem, hash: None, ext },
    }
}

} // verus!
