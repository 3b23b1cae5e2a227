//! Dependency-information files: each line of a `.d` file names one produced
//! file, a colon, and the whitespace-separated source paths it was built
//! from. The legacy (non-traced) cleaning mode reads these to decide which
//! produced files still touch a workspace package.

use vstd::prelude::*;

use crate::paths::{extension, extension_of, path_in_dir, path_is_in_dir};
use crate::strings::{find_first, split_words, str_eq, trim, trim_of, words_of};
use crate::trace::split_on;
use vstd::string::*;

verus! {

/// One parsed dependency file: for each rule, the produced file and the paths
/// it depends on, in file order.
pub struct DepFile {
    pub entries: Vec<(String, Vec<String>)>,
}

/// The views of a dependency file's entries.
pub open spec fn dep_entry_views(s: Seq<(String, Vec<String>)>) -> Seq<(Seq<char>, Seq<Seq<char>>)> {
    s.map_values(|e: (String, Vec<String>)| (e.0@, e.1.deep_view()))
}

impl View for DepFile {
    type V = Seq<(Seq<char>, Seq<Seq<char>>)>;

    open spec fn view(&self) -> Seq<(Seq<char>, Seq<Seq<char>>)> {
        dep_entry_views(self.entries@)
    }
}

/// What one line contributes: nothing when blank, else the part before the
/// first colon and the words after it.
pub open spec fn dep_rule_of(line: Seq<char>) -> Option<(Seq<char>, Seq<Seq<char>>)> {
    let t = trim_of(line);
    if t.len() == 0 {
        None
    } else {
        match t.index_of_first(':') {
            Some(i) => Some((t.take(i), words_of(t.skip(i + 1)))),
            None => None,
        }
    }
}

/// A dependency file is well formed when every nonblank line holds a colon.
pub open spec fn dep_file_well_formed(s: Seq<char>) -> bool {
    forall|k: int|
        0 <= k < split_on(s, '\n').len() ==> (trim_of(#[trigger] split_on(s, '\n')[k]).len() == 0
            || trim_of(split_on(s, '\n')[k]).contains(':'))
}

/// The rules of the first `n` lines, in order.
pub open spec fn dep_rules_of(lines: Seq<Seq<char>>, n: int) -> Seq<(Seq<char>, Seq<Seq<char>>)>
    decreases n,
{
    if n <= 0 {
        Seq::empty()
    } else {
        let prev = dep_rules_of(lines, n - 1);
        match dep_rule_of(lines[n - 1]) {
            Some(rule) => prev.push(rule),
            None => prev,
        }
    }
}

/// Parses a dependency file: one rule per nonblank line, split at the line's
/// first colon, the dependencies split on whitespace. Every nonblank line
/// must hold a colon — the format guarantees it.
pub fn parse_dep_file(s: &str) -> (r: DepFile)
    requires
        dep_file_well_formed(s@),
    ensures
        r@ == dep_rules_of(split_on(s@, '\n'), split_on(s@, '\n').len() as int),
{
    let lines = crate::trace::split_char(s, '\n');
    let mut entries: Vec<(String, Vec<String>)> = Vec::new();
    let n = lines.len();
    let mut i: usize = 0;
    while i < n
        invariant
            0 <= i <= n,
            n == lines@.len(),
            lines.deep_view() == split_on(s@, '\n'),
            dep_file_well_formed(s@),
            dep_entry_views(entries@) == dep_rules_of(lines.deep_view(), i as int),
        decreases n - i,
    {
        let ghost e_old = dep_entry_views(entries@);
        let t = trim(lines[i]);
        proof {
            assert(lines.deep_view()[i as int] == lines@[i as int]@);
            assert(t@ == trim_of(split_on(s@, '\n')[i as int]));
        }
        if t.unicode_len() > 0 {
            let tn = t.unicode_len();
            match find_first(t, ':') {
                Some(p) => {
                    let key = t.substring_char(0, p).to_owned();
                    let rest = t.substring_char(p + 1, tn);
                    let deps = split_words(rest);
                    let ghost kv = key@;
                    let ghost dv = deps.deep_view();
                    entries.push((key, deps));
                    proof {
                        assert(dep_entry_views(entries@) =~= e_old.push((kv, dv)));
                    }
                },
                None => {
                    proof {
                        assert(t@.contains(':'));
                    }
                },
            }
        }
        i += 1;
    }
    DepFile { entries }
}

/// Whether some dependency named in the file lies at or below one of the
/// given directories — the sign that the produced files still belong to a
/// live workspace package.
pub open spec fn references_any_dir(
    entries: Seq<(Seq<char>, Seq<Seq<char>>)>,
    dirs: Seq<Seq<char>>,
) -> bool {
    exists|e: int, d: int, p: int|
        0 <= e < entries.len() && 0 <= d < dirs.len() && 0 <= p < entries[e].1.len() && path_in_dir(
            #[trigger] entries[e].1[p],
            #[trigger] dirs[d],
        )
}

/// Whether any dependency of `dep` lies under one of `dirs`.
pub fn dep_file_references_dirs(dep: &DepFile, dirs: &Vec<String>) -> (r: bool)
    ensures
        r == references_any_dir(dep@, dirs.deep_view()),
{
    let ne = dep.entries.len();
    let mut e: usize = 0;
    while e < ne
        invariant
            0 <= e <= ne,
            ne == dep.entries@.len(),
            forall|x: int, d: int, p: int|
                0 <= x < e && 0 <= d < dirs.deep_view().len() && 0 <= p < dep@[x].1.len()
                    ==> !path_in_dir(#[trigger] dep@[x].1[p], #[trigger] dirs.deep_view()[d]),
        decreases ne - e,
    {
        let np = dep.entries[e].1.len();
        let mut p: usize = 0;
        while p < np
            invariant
                0 <= p <= np,
                0 <= e < ne,
                ne == dep.entries@.len(),
                np == dep.entries@[e as int].1@.len(),
                forall|q: int, d: int|
                    0 <= q < p && 0 <= d < dirs.deep_view().len() ==> !path_in_dir(
                        #[trigger] dep@[e as int].1[q],
                        #[trigger] dirs.deep_view()[d],
                    ),
            decreases np - p,
        {
            let nd = dirs.len();
            let mut d: usize = 0;
            while d < nd
                invariant
                    0 <= d <= nd,
                    0 <= p < np,
                    0 <= e < ne,
                    nd == dirs@.len(),
                    ne == dep.entries@.len(),
                    np == dep.entries@[e as int].1@.len(),
                    forall|x: int|
                        0 <= x < d ==> !path_in_dir(
                            dep@[e as int].1[p as int],
                            #[trigger] dirs.deep_view()[x],
                        ),
                decreases nd - d,
            {
                if path_is_in_dir(dep.entries[e].1[p].as_str(), dirs[d].as_str()) {
                    proof {
                        assert(dep@[e as int].1[p as int] == dep.entries@[e as int].1@[p as int]@);
                        assert(path_in_dir(dep@[e as int].1[p as int], dirs.deep_view()[d as int]));
                    }
                    return true;
                }
                d += 1;
            }
            proof {
                assert(dep@[e as int].1[p as int] == dep.entries@[e as int].1@[p as int]@);
            }
            p += 1;
        }
        e += 1;
    }
    proof {
        if references_any_dir(dep@, dirs.deep_view()) {
            let (e0, d0, p0) = choose|e0: int, d0: int, p0: int|
                0 <= e0 < dep@.len() && 0 <= d0 < dirs.deep_view().len() && 0 <= p0
                    < dep@[e0].1.len() && path_in_dir(
                    #[trigger] dep@[e0].1[p0],
                    #[trigger] dirs.deep_view()[d0],
                );
        }
    }
    false
}

/// Whether the legacy mode may delete this produced file: it lies under the
/// output root and is a library archive or metadata file — nothing else is
/// ever deleted on that path.
pub open spec fn legacy_removable(p: Seq<char>, target_dir: Seq<char>) -> bool {
    &&& path_in_dir(p, target_dir)
    &&& match extension_of(p) {
        Some(e) => e == "rlib"@ || e == "rmeta"@,
        None => false,
    }
}

/// Executable form of [`legacy_removable`].
pub fn is_legacy_removable(p: &str, target_dir: &str) -> (r: bool)
    ensures
        r == legacy_removable(p@, target_dir@),
{
    if !path_is_in_dir(p, target_dir) {
        return false;
    }
    match extension(p) {
        Some(e) => str_eq(e, "rlib") || str_eq(e, "rmeta"),
        None => false,
    }
}

} // verus!
