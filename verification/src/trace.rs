//! Parsing the build tool's fingerprint diagnostics. A traced build prints,
//! among much else, lines that mention an artifact's modification time and
//! quote its path; the last quoted path on such a line that carries a
//! recognized artifact extension and lies under the output root is an
//! artifact the build still loads. The first quoted string of the line names,
//! best-effort, the unit that referenced it — kept only for reporting, never
//! for keep/remove decisions.

use vstd::prelude::*;
use vstd::string::*;

use crate::paths::{extension, extension_of, path_in_dir, path_is_in_dir};
use crate::strings::{find_first, has_substring, starts_with, str_contains, str_eq};

verus! {

/// How a standard build is traced: a metadata-only pass or a full build.
#[derive(Debug, Clone, Copy, PartialEq, Eq)]
pub enum TraceMode {
    /// Metadata-only pass: faster, observes only metadata artifacts.
    Check,
    /// Full build: observes archives as well.
    Build,
}

/// The pieces of `s` between occurrences of `c`, in order; a string without
/// `c` yields itself as its only piece.
pub open spec fn split_on(s: Seq<char>, c: char) -> Seq<Seq<char>>
    decreases s.len(),
{
    match s.index_of_first(c) {
        Some(i) => if 0 <= i < s.len() {
            seq![s.take(i)] + split_on(s.skip(i + 1), c)
        } else {
            seq![s]
        },
        None => seq![s],
    }
}

/// Splits `s` at every occurrence of `c`.
pub fn split_char<'a>(s: &'a str, c: char) -> (r: Vec<&'a str>)
    ensures
        r.deep_view() == split_on(s@, c),
{
    let mut parts: Vec<&'a str> = Vec::new();
    let mut cur: &'a str = s;
    loop
        invariant_except_break
            parts.deep_view() + split_on(cur@, c) =~= split_on(s@, c),
        ensures
            parts.deep_view() == split_on(s@, c),
        decreases cur@.len(),
    {
        let ghost parts_old = parts.deep_view();
        match find_first(cur, c) {
            Some(i) => {
                let n = cur.unicode_len();
                let head = cur.substring_char(0, i);
                parts.push(head);
                let ghost cur_old = cur@;
                cur = cur.substring_char(i + 1, n);
                proof {
                    assert(parts.deep_view() =~= parts_old.push(head@));
                    assert(split_on(cur_old, c) =~= seq![cur_old.take(i as int)] + split_on(
                        cur_old.skip(i as int + 1),
                        c,
                    ));
                    assert(parts.deep_view() + split_on(cur@, c) =~= split_on(s@, c));
                }
            },
            None => {
                parts.push(cur);
                proof {
                    assert(split_on(cur@, c) =~= seq![cur@]);
                    assert(parts.deep_view() =~= parts_old.push(cur@));
                    assert(parts.deep_view() =~= split_on(s@, c));
                }
                break ;
            },
        }
    }
    parts
}

/// The artifact extensions the tracer recognizes: library archives, metadata,
/// and the shared, dynamic and import library forms. An explicit allow-list,
/// not a guess.
pub open spec fn artifact_extension(e: Seq<char>) -> bool {
    ||| e == "rlib"@
    ||| e == "rmeta"@
    ||| e == "so"@
    ||| e == "dylib"@
    ||| e == "dll"@
}

/// Whether a quoted piece names a used artifact: recognized extension, lying
/// under the output root.
pub open spec fn artifact_candidate(p: Seq<char>, target_dir: Seq<char>) -> bool {
    &&& match extension_of(p) {
        Some(e) => artifact_extension(e),
        None => false,
    }
    &&& path_in_dir(p, target_dir)
}

/// The last piece that is an artifact candidate, if any.
pub open spec fn last_candidate(parts: Seq<Seq<char>>, target_dir: Seq<char>) -> Option<Seq<char>>
    decreases parts.len(),
{
    if parts.len() == 0 {
        None
    } else if artifact_candidate(parts.last(), target_dir) {
        Some(parts.last())
    } else {
        last_candidate(parts.drop_last(), target_dir)
    }
}

/// What a diagnostic line contributes: on a line that mentions `mtime` and
/// holds at least one quoted piece, the last quoted piece that is an artifact
/// candidate; nothing otherwise.
pub open spec fn extracted_artifact(line: Seq<char>, target_dir: Seq<char>) -> Option<Seq<char>> {
    if !has_substring(line, "mtime"@) {
        None
    } else {
        let parts = split_on(line, '"');
        if parts.len() < 2 {
            None
        } else {
            last_candidate(parts, target_dir)
        }
    }
}

/// The consumer hint of a line: the first quoted piece, present when the line
/// holds at least two quoted pieces. Best-effort and for reporting only.
pub open spec fn extracted_consumer(line: Seq<char>) -> Option<Seq<char>> {
    let parts = split_on(line, '"');
    if parts.len() >= 4 {
        Some(parts[1])
    } else {
        None
    }
}

/// What one build trace observed: the artifact paths the diagnostics
/// referenced, and — best-effort, for reporting only, never for keep/remove
/// decisions — which unit referenced each.
pub struct TraceResult {
    /// Used artifact paths, without repetition.
    pub used_artifacts: Vec<String>,
    /// `(artifact path, consumer name)` pairs, without repetition.
    pub used_by: Vec<(String, String)>,
}

/// The views of the consumer pairs.
pub open spec fn used_by_views(s: Seq<(String, String)>) -> Seq<(Seq<char>, Seq<char>)> {
    s.map_values(|e: (String, String)| (e.0@, e.1@))
}

impl TraceResult {
    /// Both lists are free of repetition, so they stand for sets.
    pub open spec fn wf(&self) -> bool {
        &&& forall|i: int, j: int|
            0 <= i < j < self.used_artifacts@.len() ==> self.used_artifacts.deep_view()[i]
                != self.used_artifacts.deep_view()[j]
        &&& forall|i: int, j: int|
            0 <= i < j < self.used_by@.len() ==> used_by_views(self.used_by@)[i] != used_by_views(
                self.used_by@,
            )[j]
    }

    /// The set of used artifact paths.
    pub open spec fn used_set(&self) -> Set<Seq<char>> {
        self.used_artifacts.deep_view().to_set()
    }

    /// The reported consumer relation.
    pub open spec fn used_by_rel(&self) -> Set<(Seq<char>, Seq<char>)> {
        used_by_views(self.used_by@).to_set()
    }

    /// An empty trace.
    pub fn new() -> (r: TraceResult)
        ensures
            r.wf(),
            r.used_set() == Set::<Seq<char>>::empty(),
            r.used_by_rel() == Set::<(Seq<char>, Seq<char>)>::empty(),
    {
        let r = TraceResult { used_artifacts: Vec::new(), used_by: Vec::new() };
        proof {
            assert(r.used_set() =~= Set::<Seq<char>>::empty());
            assert(r.used_by_rel() =~= Set::<(Seq<char>, Seq<char>)>::empty());
        }
        r
    }

    /// Records a used artifact path, once.
    pub fn insert_artifact(&mut self, path: String)
        requires
            old(self).wf(),
        ensures
            final(self).wf(),
            final(self).used_set() == old(self).used_set().insert(path@),
            final(self).used_by_rel() == old(self).used_by_rel(),
    {
        let ghost v0 = self.used_artifacts.deep_view();
        if !crate::strings::string_list_contains(&self.used_artifacts, path.as_str()) {
            let ghost pv = path@;
            self.used_artifacts.push(path);
            proof {
                assert(self.used_artifacts.deep_view() =~= v0.push(pv));
                assert forall|i: int, j: int|
                    0 <= i < j < self.used_artifacts@.len() implies self.used_artifacts.deep_view()[i]
                    != self.used_artifacts.deep_view()[j] by {
                    if j < v0.len() {
                        assert(v0[i] != v0[j]);
                    } else {
                        assert(self.used_artifacts.deep_view()[j] == pv);
                        if self.used_artifacts.deep_view()[i] == pv {
                            assert(v0.contains(pv)) by {
                                assert(v0[i] == pv);
                            }
                        }
                    }
                }
                assert(self.used_set() =~= old(self).used_set().insert(pv)) by {
                    assert forall|x: Seq<char>| #[trigger] self.used_set().contains(x) implies
                    old(self).used_set().insert(pv).contains(x) by {
                        let w = choose|w: int|
                            0 <= w < v0.push(pv).len() && v0.push(pv)[w] == x;
                        if w < v0.len() {
                            assert(v0[w] == x);
                        }
                    }
                    assert forall|x: Seq<char>| old(self).used_set().insert(pv).contains(x) implies
                    #[trigger] self.used_set().contains(x) by {
                        if x == pv {
                            assert(v0.push(pv)[v0.len() as int] == x);
                        } else {
                            let w = choose|w: int| 0 <= w < v0.len() && v0[w] == x;
                            assert(v0.push(pv)[w] == x);
                        }
                    }
                }
            }
        } else {
            proof {
                assert(old(self).used_set() =~= old(self).used_set().insert(path@)) by {
                    assert(v0.contains(path@));
                }
            }
        }
    }

    /// Records, once, that `consumer` referenced `path`.
    pub fn record_used_by(&mut self, path: &str, consumer: &str)
        requires
            old(self).wf(),
        ensures
            final(self).wf(),
            final(self).used_set() == old(self).used_set(),
            final(self).used_by_rel() == old(self).used_by_rel().insert((path@, consumer@)),
    {
        let ghost v0 = used_by_views(self.used_by@);
        if used_by_list_contains(&self.used_by, path, consumer) {
            proof {
                assert(old(self).used_by_rel() =~= old(self).used_by_rel().insert(
                    (path@, consumer@),
                )) by {
                    assert(v0.contains((path@, consumer@)));
                }
            }
            return ;
        }
        let ghost pv = (path@, consumer@);
        self.used_by.push((path.to_owned(), consumer.to_owned()));
        proof {
            assert(used_by_views(self.used_by@) =~= v0.push(pv));
            assert forall|x: int, y: int| 0 <= x < y < self.used_by@.len() implies used_by_views(
                self.used_by@,
            )[x] != used_by_views(self.used_by@)[y] by {
                if y < v0.len() {
                    assert(v0[x] != v0[y]);
                } else {
                    assert(used_by_views(self.used_by@)[y] == pv);
                    assert(used_by_views(self.used_by@)[x] == v0[x]);
                    assert(v0[x] != pv);
                }
            }
            assert(self.used_by_rel() =~= old(self).used_by_rel().insert(pv)) by {
                assert forall|x: (Seq<char>, Seq<char>)| #[trigger] self.used_by_rel().contains(x)
                    implies old(self).used_by_rel().insert(pv).contains(x) by {
                    let w = choose|w: int| 0 <= w < v0.push(pv).len() && v0.push(pv)[w] == x;
                    if w < v0.len() {
                        assert(v0[w] == x);
                    }
                }
                assert forall|x: (Seq<char>, Seq<char>)| old(self).used_by_rel().insert(pv).contains(
                    x,
                ) implies #[trigger] self.used_by_rel().contains(x) by {
                    if x == pv {
                        assert(v0.push(pv)[v0.len() as int] == x);
                    } else {
                        let w = choose|w: int| 0 <= w < v0.len() && v0[w] == x;
                        assert(v0.push(pv)[w] == x);
                    }
                }
            }
            assert(self.used_set() =~= old(self).used_set());
        }
    }
}

/// Whether the consumer pairs already hold `(path, consumer)`.
fn used_by_list_contains(v: &Vec<(String, String)>, path: &str, consumer: &str) -> (r: bool)
    ensures
        r == used_by_views(v@).contains((path@, consumer@)),
{
    let n = v.len();
    let mut i: usize = 0;
    while i < n
        invariant
            0 <= i <= n,
            n == v@.len(),
            forall|j: int| 0 <= j < i ==> used_by_views(v@)[j] != (path@, consumer@),
        decreases n - i,
    {
        if str_eq(v[i].0.as_str(), path) && str_eq(v[i].1.as_str(), consumer) {
            proof {
                assert(used_by_views(v@)[i as int] == (path@, consumer@));
            }
            return true;
        }
        i += 1;
    }
    proof {
        if used_by_views(v@).contains((path@, consumer@)) {
            let w = choose|w: int|
                0 <= w < used_by_views(v@).len() && used_by_views(v@)[w] == (path@, consumer@);
        }
    }
    false
}

/// The suffix of `d` after the prefix `dir` and one following separator.
pub open spec fn rel_after(d: Seq<char>, dir: Seq<char>) -> Seq<char> {
    if d.len() > dir.len() && d[dir.len() as int] == '/' {
        d.skip(dir.len() as int + 1)
    } else {
        d.skip(dir.len() as int)
    }
}

/// The display name of a deps directory under the output root: its path
/// relative to the root with the trailing `deps` component dropped — `debug`,
/// `release`, or a `target/profile` pair for cross-compilation.
pub open spec fn scan_display(d: Seq<char>, dir: Seq<char>) -> Seq<char> {
    match crate::paths::parent_dir_of(rel_after(d, dir)) {
        Some(x) => x,
        None => Seq::empty(),
    }
}

/// A traced artifact path `p` reveals `d` as a directory to scan: `d` is its
/// parent, named `deps`, under the output root.
pub open spec fn reveals_deps_dir(p: Seq<char>, d: Seq<char>, target: Seq<char>) -> bool {
    &&& crate::paths::parent_dir_of(p) == Some(d)
    &&& crate::paths::file_name_of(d) == Some("deps"@)
    &&& path_in_dir(d, target)
}

/// The display name of one deps directory.
fn scan_display_of(d: &str, target: &str) -> (r: String)
    requires
        starts_with(d@, target@),
    ensures
        r@ == scan_display(d@, target@),
{
    let nd = d.unicode_len();
    let nt = target.unicode_len();
    let cut = if nd > nt && d.get_char(nt) == '/' {
        nt + 1
    } else {
        nt
    };
    let rel = d.substring_char(cut, nd);
    match crate::paths::parent_dir(rel) {
        Some(x) => x.to_owned(),
        None => {
            let r = String::new();
            proof {
                assert(r@ =~= Seq::<char>::empty());
            }
            r
        },
    }
}

/// Whether some pair in `v` has `d` as its first component.
fn pair_list_contains_first(v: &Vec<(String, String)>, d: &str) -> (r: bool)
    ensures
        r == exists|k: int|
            0 <= k < v@.len() && (#[trigger] used_by_views(v@)[k]).0 == d@,
{
    let n = v.len();
    let mut i: usize = 0;
    while i < n
        invariant
            0 <= i <= n,
            n == v@.len(),
            forall|k: int| 0 <= k < i ==> (#[trigger] used_by_views(v@)[k]).0 != d@,
        decreases n - i,
    {
        if str_eq(v[i].0.as_str(), d) {
            proof {
                assert((used_by_views(v@)[i as int]).0 == d@);
            }
            return true;
        }
        i += 1;
    }
    false
}

/// Derives, from the traced artifact paths, the deps directories to scan and
/// their display names: each artifact's parent directory, when it is named
/// `deps` and lies under the output root, once each, paired with its profile
/// display name. Cross-compilation targets fall out of this automatically.
pub fn derive_scan_dirs(used_artifacts: &Vec<String>, target_dir: &str) -> (r: Vec<
    (String, String),
>)
    ensures
        forall|k1: int, k2: int|
            0 <= k1 < k2 < r@.len() ==> (#[trigger] used_by_views(r@)[k1]).0 != (
            #[trigger] used_by_views(r@)[k2]).0,
        forall|k: int|
            0 <= k < r@.len() ==> (#[trigger] used_by_views(r@)[k]).1 == scan_display(
                (used_by_views(r@)[k]).0,
                target_dir@,
            ) && (exists|j: int|
                0 <= j < used_artifacts@.len() && reveals_deps_dir(
                    #[trigger] used_artifacts.deep_view()[j],
                    (used_by_views(r@)[k]).0,
                    target_dir@,
                )),
        forall|j: int, d: Seq<char>|
            0 <= j < used_artifacts@.len() && #[trigger] reveals_deps_dir(
                used_artifacts.deep_view()[j],
                d,
                target_dir@,
            ) ==> exists|k: int| 0 <= k < r@.len() && (#[trigger] used_by_views(r@)[k]).0 == d,
{
    let mut r: Vec<(String, String)> = Vec::new();
    let n = used_artifacts.len();
    let mut i: usize = 0;
    while i < n
        invariant
            0 <= i <= n,
            n == used_artifacts@.len(),
            forall|k1: int, k2: int|
                0 <= k1 < k2 < r@.len() ==> (#[trigger] used_by_views(r@)[k1]).0 != (
                #[trigger] used_by_views(r@)[k2]).0,
            forall|k: int|
                0 <= k < r@.len() ==> (#[trigger] used_by_views(r@)[k]).1 == scan_display(
                    (used_by_views(r@)[k]).0,
                    target_dir@,
                ) && (exists|j: int|
                    0 <= j < used_artifacts@.len() && reveals_deps_dir(
                        #[trigger] used_artifacts.deep_view()[j],
                        (used_by_views(r@)[k]).0,
                        target_dir@,
                    )),
            forall|j: int, d: Seq<char>|
                0 <= j < i && #[trigger] reveals_deps_dir(
                    used_artifacts.deep_view()[j],
                    d,
                    target_dir@,
                ) ==> exists|k: int| 0 <= k < r@.len() && (#[trigger] used_by_views(r@)[k]).0 == d,
        decreases n - i,
    {
        let ghost r_entry = r@;
        let a = used_artifacts[i].as_str();
        let ghost av = used_artifacts.deep_view()[i as int];
        let mut hit = false;
        match crate::paths::parent_dir(a) {
            Some(parent) => {
                let is_deps = match crate::paths::file_name(parent) {
                    Some(nm) => str_eq(nm, "deps"),
                    None => false,
                };
                if is_deps && path_is_in_dir(parent, target_dir) {
                    hit = true;
                    proof {
                        assert(reveals_deps_dir(av, parent@, target_dir@));
                        assert(starts_with(parent@, target_dir@)) by {
                            if parent@ == target_dir@ {
                                assert(parent@.subrange(0, target_dir@.len() as int)
                                    =~= target_dir@);
                            }
                        }
                    }
                    let already = pair_list_contains_first(&r, parent);
                    if !already {
                        let display = scan_display_of(parent, target_dir);
                        let ghost dv = parent@;
                        let ghost disv = display@;
                        r.push((parent.to_owned(), display));
                        proof {
                            assert(used_by_views(r@) =~= used_by_views(r_entry).push((dv, disv)));
                            assert forall|k1: int, k2: int|
                                0 <= k1 < k2 < r@.len() implies (#[trigger] used_by_views(
                                r@,
                            )[k1]).0 != (#[trigger] used_by_views(r@)[k2]).0 by {
                                if k2 < r_entry.len() {
                                    assert((used_by_views(r_entry)[k1]).0 != (used_by_views(
                                        r_entry,
                                    )[k2]).0);
                                } else {
                                    assert((used_by_views(r@)[k2]).0 == dv);
                                    assert((used_by_views(r@)[k1]).0 == (used_by_views(
                                        r_entry,
                                    )[k1]).0);
                                }
                            }
                        }
                    }
                    proof {
                        assert(exists|k: int|
                            0 <= k < r@.len() && (#[trigger] used_by_views(r@)[k]).0
                                == parent@) by {
                            if !already {
                                assert((used_by_views(r@)[r_entry.len() as int]).0 == parent@);
                            }
                        }
                    }
                }
            },
            None => {},
        }
        proof {
            assert(forall|k: int|
                0 <= k < r_entry.len() ==> #[trigger] used_by_views(r@)[k] == used_by_views(
                    r_entry,
                )[k]);
            if !hit {
                assert(r@ == r_entry);
                assert(forall|d: Seq<char>| !(#[trigger] reveals_deps_dir(av, d, target_dir@)));
            }
            assert forall|j: int, d: Seq<char>|
                0 <= j < i + 1 && #[trigger] reveals_deps_dir(
                    used_artifacts.deep_view()[j],
                    d,
                    target_dir@,
                ) implies exists|k: int|
                0 <= k < r@.len() && (#[trigger] used_by_views(r@)[k]).0 == d by {
                if j < i {
                    let k = choose|k: int|
                        0 <= k < r_entry.len() && (#[trigger] used_by_views(r_entry)[k]).0 == d;
                    assert((used_by_views(r@)[k]).0 == d);
                } else {
                    assert(crate::paths::parent_dir_of(av) == Some(d));
                }
            }
            assert forall|k: int| 0 <= k < r@.len() implies (#[trigger] used_by_views(
                r@,
            )[k]).1 == scan_display((used_by_views(r@)[k]).0, target_dir@) && (exists|j: int|
                0 <= j < used_artifacts@.len() && reveals_deps_dir(
                    #[trigger] used_artifacts.deep_view()[j],
                    (used_by_views(r@)[k]).0,
                    target_dir@,
                )) by {
                if k < r_entry.len() {
                    assert(used_by_views(r@)[k] == used_by_views(r_entry)[k]);
                    let j = choose|j: int|
                        0 <= j < used_artifacts@.len() && reveals_deps_dir(
                            #[trigger] used_artifacts.deep_view()[j],
                            (used_by_views(r_entry)[k]).0,
                            target_dir@,
                        );
                    assert(reveals_deps_dir(
                        used_artifacts.deep_view()[j],
                        (used_by_views(r@)[k]).0,
                        target_dir@,
                    ));
                } else {
                    assert(reveals_deps_dir(av, (used_by_views(r@)[k]).0, target_dir@));
                }
            }
        }
        i += 1;
    }
    proof {
        assert forall|k: int| 0 <= k < r@.len() implies (#[trigger] used_by_views(r@)[k]).1
            == scan_display((used_by_views(r@)[k]).0, target_dir@) && (exists|j: int|
            0 <= j < used_artifacts@.len() && reveals_deps_dir(
                #[trigger] used_artifacts.deep_view()[j],
                (used_by_views(r@)[k]).0,
                target_dir@,
            )) by {
            let j = choose|j: int|
                0 <= j < used_artifacts@.len() && reveals_deps_dir(
                    #[trigger] used_artifacts.deep_view()[j],
                    (used_by_views(r@)[k]).0,
                    target_dir@,
                );
            assert(reveals_deps_dir(
                used_artifacts.deep_view()[j],
                (used_by_views(r@)[k]).0,
                target_dir@,
            ));
        }
    }
    r
}

/// The trace-line parser, bound to one output root.
pub struct TraceParser {
    pub target_dir: String,
}

impl TraceParser {
    /// A parser for artifacts under `target_dir`.
    pub fn new(target_dir: String) -> (r: TraceParser)
        ensures
            r.target_dir@ == target_dir@,
    {
        TraceParser { target_dir }
    }

    /// Pulls the used-artifact path out of one diagnostic line, if the line
    /// carries one: the line must mention `mtime`, and the path is the last
    /// quoted piece with a recognized extension under the output root.
    pub fn extract_artifact_path(&self, line: &str) -> (r: Option<String>)
        ensures
            r.deep_view() == extracted_artifact(line@, self.target_dir@),
    {
        if !str_contains(line, "mtime") {
            return None;
        }
        let parts = split_char(line, '"');
        if parts.len() < 2 {
            return None;
        }
        let ghost pv = parts.deep_view();
        let mut i: usize = parts.len();
        proof {
            assert(pv.take(i as int) =~= pv);
        }
        while i > 0
            invariant
                0 <= i <= parts@.len(),
                pv == parts.deep_view(),
                pv == split_on(line@, '"'),
                pv.len() >= 2,
                has_substring(line@, "mtime"@),
                last_candidate(pv, self.target_dir@) == last_candidate(
                    pv.take(i as int),
                    self.target_dir@,
                ),
            decreases i,
        {
            i -= 1;
            let part = parts[i];
            let is_candidate = match extension(part) {
                Some(e) => str_eq(e, "rlib") || str_eq(e, "rmeta") || str_eq(e, "so") || str_eq(
                    e,
                    "dylib",
                ) || str_eq(e, "dll"),
                None => false,
            };
            proof {
                assert(pv.take(i as int + 1).last() == pv[i as int]);
                assert(pv.take(i as int + 1).drop_last() =~= pv.take(i as int));
            }
            if is_candidate && path_is_in_dir(part, self.target_dir.as_str()) {
                proof {
                    assert(artifact_candidate(pv[i as int], self.target_dir@));
                    assert(last_candidate(pv.take(i as int + 1), self.target_dir@) == Some(
                        pv[i as int],
                    ));
                }
                return Some(part.to_owned());
            }
            proof {
                assert(!artifact_candidate(pv[i as int], self.target_dir@));
            }
        }
        proof {
            assert(pv.take(0) =~= Seq::<Seq<char>>::empty());
        }
        None
    }

    /// Folds one diagnostic line into a trace result: a line carrying an
    /// artifact path has it recorded, along with the line's consumer hint
    /// when one is present. Returns whether the line carried one.
    pub fn process_line(&self, result: &mut TraceResult, line: &str) -> (hit: bool)
        requires
            old(result).wf(),
        ensures
            final(result).wf(),
            hit == (extracted_artifact(line@, self.target_dir@) is Some),
            match extracted_artifact(line@, self.target_dir@) {
                Some(p) => {
                    &&& final(result).used_set() == old(result).used_set().insert(p)
                    &&& final(result).used_by_rel() == match extracted_consumer(line@) {
                        Some(c) => old(result).used_by_rel().insert((p, c)),
                        None => old(result).used_by_rel(),
                    }
                },
                None => {
                    &&& final(result).used_set() == old(result).used_set()
                    &&& final(result).used_by_rel() == old(result).used_by_rel()
                },
            },
    {
        match self.extract_artifact_path(line) {
            Some(path) => {
                let parts = split_char(line, '"');
                if parts.len() >= 4 {
                    result.record_used_by(path.as_str(), parts[1]);
                    proof {
                        assert(parts.deep_view()[1] == extracted_consumer(line@).unwrap());
                    }
                }
                result.insert_artifact(path);
                true
            },
            None => false,
        }
    }
}

} // verus!
