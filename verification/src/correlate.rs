//! Liveness correlation for one artifact (deps) directory: expand the traced
//! artifact set into used stems, protect the crate names of final build
//! products found in the profile root, and classify every file present as
//! kept or removable. A build unit leaves a whole family of files sharing one
//! `crate-hash` stem while only its archive or metadata member shows up in
//! the trace, so keeping goes by stem equality, never by exact path. A file
//! modified at or after the moment the trace began is kept as well: a build
//! that recompiles a unit mid-trace may omit the freshly written artifact
//! from its diagnostics, and fresh is not stale.

use vstd::prelude::*;

use crate::naming::{artifact_stem, artifact_stem_of, crate_key, crate_key_of, normalize_name, normalized, strip_lib, strip_lib_prefix};
use crate::paths::{file_stem, file_stem_of, parent_dir, parent_dir_of};
use crate::stats::{
    empty_stats, mark_file_removed, mark_file_used, CleanupStats, StatsV,
};
use crate::strings::{str_eq, string_list_contains};

verus! {

/// One regular file found in a deps directory: its full path, size, and
/// modification time (seconds since the epoch; only the comparison with the
/// trace's start matters).
pub struct DepsEntry {
    pub path: String,
    pub size: u64,
    pub mtime: u64,
}

/// Mathematical view of a deps-directory file.
pub ghost struct DepsEntryV {
    pub path: Seq<char>,
    pub size: u64,
    pub mtime: u64,
}

impl View for DepsEntry {
    type V = DepsEntryV;

    open spec fn view(&self) -> DepsEntryV {
        DepsEntryV { path: self.path@, size: self.size, mtime: self.mtime }
    }
}

/// The views of a deps-directory listing.
pub open spec fn deps_entry_views(s: Seq<DepsEntry>) -> Seq<DepsEntryV> {
    s.map_values(|e: DepsEntry| e@)
}

/// A file is kept when it has a recognized stem and any ground for keeping
/// applies: it shares the stem with a traced artifact, it carries the crate
/// name of a final build product, or it was modified at or after the trace
/// began (fresh, so possibly absent from the diagnostics).
pub open spec fn file_kept(
    f: DepsEntryV,
    used_stems: Seq<Seq<char>>,
    protected: Seq<Seq<char>>,
    trace_start: u64,
) -> bool {
    match artifact_stem_of(f.path) {
        Some(stem) => used_stems.contains(stem) || protected.contains(crate_key_of(f.path))
            || f.mtime >= trace_start,
        None => false,
    }
}

/// A file is removable when it has a recognized stem and no ground for
/// keeping applies. A file with no recognized stem is neither kept nor
/// removable.
pub open spec fn file_removable(
    f: DepsEntryV,
    used_stems: Seq<Seq<char>>,
    protected: Seq<Seq<char>>,
    trace_start: u64,
) -> bool {
    match artifact_stem_of(f.path) {
        Some(stem) => !used_stems.contains(stem) && !protected.contains(crate_key_of(f.path))
            && f.mtime < trace_start,
        None => false,
    }
}

/// The aggregate one directory scan produces: every file folded in, in
/// listing order — removable files counted and queued, kept files credited to
/// the used totals, unrecognized names ignored.
pub open spec fn scan_result(
    files: Seq<DepsEntryV>,
    used_stems: Seq<Seq<char>>,
    protected: Seq<Seq<char>>,
    trace_start: u64,
    profile: Seq<char>,
) -> StatsV
    decreases files.len(),
{
    if files.len() == 0 {
        empty_stats()
    } else {
        let prev = scan_result(files.drop_last(), used_stems, protected, trace_start, profile);
        let f = files.last();
        if file_removable(f, used_stems, protected, trace_start) {
            mark_file_removed(prev, f.path, f.size, profile)
        } else if file_kept(f, used_stems, protected, trace_start) {
            mark_file_used(prev, f.size, profile)
        } else {
            prev
        }
    }
}

/// Classifies every file of one deps directory against the traced stems, the
/// protected crate names and the trace's start time, and returns the
/// directory's aggregate.
pub fn correlate_deps_dir(
    files: &Vec<DepsEntry>,
    used_stems: &Vec<String>,
    protected: &Vec<String>,
    trace_start: u64,
    profile: &str,
) -> (stats: CleanupStats)
    ensures
        stats.wf(),
        stats@ == scan_result(
            deps_entry_views(files@),
            used_stems.deep_view(),
            protected.deep_view(),
            trace_start,
            profile@,
        ),
{
    let mut stats = CleanupStats::new();
    let n = files.len();
    let mut i: usize = 0;
    while i < n
        invariant
            0 <= i <= n,
            n == files@.len(),
            stats.wf(),
            stats@ == scan_result(
                deps_entry_views(files@.take(i as int)),
                used_stems.deep_view(),
                protected.deep_view(),
                trace_start,
                profile@,
            ),
        decreases n - i,
    {
        let f = &files[i];
        proof {
            assert(deps_entry_views(files@.take(i as int + 1)).drop_last() =~= deps_entry_views(
                files@.take(i as int),
            ));
            assert(deps_entry_views(files@.take(i as int + 1)).last() == files@[i as int]@);
        }
        match artifact_stem(f.path.as_str()) {
            Some(stem) => {
                let kept = if string_list_contains(used_stems, stem.as_str()) {
                    true
                } else if f.mtime >= trace_start {
                    true
                } else {
                    let ck = crate_key(f.path.as_str());
                    string_list_contains(protected, ck.as_str())
                };
                if kept {
                    stats.add_used_file(f.size, profile);
                } else {
                    stats.add_removal_file(f.path.clone(), f.size, profile);
                }
            },
            None => {},
        }
        i += 1;
    }
    proof {
        assert(files@.take(n as int) =~= files@);
    }
    stats
}

/// Builds the used-stem set of one deps directory: the stems of every traced
/// artifact that lies directly in that directory. Stems never cross
/// directories — each profile or target keeps its own namespace.
pub fn used_stems_in_dir(used_artifacts: &Vec<String>, deps_dir: &str) -> (r: Vec<String>)
    ensures
        forall|s: Seq<char>|
            #[trigger] r.deep_view().contains(s) <==> exists|j: int|
                0 <= j < used_artifacts@.len() && parent_dir_of(
                    #[trigger] used_artifacts.deep_view()[j],
                ) == Some(deps_dir@) && artifact_stem_of(used_artifacts.deep_view()[j]) == Some(s),
{
    let mut r: Vec<String> = Vec::new();
    let n = used_artifacts.len();
    let mut i: usize = 0;
    while i < n
        invariant
            0 <= i <= n,
            n == used_artifacts@.len(),
            forall|s: Seq<char>|
                #[trigger] r.deep_view().contains(s) <==> exists|j: int|
                    0 <= j < i && parent_dir_of(#[trigger] used_artifacts.deep_view()[j]) == Some(
                        deps_dir@,
                    ) && artifact_stem_of(used_artifacts.deep_view()[j]) == Some(s),
        decreases n - i,
    {
        let a = used_artifacts[i].as_str();
        let in_dir = match parent_dir(a) {
            Some(d) => str_eq(d, deps_dir),
            None => false,
        };
        let ghost r_old = r.deep_view();
        if in_dir {
            match artifact_stem(a) {
                Some(stem) => {
                    let ghost sv = stem@;
                    r.push(stem);
                    proof {
                        assert(r.deep_view() =~= r_old.push(sv));
                        assert forall|s: Seq<char>| #[trigger] r.deep_view().contains(s) implies
                        exists|j: int|
                            0 <= j < i + 1 && parent_dir_of(
                                #[trigger] used_artifacts.deep_view()[j],
                            ) == Some(deps_dir@) && artifact_stem_of(used_artifacts.deep_view()[j])
                            == Some(s) by {
                            let w = choose|w: int| 0 <= w < r.deep_view().len() && r.deep_view()[w] == s;
                            if w < r_old.len() {
                                assert(r_old.contains(s)) by {
                                    assert(r_old[w] == s);
                                }
                            } else {
                                assert(s == sv);
                                assert(parent_dir_of(used_artifacts.deep_view()[i as int]) == Some(
                                    deps_dir@,
                                ) && artifact_stem_of(used_artifacts.deep_view()[i as int]) == Some(
                                    s,
                                ));
                            }
                        }
                        assert forall|s: Seq<char>| (exists|j: int|
                            0 <= j < i + 1 && parent_dir_of(
                                #[trigger] used_artifacts.deep_view()[j],
                            ) == Some(deps_dir@) && artifact_stem_of(used_artifacts.deep_view()[j])
                            == Some(s)) implies #[trigger] r.deep_view().contains(s) by {
                            let j = choose|j: int|
                                0 <= j < i + 1 && parent_dir_of(
                                    #[trigger] used_artifacts.deep_view()[j],
                                ) == Some(deps_dir@) && artifact_stem_of(
                                    used_artifacts.deep_view()[j],
                                ) == Some(s);
                            if j < i {
                                assert(r_old.contains(s));
                                let w = choose|w: int| 0 <= w < r_old.len() && r_old[w] == s;
                                assert(r.deep_view()[w] == s);
                            } else {
                                assert(r.deep_view()[r_old.len() as int] == s);
                            }
                        }
                    }
                },
                None => {
                    proof {
                        lemma_skip_keeps_membership(used_artifacts.deep_view(), deps_dir@, r.deep_view(), i as int);
                    }
                },
            }
        } else {
            proof {
                lemma_skip_keeps_membership(used_artifacts.deep_view(), deps_dir@, r.deep_view(), i as int);
            }
        }
        i += 1;
    }
    r
}

/// A skipped artifact (outside the directory, or with no recognized stem)
/// contributes no stem, so the membership characterization carries from `i`
/// to `i + 1` unchanged.
proof fn lemma_skip_keeps_membership(
    used: Seq<Seq<char>>,
    dir: Seq<char>,
    r: Seq<Seq<char>>,
    i: int,
)
    requires
        0 <= i < used.len(),
        !(parent_dir_of(used[i]) == Some(dir) && artifact_stem_of(used[i]) is Some),
        forall|s: Seq<char>|
            #[trigger] r.contains(s) <==> exists|j: int|
                0 <= j < i && parent_dir_of(#[trigger] used[j]) == Some(dir) && artifact_stem_of(
                    used[j],
                ) == Some(s),
    ensures
        forall|s: Seq<char>|
            #[trigger] r.contains(s) <==> exists|j: int|
                0 <= j < i + 1 && parent_dir_of(#[trigger] used[j]) == Some(dir)
                    && artifact_stem_of(used[j]) == Some(s),
{
    assert forall|s: Seq<char>| (exists|j: int|
        0 <= j < i + 1 && parent_dir_of(#[trigger] used[j]) == Some(dir) && artifact_stem_of(
            used[j],
        ) == Some(s)) implies #[trigger] r.contains(s) by {
        let j = choose|j: int|
            0 <= j < i + 1 && parent_dir_of(#[trigger] used[j]) == Some(dir) && artifact_stem_of(
                used[j],
            ) == Some(s);
        assert(j < i);
    }
}

/// Every removal candidate a scan queues comes from a removable file: one
/// whose stem is recognized, shared with no traced artifact, whose crate name
/// is not protected, and which predates the trace.
pub proof fn lemma_removed_only_removable(
    files: Seq<DepsEntryV>,
    used_stems: Seq<Seq<char>>,
    protected: Seq<Seq<char>>,
    trace_start: u64,
    profile: Seq<char>,
)
    ensures
        forall|e: crate::stats::RemovalEntryV|
            #[trigger] scan_result(
                files,
                used_stems,
                protected,
                trace_start,
                profile,
            ).files_to_remove.contains(e) ==> exists|i: int|
                0 <= i < files.len() && (#[trigger] files[i]).path == e.path && files[i].size
                    == e.size && file_removable(files[i], used_stems, protected, trace_start),
    decreases files.len(),
{
    if files.len() > 0 {
        lemma_removed_only_removable(files.drop_last(), used_stems, protected, trace_start, profile);
        let prev = scan_result(files.drop_last(), used_stems, protected, trace_start, profile);
        let cur = scan_result(files, used_stems, protected, trace_start, profile);
        assert forall|e: crate::stats::RemovalEntryV| #[trigger] cur.files_to_remove.contains(e)
            implies exists|i: int|
            0 <= i < files.len() && (#[trigger] files[i]).path == e.path && files[i].size == e.size
                && file_removable(files[i], used_stems, protected, trace_start) by {
            let came_before = if cur.files_to_remove == prev.files_to_remove {
                true
            } else {
                let w = choose|w: int|
                    0 <= w < cur.files_to_remove.len() && cur.files_to_remove[w] == e;
                w < prev.files_to_remove.len()
            };
            if came_before {
                if cur.files_to_remove != prev.files_to_remove {
                    let w = choose|w: int|
                        0 <= w < cur.files_to_remove.len() && cur.files_to_remove[w] == e;
                    assert(prev.files_to_remove.contains(e)) by {
                        assert(prev.files_to_remove[w] == e);
                    }
                } else {
                    assert(prev.files_to_remove.contains(e));
                }
                let i = choose|i: int|
                    0 <= i < files.drop_last().len() && (#[trigger] files.drop_last()[i]).path
                        == e.path && files.drop_last()[i].size == e.size && file_removable(
                        files.drop_last()[i],
                        used_stems,
                        protected,
                        trace_start,
                    );
                assert(files[i] == files.drop_last()[i]);
            } else {
                assert(0 <= files.len() - 1 < files.len() && files[files.len() - 1].path == e.path
                    && files[files.len() - 1].size == e.size && file_removable(
                    files[files.len() - 1],
                    used_stems,
                    protected,
                    trace_start,
                ));
            }
        }
    }
}

/// A file that shares its stem with a traced artifact of this directory is
/// never queued for removal: cleaning by this scan never takes a unit the
/// next build still loads.
pub proof fn lemma_traced_stem_never_removed(
    files: Seq<DepsEntryV>,
    used_stems: Seq<Seq<char>>,
    protected: Seq<Seq<char>>,
    trace_start: u64,
    profile: Seq<char>,
    e: crate::stats::RemovalEntryV,
)
    requires
        scan_result(files, used_stems, protected, trace_start, profile).files_to_remove.contains(
            e,
        ),
    ensures
        match artifact_stem_of(e.path) {
            Some(stem) => !used_stems.contains(stem),
            None => false,
        },
{
    lemma_removed_only_removable(files, used_stems, protected, trace_start, profile);
    let i = choose|i: int|
        0 <= i < files.len() && (#[trigger] files[i]).path == e.path && files[i].size == e.size
            && file_removable(files[i], used_stems, protected, trace_start);
}

/// The no-recompile core: take a traced build's used artifacts, expand them
/// into the used stems of one deps directory as [`used_stems_in_dir`] does,
/// and scan; then no file sharing a stem with any traced artifact of that
/// directory is ever queued for removal — so removing the whole queue leaves
/// every unit the build loaded intact.
pub proof fn lemma_no_recompile(
    used: Seq<Seq<char>>,
    deps_dir: Seq<char>,
    stems: Seq<Seq<char>>,
    files: Seq<DepsEntryV>,
    protected: Seq<Seq<char>>,
    trace_start: u64,
    profile: Seq<char>,
    e: crate::stats::RemovalEntryV,
)
    requires
        forall|s: Seq<char>|
            #[trigger] stems.contains(s) <==> exists|j: int|
                0 <= j < used.len() && parent_dir_of(#[trigger] used[j]) == Some(deps_dir)
                    && artifact_stem_of(used[j]) == Some(s),
        scan_result(files, stems, protected, trace_start, profile).files_to_remove.contains(e),
    ensures
        forall|j: int|
            0 <= j < used.len() && parent_dir_of(#[trigger] used[j]) == Some(deps_dir)
                ==> artifact_stem_of(used[j]) != artifact_stem_of(e.path),
{
    lemma_removed_only_removable(files, stems, protected, trace_start, profile);
    let i = choose|i: int|
        0 <= i < files.len() && (#[trigger] files[i]).path == e.path && files[i].size == e.size
            && file_removable(files[i], stems, protected, trace_start);
    assert forall|j: int|
        0 <= j < used.len() && parent_dir_of(#[trigger] used[j]) == Some(deps_dir)
        implies artifact_stem_of(used[j]) != artifact_stem_of(e.path) by {
        if artifact_stem_of(used[j]) == artifact_stem_of(e.path) {
            let st = artifact_stem_of(e.path)->0;
            assert(stems.contains(st)) by {
                assert(exists|k: int|
                    0 <= k < used.len() && parent_dir_of(#[trigger] used[k]) == Some(deps_dir)
                        && artifact_stem_of(used[k]) == Some(st)) by {
                    assert(parent_dir_of(used[j]) == Some(deps_dir) && artifact_stem_of(used[j])
                        == Some(st));
                }
            }
        }
    }
}

/// A file whose crate name is protected — because a final build product of
/// that crate lies in the profile root — is never queued for removal, even
/// though no trace mentions it.
pub proof fn lemma_protected_crate_never_removed(
    files: Seq<DepsEntryV>,
    used_stems: Seq<Seq<char>>,
    protected: Seq<Seq<char>>,
    trace_start: u64,
    profile: Seq<char>,
    e: crate::stats::RemovalEntryV,
)
    requires
        scan_result(files, used_stems, protected, trace_start, profile).files_to_remove.contains(
            e,
        ),
    ensures
        !protected.contains(crate_key_of(e.path)),
{
    lemma_removed_only_removable(files, used_stems, protected, trace_start, profile);
    let i = choose|i: int|
        0 <= i < files.len() && (#[trigger] files[i]).path == e.path && files[i].size == e.size
            && file_removable(files[i], used_stems, protected, trace_start);
}

/// A file modified at or after the trace began is never queued for removal,
/// provided file paths are distinct as they are in one directory listing: a
/// unit rebuilt during the trace is fresh, not stale, even when the
/// diagnostics omit it.
pub proof fn lemma_fresh_artifact_never_removed(
    files: Seq<DepsEntryV>,
    used_stems: Seq<Seq<char>>,
    protected: Seq<Seq<char>>,
    trace_start: u64,
    profile: Seq<char>,
    k: int,
)
    requires
        0 <= k < files.len(),
        files[k].mtime >= trace_start,
        forall|a: int, b: int|
            0 <= a < b < files.len() ==> (#[trigger] files[a]).path != (#[trigger] files[b]).path,
    ensures
        forall|e: crate::stats::RemovalEntryV|
            #[trigger] scan_result(
                files,
                used_stems,
                protected,
                trace_start,
                profile,
            ).files_to_remove.contains(e) ==> e.path != files[k].path,
{
    lemma_removed_only_removable(files, used_stems, protected, trace_start, profile);
    assert forall|e: crate::stats::RemovalEntryV|
        #[trigger] scan_result(
            files,
            used_stems,
            protected,
            trace_start,
            profile,
        ).files_to_remove.contains(e) implies e.path != files[k].path by {
        let i = choose|i: int|
            0 <= i < files.len() && (#[trigger] files[i]).path == e.path && files[i].size == e.size
                && file_removable(files[i], used_stems, protected, trace_start);
        if i != k {
            assert(files[i].path != files[k].path);
        }
    }
}

/// A file with no recognized hash-bearing stem changes nothing: it is neither
/// counted among the kept bytes nor queued for removal.
pub proof fn lemma_unrecognized_ignored(
    files: Seq<DepsEntryV>,
    f: DepsEntryV,
    used_stems: Seq<Seq<char>>,
    protected: Seq<Seq<char>>,
    trace_start: u64,
    profile: Seq<char>,
)
    requires
        artifact_stem_of(f.path) is None,
    ensures
        scan_result(files.push(f), used_stems, protected, trace_start, profile) == scan_result(
            files,
            used_stems,
            protected,
            trace_start,
            profile,
        ),
{
    assert(files.push(f).drop_last() =~= files);
}

/// The files a scan leaves in place: everything it did not queue for removal.
pub open spec fn surviving(
    files: Seq<DepsEntryV>,
    used_stems: Seq<Seq<char>>,
    protected: Seq<Seq<char>>,
    trace_start: u64,
) -> Seq<DepsEntryV> {
    files.filter(|f: DepsEntryV| !file_removable(f, used_stems, protected, trace_start))
}

/// Cleaning is idempotent: scanning the surviving files again, with the same
/// traced stems and protected names, finds nothing to remove.
pub proof fn lemma_scan_idempotent(
    files: Seq<DepsEntryV>,
    used_stems: Seq<Seq<char>>,
    protected: Seq<Seq<char>>,
    trace_start: u64,
    profile: Seq<char>,
)
    ensures
        scan_result(
            surviving(files, used_stems, protected, trace_start),
            used_stems,
            protected,
            trace_start,
            profile,
        ).files_to_remove == Seq::<crate::stats::RemovalEntryV>::empty(),
        scan_result(
            surviving(files, used_stems, protected, trace_start),
            used_stems,
            protected,
            trace_start,
            profile,
        ).files == 0,
        scan_result(
            surviving(files, used_stems, protected, trace_start),
            used_stems,
            protected,
            trace_start,
            profile,
        ).bytes == 0,
{
    let pred = |f: DepsEntryV| !file_removable(f, used_stems, protected, trace_start);
    assert forall|i: int|
        0 <= i < surviving(files, used_stems, protected, trace_start).len()
        implies !file_removable(
        #[trigger] surviving(files, used_stems, protected, trace_start)[i],
        used_stems,
        protected,
        trace_start,
    ) by {
        files.lemma_filter_pred(pred, i);
    }
    lemma_no_removable_scan_is_clean(
        surviving(files, used_stems, protected, trace_start),
        used_stems,
        protected,
        trace_start,
        profile,
    );
}

/// A scan over files none of which is removable removes nothing and counts
/// nothing.
pub proof fn lemma_no_removable_scan_is_clean(
    files: Seq<DepsEntryV>,
    used_stems: Seq<Seq<char>>,
    protected: Seq<Seq<char>>,
    trace_start: u64,
    profile: Seq<char>,
)
    requires
        forall|i: int|
            0 <= i < files.len() ==> !file_removable(
                #[trigger] files[i],
                used_stems,
                protected,
                trace_start,
            ),
    ensures
        scan_result(files, used_stems, protected, trace_start, profile).files_to_remove == Seq::<
            crate::stats::RemovalEntryV,
        >::empty(),
        scan_result(files, used_stems, protected, trace_start, profile).files == 0,
        scan_result(files, used_stems, protected, trace_start, profile).bytes == 0,
    decreases files.len(),
{
    if files.len() > 0 {
        assert(!file_removable(files.last(), used_stems, protected, trace_start)) by {
            assert(files[files.len() - 1] == files.last());
        }
        assert(forall|i: int|
            0 <= i < files.drop_last().len() ==> !file_removable(
                #[trigger] files.drop_last()[i],
                used_stems,
                protected,
                trace_start,
            ));
        lemma_no_removable_scan_is_clean(
            files.drop_last(),
            used_stems,
            protected,
            trace_start,
            profile,
        );
    }
}

/// What one profile-root file protects: its file stem, `lib` prefix stripped,
/// separators normalized. A final binary or library never appears in a trace
/// (nothing depends on it), so its crate name shields its intermediates.
pub open spec fn protected_name_of(p: Seq<char>) -> Option<Seq<char>> {
    match file_stem_of(p) {
        Some(st) => Some(normalized(strip_lib(st))),
        None => None,
    }
}

/// The protected names a profile-root listing yields, in order.
pub open spec fn protected_list(files: Seq<Seq<char>>) -> Seq<Seq<char>>
    decreases files.len(),
{
    if files.len() == 0 {
        Seq::empty()
    } else {
        let prev = protected_list(files.drop_last());
        match protected_name_of(files.last()) {
            Some(x) => prev.push(x),
            None => prev,
        }
    }
}

/// Derives the protected crate names from the files lying directly in a
/// profile root.
pub fn protected_names(profile_root_files: &Vec<String>) -> (r: Vec<String>)
    ensures
        r.deep_view() == protected_list(profile_root_files.deep_view()),
{
    let mut r: Vec<String> = Vec::new();
    let n = profile_root_files.len();
    let mut i: usize = 0;
    while i < n
        invariant
            0 <= i <= n,
            n == profile_root_files@.len(),
            r.deep_view() == protected_list(profile_root_files.deep_view().take(i as int)),
        decreases n - i,
    {
        proof {
            assert(profile_root_files.deep_view().take(i as int + 1).drop_last()
                =~= profile_root_files.deep_view().take(i as int));
            assert(profile_root_files.deep_view().take(i as int + 1).last()
                == profile_root_files.deep_view()[i as int]);
        }
        let ghost r_old = r.deep_view();
        match file_stem(profile_root_files[i].as_str()) {
            Some(st) => {
                let name = strip_lib_prefix(st);
                let norm = normalize_name(name);
                let ghost nv = norm@;
                r.push(norm);
                proof {
                    assert(r.deep_view() =~= r_old.push(nv));
                }
            },
            None => {},
        }
        i += 1;
    }
    proof {
        assert(profile_root_files.deep_view().take(n as int) =~= profile_root_files.deep_view());
    }
    r
}

} // verus!
