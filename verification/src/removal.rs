//! The removal executor's accounting. Deleting is plain filesystem work; what
//! this module pins down is the bookkeeping around it: given the finalized
//! plan, the categories the caller selected, and the per-item outcome of each
//! attempted deletion, it builds the aggregate describing what actually
//! happened — successes counted, every failure filed individually, and no
//! failure silencing any later item.

use vstd::prelude::*;

use crate::naming::crate_key_of;
use crate::stats::{
    count_removed_dir, count_removed_file, empty_stats, mark_error, CleanupStats, ErrorEntry,
    ErrorKeyV, RemovalEntryV, StatsV,
};

verus! {

/// Which categories the caller chose to remove.
#[derive(Clone, Copy, PartialEq, Eq, Structural, Debug)]
pub struct RemovalSelection {
    pub remove_files: bool,
    pub remove_dirs: bool,
}

impl RemovalSelection {
    /// Whether anything at all was selected.
    pub fn any(&self) -> (r: bool)
        ensures
            r == (self.remove_files || self.remove_dirs),
    {
        self.remove_files || self.remove_dirs
    }

    /// Nothing selected: the dry-run selection.
    pub fn none() -> (r: RemovalSelection)
        ensures
            !r.remove_files,
            !r.remove_dirs,
    {
        RemovalSelection { remove_files: false, remove_dirs: false }
    }

    /// Everything selected.
    pub fn all() -> (r: RemovalSelection)
        ensures
            r.remove_files,
            r.remove_dirs,
    {
        RemovalSelection { remove_files: true, remove_dirs: true }
    }
}

/// The failure key a file candidate is filed under.
pub open spec fn file_error_key(item: RemovalEntryV) -> ErrorKeyV {
    ErrorKeyV { crate_key: crate_key_of(item.path), profile: item.profile, path: item.path }
}

/// The failure key a directory candidate is filed under: directories all
/// belong to the incremental store, not to one crate.
pub open spec fn dir_error_key(item: RemovalEntryV) -> ErrorKeyV {
    ErrorKeyV { crate_key: "incremental"@, profile: item.profile, path: item.path }
}

/// Folding the outcomes of the first `n` file deletions into `v`: a success
/// is counted under its crate and profile, a failure is filed under its key.
pub open spec fn fold_file_outcomes(
    v: StatsV,
    items: Seq<RemovalEntryV>,
    outs: Seq<Option<Seq<char>>>,
    n: int,
) -> StatsV
    decreases n,
{
    if n <= 0 {
        v
    } else {
        let prev = fold_file_outcomes(v, items, outs, n - 1);
        match outs[n - 1] {
            None => count_removed_file(prev, items[n - 1].path, items[n - 1].size, items[n - 1].profile),
            Some(msg) => mark_error(prev, file_error_key(items[n - 1]), msg),
        }
    }
}

/// Folding the outcomes of the first `n` directory deletions into `v`.
pub open spec fn fold_dir_outcomes(
    v: StatsV,
    items: Seq<RemovalEntryV>,
    outs: Seq<Option<Seq<char>>>,
    n: int,
) -> StatsV
    decreases n,
{
    if n <= 0 {
        v
    } else {
        let prev = fold_dir_outcomes(v, items, outs, n - 1);
        match outs[n - 1] {
            None => count_removed_dir(prev, items[n - 1].size, items[n - 1].profile),
            Some(msg) => mark_error(prev, dir_error_key(items[n - 1]), msg),
        }
    }
}

/// The whole removal phase's accounting: the file outcomes folded when files
/// were selected, then the directory outcomes when directories were.
pub open spec fn removal_stats(
    plan: StatsV,
    remove_files: bool,
    remove_dirs: bool,
    file_outs: Seq<Option<Seq<char>>>,
    dir_outs: Seq<Option<Seq<char>>>,
) -> StatsV {
    let after_files = if remove_files {
        fold_file_outcomes(empty_stats(), plan.files_to_remove, file_outs, plan.files_to_remove.len() as int)
    } else {
        empty_stats()
    };
    if remove_dirs {
        fold_dir_outcomes(after_files, plan.dirs_to_remove, dir_outs, plan.dirs_to_remove.len() as int)
    } else {
        after_files
    }
}

/// Builds the post-removal aggregate from the plan, the selection, and each
/// attempted item's outcome (`None` for a successful deletion, the failure
/// message otherwise). The caller hands one outcome per candidate of every
/// selected category, in the plan's order.
pub fn removal_outcome_stats(
    plan: &CleanupStats,
    sel: &RemovalSelection,
    file_outcomes: &Vec<Option<String>>,
    dir_outcomes: &Vec<Option<String>>,
) -> (r: CleanupStats)
    requires
        !sel.remove_files || file_outcomes@.len() == plan.files_to_remove@.len(),
        !sel.remove_dirs || dir_outcomes@.len() == plan.dirs_to_remove@.len(),
    ensures
        r.wf(),
        r@ == removal_stats(
            plan@,
            sel.remove_files,
            sel.remove_dirs,
            file_outcomes.deep_view(),
            dir_outcomes.deep_view(),
        ),
{
    let mut r = CleanupStats::new();
    let ghost items = plan@.files_to_remove;
    let ghost outs = file_outcomes.deep_view();
    if sel.remove_files {
        let n = plan.files_to_remove.len();
        let mut i: usize = 0;
        while i < n
            invariant
                0 <= i <= n,
                n == plan.files_to_remove@.len(),
                items == plan@.files_to_remove,
                outs == file_outcomes.deep_view(),
                outs.len() == n,
                r.wf(),
                r@ == fold_file_outcomes(empty_stats(), items, outs, i as int),
            decreases n - i,
        {
            let item = &plan.files_to_remove[i];
            proof {
                assert(items[i as int] == plan.files_to_remove@[i as int]@);
                assert(outs[i as int] == file_outcomes@[i as int].deep_view());
            }
            match &file_outcomes[i] {
                None => {
                    r.count_file_removal(item.path.as_str(), item.size, item.profile.as_str());
                },
                Some(msg) => {
                    let e = ErrorEntry {
                        crate_key: crate::naming::crate_key(item.path.as_str()),
                        profile: item.profile.clone(),
                        path: item.path.clone(),
                        message: msg.clone(),
                    };
                    proof {
                        assert(e.key() == file_error_key(items[i as int]));
                    }
                    r.record_error(e);
                },
            }
            i += 1;
        }
    }
    let ghost ditems = plan@.dirs_to_remove;
    let ghost douts = dir_outcomes.deep_view();
    let ghost after_files = r@;
    if sel.remove_dirs {
        let n = plan.dirs_to_remove.len();
        let mut i: usize = 0;
        while i < n
            invariant
                0 <= i <= n,
                n == plan.dirs_to_remove@.len(),
                ditems == plan@.dirs_to_remove,
                douts == dir_outcomes.deep_view(),
                douts.len() == n,
                r.wf(),
                r@ == fold_dir_outcomes(after_files, ditems, douts, i as int),
            decreases n - i,
        {
            let item = &plan.dirs_to_remove[i];
            proof {
                assert(ditems[i as int] == plan.dirs_to_remove@[i as int]@);
                assert(douts[i as int] == dir_outcomes@[i as int].deep_view());
            }
            match &dir_outcomes[i] {
                None => {
                    r.count_dir_removal(item.size, item.profile.as_str());
                },
                Some(msg) => {
                    let ik = "incremental";
                    let e = ErrorEntry {
                        crate_key: ik.to_owned(),
                        profile: item.profile.clone(),
                        path: item.path.clone(),
                        message: msg.clone(),
                    };
                    proof {
                        assert(e.key() == dir_error_key(ditems[i as int]));
                    }
                    r.record_error(e);
                },
            }
            i += 1;
        }
    }
    r
}

/// How many of the first `n` outcomes are successes.
pub open spec fn success_count(outs: Seq<Option<Seq<char>>>, n: int) -> int
    decreases n,
{
    if n <= 0 {
        0
    } else {
        success_count(outs, n - 1) + if outs[n - 1] is None {
            1int
        } else {
            0int
        }
    }
}

/// A failed file deletion is always filed: whatever happened before or after
/// item `k`, the failure map's domain holds its key.
pub proof fn lemma_failure_key_recorded(
    v: StatsV,
    items: Seq<RemovalEntryV>,
    outs: Seq<Option<Seq<char>>>,
    n: int,
    k: int,
)
    requires
        0 <= k < n <= items.len(),
        outs.len() >= n,
        outs[k] is Some,
    ensures
        fold_file_outcomes(v, items, outs, n).errors.dom().contains(file_error_key(items[k])),
    decreases n,
{
    if k < n - 1 {
        lemma_failure_key_recorded(v, items, outs, n - 1, k);
    }
}

/// One item's failure never stops the rest: every failed file deletion is
/// filed in the failure map under its own key, with its own message, no
/// matter what happened before or after it — provided no two candidates name
/// one path, as no scan produces duplicates of a directory entry.
pub proof fn lemma_failures_all_recorded(
    v: StatsV,
    items: Seq<RemovalEntryV>,
    outs: Seq<Option<Seq<char>>>,
    n: int,
    k: int,
)
    requires
        0 <= k < n <= items.len(),
        outs.len() >= n,
        outs[k] is Some,
        forall|a: int, b: int|
            0 <= a < b < items.len() ==> (#[trigger] items[a]).path != (#[trigger] items[b]).path,
    ensures
        fold_file_outcomes(v, items, outs, n).errors.dom().contains(file_error_key(items[k])),
        fold_file_outcomes(v, items, outs, n).errors[file_error_key(items[k])] == outs[k]->0,
    decreases n,
{
    if k == n - 1 {
    } else {
        lemma_failures_all_recorded(v, items, outs, n - 1, k);
        assert(items[n - 1].path != items[k].path);
    }
}

/// The bytes the successful deletions among the first `n` outcomes free,
/// saturating as the aggregate's byte counter does.
pub open spec fn success_bytes(
    items: Seq<RemovalEntryV>,
    outs: Seq<Option<Seq<char>>>,
    n: int,
) -> u64
    decreases n,
{
    if n <= 0 {
        0
    } else {
        let prev = success_bytes(items, outs, n - 1);
        if outs[n - 1] is None {
            crate::stats::sat_add_u64(prev, items[n - 1].size)
        } else {
            prev
        }
    }
}

/// And every successful deletion is counted, and only those: starting from a
/// fresh aggregate, the removed-file count is exactly the number of successes
/// and the removed bytes are exactly the successes' sizes — a failed item
/// contributes nothing to either.
pub proof fn lemma_successes_all_counted(
    items: Seq<RemovalEntryV>,
    outs: Seq<Option<Seq<char>>>,
    n: int,
)
    requires
        0 <= n <= items.len(),
        outs.len() >= n,
        items.len() <= usize::MAX,
    ensures
        fold_file_outcomes(empty_stats(), items, outs, n).files == success_count(outs, n),
        fold_file_outcomes(empty_stats(), items, outs, n).bytes == success_bytes(items, outs, n),
    decreases n,
{
    if n > 0 {
        lemma_successes_all_counted(items, outs, n - 1);
        lemma_success_count_bounded(outs, n);
    }
}

/// The success count never exceeds the number of outcomes looked at.
proof fn lemma_success_count_bounded(outs: Seq<Option<Seq<char>>>, n: int)
    requires
        0 <= n,
    ensures
        0 <= success_count(outs, n) <= n,
    decreases n,
{
    if n > 0 {
        lemma_success_count_bounded(outs, n - 1);
    }
}

} // verus!
