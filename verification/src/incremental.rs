//! The incremental-session reducer: a profile's incremental storage holds one
//! `<crate_name>-<session_hash>/` directory per edit-compile cycle, and the
//! build tool only ever reuses the most recently modified session of each
//! crate. Every older session of a crate that has more than one is stale; a
//! crate's only session is never touched.

use vstd::prelude::*;

use crate::paths::{file_name, file_name_of};
use crate::stats::{empty_stats, mark_dir_removed, CleanupStats, RemovalEntryV, StatsV};
use crate::strings::{find_last, str_eq};
use vstd::string::*;

verus! {

/// One immediate subdirectory of an incremental storage area, with its
/// modification time (seconds are enough; only the order matters) and its
/// recursively summed size.
pub struct SessionDir {
    pub path: String,
    pub mtime: u64,
    pub size: u64,
}

/// Mathematical view of a session directory.
pub ghost struct SessionDirV {
    pub path: Seq<char>,
    pub mtime: u64,
    pub size: u64,
}

impl View for SessionDir {
    type V = SessionDirV;

    open spec fn view(&self) -> SessionDirV {
        SessionDirV { path: self.path@, mtime: self.mtime, size: self.size }
    }
}

/// The views of a session listing.
pub open spec fn session_views(s: Seq<SessionDir>) -> Seq<SessionDirV> {
    s.map_values(|e: SessionDir| e@)
}

/// The crate owning a session directory: the directory name up to its last
/// `-` (the whole name when it has none).
pub open spec fn session_crate_of(p: Seq<char>) -> Seq<char> {
    let name = match file_name_of(p) {
        Some(n) => n,
        None => Seq::empty(),
    };
    match name.index_of_last('-') {
        Some(i) => name.take(i),
        None => name,
    }
}

/// Session `j` outranks session `i`: same crate, and either more recently
/// modified or — at equal times — listed earlier.
pub open spec fn session_beats(s: Seq<SessionDirV>, j: int, i: int) -> bool {
    &&& session_crate_of(s[j].path) == session_crate_of(s[i].path)
    &&& (s[j].mtime > s[i].mtime || (s[j].mtime == s[i].mtime && j < i))
}

/// A session is stale when some other session of the same crate outranks it.
/// A crate's only session is outranked by nothing and thus never stale.
pub open spec fn session_stale(s: Seq<SessionDirV>, i: int) -> bool {
    exists|j: int| 0 <= j < s.len() && j != i && session_beats(s, j, i)
}

/// The aggregate the reducer builds from the first `n` sessions: every stale
/// one counted and queued for removal.
pub open spec fn reduce_upto(s: Seq<SessionDirV>, profile: Seq<char>, n: int) -> StatsV
    decreases n,
{
    if n <= 0 {
        empty_stats()
    } else {
        let prev = reduce_upto(s, profile, n - 1);
        if session_stale(s, n - 1) {
            mark_dir_removed(prev, s[n - 1].path, s[n - 1].size, profile)
        } else {
            prev
        }
    }
}

/// The aggregate the reducer builds from a whole session listing.
pub open spec fn reduce_result(s: Seq<SessionDirV>, profile: Seq<char>) -> StatsV {
    reduce_upto(s, profile, s.len() as int)
}

/// The crate name a session directory path groups under.
pub fn session_crate(path: &str) -> (r: String)
    ensures
        r@ == session_crate_of(path@),
{
    let name = match file_name(path) {
        Some(n) => n,
        None => {
            proof {
                reveal_strlit("");
                assert(""@ =~= Seq::<char>::empty());
            }
            ""
        },
    };
    match find_last(name, '-') {
        Some(i) => name.substring_char(0, i).to_owned(),
        None => name.to_owned(),
    }
}

/// Marks, within one incremental storage listing, every stale session for
/// removal: each crate keeps its most recently modified session (ties go to
/// the earlier-listed one) and everything older of that crate is queued.
pub fn reduce_incremental_sessions(sessions: &Vec<SessionDir>, profile: &str) -> (stats:
    CleanupStats)
    ensures
        stats.wf(),
        stats@ == reduce_result(session_views(sessions@), profile@),
{
    let ghost sv = session_views(sessions@);
    let mut stats = CleanupStats::new();
    let n = sessions.len();
    let mut i: usize = 0;
    while i < n
        invariant
            0 <= i <= n,
            n == sessions@.len(),
            sv == session_views(sessions@),
            stats.wf(),
            stats@ == reduce_upto(sv, profile@, i as int),
        decreases n - i,
    {
        let ci = session_crate(sessions[i].path.as_str());
        let mut stale = false;
        let mut j: usize = 0;
        while j < n
            invariant
                0 <= j <= n,
                0 <= i < n,
                n == sessions@.len(),
                sv == session_views(sessions@),
                ci@ == session_crate_of(sv[i as int].path),
                stale == exists|w: int| 0 <= w < j && w != i && session_beats(sv, w, i as int),
            decreases n - j,
        {
            if j != i {
                let cj = session_crate(sessions[j].path.as_str());
                let beats = str_eq(cj.as_str(), ci.as_str()) && (sessions[j].mtime
                    > sessions[i].mtime || (sessions[j].mtime == sessions[i].mtime && j < i));
                proof {
                    assert(beats == session_beats(sv, j as int, i as int));
                }
                if beats {
                    stale = true;
                }
            }
            proof {
                if stale && !(exists|w: int|
                    0 <= w < j && w != i && session_beats(sv, w, i as int)) {
                    assert(session_beats(sv, j as int, i as int));
                }
            }
            j += 1;
        }
        proof {
            assert(stale == session_stale(sv, i as int));
        }
        if stale {
            stats.add_removal_dir(sessions[i].path.clone(), sessions[i].size, profile);
        }
        i += 1;
    }
    stats
}

/// Every queued directory comes from a stale session: its path and size are
/// some stale entry's.
pub proof fn lemma_removed_only_stale(s: Seq<SessionDirV>, profile: Seq<char>, n: int)
    requires
        0 <= n <= s.len(),
    ensures
        forall|e: RemovalEntryV|
            #[trigger] reduce_upto(s, profile, n).dirs_to_remove.contains(e) ==> exists|i: int|
                0 <= i < n && session_stale(s, i) && e.path == (#[trigger] s[i]).path && e.size
                    == s[i].size,
    decreases n,
{
    if n > 0 {
        lemma_removed_only_stale(s, profile, n - 1);
        let prev = reduce_upto(s, profile, n - 1);
        let cur = reduce_upto(s, profile, n);
        assert forall|e: RemovalEntryV| #[trigger] cur.dirs_to_remove.contains(e) implies exists|
            i: int,
        |
            0 <= i < n && session_stale(s, i) && e.path == (#[trigger] s[i]).path && e.size
                == s[i].size by {
            if session_stale(s, n - 1) {
                let w = choose|w: int|
                    0 <= w < cur.dirs_to_remove.len() && cur.dirs_to_remove[w] == e;
                if w < prev.dirs_to_remove.len() {
                    assert(prev.dirs_to_remove.contains(e)) by {
                        assert(prev.dirs_to_remove[w] == e);
                    }
                } else {
                    assert(0 <= n - 1 < n && session_stale(s, n - 1) && e.path == s[n - 1].path
                        && e.size == s[n - 1].size);
                }
            }
        }
    }
}

/// A crate's most recently modified session is never queued, provided session
/// paths are distinct as they are in one directory.
pub proof fn lemma_newest_session_kept(s: Seq<SessionDirV>, profile: Seq<char>, i: int)
    requires
        0 <= i < s.len(),
        forall|j: int|
            0 <= j < s.len() && j != i && session_crate_of((#[trigger] s[j]).path)
                == session_crate_of(s[i].path) ==> s[j].mtime < s[i].mtime,
        forall|j: int| 0 <= j < s.len() && j != i ==> (#[trigger] s[j]).path != s[i].path,
    ensures
        forall|e: RemovalEntryV|
            #[trigger] reduce_result(s, profile).dirs_to_remove.contains(e) ==> e.path != s[i].path,
{
    lemma_removed_only_stale(s, profile, s.len() as int);
    assert forall|e: RemovalEntryV|
        #[trigger] reduce_result(s, profile).dirs_to_remove.contains(e) implies e.path
        != s[i].path by {
        let w = choose|w: int|
            0 <= w < s.len() && session_stale(s, w) && e.path == s[w].path && e.size == s[w].size;
        if w == i {
            let b = choose|b: int| 0 <= b < s.len() && b != i && session_beats(s, b, i);
            assert(s[b].mtime < s[i].mtime);
        }
    }
}

/// Two different sessions of one crate never both survive: one of them
/// outranks the other.
pub proof fn lemma_leaders_unique(s: Seq<SessionDirV>, i: int, j: int)
    requires
        0 <= i < s.len(),
        0 <= j < s.len(),
        i != j,
        !session_stale(s, i),
        !session_stale(s, j),
    ensures
        session_crate_of(s[i].path) != session_crate_of(s[j].path),
{
    if session_crate_of(s[i].path) == session_crate_of(s[j].path) {
        if s[i].mtime > s[j].mtime || (s[i].mtime == s[j].mtime && i < j) {
            assert(session_beats(s, i, j));
        } else {
            assert(session_beats(s, j, i));
        }
    }
}

/// When no two sessions share a crate, nothing is stale and the reducer
/// queues nothing.
pub proof fn lemma_unique_crates_nothing_stale(s: Seq<SessionDirV>, profile: Seq<char>, n: int)
    requires
        0 <= n <= s.len(),
        forall|i: int, j: int|
            0 <= i < s.len() && 0 <= j < s.len() && i != j ==> session_crate_of(
                (#[trigger] s[i]).path,
            ) != session_crate_of((#[trigger] s[j]).path),
    ensures
        reduce_upto(s, profile, n).dirs_to_remove == Seq::<RemovalEntryV>::empty(),
        reduce_upto(s, profile, n).files == 0,
        reduce_upto(s, profile, n).bytes == 0,
    decreases n,
{
    if n > 0 {
        lemma_unique_crates_nothing_stale(s, profile, n - 1);
        assert(!session_stale(s, n - 1));
    }
}

/// Reducing is idempotent: list the directories that remain after a
/// reduction's removals — the surviving sessions, in any order, with their
/// distinct paths — and a second reduction queues nothing.
pub proof fn lemma_reduce_idempotent(s: Seq<SessionDirV>, t: Seq<SessionDirV>, profile: Seq<char>)
    requires
        forall|k: int|
            0 <= k < t.len() ==> exists|i: int|
                0 <= i < s.len() && (#[trigger] t[k]) == s[i] && !session_stale(s, i),
        forall|k1: int, k2: int|
            0 <= k1 < t.len() && 0 <= k2 < t.len() && k1 != k2 ==> (#[trigger] t[k1]).path
                != (#[trigger] t[k2]).path,
    ensures
        reduce_result(t, profile).dirs_to_remove == Seq::<RemovalEntryV>::empty(),
        reduce_result(t, profile).files == 0,
        reduce_result(t, profile).bytes == 0,
{
    assert forall|k1: int, k2: int|
        0 <= k1 < t.len() && 0 <= k2 < t.len() && k1 != k2 implies session_crate_of(
        (#[trigger] t[k1]).path,
    ) != session_crate_of((#[trigger] t[k2]).path) by {
        let i1 = choose|i: int| 0 <= i < s.len() && t[k1] == s[i] && !session_stale(s, i);
        let i2 = choose|i: int| 0 <= i < s.len() && t[k2] == s[i] && !session_stale(s, i);
        if i1 == i2 {
            assert(t[k1].path == t[k2].path);
        } else {
            lemma_leaders_unique(s, i1, i2);
        }
    }
    lemma_unique_crates_nothing_stale(t, profile, t.len() as int);
}

} // verus!
