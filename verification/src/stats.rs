//! The cleanup aggregate: counters, per-crate and per-profile breakdowns,
//! removal candidates and per-item failures. Scans of independent directories
//! each build one of these and the results are folded together with
//! [`CleanupStats::merge_from`], whose merge is associative (see
//! [`lemma_merge_associative`]) so partial results may combine in any
//! grouping. Byte and file counters saturate at their type's maximum rather
//! than wrap.

use vstd::prelude::*;

use crate::naming::{crate_key, crate_key_of};
use crate::strings::str_eq;

verus! {

/// Removal totals attributed to one crate name.
#[derive(Clone, Copy, PartialEq, Eq, Structural, Debug)]
pub struct CrateStat {
    pub files: usize,
    pub bytes: u64,
}

/// Totals attributed to one profile (one build configuration's directory).
#[derive(Clone, Copy, PartialEq, Eq, Structural, Debug)]
pub struct ProfileStat {
    pub files: usize,
    pub bytes: u64,
    /// Bytes of artifact files confirmed in use.
    pub used_bytes: u64,
    /// Bytes of the whole profile directory tree.
    pub total_dir_bytes: u64,
}

/// One stale artifact file marked for removal.
#[derive(Clone)]
pub struct FileToRemove {
    pub path: String,
    pub size: u64,
    pub profile: String,
}

/// One stale incremental-session directory marked for removal.
#[derive(Clone)]
pub struct DirToRemove {
    pub path: String,
    pub size: u64,
    pub profile: String,
}

/// One recorded per-item deletion failure.
#[derive(Clone)]
pub struct ErrorEntry {
    pub crate_key: String,
    pub profile: String,
    pub path: String,
    pub message: String,
}

/// Mathematical view of a removal candidate.
pub ghost struct RemovalEntryV {
    pub path: Seq<char>,
    pub size: u64,
    pub profile: Seq<char>,
}

/// Mathematical view of a failure key: which crate, in which profile, at
/// which path.
pub ghost struct ErrorKeyV {
    pub crate_key: Seq<char>,
    pub profile: Seq<char>,
    pub path: Seq<char>,
}

/// Mathematical view of the whole aggregate.
pub ghost struct StatsV {
    pub files: usize,
    pub bytes: u64,
    pub used_bytes: u64,
    pub per_crate: Map<Seq<char>, CrateStat>,
    pub per_profile: Map<Seq<char>, ProfileStat>,
    pub errors: Map<ErrorKeyV, Seq<char>>,
    pub files_to_remove: Seq<RemovalEntryV>,
    pub dirs_to_remove: Seq<RemovalEntryV>,
}

impl View for FileToRemove {
    type V = RemovalEntryV;

    open spec fn view(&self) -> RemovalEntryV {
        RemovalEntryV { path: self.path@, size: self.size, profile: self.profile@ }
    }
}

impl View for DirToRemove {
    type V = RemovalEntryV;

    open spec fn view(&self) -> RemovalEntryV {
        RemovalEntryV { path: self.path@, size: self.size, profile: self.profile@ }
    }
}

impl ErrorEntry {
    /// The key under which this failure is filed.
    pub open spec fn key(&self) -> ErrorKeyV {
        ErrorKeyV { crate_key: self.crate_key@, profile: self.profile@, path: self.path@ }
    }
}

/// `usize` addition clamped at `usize::MAX`.
pub open spec fn sat_add_usize(a: usize, b: usize) -> usize {
    if a + b > usize::MAX {
        usize::MAX
    } else {
        (a + b) as usize
    }
}

/// `u64` addition clamped at `u64::MAX`.
pub open spec fn sat_add_u64(a: u64, b: u64) -> u64 {
    if a + b > u64::MAX {
        u64::MAX
    } else {
        (a + b) as u64
    }
}

/// Field-wise saturating sum of two per-crate stats.
pub open spec fn crate_stat_add(a: CrateStat, b: CrateStat) -> CrateStat {
    CrateStat { files: sat_add_usize(a.files, b.files), bytes: sat_add_u64(a.bytes, b.bytes) }
}

/// Field-wise saturating sum of two per-profile stats.
pub open spec fn profile_stat_add(a: ProfileStat, b: ProfileStat) -> ProfileStat {
    ProfileStat {
        files: sat_add_usize(a.files, b.files),
        bytes: sat_add_u64(a.bytes, b.bytes),
        used_bytes: sat_add_u64(a.used_bytes, b.used_bytes),
        total_dir_bytes: sat_add_u64(a.total_dir_bytes, b.total_dir_bytes),
    }
}

/// The map an association list denotes: later entries win, though the lists
/// kept here never repeat a key.
pub open spec fn crate_map_of(s: Seq<(Seq<char>, CrateStat)>) -> Map<Seq<char>, CrateStat>
    decreases s.len(),
{
    if s.len() == 0 {
        Map::empty()
    } else {
        crate_map_of(s.drop_last()).insert(s.last().0, s.last().1)
    }
}

/// The views of an association list's entries.
pub open spec fn crate_entry_views(s: Seq<(String, CrateStat)>) -> Seq<(Seq<char>, CrateStat)> {
    s.map_values(|e: (String, CrateStat)| (e.0@, e.1))
}

/// No key occurs twice.
pub open spec fn crate_keys_unique(s: Seq<(Seq<char>, CrateStat)>) -> bool {
    forall|i: int, j: int| 0 <= i < j < s.len() ==> (#[trigger] s[i]).0 != (#[trigger] s[j]).0
}

/// A key is in the denoted map exactly when some entry carries it.
pub proof fn lemma_crate_map_dom(s: Seq<(Seq<char>, CrateStat)>)
    ensures
        forall|k: Seq<char>|
            #[trigger] crate_map_of(s).dom().contains(k) <==> exists|i: int|
                0 <= i < s.len() && (#[trigger] s[i]).0 == k,
    decreases s.len(),
{
    if s.len() > 0 {
        let d = s.drop_last();
        lemma_crate_map_dom(d);
        assert forall|k: Seq<char>| crate_map_of(s).dom().contains(k) implies exists|i: int|
            0 <= i < s.len() && (#[trigger] s[i]).0 == k by {
            if k == s.last().0 {
                let w = s.len() - 1;
                assert(0 <= w < s.len() && s[w].0 == k);
            } else {
                assert(crate_map_of(d).dom().contains(k));
                let w = choose|i: int| 0 <= i < d.len() && (#[trigger] d[i]).0 == k;
                assert(d[w] == s[w]);
                assert(0 <= w < s.len() && s[w].0 == k);
            }
        }
        assert forall|k: Seq<char>| (exists|i: int| 0 <= i < s.len() && (#[trigger] s[i]).0 == k)
            implies crate_map_of(s).dom().contains(k) by {
            let w = choose|i: int| 0 <= i < s.len() && (#[trigger] s[i]).0 == k;
            if w == s.len() - 1 {
                assert(crate_map_of(s).dom().contains(s.last().0));
            } else {
                assert(d[w] == s[w]);
                assert(exists|i: int| 0 <= i < d.len() && (#[trigger] d[i]).0 == k) by {
                    assert(0 <= w < d.len() && d[w].0 == k);
                }
                assert(crate_map_of(d).dom().contains(k));
            }
        }
    }
}

/// With unique keys, the denoted map sends each entry's key to its value.
pub proof fn lemma_crate_map_at(s: Seq<(Seq<char>, CrateStat)>, i: int)
    requires
        crate_keys_unique(s),
        0 <= i < s.len(),
    ensures
        crate_map_of(s).dom().contains(s[i].0),
        crate_map_of(s)[s[i].0] == s[i].1,
    decreases s.len(),
{
    if i == s.len() - 1 {
        lemma_crate_map_dom(s);
    } else {
        assert(s[i].0 != s.last().0);
        assert(s.drop_last()[i] == s[i]);
        lemma_crate_map_at(s.drop_last(), i);
    }
}

/// Replacing the value at one entry updates the denoted map at its key.
pub proof fn lemma_crate_map_update(s: Seq<(Seq<char>, CrateStat)>, i: int, v: CrateStat)
    requires
        crate_keys_unique(s),
        0 <= i < s.len(),
    ensures
        crate_map_of(s.update(i, (s[i].0, v))) == crate_map_of(s).insert(s[i].0, v),
    decreases s.len(),
{
    let t = s.update(i, (s[i].0, v));
    if i == s.len() - 1 {
        assert(t.drop_last() =~= s.drop_last());
        assert(crate_map_of(t) =~= crate_map_of(s).insert(s[i].0, v));
    } else {
        assert(t.drop_last() =~= s.drop_last().update(i, (s[i].0, v)));
        assert(s.drop_last()[i] == s[i]);
        lemma_crate_map_update(s.drop_last(), i, v);
        assert(s[i].0 != s.last().0);
        assert(crate_map_of(t) =~= crate_map_of(s).insert(s[i].0, v));
    }
}

/// Appending an entry with a fresh key inserts it into the denoted map.
pub proof fn lemma_crate_map_push(s: Seq<(Seq<char>, CrateStat)>, k: Seq<char>, v: CrateStat)
    ensures
        crate_map_of(s.push((k, v))) == crate_map_of(s).insert(k, v),
{
    assert(s.push((k, v)).drop_last() =~= s);
}

/// Adding `d` into a per-crate map at `k`, starting a fresh entry when
/// absent.
pub open spec fn crate_upsert(
    m: Map<Seq<char>, CrateStat>,
    k: Seq<char>,
    d: CrateStat,
) -> Map<Seq<char>, CrateStat> {
    m.insert(
        k,
        if m.dom().contains(k) {
            crate_stat_add(m[k], d)
        } else {
            d
        },
    )
}

/// Key-wise saturating union of two per-crate maps.
pub open spec fn crate_map_merge(
    a: Map<Seq<char>, CrateStat>,
    b: Map<Seq<char>, CrateStat>,
) -> Map<Seq<char>, CrateStat> {
    Map::new(
        |k: Seq<char>| a.dom().contains(k) || b.dom().contains(k),
        |k: Seq<char>|
            if a.dom().contains(k) && b.dom().contains(k) {
                crate_stat_add(a[k], b[k])
            } else if a.dom().contains(k) {
                a[k]
            } else {
                b[k]
            },
    )
}

/// Adds `d` into the entry for `key`, creating the entry when absent.
pub fn crate_list_add(m: &mut Vec<(String, CrateStat)>, key: &str, d: CrateStat)
    requires
        crate_keys_unique(crate_entry_views(old(m)@)),
    ensures
        crate_keys_unique(crate_entry_views(final(m)@)),
        crate_map_of(crate_entry_views(final(m)@)) == crate_map_of(
            crate_entry_views(old(m)@),
        ).insert(
            key@,
            if crate_map_of(crate_entry_views(old(m)@)).dom().contains(key@) {
                crate_stat_add(crate_map_of(crate_entry_views(old(m)@))[key@], d)
            } else {
                d
            },
        ),
{
    let ghost s0 = crate_entry_views(m@);
    let n = m.len();
    let mut i: usize = 0;
    while i < n
        invariant
            0 <= i <= n,
            n == m@.len(),
            crate_entry_views(m@) == s0,
            s0 == crate_entry_views(old(m)@),
            crate_keys_unique(s0),
            forall|j: int| 0 <= j < i ==> (#[trigger] s0[j]).0 != key@,
        decreases n - i,
    {
        if str_eq(m[i].0.as_str(), key) {
            proof {
                assert(s0[i as int].0 == key@);
                lemma_crate_map_at(s0, i as int);
            }
            let cur = m[i].1;
            let newv = CrateStat {
                files: cur.files.saturating_add(d.files),
                bytes: cur.bytes.saturating_add(d.bytes),
            };
            let k = m[i].0.clone();
            m[i] = (k, newv);
            proof {
                assert(crate_entry_views(m@) =~= s0.update(i as int, (key@, newv)));
                assert(s0.update(i as int, (key@, newv)) =~= s0.update(
                    i as int,
                    (s0[i as int].0, newv),
                ));
                lemma_crate_map_update(s0, i as int, newv);
                assert(crate_keys_unique(crate_entry_views(m@))) by {
                    let t = s0.update(i as int, (key@, newv));
                    assert forall|x: int, y: int| 0 <= x < y < t.len() implies (#[trigger] t[x]).0
                        != (#[trigger] t[y]).0 by {
                        assert(s0[x].0 != s0[y].0);
                    }
                }
            }
            return ;
        }
        i += 1;
    }
    proof {
        lemma_crate_map_dom(s0);
        assert(!crate_map_of(s0).dom().contains(key@));
    }
    m.push((key.to_owned(), d));
    proof {
        assert(crate_entry_views(m@) =~= s0.push((key@, d)));
        lemma_crate_map_push(s0, key@, d);
        assert(crate_keys_unique(crate_entry_views(m@))) by {
            let t = s0.push((key@, d));
            assert forall|x: int, y: int| 0 <= x < y < t.len() implies (#[trigger] t[x]).0
                != (#[trigger] t[y]).0 by {
                if y < t.len() - 1 {
                    assert(s0[x].0 != s0[y].0);
                } else {
                    assert(t[x].0 == s0[x].0);
                }
            }
        }
    }
}

/// The map a profile association list denotes.
pub open spec fn profile_map_of(s: Seq<(Seq<char>, ProfileStat)>) -> Map<Seq<char>, ProfileStat>
    decreases s.len(),
{
    if s.len() == 0 {
        Map::empty()
    } else {
        profile_map_of(s.drop_last()).insert(s.last().0, s.last().1)
    }
}

/// The views of a profile association list's entries.
pub open spec fn profile_entry_views(s: Seq<(String, ProfileStat)>) -> Seq<
    (Seq<char>, ProfileStat),
> {
    s.map_values(|e: (String, ProfileStat)| (e.0@, e.1))
}

/// No profile key occurs twice.
pub open spec fn profile_keys_unique(s: Seq<(Seq<char>, ProfileStat)>) -> bool {
    forall|i: int, j: int| 0 <= i < j < s.len() ==> (#[trigger] s[i]).0 != (#[trigger] s[j]).0
}

/// A key is in the denoted profile map exactly when some entry carries it.
pub proof fn lemma_profile_map_dom(s: Seq<(Seq<char>, ProfileStat)>)
    ensures
        forall|k: Seq<char>|
            #[trigger] profile_map_of(s).dom().contains(k) <==> exists|i: int|
                0 <= i < s.len() && (#[trigger] s[i]).0 == k,
    decreases s.len(),
{
    if s.len() > 0 {
        let d = s.drop_last();
        lemma_profile_map_dom(d);
        assert forall|k: Seq<char>| profile_map_of(s).dom().contains(k) implies exists|i: int|
            0 <= i < s.len() && (#[trigger] s[i]).0 == k by {
            if k == s.last().0 {
                let w = s.len() - 1;
                assert(0 <= w < s.len() && s[w].0 == k);
            } else {
                assert(profile_map_of(d).dom().contains(k));
                let w = choose|i: int| 0 <= i < d.len() && (#[trigger] d[i]).0 == k;
                assert(d[w] == s[w]);
                assert(0 <= w < s.len() && s[w].0 == k);
            }
        }
        assert forall|k: Seq<char>| (exists|i: int| 0 <= i < s.len() && (#[trigger] s[i]).0 == k)
            implies profile_map_of(s).dom().contains(k) by {
            let w = choose|i: int| 0 <= i < s.len() && (#[trigger] s[i]).0 == k;
            if w == s.len() - 1 {
                assert(profile_map_of(s).dom().contains(s.last().0));
            } else {
                assert(d[w] == s[w]);
                assert(exists|i: int| 0 <= i < d.len() && (#[trigger] d[i]).0 == k) by {
                    assert(0 <= w < d.len() && d[w].0 == k);
                }
                assert(profile_map_of(d).dom().contains(k));
            }
        }
    }
}

/// With unique keys, the denoted profile map sends each entry's key to its
/// value.
pub proof fn lemma_profile_map_at(s: Seq<(Seq<char>, ProfileStat)>, i: int)
    requires
        profile_keys_unique(s),
        0 <= i < s.len(),
    ensures
        profile_map_of(s).dom().contains(s[i].0),
        profile_map_of(s)[s[i].0] == s[i].1,
    decreases s.len(),
{
    if i == s.len() - 1 {
        lemma_profile_map_dom(s);
    } else {
        assert(s[i].0 != s.last().0);
        assert(s.drop_last()[i] == s[i]);
        lemma_profile_map_at(s.drop_last(), i);
    }
}

/// Replacing the value at one entry updates the denoted profile map at its
/// key.
pub proof fn lemma_profile_map_update(s: Seq<(Seq<char>, ProfileStat)>, i: int, v: ProfileStat)
    requires
        profile_keys_unique(s),
        0 <= i < s.len(),
    ensures
        profile_map_of(s.update(i, (s[i].0, v))) == profile_map_of(s).insert(s[i].0, v),
    decreases s.len(),
{
    let t = s.update(i, (s[i].0, v));
    if i == s.len() - 1 {
        assert(t.drop_last() =~= s.drop_last());
        assert(profile_map_of(t) =~= profile_map_of(s).insert(s[i].0, v));
    } else {
        assert(t.drop_last() =~= s.drop_last().update(i, (s[i].0, v)));
        assert(s.drop_last()[i] == s[i]);
        lemma_profile_map_update(s.drop_last(), i, v);
        assert(s[i].0 != s.last().0);
        assert(profile_map_of(t) =~= profile_map_of(s).insert(s[i].0, v));
    }
}

/// Appending an entry with a fresh key inserts it into the denoted profile
/// map.
pub proof fn lemma_profile_map_push(s: Seq<(Seq<char>, ProfileStat)>, k: Seq<char>, v: ProfileStat)
    ensures
        profile_map_of(s.push((k, v))) == profile_map_of(s).insert(k, v),
{
    assert(s.push((k, v)).drop_last() =~= s);
}

/// The all-zero per-profile stat.
pub open spec fn zero_profile_stat() -> ProfileStat {
    ProfileStat { files: 0, bytes: 0, used_bytes: 0, total_dir_bytes: 0 }
}

/// `p` with its whole-directory byte total overwritten.
pub open spec fn profile_with_total(p: ProfileStat, total: u64) -> ProfileStat {
    ProfileStat { total_dir_bytes: total, ..p }
}

/// Adding `d` into a per-profile map at `k`, starting a fresh entry when
/// absent.
pub open spec fn profile_upsert(
    m: Map<Seq<char>, ProfileStat>,
    k: Seq<char>,
    d: ProfileStat,
) -> Map<Seq<char>, ProfileStat> {
    m.insert(
        k,
        if m.dom().contains(k) {
            profile_stat_add(m[k], d)
        } else {
            d
        },
    )
}

/// Key-wise saturating union of two per-profile maps.
pub open spec fn profile_map_merge(
    a: Map<Seq<char>, ProfileStat>,
    b: Map<Seq<char>, ProfileStat>,
) -> Map<Seq<char>, ProfileStat> {
    Map::new(
        |k: Seq<char>| a.dom().contains(k) || b.dom().contains(k),
        |k: Seq<char>|
            if a.dom().contains(k) && b.dom().contains(k) {
                profile_stat_add(a[k], b[k])
            } else if a.dom().contains(k) {
                a[k]
            } else {
                b[k]
            },
    )
}

/// Adds `d` into the profile entry for `key`, creating the entry when absent.
pub fn profile_list_add(m: &mut Vec<(String, ProfileStat)>, key: &str, d: ProfileStat)
    requires
        profile_keys_unique(profile_entry_views(old(m)@)),
    ensures
        profile_keys_unique(profile_entry_views(final(m)@)),
        profile_map_of(profile_entry_views(final(m)@)) == profile_map_of(
            profile_entry_views(old(m)@),
        ).insert(
            key@,
            if profile_map_of(profile_entry_views(old(m)@)).dom().contains(key@) {
                profile_stat_add(profile_map_of(profile_entry_views(old(m)@))[key@], d)
            } else {
                d
            },
        ),
{
    let ghost s0 = profile_entry_views(m@);
    let n = m.len();
    let mut i: usize = 0;
    while i < n
        invariant
            0 <= i <= n,
            n == m@.len(),
            profile_entry_views(m@) == s0,
            s0 == profile_entry_views(old(m)@),
            profile_keys_unique(s0),
            forall|j: int| 0 <= j < i ==> (#[trigger] s0[j]).0 != key@,
        decreases n - i,
    {
        if str_eq(m[i].0.as_str(), key) {
            proof {
                assert(s0[i as int].0 == key@);
                lemma_profile_map_at(s0, i as int);
            }
            let cur = m[i].1;
            let newv = ProfileStat {
                files: cur.files.saturating_add(d.files),
                bytes: cur.bytes.saturating_add(d.bytes),
                used_bytes: cur.used_bytes.saturating_add(d.used_bytes),
                total_dir_bytes: cur.total_dir_bytes.saturating_add(d.total_dir_bytes),
            };
            let k = m[i].0.clone();
            m[i] = (k, newv);
            proof {
                assert(profile_entry_views(m@) =~= s0.update(i as int, (key@, newv)));
                assert(s0.update(i as int, (key@, newv)) =~= s0.update(
                    i as int,
                    (s0[i as int].0, newv),
                ));
                lemma_profile_map_update(s0, i as int, newv);
                assert(profile_keys_unique(profile_entry_views(m@))) by {
                    let t = s0.update(i as int, (key@, newv));
                    assert forall|x: int, y: int| 0 <= x < y < t.len() implies (#[trigger] t[x]).0
                        != (#[trigger] t[y]).0 by {
                        assert(s0[x].0 != s0[y].0);
                    }
                }
            }
            return ;
        }
        i += 1;
    }
    proof {
        lemma_profile_map_dom(s0);
        assert(!profile_map_of(s0).dom().contains(key@));
    }
    m.push((key.to_owned(), d));
    proof {
        assert(profile_entry_views(m@) =~= s0.push((key@, d)));
        lemma_profile_map_push(s0, key@, d);
        assert(profile_keys_unique(profile_entry_views(m@))) by {
            let t = s0.push((key@, d));
            assert forall|x: int, y: int| 0 <= x < y < t.len() implies (#[trigger] t[x]).0
                != (#[trigger] t[y]).0 by {
                if y < t.len() - 1 {
                    assert(s0[x].0 != s0[y].0);
                } else {
                    assert(t[x].0 == s0[x].0);
                }
            }
        }
    }
}

/// Overwrites `total_dir_bytes` in the profile entry for `key`, creating the
/// entry (otherwise zeroed) when absent.
pub fn profile_list_set_total(m: &mut Vec<(String, ProfileStat)>, key: &str, total: u64)
    requires
        profile_keys_unique(profile_entry_views(old(m)@)),
    ensures
        profile_keys_unique(profile_entry_views(final(m)@)),
        profile_map_of(profile_entry_views(final(m)@)) == profile_map_of(
            profile_entry_views(old(m)@),
        ).insert(
            key@,
            profile_with_total(
                if profile_map_of(profile_entry_views(old(m)@)).dom().contains(key@) {
                    profile_map_of(profile_entry_views(old(m)@))[key@]
                } else {
                    zero_profile_stat()
                },
                total,
            ),
        ),
{
    let ghost s0 = profile_entry_views(m@);
    let n = m.len();
    let mut i: usize = 0;
    while i < n
        invariant
            0 <= i <= n,
            n == m@.len(),
            profile_entry_views(m@) == s0,
            s0 == profile_entry_views(old(m)@),
            profile_keys_unique(s0),
            forall|j: int| 0 <= j < i ==> (#[trigger] s0[j]).0 != key@,
        decreases n - i,
    {
        if str_eq(m[i].0.as_str(), key) {
            proof {
                assert(s0[i as int].0 == key@);
                lemma_profile_map_at(s0, i as int);
            }
            let cur = m[i].1;
            let newv = ProfileStat { total_dir_bytes: total, ..cur };
            let k = m[i].0.clone();
            m[i] = (k, newv);
            proof {
                assert(profile_entry_views(m@) =~= s0.update(i as int, (key@, newv)));
                assert(s0.update(i as int, (key@, newv)) =~= s0.update(
                    i as int,
                    (s0[i as int].0, newv),
                ));
                lemma_profile_map_update(s0, i as int, newv);
                assert(profile_keys_unique(profile_entry_views(m@))) by {
                    let t = s0.update(i as int, (key@, newv));
                    assert forall|x: int, y: int| 0 <= x < y < t.len() implies (#[trigger] t[x]).0
                        != (#[trigger] t[y]).0 by {
                        assert(s0[x].0 != s0[y].0);
                    }
                }
            }
            return ;
        }
        i += 1;
    }
    proof {
        lemma_profile_map_dom(s0);
        assert(!profile_map_of(s0).dom().contains(key@));
    }
    let newv = ProfileStat { files: 0, bytes: 0, used_bytes: 0, total_dir_bytes: total };
    m.push((key.to_owned(), newv));
    proof {
        assert(profile_entry_views(m@) =~= s0.push((key@, newv)));
        lemma_profile_map_push(s0, key@, newv);
        assert(profile_keys_unique(profile_entry_views(m@))) by {
            let t = s0.push((key@, newv));
            assert forall|x: int, y: int| 0 <= x < y < t.len() implies (#[trigger] t[x]).0
                != (#[trigger] t[y]).0 by {
                if y < t.len() - 1 {
                    assert(s0[x].0 != s0[y].0);
                } else {
                    assert(t[x].0 == s0[x].0);
                }
            }
        }
    }
}

/// The failure map an error list denotes: a later entry for the same key
/// wins.
pub open spec fn error_map_of(s: Seq<ErrorEntry>) -> Map<ErrorKeyV, Seq<char>>
    decreases s.len(),
{
    if s.len() == 0 {
        Map::empty()
    } else {
        error_map_of(s.drop_last()).insert(s.last().key(), s.last().message@)
    }
}

/// No failure key occurs twice.
pub open spec fn error_keys_unique(s: Seq<ErrorEntry>) -> bool {
    forall|i: int, j: int|
        0 <= i < j < s.len() ==> (#[trigger] s[i]).key() != (#[trigger] s[j]).key()
}

/// A key is in the denoted failure map exactly when some entry carries it.
pub proof fn lemma_error_map_dom(s: Seq<ErrorEntry>)
    ensures
        forall|k: ErrorKeyV|
            #[trigger] error_map_of(s).dom().contains(k) <==> exists|i: int|
                0 <= i < s.len() && (#[trigger] s[i]).key() == k,
    decreases s.len(),
{
    if s.len() > 0 {
        let d = s.drop_last();
        lemma_error_map_dom(d);
        assert forall|k: ErrorKeyV| error_map_of(s).dom().contains(k) implies exists|i: int|
            0 <= i < s.len() && (#[trigger] s[i]).key() == k by {
            if k == s.last().key() {
                let w = s.len() - 1;
                assert(0 <= w < s.len() && s[w].key() == k);
            } else {
                assert(error_map_of(d).dom().contains(k));
                let w = choose|i: int| 0 <= i < d.len() && (#[trigger] d[i]).key() == k;
                assert(d[w] == s[w]);
                assert(0 <= w < s.len() && s[w].key() == k);
            }
        }
        assert forall|k: ErrorKeyV| (exists|i: int|
            0 <= i < s.len() && (#[trigger] s[i]).key() == k) implies error_map_of(
            s,
        ).dom().contains(k) by {
            let w = choose|i: int| 0 <= i < s.len() && (#[trigger] s[i]).key() == k;
            if w == s.len() - 1 {
                assert(error_map_of(s).dom().contains(s.last().key()));
            } else {
                assert(d[w] == s[w]);
                assert(exists|i: int| 0 <= i < d.len() && (#[trigger] d[i]).key() == k) by {
                    assert(0 <= w < d.len() && d[w].key() == k);
                }
                assert(error_map_of(d).dom().contains(k));
            }
        }
    }
}

/// Replacing one entry by another with the same key updates the denoted
/// failure map.
pub proof fn lemma_error_map_update(s: Seq<ErrorEntry>, i: int, e: ErrorEntry)
    requires
        error_keys_unique(s),
        0 <= i < s.len(),
        e.key() == s[i].key(),
    ensures
        error_map_of(s.update(i, e)) == error_map_of(s).insert(e.key(), e.message@),
    decreases s.len(),
{
    let t = s.update(i, e);
    if i == s.len() - 1 {
        assert(t.drop_last() =~= s.drop_last());
        assert(error_map_of(t) =~= error_map_of(s).insert(e.key(), e.message@));
    } else {
        assert(t.drop_last() =~= s.drop_last().update(i, e));
        assert(s.drop_last()[i] == s[i]);
        lemma_error_map_update(s.drop_last(), i, e);
        assert(s[i].key() != s.last().key());
        assert(error_map_of(t) =~= error_map_of(s).insert(e.key(), e.message@));
    }
}

/// Appending an entry with a fresh key inserts it into the denoted failure
/// map.
pub proof fn lemma_error_map_push(s: Seq<ErrorEntry>, e: ErrorEntry)
    ensures
        error_map_of(s.push(e)) == error_map_of(s).insert(e.key(), e.message@),
{
    assert(s.push(e).drop_last() =~= s);
}

/// Files `e` under its key, overwriting any earlier failure for the same key.
pub fn error_list_put(m: &mut Vec<ErrorEntry>, e: ErrorEntry)
    requires
        error_keys_unique(old(m)@),
    ensures
        error_keys_unique(final(m)@),
        error_map_of(final(m)@) == error_map_of(old(m)@).insert(e.key(), e.message@),
{
    let ghost s0 = m@;
    let n = m.len();
    let mut i: usize = 0;
    while i < n
        invariant
            0 <= i <= n,
            n == m@.len(),
            m@ == s0,
            s0 == old(m)@,
            error_keys_unique(s0),
            forall|j: int| 0 <= j < i ==> (#[trigger] s0[j]).key() != e.key(),
        decreases n - i,
    {
        let same = str_eq(m[i].crate_key.as_str(), e.crate_key.as_str()) && str_eq(
            m[i].profile.as_str(),
            e.profile.as_str(),
        ) && str_eq(m[i].path.as_str(), e.path.as_str());
        if same {
            proof {
                assert(s0[i as int].key() == e.key());
            }
            let ghost ekey = e.key();
            m[i] = e;
            proof {
                lemma_error_map_update(s0, i as int, m@[i as int]);
                assert(error_keys_unique(m@)) by {
                    let t = m@;
                    assert forall|x: int, y: int| 0 <= x < y < t.len() implies (#[trigger] t[x]).key()
                        != (#[trigger] t[y]).key() by {
                        assert(s0[x].key() != s0[y].key());
                        assert(t[x].key() == if x == i as int { ekey } else { s0[x].key() });
                        assert(t[y].key() == if y == i as int { ekey } else { s0[y].key() });
                    }
                }
            }
            return ;
        }
        i += 1;
    }
    proof {
        lemma_error_map_dom(s0);
        assert(!error_map_of(s0).dom().contains(e.key()));
    }
    let ghost ekey = e.key();
    let ghost emsg = e.message@;
    m.push(e);
    proof {
        assert(m@ =~= s0.push(m@.last()));
        lemma_error_map_push(s0, m@.last());
        assert(error_keys_unique(m@)) by {
            let t = m@;
            assert forall|x: int, y: int| 0 <= x < y < t.len() implies (#[trigger] t[x]).key()
                != (#[trigger] t[y]).key() by {
                if y < t.len() - 1 {
                    assert(s0[x].key() != s0[y].key());
                } else {
                    assert(t[x].key() == s0[x].key());
                    assert(t[y].key() == ekey);
                }
            }
        }
    }
}

/// The cleanup aggregate itself. Field meanings follow the view type
/// [`StatsV`]; the association lists never repeat a key (see
/// [`CleanupStats::wf`]).
pub struct CleanupStats {
    pub files: usize,
    pub bytes: u64,
    pub used_bytes: u64,
    pub per_crate: Vec<(String, CrateStat)>,
    pub per_profile: Vec<(String, ProfileStat)>,
    pub errors: Vec<ErrorEntry>,
    pub files_to_remove: Vec<FileToRemove>,
    pub dirs_to_remove: Vec<DirToRemove>,
}

impl View for CleanupStats {
    type V = StatsV;

    open spec fn view(&self) -> StatsV {
        StatsV {
            files: self.files,
            bytes: self.bytes,
            used_bytes: self.used_bytes,
            per_crate: crate_map_of(crate_entry_views(self.per_crate@)),
            per_profile: profile_map_of(profile_entry_views(self.per_profile@)),
            errors: error_map_of(self.errors@),
            files_to_remove: self.files_to_remove@.map_values(|f: FileToRemove| f@),
            dirs_to_remove: self.dirs_to_remove@.map_values(|d: DirToRemove| d@),
        }
    }
}

/// The empty aggregate.
pub open spec fn empty_stats() -> StatsV {
    StatsV {
        files: 0,
        bytes: 0,
        used_bytes: 0,
        per_crate: Map::empty(),
        per_profile: Map::empty(),
        errors: Map::empty(),
        files_to_remove: Seq::empty(),
        dirs_to_remove: Seq::empty(),
    }
}

/// One removed (or removable) artifact file counted: totals, crate and
/// profile breakdowns, without queueing anything.
pub open spec fn count_removed_file(v: StatsV, path: Seq<char>, size: u64, profile: Seq<char>) -> StatsV {
    StatsV {
        files: sat_add_usize(v.files, 1),
        bytes: sat_add_u64(v.bytes, size),
        per_crate: crate_upsert(v.per_crate, crate_key_of(path), CrateStat { files: 1, bytes: size }),
        per_profile: profile_upsert(
            v.per_profile,
            profile,
            ProfileStat { files: 1, bytes: size, used_bytes: 0, total_dir_bytes: 0 },
        ),
        ..v
    }
}

/// One removed (or removable) directory counted: totals and the profile
/// breakdown, without queueing anything.
pub open spec fn count_removed_dir(v: StatsV, size: u64, profile: Seq<char>) -> StatsV {
    StatsV {
        files: sat_add_usize(v.files, 1),
        bytes: sat_add_u64(v.bytes, size),
        per_profile: profile_upsert(
            v.per_profile,
            profile,
            ProfileStat { files: 1, bytes: size, used_bytes: 0, total_dir_bytes: 0 },
        ),
        ..v
    }
}

/// One more stale artifact file: counted, broken down by crate and profile,
/// and queued for removal.
pub open spec fn mark_file_removed(v: StatsV, path: Seq<char>, size: u64, profile: Seq<char>) -> StatsV {
    StatsV {
        files_to_remove: v.files_to_remove.push(RemovalEntryV { path, size, profile }),
        ..count_removed_file(v, path, size, profile)
    }
}

/// One more artifact file confirmed in use: its size joins the kept totals.
pub open spec fn mark_file_used(v: StatsV, size: u64, profile: Seq<char>) -> StatsV {
    StatsV {
        used_bytes: sat_add_u64(v.used_bytes, size),
        per_profile: profile_upsert(
            v.per_profile,
            profile,
            ProfileStat { files: 0, bytes: 0, used_bytes: size, total_dir_bytes: 0 },
        ),
        ..v
    }
}

/// One more stale incremental session: counted, broken down by profile, and
/// queued for removal.
pub open spec fn mark_dir_removed(v: StatsV, path: Seq<char>, size: u64, profile: Seq<char>) -> StatsV {
    StatsV {
        dirs_to_remove: v.dirs_to_remove.push(RemovalEntryV { path, size, profile }),
        ..count_removed_dir(v, size, profile)
    }
}

/// One per-item failure filed under its `(crate, profile, path)` key; a later
/// failure for the same key wins.
pub open spec fn mark_error(v: StatsV, k: ErrorKeyV, message: Seq<char>) -> StatsV {
    StatsV { errors: v.errors.insert(k, message), ..v }
}

/// The merge algebra: field-wise saturating sums, key-wise map sums, list
/// concatenation, and last-wins union for failures.
pub open spec fn merge_stats(a: StatsV, b: StatsV) -> StatsV {
    StatsV {
        files: sat_add_usize(a.files, b.files),
        bytes: sat_add_u64(a.bytes, b.bytes),
        used_bytes: sat_add_u64(a.used_bytes, b.used_bytes),
        per_crate: crate_map_merge(a.per_crate, b.per_crate),
        per_profile: profile_map_merge(a.per_profile, b.per_profile),
        errors: a.errors.union_prefer_right(b.errors),
        files_to_remove: a.files_to_remove + b.files_to_remove,
        dirs_to_remove: a.dirs_to_remove + b.dirs_to_remove,
    }
}

/// Merging is associative: independent scans may fold their results in any
/// grouping and the aggregate comes out the same.
pub proof fn lemma_merge_associative(a: StatsV, b: StatsV, c: StatsV)
    ensures
        merge_stats(merge_stats(a, b), c) == merge_stats(a, merge_stats(b, c)),
{
    let l = merge_stats(merge_stats(a, b), c);
    let r = merge_stats(a, merge_stats(b, c));
    assert(l.per_crate =~= r.per_crate);
    assert(l.per_profile =~= r.per_profile);
    assert(l.errors =~= r.errors);
    assert(l.files_to_remove =~= r.files_to_remove);
    assert(l.dirs_to_remove =~= r.dirs_to_remove);
}

/// Merging is commutative on every summed field: the counters and the
/// per-crate and per-profile breakdowns come out the same whichever side a
/// scan's result lands on. (The candidate lists keep their order and a later
/// failure wins its key, so only those two fields depend on the order.)
pub proof fn lemma_merge_commutative_sums(a: StatsV, b: StatsV)
    ensures
        merge_stats(a, b).files == merge_stats(b, a).files,
        merge_stats(a, b).bytes == merge_stats(b, a).bytes,
        merge_stats(a, b).used_bytes == merge_stats(b, a).used_bytes,
        merge_stats(a, b).per_crate == merge_stats(b, a).per_crate,
        merge_stats(a, b).per_profile == merge_stats(b, a).per_profile,
{
    assert(merge_stats(a, b).per_crate =~= merge_stats(b, a).per_crate);
    assert(merge_stats(a, b).per_profile =~= merge_stats(b, a).per_profile);
}

/// Folding one more entry of `t` into an accumulated per-crate merge is one
/// upsert.
proof fn lemma_crate_merge_step(
    m: Map<Seq<char>, CrateStat>,
    t: Seq<(Seq<char>, CrateStat)>,
    i: int,
)
    requires
        crate_keys_unique(t),
        0 <= i < t.len(),
    ensures
        crate_map_merge(m, crate_map_of(t.take(i + 1))) == crate_upsert(
            crate_map_merge(m, crate_map_of(t.take(i))),
            t[i].0,
            t[i].1,
        ),
{
    assert(t.take(i + 1) =~= t.take(i).push(t[i]));
    lemma_crate_map_push(t.take(i), t[i].0, t[i].1);
    lemma_crate_map_dom(t.take(i));
    assert(!crate_map_of(t.take(i)).dom().contains(t[i].0)) by {
        assert(forall|j: int| 0 <= j < i ==> (#[trigger] t.take(i)[j]).0 == t[j].0);
    }
    assert(crate_map_merge(m, crate_map_of(t.take(i + 1))) =~= crate_upsert(
        crate_map_merge(m, crate_map_of(t.take(i))),
        t[i].0,
        t[i].1,
    ));
}

/// Folding one more entry of `t` into an accumulated per-profile merge is one
/// upsert.
proof fn lemma_profile_merge_step(
    m: Map<Seq<char>, ProfileStat>,
    t: Seq<(Seq<char>, ProfileStat)>,
    i: int,
)
    requires
        profile_keys_unique(t),
        0 <= i < t.len(),
    ensures
        profile_map_merge(m, profile_map_of(t.take(i + 1))) == profile_upsert(
            profile_map_merge(m, profile_map_of(t.take(i))),
            t[i].0,
            t[i].1,
        ),
{
    assert(t.take(i + 1) =~= t.take(i).push(t[i]));
    lemma_profile_map_push(t.take(i), t[i].0, t[i].1);
    lemma_profile_map_dom(t.take(i));
    assert(!profile_map_of(t.take(i)).dom().contains(t[i].0)) by {
        assert(forall|j: int| 0 <= j < i ==> (#[trigger] t.take(i)[j]).0 == t[j].0);
    }
    assert(profile_map_merge(m, profile_map_of(t.take(i + 1))) =~= profile_upsert(
        profile_map_merge(m, profile_map_of(t.take(i))),
        t[i].0,
        t[i].1,
    ));
}

/// Folding one more entry of `t` into an accumulated failure union is one
/// insert.
proof fn lemma_error_merge_step(m: Map<ErrorKeyV, Seq<char>>, t: Seq<ErrorEntry>, i: int)
    requires
        0 <= i < t.len(),
    ensures
        m.union_prefer_right(error_map_of(t.take(i + 1))) == m.union_prefer_right(
            error_map_of(t.take(i)),
        ).insert(t[i].key(), t[i].message@),
{
    assert(t.take(i + 1) =~= t.take(i).push(t[i]));
    lemma_error_map_push(t.take(i), t[i]);
    assert(m.union_prefer_right(error_map_of(t.take(i + 1))) =~= m.union_prefer_right(
        error_map_of(t.take(i)),
    ).insert(t[i].key(), t[i].message@));
}

impl CleanupStats {
    /// The association lists carry each key at most once, so they denote
    /// their maps faithfully.
    pub open spec fn wf(&self) -> bool {
        &&& crate_keys_unique(crate_entry_views(self.per_crate@))
        &&& profile_keys_unique(profile_entry_views(self.per_profile@))
        &&& error_keys_unique(self.errors@)
    }

    /// A fresh, empty aggregate.
    pub fn new() -> (s: CleanupStats)
        ensures
            s.wf(),
            s@ == empty_stats(),
    {
        let s = CleanupStats {
            files: 0,
            bytes: 0,
            used_bytes: 0,
            per_crate: Vec::new(),
            per_profile: Vec::new(),
            errors: Vec::new(),
            files_to_remove: Vec::new(),
            dirs_to_remove: Vec::new(),
        };
        proof {
            assert(s@.per_crate =~= empty_stats().per_crate);
            assert(s@.per_profile =~= empty_stats().per_profile);
            assert(s@.errors =~= empty_stats().errors);
            assert(s@.files_to_remove =~= empty_stats().files_to_remove);
            assert(s@.dirs_to_remove =~= empty_stats().dirs_to_remove);
        }
        s
    }

    /// Counts one stale artifact file and queues it for removal, attributing
    /// it to its crate key and to `profile`.
    pub fn add_removal_file(&mut self, path: String, size: u64, profile: &str)
        requires
            old(self).wf(),
        ensures
            final(self).wf(),
            final(self)@ == mark_file_removed(old(self)@, path@, size, profile@),
    {
        let ck = crate_key(path.as_str());
        self.files = self.files.saturating_add(1);
        self.bytes = self.bytes.saturating_add(size);
        crate_list_add(&mut self.per_crate, ck.as_str(), CrateStat { files: 1, bytes: size });
        profile_list_add(
            &mut self.per_profile,
            profile,
            ProfileStat { files: 1, bytes: size, used_bytes: 0, total_dir_bytes: 0 },
        );
        let ghost fv0 = self.files_to_remove@.map_values(|f: FileToRemove| f@);
        self.files_to_remove.push(FileToRemove { path, size, profile: profile.to_owned() });
        proof {
            assert(self.files_to_remove@.map_values(|f: FileToRemove| f@) =~= fv0.push(
                self.files_to_remove@.last()@,
            ));
        }
    }

    /// Counts one artifact file confirmed in use, attributing its size to the
    /// kept totals of `profile`.
    pub fn add_used_file(&mut self, size: u64, profile: &str)
        requires
            old(self).wf(),
        ensures
            final(self).wf(),
            final(self)@ == mark_file_used(old(self)@, size, profile@),
    {
        self.used_bytes = self.used_bytes.saturating_add(size);
        profile_list_add(
            &mut self.per_profile,
            profile,
            ProfileStat { files: 0, bytes: 0, used_bytes: size, total_dir_bytes: 0 },
        );
    }

    /// Counts one stale incremental-session directory and queues it for
    /// removal under `profile`.
    pub fn add_removal_dir(&mut self, path: String, size: u64, profile: &str)
        requires
            old(self).wf(),
        ensures
            final(self).wf(),
            final(self)@ == mark_dir_removed(old(self)@, path@, size, profile@),
    {
        self.files = self.files.saturating_add(1);
        self.bytes = self.bytes.saturating_add(size);
        profile_list_add(
            &mut self.per_profile,
            profile,
            ProfileStat { files: 1, bytes: size, used_bytes: 0, total_dir_bytes: 0 },
        );
        let ghost dv0 = self.dirs_to_remove@.map_values(|d: DirToRemove| d@);
        self.dirs_to_remove.push(DirToRemove { path, size, profile: profile.to_owned() });
        proof {
            assert(self.dirs_to_remove@.map_values(|d: DirToRemove| d@) =~= dv0.push(
                self.dirs_to_remove@.last()@,
            ));
        }
    }

    /// Files one per-item failure under its `(crate, profile, path)` key.
    pub fn record_error(&mut self, e: ErrorEntry)
        requires
            old(self).wf(),
        ensures
            final(self).wf(),
            final(self)@ == mark_error(old(self)@, e.key(), e.message@),
    {
        error_list_put(&mut self.errors, e);
    }

    /// Overwrites the whole-directory byte total of `profile`'s entry.
    pub fn set_profile_total_dir_bytes(&mut self, profile: &str, total: u64)
        requires
            old(self).wf(),
        ensures
            final(self).wf(),
            final(self)@ == (StatsV {
                per_profile: old(self)@.per_profile.insert(
                    profile@,
                    profile_with_total(
                        if old(self)@.per_profile.dom().contains(profile@) {
                            old(self)@.per_profile[profile@]
                        } else {
                            zero_profile_stat()
                        },
                        total,
                    ),
                ),
                ..old(self)@
            }),
    {
        profile_list_set_total(&mut self.per_profile, profile, total);
    }

    /// Counts one successfully removed artifact file.
    pub fn count_file_removal(&mut self, path: &str, size: u64, profile: &str)
        requires
            old(self).wf(),
        ensures
            final(self).wf(),
            final(self)@ == count_removed_file(old(self)@, path@, size, profile@),
    {
        let ck = crate_key(path);
        self.files = self.files.saturating_add(1);
        self.bytes = self.bytes.saturating_add(size);
        crate_list_add(&mut self.per_crate, ck.as_str(), CrateStat { files: 1, bytes: size });
        profile_list_add(
            &mut self.per_profile,
            profile,
            ProfileStat { files: 1, bytes: size, used_bytes: 0, total_dir_bytes: 0 },
        );
    }

    /// Counts one successfully removed directory.
    pub fn count_dir_removal(&mut self, size: u64, profile: &str)
        requires
            old(self).wf(),
        ensures
            final(self).wf(),
            final(self)@ == count_removed_dir(old(self)@, size, profile@),
    {
        self.files = self.files.saturating_add(1);
        self.bytes = self.bytes.saturating_add(size);
        profile_list_add(
            &mut self.per_profile,
            profile,
            ProfileStat { files: 1, bytes: size, used_bytes: 0, total_dir_bytes: 0 },
        );
    }

    /// An equal-view copy of the aggregate, built field by field. Merging
    /// consumes its argument, so a caller who needs one aggregate on both
    /// sides of a comparison duplicates it first.
    pub fn duplicate(&self) -> (r: CleanupStats)
        ensures
            r@ == self@,
            self.wf() ==> r.wf(),
    {
        let mut per_crate: Vec<(String, CrateStat)> = Vec::new();
        let nc = self.per_crate.len();
        let mut i: usize = 0;
        proof {
            assert(per_crate@ =~= self.per_crate@.take(0));
        }
        while i < nc
            invariant
                0 <= i <= nc,
                nc == self.per_crate@.len(),
                per_crate@ == self.per_crate@.take(i as int),
            decreases nc - i,
        {
            per_crate.push((self.per_crate[i].0.clone(), self.per_crate[i].1));
            proof {
                assert(per_crate@ =~= self.per_crate@.take(i as int + 1));
            }
            i += 1;
        }
        let mut per_profile: Vec<(String, ProfileStat)> = Vec::new();
        let np = self.per_profile.len();
        let mut j: usize = 0;
        proof {
            assert(per_profile@ =~= self.per_profile@.take(0));
        }
        while j < np
            invariant
                0 <= j <= np,
                np == self.per_profile@.len(),
                per_profile@ == self.per_profile@.take(j as int),
            decreases np - j,
        {
            per_profile.push((self.per_profile[j].0.clone(), self.per_profile[j].1));
            proof {
                assert(per_profile@ =~= self.per_profile@.take(j as int + 1));
            }
            j += 1;
        }
        let mut errors: Vec<ErrorEntry> = Vec::new();
        let ne = self.errors.len();
        let mut k: usize = 0;
        proof {
            assert(errors@ =~= self.errors@.take(0));
        }
        while k < ne
            invariant
                0 <= k <= ne,
                ne == self.errors@.len(),
                errors@ == self.errors@.take(k as int),
            decreases ne - k,
        {
            errors.push(
                ErrorEntry {
                    crate_key: self.errors[k].crate_key.clone(),
                    profile: self.errors[k].profile.clone(),
                    path: self.errors[k].path.clone(),
                    message: self.errors[k].message.clone(),
                },
            );
            proof {
                assert(errors@ =~= self.errors@.take(k as int + 1));
            }
            k += 1;
        }
        let mut files_to_remove: Vec<FileToRemove> = Vec::new();
        let nf = self.files_to_remove.len();
        let mut a: usize = 0;
        proof {
            assert(files_to_remove@ =~= self.files_to_remove@.take(0));
        }
        while a < nf
            invariant
                0 <= a <= nf,
                nf == self.files_to_remove@.len(),
                files_to_remove@ == self.files_to_remove@.take(a as int),
            decreases nf - a,
        {
            files_to_remove.push(
                FileToRemove {
                    path: self.files_to_remove[a].path.clone(),
                    size: self.files_to_remove[a].size,
                    profile: self.files_to_remove[a].profile.clone(),
                },
            );
            proof {
                assert(files_to_remove@ =~= self.files_to_remove@.take(a as int + 1));
            }
            a += 1;
        }
        let mut dirs_to_remove: Vec<DirToRemove> = Vec::new();
        let nd = self.dirs_to_remove.len();
        let mut b: usize = 0;
        proof {
            assert(dirs_to_remove@ =~= self.dirs_to_remove@.take(0));
        }
        while b < nd
            invariant
                0 <= b <= nd,
                nd == self.dirs_to_remove@.len(),
                dirs_to_remove@ == self.dirs_to_remove@.take(b as int),
            decreases nd - b,
        {
            dirs_to_remove.push(
                DirToRemove {
                    path: self.dirs_to_remove[b].path.clone(),
                    size: self.dirs_to_remove[b].size,
                    profile: self.dirs_to_remove[b].profile.clone(),
                },
            );
            proof {
                assert(dirs_to_remove@ =~= self.dirs_to_remove@.take(b as int + 1));
            }
            b += 1;
        }
        let r = CleanupStats {
            files: self.files,
            bytes: self.bytes,
            used_bytes: self.used_bytes,
            per_crate,
            per_profile,
            errors,
            files_to_remove,
            dirs_to_remove,
        };
        proof {
            assert(r.per_crate@ =~= self.per_crate@);
            assert(r.per_profile@ =~= self.per_profile@);
            assert(r.errors@ =~= self.errors@);
            assert(r.files_to_remove@ =~= self.files_to_remove@);
            assert(r.dirs_to_remove@ =~= self.dirs_to_remove@);
        }
        r
    }

    /// Folds `other` into `self` by the merge algebra of [`merge_stats`].
    pub fn merge_from(&mut self, other: CleanupStats)
        requires
            old(self).wf(),
            other.wf(),
        ensures
            final(self).wf(),
            final(self)@ == merge_stats(old(self)@, other@),
    {
        let mut other = other;
        self.files = self.files.saturating_add(other.files);
        self.bytes = self.bytes.saturating_add(other.bytes);
        self.used_bytes = self.used_bytes.saturating_add(other.used_bytes);

        let ghost m0 = crate_map_of(crate_entry_views(self.per_crate@));
        let ghost tc = crate_entry_views(other.per_crate@);
        proof {
            assert(crate_map_of(tc.take(0)) =~= Map::<Seq<char>, CrateStat>::empty());
            assert(crate_map_merge(m0, Map::empty()) =~= m0);
        }
        let ghost snap_c = *self;
        let nc = other.per_crate.len();
        let mut i: usize = 0;
        while i < nc
            invariant
                0 <= i <= nc,
                nc == other.per_crate@.len(),
                tc == crate_entry_views(other.per_crate@),
                crate_keys_unique(tc),
                crate_keys_unique(crate_entry_views(self.per_crate@)),
                crate_map_of(crate_entry_views(self.per_crate@)) == crate_map_merge(
                    m0,
                    crate_map_of(tc.take(i as int)),
                ),
                self.files == snap_c.files,
                self.bytes == snap_c.bytes,
                self.used_bytes == snap_c.used_bytes,
                self.per_profile == snap_c.per_profile,
                self.errors == snap_c.errors,
                self.files_to_remove == snap_c.files_to_remove,
                self.dirs_to_remove == snap_c.dirs_to_remove,
            decreases nc - i,
        {
            let d = other.per_crate[i].1;
            crate_list_add(&mut self.per_crate, other.per_crate[i].0.as_str(), d);
            proof {
                lemma_crate_merge_step(m0, tc, i as int);
            }
            i += 1;
        }
        proof {
            assert(tc.take(nc as int) =~= tc);
        }

        let ghost p0 = profile_map_of(profile_entry_views(self.per_profile@));
        let ghost tp = profile_entry_views(other.per_profile@);
        proof {
            assert(profile_map_of(tp.take(0)) =~= Map::<Seq<char>, ProfileStat>::empty());
            assert(profile_map_merge(p0, Map::empty()) =~= p0);
        }
        let ghost snap_p = *self;
        let np = other.per_profile.len();
        let mut j: usize = 0;
        while j < np
            invariant
                0 <= j <= np,
                np == other.per_profile@.len(),
                tp == profile_entry_views(other.per_profile@),
                profile_keys_unique(tp),
                profile_keys_unique(profile_entry_views(self.per_profile@)),
                profile_map_of(profile_entry_views(self.per_profile@)) == profile_map_merge(
                    p0,
                    profile_map_of(tp.take(j as int)),
                ),
                self.files == snap_p.files,
                self.bytes == snap_p.bytes,
                self.used_bytes == snap_p.used_bytes,
                self.per_crate == snap_p.per_crate,
                self.errors == snap_p.errors,
                self.files_to_remove == snap_p.files_to_remove,
                self.dirs_to_remove == snap_p.dirs_to_remove,
            decreases np - j,
        {
            let d = other.per_profile[j].1;
            profile_list_add(&mut self.per_profile, other.per_profile[j].0.as_str(), d);
            proof {
                lemma_profile_merge_step(p0, tp, j as int);
            }
            j += 1;
        }
        proof {
            assert(tp.take(np as int) =~= tp);
        }

        let ghost e0 = error_map_of(self.errors@);
        let ghost te = other.errors@;
        proof {
            assert(error_map_of(te.take(0)) =~= Map::<ErrorKeyV, Seq<char>>::empty());
            assert(e0.union_prefer_right(Map::empty()) =~= e0);
        }
        let ghost snap_e = *self;
        let ne = other.errors.len();
        let mut k: usize = 0;
        while k < ne
            invariant
                0 <= k <= ne,
                ne == other.errors@.len(),
                te == other.errors@,
                error_keys_unique(self.errors@),
                error_map_of(self.errors@) == e0.union_prefer_right(
                    error_map_of(te.take(k as int)),
                ),
                self.files == snap_e.files,
                self.bytes == snap_e.bytes,
                self.used_bytes == snap_e.used_bytes,
                self.per_crate == snap_e.per_crate,
                self.per_profile == snap_e.per_profile,
                self.files_to_remove == snap_e.files_to_remove,
                self.dirs_to_remove == snap_e.dirs_to_remove,
            decreases ne - k,
        {
            let e = ErrorEntry {
                crate_key: other.errors[k].crate_key.clone(),
                profile: other.errors[k].profile.clone(),
                path: other.errors[k].path.clone(),
                message: other.errors[k].message.clone(),
            };
            proof {
                assert(e.key() == te[k as int].key() && e.message@ == te[k as int].message@);
            }
            error_list_put(&mut self.errors, e);
            proof {
                lemma_error_merge_step(e0, te, k as int);
            }
            k += 1;
        }
        proof {
            assert(te.take(ne as int) =~= te);
        }

        let ghost fl0 = self.files_to_remove@;
        let ghost flo = other.files_to_remove@;
        self.files_to_remove.append(&mut other.files_to_remove);
        let ghost dl0 = self.dirs_to_remove@;
        let ghost dlo = other.dirs_to_remove@;
        self.dirs_to_remove.append(&mut other.dirs_to_remove);
        proof {
            assert(self.files_to_remove@.map_values(|f: FileToRemove| f@) =~= fl0.map_values(
                |f: FileToRemove| f@,
            ) + flo.map_values(|f: FileToRemove| f@));
            assert(self.dirs_to_remove@.map_values(|d: DirToRemove| d@) =~= dl0.map_values(
                |d: DirToRemove| d@,
            ) + dlo.map_values(|d: DirToRemove| d@));
        }
    }
}

} // verus!
