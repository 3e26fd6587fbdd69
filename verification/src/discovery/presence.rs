//! When a device that is no longer advertised counts as gone.
use std::collections::{HashMap, HashSet};
use vstd::prelude::*;
use crate::sequences::{lemma_filter_contains, lemma_filter_grows, lemma_filter_keeps_distinct};

verus! {

broadcast use vstd::std_specs::hash::group_hash_axioms;

/// Who is present, and how many scans in a row each has been missing from.
pub struct Presence {
    pub present: Set<u32>,
    pub miss_counts: Map<u32, u32>,
}

/// The number of scans in a row that a device has been missing from.
pub open spec fn misses(miss_counts: Map<u32, u32>, id: u32) -> int {
    if miss_counts.contains_key(id) {
        miss_counts[id] as int
    } else {
        0
    }
}

/// The number of missed scans after which a device is gone: at least one.
pub open spec fn threshold(required_misses: u32) -> int {
    if required_misses == 0 {
        1
    } else {
        required_misses as int
    }
}

impl Presence {
    /// Whether a device that was present is not in a scan.
    pub open spec fn is_missing(self, scan: Set<u32>, id: u32) -> bool {
        self.present.contains(id) && !scan.contains(id)
    }

    /// Whether a scan is the one with which a device is gone.
    pub open spec fn is_lost(self, scan: Set<u32>, required_misses: u32, id: u32) -> bool {
        self.is_missing(scan, id) && misses(self.miss_counts, id) + 1 >= threshold(required_misses)
    }

    /// The devices that a scan makes gone.
    pub open spec fn lost(self, scan: Set<u32>, required_misses: u32) -> Set<u32> {
        self.present.filter(|id: u32| self.is_lost(scan, required_misses, id))
    }

    /// The state after a scan. What is in the scan has its count cleared; what is
    /// missing from it has its count raised, or is gone, count and all.
    pub open spec fn after(self, scan: Set<u32>, required_misses: u32) -> Presence {
        Presence {
            present: self.present.difference(self.lost(scan, required_misses)),
            miss_counts: Map::new(
                |id: u32|
                    !scan.contains(id) && !self.is_lost(scan, required_misses, id) && (
                    self.miss_counts.contains_key(id) || self.present.contains(id)),
                |id: u32|
                    if self.present.contains(id) {
                        (misses(self.miss_counts, id) + 1) as u32
                    } else {
                        self.miss_counts[id]
                    },
            ),
        }
    }

    /// The counts after a scan of which only the missing devices `done` have been
    /// counted.
    spec fn counted(self, scan: Set<u32>, required_misses: u32, done: Seq<u32>) -> Map<u32, u32> {
        Map::new(
            |id: u32|
                if done.contains(id) {
                    !self.is_lost(scan, required_misses, id)
                } else {
                    self.miss_counts.contains_key(id) && !scan.contains(id)
                },
            |id: u32|
                if done.contains(id) {
                    (misses(self.miss_counts, id) + 1) as u32
                } else {
                    self.miss_counts[id]
                },
        )
    }

    /// The state after several scans.
    pub open spec fn after_all(self, scans: Seq<Set<u32>>, required_misses: u32) -> Presence
        decreases scans.len(),
    {
        if scans.len() == 0 {
            self
        } else {
            self.after_all(scans.drop_last(), required_misses).after(scans.last(), required_misses)
        }
    }
}

/// Clears the counts of what is in a scan.
fn clear_counts(current_ids: &HashSet<u32>, miss_counts: &mut HashMap<u32, u32>)
    ensures
        final(miss_counts)@ == old(miss_counts)@.remove_keys(current_ids@),
{
    let ghost before = miss_counts@;
    for id in it: current_ids.iter()
        invariant
            it.seq().unref().to_set() == current_ids@,
            miss_counts@ == before.remove_keys(it.seq().unref().take(it.index()).to_set()),
    {
        let ghost ids = it.seq().unref();
        let ghost n = it.index();
        miss_counts.remove(id);
        proof {
            assert(ids.take(n + 1) =~= ids.take(n).push(ids[n]));
            assert forall|k: u32| ids.take(n + 1).contains(k) == (ids.take(n).contains(k) || k
                == ids[n]) by {
                if ids.take(n).contains(k) {
                    let j = choose|j: int| 0 <= j < n && ids.take(n)[j] == k;
                    assert(ids.take(n + 1)[j] == k);
                }
                assert(ids.take(n + 1)[n] == ids[n]);
            }
            assert(miss_counts@ =~= before.remove_keys(ids.take(n + 1).to_set()));
        }
    }
    proof {
        assert(forall|s: Seq<u32>| #[trigger] s.take(s.len() as int) =~= s);
    }
}

/// What was present and is not in a scan.
fn missing_from(present_ids: &HashSet<u32>, current_ids: &HashSet<u32>) -> (r: Vec<u32>)
    ensures
        r@.no_duplicates(),
        r@.to_set() == present_ids@.difference(current_ids@),
{
    let mut missing: Vec<u32> = Vec::new();
    let ghost absent = |id: u32| !current_ids@.contains(id);
    let ghost mut walked: Seq<u32> = Seq::empty();
    assert(missing@ == walked.filter(absent)) by {
        reveal(Seq::filter);
    }
    for id in it: present_ids.iter()
        invariant
            it.seq().unref().to_set() == present_ids@,
            it.seq().no_duplicates(),
            absent == (|id: u32| !current_ids@.contains(id)),
            walked == it.seq().unref().take(it.index()),
            missing@ == walked.filter(absent),
    {
        proof {
            let ids = it.seq().unref();
            lemma_filter_grows(ids, it.index(), absent);
            assert(ids.take(it.index() + 1) =~= walked.push(*id));
            walked = walked.push(*id);
        }
        if !current_ids.contains(id) {
            missing.push(*id);
        }
    }
    proof {
        assert(forall|s: Seq<u32>| #[trigger] s.take(s.len() as int) =~= s);
        assert(walked.to_set() == present_ids@);
        lemma_filter_keeps_distinct(walked, absent);
        assert forall|id: u32| walked.filter(absent).contains(id) == (walked.contains(id)
            && absent(id)) by {
            lemma_filter_contains(walked, absent, id);
        }
        assert(missing@.to_set() =~= present_ids@.difference(current_ids@));
    }
    missing
}

/// Takes one scan into account and gives back the devices that are gone with it.
pub fn disconnected_after_missed_scans(
    present_ids: &mut HashSet<u32>,
    current_ids: &HashSet<u32>,
    miss_counts: &mut HashMap<u32, u32>,
    required_misses: u32,
) -> (r: Vec<u32>)
    requires
        forall|id: u32|
            #[trigger] old(present_ids)@.contains(id) && !current_ids@.contains(id) ==> misses(
                old(miss_counts)@,
                id,
            ) < u32::MAX,
    ensures
        ({
            let before = Presence { present: old(present_ids)@, miss_counts: old(miss_counts)@ };
            let after = before.after(current_ids@, required_misses);
            &&& final(present_ids)@ == after.present
            &&& final(miss_counts)@ == after.miss_counts
            &&& r@.no_duplicates()
            &&& r@.to_set() == before.lost(current_ids@, required_misses)
        }),
{
    let ghost before = Presence { present: present_ids@, miss_counts: miss_counts@ };
    let ghost scan = current_ids@;
    let ghost lost = |id: u32| before.is_lost(scan, required_misses, id);
    clear_counts(current_ids, miss_counts);
    let missing: Vec<u32> = missing_from(present_ids, current_ids);
    let needed: u32 = if required_misses == 0 {
        1
    } else {
        required_misses
    };
    let mut disconnected: Vec<u32> = Vec::new();
    let mut i: usize = 0;
    assert(disconnected@ == missing@.take(0).filter(lost)) by {
        reveal(Seq::filter);
    }
    assert forall|id: u32| missing@.contains(id) == before.is_missing(scan, id) by {
        assert(missing@.to_set().contains(id) == before.is_missing(scan, id));
    }
    assert(miss_counts@ =~= before.counted(scan, required_misses, missing@.take(0)));
    assert(present_ids@ =~= before.present.difference(disconnected@.to_set()));
    while i < missing.len()
        invariant
            i <= missing.len(),
            needed == threshold(required_misses),
            missing@.no_duplicates(),
            forall|id: u32| missing@.contains(id) == before.is_missing(scan, id),
            forall|id: u32|
                #[trigger] before.present.contains(id) && !scan.contains(id) ==> misses(
                    before.miss_counts,
                    id,
                ) < u32::MAX,
            lost == (|id: u32| before.is_lost(scan, required_misses, id)),
            disconnected@ == missing@.take(i as int).filter(lost),
            present_ids@ == before.present.difference(disconnected@.to_set()),
            miss_counts@ == before.counted(scan, required_misses, missing@.take(i as int)),
        decreases missing.len() - i,
    {
        let id: u32 = missing[i];
        proof {
            let done = missing@.take(i as int);
            lemma_filter_grows(missing@, i as int, lost);
            assert(missing@.contains(id));
            assert(before.present.contains(id));
            assert(missing@.take(i + 1) =~= done.push(id));
            assert(!done.contains(id));
            assert forall|k: u32| missing@.take(i + 1).contains(k) == (done.contains(k) || k
                == id) by {
                if done.contains(k) {
                    let j = choose|j: int| 0 <= j < done.len() && done[j] == k;
                    assert(missing@.take(i + 1)[j] == k);
                }
                assert(missing@.take(i + 1)[i as int] == id);
            }
        }
        let counted: u32 = match miss_counts.get(&id) {
            Some(n) => *n,
            None => 0,
        };
        let now: u32 = counted + 1;
        if now >= needed {
            present_ids.remove(&id);
            miss_counts.remove(&id);
            disconnected.push(id);
        } else {
            miss_counts.insert(id, now);
        }
        proof {
            assert(counted == misses(before.miss_counts, id));
            assert(lost(id) == (now >= needed));
            let counts = before.counted(scan, required_misses, missing@.take(i + 1));
            assert(miss_counts@ =~= counts);
            assert forall|k: u32| #[trigger] disconnected@.contains(k) == (missing@.take(
                i + 1,
            ).contains(k) && lost(k)) by {
                lemma_filter_contains(missing@.take(i + 1), lost, k);
            }
            assert forall|k: u32|
                #[trigger] missing@.take(i as int).filter(lost).contains(k) == (missing@.take(
                    i as int,
                ).contains(k) && lost(k)) by {
                lemma_filter_contains(missing@.take(i as int), lost, k);
            }
            assert(present_ids@ =~= before.present.difference(disconnected@.to_set()));
        }
        i += 1;
    }
    proof {
        let after = before.after(scan, required_misses);
        assert(missing@.take(i as int) =~= missing@);
        lemma_filter_keeps_distinct(missing@, lost);
        assert forall|id: u32| disconnected@.contains(id) == lost(id) by {
            lemma_filter_contains(missing@, lost, id);
        }
        assert(disconnected@.to_set() =~= before.lost(scan, required_misses));
        assert(present_ids@ =~= after.present);
        assert(miss_counts@ =~= after.miss_counts);
    }
    disconnected
}

// ---------------------------------------------------------------- laws

/// A device that is in a scan is not lost with it and has no missed scans after
/// it.
pub proof fn lemma_rediscovery_clears(
    before: Presence,
    scan: Set<u32>,
    required_misses: u32,
    id: u32,
)
    requires
        scan.contains(id),
    ensures
        !before.is_lost(scan, required_misses, id),
        before.after(scan, required_misses).present.contains(id) == before.present.contains(id),
        misses(before.after(scan, required_misses).miss_counts, id) == 0,
{
}

/// A present device that is missing from fewer scans in a row than are required
/// stays present, and each of those scans has been counted.
pub proof fn lemma_kept_until_enough_misses(
    before: Presence,
    scans: Seq<Set<u32>>,
    required_misses: u32,
    id: u32,
)
    requires
        before.present.contains(id),
        misses(before.miss_counts, id) == 0,
        forall|i: int| 0 <= i < scans.len() ==> !(#[trigger] scans[i]).contains(id),
        scans.len() < threshold(required_misses),
    ensures
        before.after_all(scans, required_misses).present.contains(id),
        misses(before.after_all(scans, required_misses).miss_counts, id) == scans.len(),
    decreases scans.len(),
{
    if scans.len() > 0 {
        let earlier = scans.drop_last();
        assert forall|i: int| 0 <= i < earlier.len() implies !(#[trigger] earlier[i]).contains(
            id,
        ) by {
            assert(earlier[i] == scans[i]);
        }
        lemma_kept_until_enough_misses(before, earlier, required_misses, id);
        assert(!scans[scans.len() - 1].contains(id));
    }
}

/// A present device that is missing from as many scans in a row as are required
/// is lost with the last of them.
pub proof fn lemma_lost_after_enough_misses(
    before: Presence,
    scans: Seq<Set<u32>>,
    required_misses: u32,
    id: u32,
)
    requires
        before.present.contains(id),
        misses(before.miss_counts, id) == 0,
        forall|i: int| 0 <= i < scans.len() ==> !(#[trigger] scans[i]).contains(id),
        scans.len() == threshold(required_misses),
    ensures
        before.after_all(scans.drop_last(), required_misses).is_lost(
            scans.last(),
            required_misses,
            id,
        ),
        !before.after_all(scans, required_misses).present.contains(id),
        !before.after_all(scans, required_misses).miss_counts.contains_key(id),
{
    let earlier = scans.drop_last();
    assert forall|i: int| 0 <= i < earlier.len() implies !(#[trigger] earlier[i]).contains(id) by {
        assert(earlier[i] == scans[i]);
    }
    lemma_kept_until_enough_misses(before, earlier, required_misses, id);
    assert(!scans[scans.len() - 1].contains(id));
}

/// Counts that are below the number of missed scans that is required stay below
/// it, so they never grow without bound.
pub proof fn lemma_counts_stay_below(before: Presence, scan: Set<u32>, required_misses: u32)
    requires
        forall|id: u32| misses(before.miss_counts, id) < threshold(required_misses),
    ensures
        forall|id: u32|
            misses(before.after(scan, required_misses).miss_counts, id) < threshold(
                required_misses,
            ),
{
    assert forall|id: u32|
        misses(before.after(scan, required_misses).miss_counts, id) < threshold(
            required_misses,
        ) by {
        assert(misses(before.miss_counts, id) < threshold(required_misses));
    }
}

/// What one scan does to one device. One that is in the scan stays as it was, with no
/// misses. One that was present and is not in the scan has one more miss; it is gone
/// if and only if it now has as many as are required, or one where none are. One that
/// was not present is not counted.
pub proof fn lemma_one_scan(before: Presence, scan: Set<u32>, required_misses: u32, id: u32)
    requires
        before.miss_counts.contains_key(id) ==> before.miss_counts[id] < u32::MAX,
    ensures
        ({
            let after = before.after(scan, required_misses);
            let gone = before.lost(scan, required_misses);
            let counted: int = if before.miss_counts.contains_key(id) {
                before.miss_counts[id] as int
            } else {
                0
            };
            let enough: int = if required_misses == 0 {
                1
            } else {
                required_misses as int
            };
            let present = before.present.contains(id);
            &&& scan.contains(id) ==> !gone.contains(id) && !after.miss_counts.contains_key(id)
                && after.present.contains(id) == present
            &&& !scan.contains(id) && present && counted + 1 >= enough ==> gone.contains(id)
                && !after.present.contains(id) && !after.miss_counts.contains_key(id)
            &&& !scan.contains(id) && present && counted + 1 < enough ==> !gone.contains(id)
                && after.present.contains(id) && after.miss_counts.contains_key(id)
                && after.miss_counts[id] == counted + 1
            &&& !scan.contains(id) && !present ==> !gone.contains(id) && !after.present.contains(id)
                && after.miss_counts.contains_key(id) == before.miss_counts.contains_key(id) && (
            before.miss_counts.contains_key(id) ==> after.miss_counts[id]
                == before.miss_counts[id])
        }),
{
}

} // verus!
