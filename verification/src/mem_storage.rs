//! The in-memory storage backend: both collections kept sorted ascending by
//! start time, so every listing is a plain enumeration.

use vstd::prelude::*;

use crate::activity::{Activity, ActivityView, OngoingActivity, OngoingView};
use crate::errors::StorageError;
use crate::storage::{
    all_finished_valid, all_ongoing_valid, lemma_insert_to_multiset, ongoing_starts_sorted,
    starts_sorted, Storage,
};
use crate::ActivityId;

verus! {

/// The views of a list of finished activities.
pub open spec fn finished_views(s: Seq<Activity>) -> Seq<ActivityView> {
    s.map_values(|a: Activity| a@)
}

/// The views of a list of ongoing activities.
pub open spec fn ongoing_views(s: Seq<OngoingActivity>) -> Seq<OngoingView> {
    s.map_values(|a: OngoingActivity| a@)
}

/// Inserting into the list inserts into the views.
proof fn lemma_finished_views_insert(s: Seq<Activity>, pos: int, a: Activity)
    requires
        0 <= pos <= s.len(),
    ensures
        finished_views(s.insert(pos, a)) == finished_views(s).insert(pos, a@),
{
    assert(finished_views(s.insert(pos, a)) =~= finished_views(s).insert(pos, a@));
}

/// Removing from the list removes from the views.
proof fn lemma_finished_views_remove(s: Seq<Activity>, pos: int)
    requires
        0 <= pos < s.len(),
    ensures
        finished_views(s.remove(pos)) == finished_views(s).remove(pos),
{
    assert(finished_views(s.remove(pos)) =~= finished_views(s).remove(pos));
}

/// Inserting into the list inserts into the views.
proof fn lemma_ongoing_views_insert(s: Seq<OngoingActivity>, pos: int, a: OngoingActivity)
    requires
        0 <= pos <= s.len(),
    ensures
        ongoing_views(s.insert(pos, a)) == ongoing_views(s).insert(pos, a@),
{
    assert(ongoing_views(s.insert(pos, a)) =~= ongoing_views(s).insert(pos, a@));
}

/// Removing from the list removes from the views.
proof fn lemma_ongoing_views_remove(s: Seq<OngoingActivity>, pos: int)
    requires
        0 <= pos < s.len(),
    ensures
        ongoing_views(s.remove(pos)) == ongoing_views(s).remove(pos),
{
    assert(ongoing_views(s.remove(pos)) =~= ongoing_views(s).remove(pos));
}

/// Inserting at a fitting spot keeps start times sorted.
proof fn lemma_sorted_insert(s: Seq<ActivityView>, pos: int, a: ActivityView)
    requires
        starts_sorted(s),
        0 <= pos <= s.len(),
        forall|j: int|
            0 <= j < pos ==> (#[trigger] s[j]).start_time.timestamp()
                <= a.start_time.timestamp(),
        forall|j: int|
            pos <= j < s.len() ==> a.start_time.timestamp() <= (#[trigger] s[j]).start_time.timestamp(),
    ensures
        starts_sorted(s.insert(pos, a)),
{
    s.insert_ensures(pos, a);
}

/// A subsequence with one element removed stays sorted.
proof fn lemma_sorted_remove(s: Seq<ActivityView>, pos: int)
    requires
        starts_sorted(s),
        0 <= pos < s.len(),
    ensures
        starts_sorted(s.remove(pos)),
{
}

/// Inserting at a fitting spot keeps start times sorted.
proof fn lemma_ongoing_sorted_insert(s: Seq<OngoingView>, pos: int, a: OngoingView)
    requires
        ongoing_starts_sorted(s),
        0 <= pos <= s.len(),
        forall|j: int|
            0 <= j < pos ==> (#[trigger] s[j]).start_time.timestamp()
                <= a.start_time.timestamp(),
        forall|j: int|
            pos <= j < s.len() ==> a.start_time.timestamp() <= (#[trigger] s[j]).start_time.timestamp(),
    ensures
        ongoing_starts_sorted(s.insert(pos, a)),
{
    s.insert_ensures(pos, a);
}

/// A subsequence with one element removed stays sorted.
proof fn lemma_ongoing_sorted_remove(s: Seq<OngoingView>, pos: int)
    requires
        ongoing_starts_sorted(s),
        0 <= pos < s.len(),
    ensures
        ongoing_starts_sorted(s.remove(pos)),
{
}

/// An in-memory backend: the state lives in two sorted vectors and every
/// operation succeeds.
pub struct MemStorage {
    finished: Vec<Activity>,
    ongoing: Vec<OngoingActivity>,
}

impl MemStorage {
    /// An empty store.
    pub fn new() -> (r: MemStorage)
        ensures
            r.inv(),
            r.finished() == Seq::<ActivityView>::empty(),
            r.ongoing() == Seq::<OngoingView>::empty(),
    {
        let r = MemStorage { finished: Vec::new(), ongoing: Vec::new() };
        proof {
            assert(r.finished() =~= Seq::<ActivityView>::empty());
            assert(r.ongoing() =~= Seq::<OngoingView>::empty());
        }
        r
    }
}

impl Storage for MemStorage {
    closed spec fn finished(&self) -> Seq<ActivityView> {
        finished_views(self.finished@)
    }

    closed spec fn ongoing(&self) -> Seq<OngoingView> {
        ongoing_views(self.ongoing@)
    }

    open spec fn inv(&self) -> bool {
        &&& starts_sorted(self.finished())
        &&& all_finished_valid(self.finished())
        &&& ongoing_starts_sorted(self.ongoing())
        &&& all_ongoing_valid(self.ongoing())
    }

    proof fn inv_implies_wf(&self) {
    }

    fn write_activity(&mut self, activity: Activity) -> (r: Result<(), StorageError>)
        ensures
            r is Ok,
    {
        let ghost pre = self.finished();
        let ts = activity.start_time.timestamp_secs();
        let n = self.finished.len();
        proof {
            assert forall|j: int| 0 <= j < n implies (#[trigger] self.finished@[j]).start_time.is_valid() by {
                assert(self.finished()[j] == self.finished@[j]@);
                assert(self.finished()[j].is_valid());
            };
        }
        let mut i: usize = 0;
        while i < n && self.finished[i].start_time.timestamp_secs() <= ts
            invariant
                self.inv(),
                n == self.finished@.len(),
                i <= n,
                ts == activity@.start_time.timestamp(),
                activity.is_valid(),
                forall|j: int| 0 <= j < n ==> (#[trigger] self.finished@[j]).start_time.is_valid(),
                forall|j: int|
                    0 <= j < i ==> (#[trigger] self.finished()[j]).start_time.timestamp() <= ts,
            decreases n - i,
        {
            proof {
                assert(self.finished()[i as int] == self.finished@[i as int]@);
            }
            i = i + 1;
        }
        proof {
            assert forall|j: int|
                i <= j < n implies ts <= (#[trigger] self.finished()[j]).start_time.timestamp() by {
                assert(self.finished()[i as int] == self.finished@[i as int]@);
                assert(ts < self.finished()[i as int].start_time.timestamp());
                if j > i {
                    assert(self.finished()[i as int].start_time.timestamp() <= self.finished()[j].start_time.timestamp());
                }
            };
            lemma_sorted_insert(self.finished(), i as int, activity@);
            lemma_finished_views_insert(self.finished@, i as int, activity);
            lemma_insert_to_multiset(self.finished(), i as int, activity@);
        }
        self.finished.insert(i, activity);
        proof {
            assert(all_finished_valid(self.finished())) by {
                assert(forall|k: int|
                    0 <= k < self.finished().len() ==> (#[trigger] self.finished()[k])
                        == pre.insert(i as int, activity@)[k]);
            }
        }
        Ok(())
    }

    fn get_finished_activities(&self) -> (r: Result<Vec<(ActivityId, Activity)>, StorageError>)
        ensures
            r is Ok,
    {
        let n = self.finished.len();
        let mut v: Vec<(ActivityId, Activity)> = Vec::new();
        let mut i: usize = 0;
        while i < n
            invariant
                n == self.finished@.len(),
                i <= n,
                v@.len() == i,
                forall|k: int| 0 <= k < i ==> (#[trigger] v@[k]).1@ == self.finished()[k],
                forall|k: int| 0 <= k < i ==> (#[trigger] v@[k]).0 == n - 1 - k,
            decreases n - i,
        {
            let a = self.finished[i].clone();
            v.push((n - 1 - i, a));
            i = i + 1;
        }
        Ok(v)
    }

    fn delete_activity(&mut self, id: ActivityId) -> (r: Result<Option<Activity>, StorageError>)
        ensures
            r is Ok,
    {
        let n = self.finished.len();
        if id >= n {
            Ok(None)
        } else {
            let idx = n - 1 - id;
            proof {
                lemma_sorted_remove(self.finished(), idx as int);
                lemma_finished_views_remove(self.finished@, idx as int);
            }
            let ghost pre = self.finished();
            let a = self.finished.remove(idx);
            proof {
                assert(all_finished_valid(self.finished())) by {
                    assert(forall|k: int|
                        0 <= k < self.finished().len() ==> (#[trigger] self.finished()[k])
                            == pre.remove(idx as int)[k]);
                }
            }
            Ok(Some(a))
        }
    }

    fn get_ongoing_activities(&self) -> (r: Result<
        Vec<(ActivityId, OngoingActivity)>,
        StorageError,
    >)
        ensures
            r is Ok,
    {
        let n = self.ongoing.len();
        let mut v: Vec<(ActivityId, OngoingActivity)> = Vec::new();
        let mut i: usize = 0;
        while i < n
            invariant
                n == self.ongoing@.len(),
                i <= n,
                v@.len() == i,
                forall|k: int| 0 <= k < i ==> (#[trigger] v@[k]).1@ == self.ongoing()[k],
                forall|k: int| 0 <= k < i ==> (#[trigger] v@[k]).0 == k,
            decreases n - i,
        {
            let a = self.ongoing[i].clone();
            v.push((i, a));
            i = i + 1;
        }
        Ok(v)
    }

    fn get_ongoing_activity(&self, id: ActivityId) -> (r: Result<
        Option<OngoingActivity>,
        StorageError,
    >)
        ensures
            r is Ok,
    {
        if id < self.ongoing.len() {
            Ok(Some(self.ongoing[id].clone()))
        } else {
            Ok(None)
        }
    }

    fn add_ongoing_activity(&mut self, activity: OngoingActivity) -> (r: Result<
        (),
        StorageError,
    >)
        ensures
            r is Ok,
    {
        let ghost pre = self.ongoing();
        let ts = activity.start_time.timestamp_secs();
        let n = self.ongoing.len();
        proof {
            assert forall|j: int| 0 <= j < n implies (#[trigger] self.ongoing@[j]).start_time.is_valid() by {
                assert(self.ongoing()[j] == self.ongoing@[j]@);
                assert(self.ongoing()[j].is_valid());
            };
        }
        let mut i: usize = 0;
        while i < n && self.ongoing[i].start_time.timestamp_secs() <= ts
            invariant
                self.inv(),
                n == self.ongoing@.len(),
                i <= n,
                ts == activity@.start_time.timestamp(),
                activity.is_valid(),
                forall|j: int| 0 <= j < n ==> (#[trigger] self.ongoing@[j]).start_time.is_valid(),
                forall|j: int|
                    0 <= j < i ==> (#[trigger] self.ongoing()[j]).start_time.timestamp() <= ts,
            decreases n - i,
        {
            proof {
                assert(self.ongoing()[i as int] == self.ongoing@[i as int]@);
            }
            i = i + 1;
        }
        proof {
            assert forall|j: int|
                i <= j < n implies ts <= (#[trigger] self.ongoing()[j]).start_time.timestamp() by {
                assert(self.ongoing()[i as int] == self.ongoing@[i as int]@);
                assert(ts < self.ongoing()[i as int].start_time.timestamp());
                if j > i {
                    assert(self.ongoing()[i as int].start_time.timestamp() <= self.ongoing()[j].start_time.timestamp());
                }
            };
            lemma_ongoing_sorted_insert(self.ongoing(), i as int, activity@);
            lemma_ongoing_views_insert(self.ongoing@, i as int, activity);
            lemma_insert_to_multiset(self.ongoing(), i as int, activity@);
        }
        self.ongoing.insert(i, activity);
        proof {
            assert(all_ongoing_valid(self.ongoing())) by {
                assert(forall|k: int|
                    0 <= k < self.ongoing().len() ==> (#[trigger] self.ongoing()[k]) == pre.insert(
                        i as int,
                        activity@,
                    )[k]);
            }
        }
        Ok(())
    }

    fn remove_ongoing_activity(&mut self, id: ActivityId) -> (r: Result<
        Option<OngoingActivity>,
        StorageError,
    >)
        ensures
            r is Ok,
    {
        if id >= self.ongoing.len() {
            Ok(None)
        } else {
            proof {
                lemma_ongoing_sorted_remove(self.ongoing(), id as int);
                lemma_ongoing_views_remove(self.ongoing@, id as int);
            }
            let ghost pre = self.ongoing();
            let o = self.ongoing.remove(id);
            proof {
                assert(all_ongoing_valid(self.ongoing())) by {
                    assert(forall|k: int|
                        0 <= k < self.ongoing().len() ==> (#[trigger] self.ongoing()[k])
                            == pre.remove(id as int)[k]);
                }
            }
            Ok(Some(o))
        }
    }
}

} // verus!
