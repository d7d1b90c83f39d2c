//! The storage capability: persisting and querying finished activities and
//! zero-or-more concurrently ongoing activities.
//!
//! The abstract state of a backend is a pair of sorted sequences of activity
//! values. Listings handed to callers enumerate finished activities with ids
//! counting down to 0 (id 0 = most recently started finished activity) and
//! ongoing activities with ids counting up from 0.

use vstd::prelude::*;

use crate::activity::{Activity, ActivityView, OngoingActivity, OngoingView};
use crate::errors::StorageError;
use crate::ActivityId;

verus! {

/// Every finished activity in the sequence is valid.
pub open spec fn all_finished_valid(s: Seq<ActivityView>) -> bool {
    forall|i: int| 0 <= i < s.len() ==> (#[trigger] s[i]).is_valid()
}

/// Every ongoing activity in the sequence is valid.
pub open spec fn all_ongoing_valid(s: Seq<OngoingView>) -> bool {
    forall|i: int| 0 <= i < s.len() ==> (#[trigger] s[i]).is_valid()
}

/// Start times never decrease along the sequence.
pub open spec fn starts_sorted(s: Seq<ActivityView>) -> bool {
    forall|i: int, j: int|
        0 <= i < j < s.len() ==> (#[trigger] s[i]).start_time.timestamp()
            <= (#[trigger] s[j]).start_time.timestamp()
}

/// Start times never decrease along the sequence.
pub open spec fn ongoing_starts_sorted(s: Seq<OngoingView>) -> bool {
    forall|i: int, j: int|
        0 <= i < j < s.len() ==> (#[trigger] s[i]).start_time.timestamp()
            <= (#[trigger] s[j]).start_time.timestamp()
}

/// `v` lists `model` in order, with ids counting down to 0.
pub open spec fn is_finished_listing(
    v: Seq<(ActivityId, Activity)>,
    model: Seq<ActivityView>,
) -> bool {
    &&& v.len() == model.len()
    &&& forall|i: int| 0 <= i < v.len() ==> (#[trigger] v[i]).1@ == model[i]
    &&& forall|i: int| 0 <= i < v.len() ==> (#[trigger] v[i]).0 == v.len() - 1 - i
}

/// `v` lists `model` in order, with ids counting up from 0.
pub open spec fn is_ongoing_listing(
    v: Seq<(ActivityId, OngoingActivity)>,
    model: Seq<OngoingView>,
) -> bool {
    &&& v.len() == model.len()
    &&& forall|i: int| 0 <= i < v.len() ==> (#[trigger] v[i]).1@ == model[i]
    &&& forall|i: int| 0 <= i < v.len() ==> (#[trigger] v[i]).0 == i
}

/// A backend persisting finished activities and ongoing activities.
///
/// Its abstract state is the pair `(finished(), ongoing())`, both sorted
/// ascending by start time. Every operation may fail with a `StorageError`;
/// a failed operation leaves the state unchanged (writes are atomic at the
/// granularity of one operation).
pub trait Storage: Sized {
    /// The finished activities, sorted ascending by start time.
    spec fn finished(&self) -> Seq<ActivityView>;

    /// The ongoing activities, sorted ascending by start time.
    spec fn ongoing(&self) -> Seq<OngoingView>;

    /// The backend's invariant: both sequences sorted, all values valid.
    spec fn inv(&self) -> bool;

    /// The invariant says at least that the state is sorted and valid.
    proof fn inv_implies_wf(&self)
        requires
            self.inv(),
        ensures
            starts_sorted(self.finished()),
            all_finished_valid(self.finished()),
            ongoing_starts_sorted(self.ongoing()),
            all_ongoing_valid(self.ongoing()),
    ;

    /// Appends a finished activity.
    fn write_activity(&mut self, activity: Activity) -> (r: Result<(), StorageError>)
        requires
            old(self).inv(),
            activity.is_valid(),
        ensures
            final(self).inv(),
            final(self).ongoing() == old(self).ongoing(),
            r is Ok ==> final(self).finished().to_multiset() == old(
                self,
            ).finished().to_multiset().insert(activity@),
            r is Err ==> final(self).finished() == old(self).finished(),
    ;

    /// All finished activities, sorted ascending by start time, with ids
    /// counting down to 0.
    fn get_finished_activities(&self) -> (r: Result<Vec<(ActivityId, Activity)>, StorageError>)
        requires
            self.inv(),
        ensures
            r matches Ok(v) ==> is_finished_listing(v@, self.finished()),
    ;

    /// Deletes the finished activity carrying `id` in the current listing and
    /// returns it; `Ok(None)` (not an error) when no activity carries `id`.
    fn delete_activity(&mut self, id: ActivityId) -> (r: Result<Option<Activity>, StorageError>)
        requires
            old(self).inv(),
        ensures
            final(self).inv(),
            final(self).ongoing() == old(self).ongoing(),
            r matches Ok(Some(a)) ==> {
                &&& id < old(self).finished().len()
                &&& a@ == old(self).finished()[old(self).finished().len() - 1 - id]
                &&& final(self).finished() == old(self).finished().remove(
                    old(self).finished().len() - 1 - id,
                )
            },
            r matches Ok(None) ==> id >= old(self).finished().len() && final(self).finished()
                == old(self).finished(),
            r is Err ==> final(self).finished() == old(self).finished(),
    ;

    /// All ongoing activities, sorted ascending by start time, with ids
    /// counting up from 0.
    fn get_ongoing_activities(&self) -> (r: Result<
        Vec<(ActivityId, OngoingActivity)>,
        StorageError,
    >)
        requires
            self.inv(),
        ensures
            r matches Ok(v) ==> is_ongoing_listing(v@, self.ongoing()),
    ;

    /// The ongoing activity carrying `id`, if any.
    fn get_ongoing_activity(&self, id: ActivityId) -> (r: Result<
        Option<OngoingActivity>,
        StorageError,
    >)
        requires
            self.inv(),
        ensures
            r matches Ok(Some(o)) ==> id < self.ongoing().len() && o@ == self.ongoing()[id as int],
            r matches Ok(None) ==> id >= self.ongoing().len(),
    ;

    /// Adds `activity` to the ongoing activities.
    fn add_ongoing_activity(&mut self, activity: OngoingActivity) -> (r: Result<
        (),
        StorageError,
    >)
        requires
            old(self).inv(),
            activity.is_valid(),
        ensures
            final(self).inv(),
            final(self).finished() == old(self).finished(),
            r is Ok ==> final(self).ongoing().to_multiset() == old(
                self,
            ).ongoing().to_multiset().insert(activity@),
            r is Err ==> final(self).ongoing() == old(self).ongoing(),
    ;

    /// Removes the ongoing activity carrying `id` and returns it; `Ok(None)`
    /// (not an error) when no ongoing activity carries `id`.
    fn remove_ongoing_activity(&mut self, id: ActivityId) -> (r: Result<
        Option<OngoingActivity>,
        StorageError,
    >)
        requires
            old(self).inv(),
        ensures
            final(self).inv(),
            final(self).finished() == old(self).finished(),
            r matches Ok(Some(o)) ==> {
                &&& id < old(self).ongoing().len()
                &&& o@ == old(self).ongoing()[id as int]
                &&& final(self).ongoing() == old(self).ongoing().remove(id as int)
            },
            r matches Ok(None) ==> id >= old(self).ongoing().len() && final(self).ongoing() == old(
                self,
            ).ongoing(),
            r is Err ==> final(self).ongoing() == old(self).ongoing(),
    ;
}

/// A sequence with one more insertion carries the insertion's multiset.
pub proof fn lemma_insert_to_multiset<T>(s: Seq<T>, pos: int, a: T)
    requires
        0 <= pos <= s.len(),
    ensures
        s.insert(pos, a).to_multiset() == s.to_multiset().insert(a),
{
    broadcast use vstd::seq_lib::group_to_multiset_ensures;
    broadcast use vstd::multiset::group_multiset_axioms;

    let t = s.insert(pos, a);
    assert(t.remove(pos) =~= s);
    assert(t[pos] == a);
    assert(s.to_multiset() == t.to_multiset().remove(a));
    assert(t.contains(a)) by {
        assert(t[pos] == a);
    }
    assert(t.to_multiset().count(a) > 0);
    assert(t.to_multiset() =~= s.to_multiset().insert(a));
}

} // verus!
