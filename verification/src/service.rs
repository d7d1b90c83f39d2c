//! The activity service: orchestrates storage operations under the
//! overlap-prevention policy. This is the only component that enforces
//! time-ordering invariants across operations.

use vstd::prelude::*;

use crate::activity::{
    intersect, overlap, spec_intersects, spec_overlaps, Activity, ActivityView, OngoingActivity,
    OngoingView,
};
use crate::datetimew::DateTimeW;
use crate::errors::RtwError;
use crate::storage::{
    all_finished_valid, all_ongoing_valid, is_finished_listing, is_ongoing_listing,
    ongoing_starts_sorted, starts_sorted, Storage,
};
use crate::ActivityId;

verus! {

broadcast use vstd::seq_lib::group_to_multiset_ensures, vstd::multiset::group_multiset_axioms;

/// Some finished activity's interior contains the instant.
pub open spec fn any_intersecting(fs: Seq<ActivityView>, t: DateTimeW) -> bool {
    exists|i: int| 0 <= i < fs.len() && spec_intersects(#[trigger] fs[i], t)
}

/// Some finished activity overlaps the candidate.
pub open spec fn any_overlapping(fs: Seq<ActivityView>, a: ActivityView) -> bool {
    exists|i: int| 0 <= i < fs.len() && spec_overlaps(#[trigger] fs[i], a)
}

/// The result is a storage failure.
pub open spec fn storage_err<T>(r: Result<T, RtwError>) -> bool {
    r matches Err(e) && e is Storage
}

/// Deleting the activity with id `k` renumbers the rest: a fresh listing has
/// one entry fewer, and id 0 again denotes the most recently started
/// remaining finished activity.
pub proof fn lemma_delete_renumbers(
    pre: Seq<ActivityView>,
    k: int,
    post: Seq<ActivityView>,
    v: Seq<(ActivityId, Activity)>,
)
    requires
        0 <= k < pre.len(),
        post == pre.remove(pre.len() - 1 - k),
        crate::storage::starts_sorted(post),
        is_finished_listing(v, post),
    ensures
        v.len() == pre.len() - 1,
        v.len() > 0 ==> v[v.len() - 1].0 == 0,
        forall|i: int|
            0 <= i < v.len() ==> (#[trigger] v[i]).1@.start_time.timestamp() <= v[v.len()
                - 1].1@.start_time.timestamp(),
{
    assert forall|i: int|
        0 <= i < v.len() implies (#[trigger] v[i]).1@.start_time.timestamp() <= v[v.len()
        - 1].1@.start_time.timestamp() by {
        assert(v[i].1@ == post[i]);
        assert(v[v.len() - 1].1@ == post[v.len() - 1]);
    }
}

/// Overlap and intersection tests transfer between a listing and its model.
proof fn lemma_listing_transfers(
    v: Seq<(ActivityId, Activity)>,
    model: Seq<ActivityView>,
    a: ActivityView,
    t: DateTimeW,
)
    requires
        is_finished_listing(v, model),
    ensures
        (exists|i: int| 0 <= i < v.len() && spec_overlaps((#[trigger] v[i]).1@, a))
            == any_overlapping(model, a),
        (exists|i: int| 0 <= i < v.len() && spec_intersects((#[trigger] v[i]).1@, t))
            == any_intersecting(model, t),
{
    if exists|i: int| 0 <= i < v.len() && spec_overlaps((#[trigger] v[i]).1@, a) {
        let i = choose|i: int| 0 <= i < v.len() && spec_overlaps((#[trigger] v[i]).1@, a);
        assert(v[i].1@ == model[i]);
        assert(spec_overlaps(model[i], a));
    }
    if any_overlapping(model, a) {
        let i = choose|i: int| 0 <= i < model.len() && spec_overlaps(#[trigger] model[i], a);
        assert(v[i].1@ == model[i]);
        assert(spec_overlaps(v[i].1@, a));
    }
    if exists|i: int| 0 <= i < v.len() && spec_intersects((#[trigger] v[i]).1@, t) {
        let i = choose|i: int| 0 <= i < v.len() && spec_intersects((#[trigger] v[i]).1@, t);
        assert(v[i].1@ == model[i]);
        assert(spec_intersects(model[i], t));
    }
    if any_intersecting(model, t) {
        let i = choose|i: int| 0 <= i < model.len() && spec_intersects(#[trigger] model[i], t);
        assert(v[i].1@ == model[i]);
        assert(spec_intersects(v[i].1@, t));
    }
}

/// The listing id was either kept in the filtered result or rejected by a
/// call of the predicate on its entry.
pub open spec fn kept_or_rejected<P: Fn(&(ActivityId, Activity)) -> bool>(
    v: Seq<(ActivityId, Activity)>,
    p: P,
    id: int,
    entry: ActivityView,
) -> bool {
    (exists|k: int| 0 <= k < v.len() && (#[trigger] v[k]).0 == id) || (exists|
        q: (ActivityId, Activity),
    |
        q.0 == id && q.1@ == entry && call_ensures(p, (&q,), false))
}

/// The finished activities of a listing whose interiors contain `start_time`,
/// in listing order.
pub fn time_intersections(activities: &Vec<(ActivityId, Activity)>, start_time: &DateTimeW) -> (r:
    Vec<Activity>)
    requires
        start_time.is_valid(),
        forall|i: int| 0 <= i < activities@.len() ==> (#[trigger] activities@[i]).1.is_valid(),
    ensures
        (r@.len() > 0) == (exists|i: int|
            0 <= i < activities@.len() && spec_intersects(
                (#[trigger] activities@[i]).1@,
                *start_time,
            )),
        forall|k: int| 0 <= k < r@.len() ==> spec_intersects((#[trigger] r@[k])@, *start_time),
{
    let mut r: Vec<Activity> = Vec::new();
    let mut i: usize = 0;
    let n = activities.len();
    while i < n
        invariant
            start_time.is_valid(),
            n == activities@.len(),
            i <= n,
            forall|j: int| 0 <= j < n ==> (#[trigger] activities@[j]).1.is_valid(),
            (r@.len() > 0) == (exists|j: int|
                0 <= j < i && spec_intersects((#[trigger] activities@[j]).1@, *start_time)),
            forall|k: int| 0 <= k < r@.len() ==> spec_intersects((#[trigger] r@[k])@, *start_time),
        decreases n - i,
    {
        match intersect(&activities[i].1, start_time) {
            Some(a) => {
                r.push(a);
            },
            None => {},
        }
        i = i + 1;
    }
    r
}

/// The finished activities of a listing that overlap `activity`, in listing
/// order.
pub fn activity_intersections(activities: &Vec<(ActivityId, Activity)>, activity: &Activity) -> (r:
    Vec<Activity>)
    requires
        activity.is_valid(),
        forall|i: int| 0 <= i < activities@.len() ==> (#[trigger] activities@[i]).1.is_valid(),
    ensures
        (r@.len() > 0) == (exists|i: int|
            0 <= i < activities@.len() && spec_overlaps((#[trigger] activities@[i]).1@, activity@)),
        forall|k: int| 0 <= k < r@.len() ==> spec_overlaps((#[trigger] r@[k])@, activity@),
{
    let mut r: Vec<Activity> = Vec::new();
    let mut i: usize = 0;
    let n = activities.len();
    while i < n
        invariant
            activity.is_valid(),
            n == activities@.len(),
            i <= n,
            forall|j: int| 0 <= j < n ==> (#[trigger] activities@[j]).1.is_valid(),
            (r@.len() > 0) == (exists|j: int|
                0 <= j < i && spec_overlaps((#[trigger] activities@[j]).1@, activity@)),
            forall|k: int| 0 <= k < r@.len() ==> spec_overlaps((#[trigger] r@[k])@, activity@),
        decreases n - i,
    {
        match overlap(&activities[i].1, activity) {
            Some(a) => {
                r.push(a);
            },
            None => {},
        }
        i = i + 1;
    }
    r
}

/// The logic above an activity storage backend.
pub struct Service<S: Storage> {
    storage: S,
}

impl<S: Storage> Service<S> {
    /// The backend's finished activities, sorted ascending by start time.
    pub closed spec fn finished(&self) -> Seq<ActivityView> {
        self.storage.finished()
    }

    /// The backend's ongoing activities, sorted ascending by start time.
    pub closed spec fn ongoing(&self) -> Seq<OngoingView> {
        self.storage.ongoing()
    }

    /// The backend's invariant.
    pub closed spec fn inv(&self) -> bool {
        self.storage.inv()
    }

    /// The service's state is sorted and valid: the finished and ongoing
    /// sequences are ascending by start time and every stored activity is
    /// valid, so in any listing id 0 denotes the most recently started
    /// finished activity.
    pub proof fn listing_wf(&self)
        requires
            self.inv(),
        ensures
            starts_sorted(self.finished()),
            all_finished_valid(self.finished()),
            ongoing_starts_sorted(self.ongoing()),
            all_ongoing_valid(self.ongoing()),
    {
        self.storage.inv_implies_wf();
    }

    /// Wraps a backend.
    pub fn new(storage: S) -> (r: Self)
        ensures
            storage.inv() ==> r.inv(),
            r.finished() == storage.finished(),
            r.ongoing() == storage.ongoing(),
    {
        Service { storage }
    }

    /// All ongoing activities with their ids (0, 1, ... by start time).
    pub fn get_ongoing_activities(&self) -> (r: Result<
        Vec<(ActivityId, OngoingActivity)>,
        RtwError,
    >)
        requires
            self.inv(),
        ensures
            r matches Ok(v) ==> is_ongoing_listing(v@, self.ongoing()),
            r is Err ==> storage_err(r),
    {
        match self.storage.get_ongoing_activities() {
            Ok(v) => Ok(v),
            Err(e) => Err(RtwError::Storage(e)),
        }
    }

    /// The ongoing activity with id `id`, if any.
    pub fn get_ongoing_activity(&self, id: ActivityId) -> (r: Result<
        Option<OngoingActivity>,
        RtwError,
    >)
        requires
            self.inv(),
        ensures
            r matches Ok(Some(o)) ==> id < self.ongoing().len() && o@ == self.ongoing()[id as int],
            r matches Ok(None) ==> id >= self.ongoing().len(),
            r is Err ==> storage_err(r),
    {
        match self.storage.get_ongoing_activity(id) {
            Ok(v) => Ok(v),
            Err(e) => Err(RtwError::Storage(e)),
        }
    }

    /// All finished activities, sorted ascending by start time, with ids
    /// counting down to 0 (id 0 = most recently started).
    pub fn get_finished_activities(&self) -> (r: Result<
        Vec<(ActivityId, Activity)>,
        RtwError,
    >)
        requires
            self.inv(),
        ensures
            r matches Ok(v) ==> is_finished_listing(v@, self.finished()),
            r is Err ==> storage_err(r),
    {
        match self.storage.get_finished_activities() {
            Ok(v) => Ok(v),
            Err(e) => Err(RtwError::Storage(e)),
        }
    }

    /// Filters the finished-activity listing with `p`: the result is the
    /// subsequence of listing entries (ids strictly decreasing) on which `p`
    /// answered true; every skipped listing id was rejected by some call of
    /// `p` on its entry.
    pub fn filter_activities<P: Fn(&(ActivityId, Activity)) -> bool>(&self, p: P) -> (r: Result<
        Vec<(ActivityId, Activity)>,
        RtwError,
    >)
        requires
            self.inv(),
            forall|x: (ActivityId, Activity)| #[trigger] call_requires(p, (&x,)),
        ensures
            r matches Ok(v) ==> {
                &&& forall|k: int|
                    0 <= k < v@.len() ==> (#[trigger] v@[k]).0 < self.finished().len() && v@[k].1@
                        == self.finished()[self.finished().len() - 1 - v@[k].0]
                &&& forall|k1: int, k2: int|
                    0 <= k1 < k2 < v@.len() ==> (#[trigger] v@[k1]).0 > (#[trigger] v@[k2]).0
                &&& forall|k: int|
                    0 <= k < v@.len() ==> call_ensures(p, (&(#[trigger] v@[k]),), true)
                &&& forall|id: int|
                    0 <= id < self.finished().len() ==> #[trigger] kept_or_rejected(
                        v@,
                        p,
                        id,
                        self.finished()[self.finished().len() - 1 - id],
                    )
            },
            r is Err ==> storage_err(r),
    {
        let listing = match self.storage.get_finished_activities() {
            Ok(v) => v,
            Err(e) => {
                return Err(RtwError::Storage(e));
            },
        };
        let ghost model = self.storage.finished();
        let ghost orig = listing@;
        let n = listing.len();
        let mut rest = listing;
        let mut v: Vec<(ActivityId, Activity)> = Vec::new();
        let mut i: usize = 0;
        while i < n
            invariant
                n == orig.len(),
                n == model.len(),
                i <= n,
                is_finished_listing(orig, model),
                rest@ == orig.skip(i as int),
                forall|x: (ActivityId, Activity)| #[trigger] call_requires(p, (&x,)),
                forall|k: int|
                    0 <= k < v@.len() ==> (#[trigger] v@[k]).0 < n && v@[k].1@ == model[n - 1
                        - v@[k].0] && v@[k].0 >= n - i,
                forall|k1: int, k2: int|
                    0 <= k1 < k2 < v@.len() ==> (#[trigger] v@[k1]).0 > (#[trigger] v@[k2]).0,
                forall|k: int|
                    0 <= k < v@.len() ==> call_ensures(p, (&(#[trigger] v@[k]),), true),
                forall|id: int|
                    n - i <= id < n ==> #[trigger] kept_or_rejected(v@, p, id, model[n - 1 - id]),
            decreases n - i,
        {
            proof {
                assert(rest@[0] == orig[i as int]);
                assert(orig[i as int].0 == n - 1 - i);
                assert(orig[i as int].1@ == model[i as int]);
            }
            let pair = rest.remove(0);
            let ghost gpair = pair;
            let keep = p(&pair);
            let ghost vpre = v@;
            if keep {
                v.push(pair);
            }
            i = i + 1;
            proof {
                assert(rest@ =~= orig.skip(i as int));
                if keep {
                    assert(v@[v@.len() - 1] == gpair);
                    assert(forall|k: int| 0 <= k < vpre.len() ==> v@[k] == vpre[k]);
                } else {
                    assert(call_ensures(p, (&gpair,), false));
                    assert(v@ == vpre);
                }
                let id0: int = n - i;
                assert(gpair.0 == id0);
                assert(gpair.1@ == model[n - 1 - id0]);
                assert forall|id: int|
                    n - i <= id < n implies #[trigger] kept_or_rejected(
                    v@,
                    p,
                    id,
                    model[n - 1 - id],
                ) by {
                    if id == id0 {
                        if keep {
                            assert(v@[v@.len() - 1].0 == id);
                        }
                    } else {
                        assert(kept_or_rejected(vpre, p, id, model[n - 1 - id]));
                        if exists|k: int| 0 <= k < vpre.len() && (#[trigger] vpre[k]).0 == id {
                            let k = choose|k: int|
                                0 <= k < vpre.len() && (#[trigger] vpre[k]).0 == id;
                            assert(v@[k].0 == id);
                        }
                    }
                };
            }
        }
        Ok(v)
    }

    /// Deletes the finished activity with id `id`; `Ok(None)` (not an error)
    /// when no activity carries that id. Afterwards the remaining activities
    /// are renumbered: a fresh listing has one entry fewer and id 0 again
    /// denotes the most recently started remaining activity.
    pub fn delete_activity(&mut self, id: ActivityId) -> (r: Result<Option<Activity>, RtwError>)
        requires
            old(self).inv(),
        ensures
            final(self).inv(),
            final(self).ongoing() == old(self).ongoing(),
            r matches Ok(Some(a)) ==> {
                &&& id < old(self).finished().len()
                &&& a@ == old(self).finished()[old(self).finished().len() - 1 - id]
                &&& final(self).finished() == old(self).finished().remove(
                    old(self).finished().len() - 1 - id,
                )
            },
            r matches Ok(None) ==> id >= old(self).finished().len() && final(self).finished()
                == old(self).finished(),
            r is Err ==> storage_err(r) && final(self).finished() == old(self).finished(),
    {
        match self.storage.delete_activity(id) {
            Ok(v) => Ok(v),
            Err(e) => Err(RtwError::Storage(e)),
        }
    }

    /// Cancels (discards, without persisting) the ongoing activity with id
    /// `id`; `Ok(None)` (not an error) when no ongoing activity carries it.
    pub fn cancel_ongoing_activity(&mut self, id: ActivityId) -> (r: Result<
        Option<OngoingActivity>,
        RtwError,
    >)
        requires
            old(self).inv(),
        ensures
            final(self).inv(),
            final(self).finished() == old(self).finished(),
            r matches Ok(Some(o)) ==> {
                &&& id < old(self).ongoing().len()
                &&& o@ == old(self).ongoing()[id as int]
                &&& final(self).ongoing() == old(self).ongoing().remove(id as int)
            },
            r matches Ok(None) ==> id >= old(self).ongoing().len() && final(self).ongoing() == old(self).ongoing(),
            r is Err ==> storage_err(r),
    {
        match self.storage.remove_ongoing_activity(id) {
            Ok(v) => Ok(v),
            Err(e) => Err(RtwError::Storage(e)),
        }
    }

    /// Records an already-closed interval.
    ///
    /// With `deny_overlapping` set, fails with `Overlap` exactly when some
    /// finished activity overlaps `activity` (point-containment test);
    /// otherwise the activity is appended to the finished collection. Only a
    /// backend failure may prevent success.
    pub fn track_activity(&mut self, activity: Activity, deny_overlapping: bool) -> (r: Result<
        Activity,
        RtwError,
    >)
        requires
            old(self).inv(),
            activity.is_valid(),
        ensures
            final(self).inv(),
            final(self).ongoing() == old(self).ongoing(),
            r matches Ok(a) ==> {
                &&& a@ == activity@
                &&& final(self).finished().to_multiset() == old(self).finished().to_multiset().insert(activity@)
                &&& (deny_overlapping ==> !any_overlapping(old(self).finished(), activity@))
            },
            deny_overlapping && any_overlapping(old(self).finished(), activity@) ==> (r matches
                Err(e) && e is Overlap) || storage_err(r),
            (!deny_overlapping || !any_overlapping(old(self).finished(), activity@)) ==> (r is Ok
                || storage_err(r)),
            r is Err ==> final(self).finished() == old(self).finished(),
    {
        let finished = match self.storage.get_finished_activities() {
            Ok(v) => v,
            Err(e) => {
                return Err(RtwError::Storage(e));
            },
        };
        proof {
            self.storage.inv_implies_wf();
            assert forall|i: int|
                0 <= i < finished@.len() implies (#[trigger] finished@[i]).1.is_valid() by {
                assert(finished@[i].1@ == self.storage.finished()[i]);
            };
        }
        let intersections = activity_intersections(&finished, &activity);
        if !deny_overlapping || intersections.len() == 0 {
            let ghost pre = self.storage.finished();
            proof {
                lemma_listing_transfers(finished@, pre, activity@, activity.start_time);
            }
            let copy = activity.clone();
            match self.storage.write_activity(activity) {
                Ok(()) => Ok(copy),
                Err(e) => Err(RtwError::Storage(e)),
            }
        } else {
            Err(RtwError::Overlap(intersections))
        }
    }

    /// Stops the ongoing activity with id `id` at `time` and persists it.
    ///
    /// `Ok(None)` (not an error) when no ongoing activity carries `id`. Fails
    /// with `InvalidInterval` when `time` precedes that activity's start, and
    /// (under `deny_overlapping`) with `Overlap` when the closed interval
    /// would overlap a finished activity; otherwise the closed activity is
    /// appended to the finished collection and removed from the ongoing ones.
    pub fn stop_ongoing_activity(&mut self, time: DateTimeW, id: ActivityId, deny_overlapping: bool) -> (r: Result<
        Option<Activity>,
        RtwError,
    >)
        requires
            old(self).inv(),
            time.is_valid(),
        ensures
            final(self).inv(),
            r matches Ok(None) ==> id >= old(self).ongoing().len() && final(self).finished()
                == old(self).finished() && final(self).ongoing() == old(self).ongoing(),
            r matches Ok(Some(a)) ==> {
                &&& id < old(self).ongoing().len()
                &&& a@ == old(self).ongoing()[id as int].closed_at(time)
                &&& old(self).ongoing()[id as int].start_time.timestamp() <= time.timestamp()
                &&& (deny_overlapping ==> !any_overlapping(
                    old(self).finished(),
                    old(self).ongoing()[id as int].closed_at(time),
                ))
                &&& final(self).finished().to_multiset() == old(self).finished().to_multiset().insert(old(self).ongoing()[id as int].closed_at(time))
                &&& final(self).ongoing() == old(self).ongoing().remove(id as int)
            },
            (match r {
                Err(RtwError::InvalidInterval(t, s)) => {
                    &&& id < old(self).ongoing().len()
                    &&& t == time
                    &&& s == old(self).ongoing()[id as int].start_time
                    &&& time.timestamp() < old(self).ongoing()[id as int].start_time.timestamp()
                    &&& final(self).finished() == old(self).finished()
                    &&& final(self).ongoing() == old(self).ongoing()
                },
                _ => true,
            }),
            r matches Err(e) ==> e is InvalidInterval || e is Overlap || e is Storage,
            (match r {
                Err(RtwError::Overlap(_)) => {
                    &&& id < old(self).ongoing().len()
                    &&& deny_overlapping
                    &&& old(self).ongoing()[id as int].start_time.timestamp() <= time.timestamp()
                    &&& any_overlapping(
                        old(self).finished(),
                        old(self).ongoing()[id as int].closed_at(time),
                    )
                    &&& final(self).finished() == old(self).finished()
                    &&& final(self).ongoing() == old(self).ongoing()
                },
                _ => true,
            }),
            id < old(self).ongoing().len() && time.timestamp() >= old(self).ongoing()[
                id as int
            ].start_time.timestamp() && (!deny_overlapping || !any_overlapping(
                old(self).finished(),
                old(self).ongoing()[id as int].closed_at(time),
            )) ==> (r matches Ok(o) && o is Some) || storage_err(r),
    {
        let got = match self.storage.get_ongoing_activity(id) {
            Ok(v) => v,
            Err(e) => {
                return Err(RtwError::Storage(e));
            },
        };
        match got {
            None => Ok(None),
            Some(ongoing_activity) => {
                proof {
                    self.storage.inv_implies_wf();
                    assert(self.storage.ongoing()[id as int].is_valid());
                }
                let stopped = match ongoing_activity.clone().into_activity(time) {
                    Ok(a) => a,
                    Err(e) => {
                        return Err(e);
                    },
                };
                let finished = match self.storage.get_finished_activities() {
                    Ok(v) => v,
                    Err(e) => {
                        return Err(RtwError::Storage(e));
                    },
                };
                proof {
                    self.storage.inv_implies_wf();
                    assert forall|i: int|
                        0 <= i < finished@.len() implies (#[trigger] finished@[i]).1.is_valid() by {
                        assert(finished@[i].1@ == self.storage.finished()[i]);
                    };
                }
                let intersections = activity_intersections(&finished, &stopped);
                if !deny_overlapping || intersections.len() == 0 {
                    let ghost pre_f = self.storage.finished();
                    let ghost pre_o = self.storage.ongoing();
                    proof {
                        lemma_listing_transfers(finished@, pre_f, stopped@, time);
                    }
                    match self.storage.write_activity(stopped) {
                        Ok(()) => {},
                        Err(e) => {
                            return Err(RtwError::Storage(e));
                        },
                    }
                    match self.storage.remove_ongoing_activity(id) {
                        Ok(_) => {},
                        Err(e) => {
                            return Err(RtwError::Storage(e));
                        },
                    }
                    match ongoing_activity.into_activity(time) {
                        Ok(a) => Ok(Some(a)),
                        Err(e) => Err(e),
                    }
                } else {
                    Err(RtwError::Overlap(intersections))
                }
            },
        }
    }

    /// Starts a new activity.
    ///
    /// Without `deny_overlapping` the activity is simply added to the ongoing
    /// ones. With it, fails with `Overlap` when the start instant falls
    /// strictly inside a finished activity; otherwise, with no ongoing
    /// activity the new one is added; with exactly one ongoing activity that
    /// one is implicitly stopped at the new activity's start time (itself
    /// overlap-checked) and returned beside the new one; with several ongoing
    /// activities fails with `AmbiguousState`.
    pub fn start_activity(&mut self, activity: OngoingActivity, deny_overlapping: bool) -> (r:
        Result<(OngoingActivity, Option<Activity>), RtwError>)
        requires
            old(self).inv(),
            activity.is_valid(),
        ensures
            final(self).inv(),
            !deny_overlapping ==> (r matches Ok(p) && p.0@ == activity@ && p.1 is None && final(self).ongoing().to_multiset() == old(self).ongoing().to_multiset().insert(activity@)
                && final(self).finished() == old(self).finished()) || (storage_err(r) && final(self).finished() == old(self).finished() && final(self).ongoing() == old(self).ongoing()),
            r matches Err(e) && e is Overlap ==> deny_overlapping,
            deny_overlapping && any_intersecting(old(self).finished(), activity.start_time) ==> ((r
                matches Err(e) && e is Overlap) || storage_err(r)) && final(self).finished() == old(self).finished() && final(self).ongoing() == old(self).ongoing(),
            deny_overlapping && !any_intersecting(old(self).finished(), activity.start_time) && old(self).ongoing().len() == 0 ==> (r matches Ok(p) && p.0@ == activity@ && p.1 is None
                && final(self).ongoing().to_multiset() == old(self).ongoing().to_multiset().insert(activity@) && final(self).finished() == old(self).finished()) || (storage_err(r) && final(self).finished() == old(self).finished() && final(self).ongoing() == old(self).ongoing()),
            deny_overlapping && !any_intersecting(old(self).finished(), activity.start_time) && old(self).ongoing().len() == 1 && activity.start_time.timestamp() < old(self).ongoing()[
                0
            ].start_time.timestamp() ==> (match r {
                Err(RtwError::InvalidInterval(t, s)) => {
                    &&& t == activity.start_time
                    &&& s == old(self).ongoing()[0].start_time
                    &&& final(self).finished() == old(self).finished()
                    &&& final(self).ongoing() == old(self).ongoing()
                },
                Err(e) => e is Storage,
                _ => false,
            }),
            deny_overlapping && !any_intersecting(old(self).finished(), activity.start_time) && old(self).ongoing().len() == 1 && old(self).ongoing()[0].start_time.timestamp()
                <= activity.start_time.timestamp() && !any_overlapping(
                old(self).finished(),
                old(self).ongoing()[0].closed_at(activity.start_time),
            ) ==> (match r {
                Ok(p) => {
                    &&& p.0@ == activity@
                    &&& (match p.1 {
                        Some(stopped) => stopped@ == old(self).ongoing()[0].closed_at(
                            activity.start_time,
                        ),
                        None => false,
                    })
                    &&& final(self).finished().to_multiset() == old(self).finished().to_multiset().insert(
                        old(self).ongoing()[0].closed_at(activity.start_time),
                    )
                    &&& final(self).ongoing().to_multiset() == old(self).ongoing().to_multiset().remove(old(self).ongoing()[0]).insert(activity@)
                },
                Err(e) => e is Storage,
            }),
            deny_overlapping && !any_intersecting(old(self).finished(), activity.start_time) && old(self).ongoing().len() > 1 ==> ((r matches Err(e) && e is AmbiguousState) || storage_err(r)) && final(self).finished() == old(self).finished() && final(self).ongoing() == old(self).ongoing(),
    {
        let finished = match self.storage.get_finished_activities() {
            Ok(v) => v,
            Err(e) => {
                return Err(RtwError::Storage(e));
            },
        };
        proof {
            self.storage.inv_implies_wf();
            assert forall|i: int|
                0 <= i < finished@.len() implies (#[trigger] finished@[i]).1.is_valid() by {
                assert(finished@[i].1@ == self.storage.finished()[i]);
            };
        }
        if deny_overlapping {
            let start_time = activity.get_start_time();
            let intersections = time_intersections(&finished, &start_time);
            proof {
                lemma_listing_transfers(
                    finished@,
                    self.storage.finished(),
                    activity@.closed_at(start_time),
                    start_time,
                );
            }
            if intersections.len() == 0 {
                let ongoing_activities = match self.storage.get_ongoing_activities() {
                    Ok(v) => v,
                    Err(e) => {
                        return Err(RtwError::Storage(e));
                    },
                };
                if ongoing_activities.len() == 0 {
                    let copy = activity.clone();
                    match self.storage.add_ongoing_activity(activity) {
                        Ok(()) => Ok((copy, None)),
                        Err(e) => Err(RtwError::Storage(e)),
                    }
                } else if ongoing_activities.len() == 1 {
                    let ongoing_id = ongoing_activities[0].0;
                    proof {
                        assert(ongoing_activities@[0].0 == 0);
                    }
                    let stopped_maybe = match self.stop_ongoing_activity(
                        start_time,
                        ongoing_id,
                        true,
                    ) {
                        Ok(v) => v,
                        Err(e) => {
                            return Err(e);
                        },
                    };
                    let copy = activity.clone();
                    match self.storage.add_ongoing_activity(activity) {
                        Ok(()) => Ok((copy, stopped_maybe)),
                        Err(e) => Err(RtwError::Storage(e)),
                    }
                } else {
                    Err(RtwError::AmbiguousState)
                }
            } else {
                Err(RtwError::Overlap(intersections))
            }
        } else {
            let copy = activity.clone();
            match self.storage.add_ongoing_activity(activity) {
                Ok(()) => Ok((copy, None)),
                Err(e) => Err(RtwError::Storage(e)),
            }
        }
    }
}

} // verus!
