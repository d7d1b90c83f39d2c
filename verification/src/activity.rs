//! Activities: finished (closed) intervals and ongoing (open) ones, and the
//! point-containment predicates `intersect` and `overlap`.

use vstd::prelude::*;

use crate::datetimew::DateTimeW;
use crate::durationw::DurationW;
use crate::errors::RtwError;
use crate::text::{join_space, spec_join};
use crate::{Description, Tags};

verus! {

/// Copies a list of strings.
pub fn clone_strings(v: &Vec<String>) -> (r: Vec<String>)
    ensures
        r@ == v@,
{
    let mut r: Vec<String> = Vec::new();
    let mut i: usize = 0;
    while i < v.len()
        invariant
            i <= v@.len(),
            r@ == v@.take(i as int),
        decreases v@.len() - i,
    {
        r.push(v[i].clone());
        i = i + 1;
        proof {
            assert(r@ =~= v@.take(i as int));
        }
    }
    proof {
        assert(v@.take(v@.len() as int) == v@);
    }
    r
}

/// The mathematical value of a finished activity.
#[verifier::ext_equal]
pub ghost struct ActivityView {
    pub start_time: DateTimeW,
    pub stop_time: DateTimeW,
    pub tags: Seq<Seq<char>>,
    pub description: Option<Seq<char>>,
}

impl ActivityView {
    /// Both bounds are real instants and the interval is not reversed.
    pub open spec fn is_valid(self) -> bool {
        &&& self.start_time.is_valid()
        &&& self.stop_time.is_valid()
        &&& self.start_time.timestamp() <= self.stop_time.timestamp()
    }

    /// The title: tags joined by a single space.
    pub open spec fn title(self) -> Seq<char> {
        spec_join(self.tags, seq![' '])
    }

    /// The span in seconds, stop minus start.
    pub open spec fn duration_secs(self) -> int {
        self.stop_time.timestamp() - self.start_time.timestamp()
    }
}

/// The mathematical value of an ongoing activity.
#[verifier::ext_equal]
pub ghost struct OngoingView {
    pub start_time: DateTimeW,
    pub tags: Seq<Seq<char>>,
    pub description: Option<Seq<char>>,
}

impl OngoingView {
    /// The start time is a real instant.
    pub open spec fn is_valid(self) -> bool {
        self.start_time.is_valid()
    }

    /// The title: tags joined by a single space.
    pub open spec fn title(self) -> Seq<char> {
        spec_join(self.tags, seq![' '])
    }

    /// The finished activity this one becomes when stopped at `stop_time`.
    pub open spec fn closed_at(self, stop_time: DateTimeW) -> ActivityView {
        ActivityView {
            start_time: self.start_time,
            stop_time,
            tags: self.tags,
            description: self.description,
        }
    }
}

/// The view of an optional description.
pub open spec fn description_view(d: Option<Description>) -> Option<Seq<char>> {
    match d {
        None => None,
        Some(s) => Some(s@),
    }
}

/// The views of a list of tags.
pub open spec fn tags_view(tags: Seq<String>) -> Seq<Seq<char>> {
    tags.map_values(|t: String| t@)
}

/// A finished activity: a closed interval with tags and optional description.
#[derive(Debug)]
pub struct Activity {
    /// Activity start time.
    pub start_time: DateTimeW,
    /// Activity stop time, at or after the start time.
    pub stop_time: DateTimeW,
    /// Activity tags, insertion order kept.
    pub tags: Tags,
    /// Optional long description.
    pub description: Option<Description>,
}

impl View for Activity {
    type V = ActivityView;

    open spec fn view(&self) -> ActivityView {
        ActivityView {
            start_time: self.start_time,
            stop_time: self.stop_time,
            tags: tags_view(self.tags@),
            description: description_view(self.description),
        }
    }
}

impl Activity {
    /// Both bounds are real instants and the interval is not reversed.
    pub open spec fn is_valid(self) -> bool {
        self@.is_valid()
    }

    /// Decides whether the interval is well-formed.
    pub fn check_valid(&self) -> (r: bool)
        ensures
            r == self.is_valid(),
    {
        self.start_time.check_valid() && self.stop_time.check_valid() && self.start_time.le(
            &self.stop_time,
        )
    }

    /// Start time getter.
    pub fn get_start_time(&self) -> (r: DateTimeW)
        ensures
            r == self.start_time,
    {
        self.start_time
    }

    /// Stop time getter.
    pub fn get_stop_time(&self) -> (r: DateTimeW)
        ensures
            r == self.stop_time,
    {
        self.stop_time
    }

    /// The activity's span, stop minus start.
    pub fn get_duration(&self) -> (r: DurationW)
        requires
            self.start_time.is_valid(),
            self.stop_time.is_valid(),
        ensures
            r.secs == self@.duration_secs(),
    {
        self.stop_time.diff(&self.start_time)
    }

    /// The activity title: its tags joined by a space.
    pub fn get_title(&self) -> (r: String)
        ensures
            r@ == self@.title(),
    {
        join_space(&self.tags)
    }

    /// Tags getter.
    pub fn get_tags(&self) -> (r: Tags)
        ensures
            r@ == self.tags@,
    {
        clone_strings(&self.tags)
    }

    /// Description getter.
    pub fn get_description(&self) -> (r: Option<Description>)
        ensures
            r == self.description,
    {
        match &self.description {
            None => None,
            Some(d) => Some(d.clone()),
        }
    }
}

impl Clone for Activity {
    /// A copy denoting the same activity.
    fn clone(&self) -> (r: Self)
        ensures
            r@ == self@,
    {
        let r = Activity {
            start_time: self.start_time,
            stop_time: self.stop_time,
            tags: self.get_tags(),
            description: self.get_description(),
        };
        proof {
            assert(r@ =~= self@);
        }
        r
    }
}

/// A started and unfinished activity: an open interval with no stop time yet.
#[derive(Debug)]
pub struct OngoingActivity {
    /// Start time.
    pub start_time: DateTimeW,
    /// Activity tags, insertion order kept.
    pub tags: Tags,
    /// Optional long description.
    pub description: Option<Description>,
}

impl View for OngoingActivity {
    type V = OngoingView;

    open spec fn view(&self) -> OngoingView {
        OngoingView {
            start_time: self.start_time,
            tags: tags_view(self.tags@),
            description: description_view(self.description),
        }
    }
}

impl OngoingActivity {
    /// The start time is a real instant.
    pub open spec fn is_valid(self) -> bool {
        self@.is_valid()
    }

    /// Decides whether the start time is well-formed.
    pub fn check_valid(&self) -> (r: bool)
        ensures
            r == self.is_valid(),
    {
        self.start_time.check_valid()
    }

    /// Constructor.
    pub fn new(start_time: DateTimeW, tags: Tags, description: Option<Description>) -> (r: Self)
        ensures
            r@ == (OngoingView {
                start_time,
                tags: tags_view(tags@),
                description: description_view(description),
            }),
            r.start_time == start_time,
    {
        OngoingActivity { start_time, tags, description }
    }

    /// Start time getter.
    pub fn get_start_time(&self) -> (r: DateTimeW)
        ensures
            r == self.start_time,
    {
        self.start_time
    }

    /// The title: tags joined by a space.
    pub fn get_title(&self) -> (r: String)
        ensures
            r@ == self@.title(),
    {
        join_space(&self.tags)
    }

    /// Closes this activity at `stop_time`.
    ///
    /// Succeeds for every `stop_time` at or after the start time; fails with
    /// `InvalidInterval` exactly when `stop_time` precedes the start time.
    pub fn into_activity(self, stop_time: DateTimeW) -> (r: Result<Activity, RtwError>)
        requires
            self.is_valid(),
            stop_time.is_valid(),
        ensures
            self.start_time.timestamp() <= stop_time.timestamp() ==> (r matches Ok(a) && a@
                == self@.closed_at(stop_time)),
            stop_time.timestamp() < self.start_time.timestamp() ==> (r matches Err(e) && e
                == RtwError::InvalidInterval(stop_time, self.start_time)),
            r matches Ok(a) ==> a@.is_valid() && a@ == self@.closed_at(stop_time),
    {
        if self.start_time.le(&stop_time) {
            let a = Activity {
                start_time: self.start_time,
                stop_time,
                tags: self.tags,
                description: self.description,
            };
            proof {
                assert(a@ =~= self@.closed_at(stop_time));
            }
            Ok(a)
        } else {
            Err(RtwError::InvalidInterval(stop_time, self.start_time))
        }
    }
}

impl Clone for OngoingActivity {
    /// A copy denoting the same ongoing activity.
    fn clone(&self) -> (r: Self)
        ensures
            r@ == self@,
    {
        let r = OngoingActivity {
            start_time: self.start_time,
            tags: clone_strings(&self.tags),
            description: match &self.description {
                None => None,
                Some(d) => Some(d.clone()),
            },
        };
        proof {
            assert(r@ =~= self@);
        }
        r
    }
}

/// The instant lies strictly inside the activity's open interior.
pub open spec fn spec_intersects(a: ActivityView, t: DateTimeW) -> bool {
    a.start_time.timestamp() < t.timestamp() < a.stop_time.timestamp()
}

/// One interval's start point lies strictly inside the other's interior.
///
/// This point-containment reading is symmetric and is settled here once for
/// both comparison directions: two intervals sharing only an endpoint touch
/// but do not overlap, and two intervals with equal start times (identical,
/// or nested with matching start points) do not overlap either.
pub open spec fn spec_overlaps(a: ActivityView, b: ActivityView) -> bool {
    spec_intersects(a, b.start_time) || spec_intersects(b, a.start_time)
}

/// Checks intersection between a finished activity and an instant: `Some`
/// exactly when the instant lies strictly inside the interval (an instant on
/// either boundary does not intersect).
pub fn intersect(finished: &Activity, datetimew: &DateTimeW) -> (r: Option<Activity>)
    requires
        finished.is_valid(),
        datetimew.is_valid(),
    ensures
        (r is Some) == spec_intersects(finished@, *datetimew),
        r matches Some(a) ==> a@ == finished@,
{
    if finished.start_time.lt(datetimew) && datetimew.lt(&finished.stop_time) {
        Some(finished.clone())
    } else {
        None
    }
}

/// An instant on either boundary of an interval never intersects it.
pub proof fn lemma_intersect_boundary(a: ActivityView, t: DateTimeW)
    requires
        t.timestamp() == a.start_time.timestamp() || t.timestamp() == a.stop_time.timestamp(),
    ensures
        !spec_intersects(a, t),
{
}

/// Checks overlap between two finished activities: `Some(first)` exactly when
/// the earlier-starting interval's interior contains the other's start point.
pub fn overlap(finished: &Activity, other: &Activity) -> (r: Option<Activity>)
    requires
        finished.is_valid(),
        other.is_valid(),
    ensures
        (r is Some) == spec_overlaps(finished@, other@),
        r matches Some(a) ==> a@ == finished@,
{
    if finished.start_time.lt(&other.start_time) {
        intersect(finished, &other.start_time)
    } else {
        match intersect(other, &finished.start_time) {
            Some(_) => Some(finished.clone()),
            None => None,
        }
    }
}

/// Overlap is symmetric: `overlap(a, b)` answers `Some` exactly when
/// `overlap(b, a)` does.
pub proof fn lemma_overlap_symmetric(a: ActivityView, b: ActivityView)
    ensures
        spec_overlaps(a, b) == spec_overlaps(b, a),
{
}

} // verus!
