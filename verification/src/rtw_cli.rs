//! Query helpers behind the command surface: report aggregation by title,
//! range filtering, and resolution of an optional ongoing-activity id.

use vstd::prelude::*;

use crate::activity::{Activity, ActivityView, OngoingActivity};
use crate::datetimew::DateTimeW;
use crate::durationw::DurationW;
use crate::errors::RtwError;
use crate::service::Service;
use crate::storage::Storage;
use crate::timeline::sum_durations;
use crate::ActivityId;

verus! {

/// The activity views of a listing.
pub open spec fn listing_views(v: Seq<(ActivityId, Activity)>) -> Seq<ActivityView> {
    v.map_values(|p: (ActivityId, Activity)| p.1@)
}

/// The listing's activities carrying exactly the title `t`.
pub open spec fn with_title(v: Seq<(ActivityId, Activity)>, t: Seq<char>) -> Seq<ActivityView> {
    listing_views(v).filter(|a: ActivityView| a.title() == t)
}

/// One step of filtering a growing prefix.
proof fn lemma_filter_take_step<T>(s: Seq<T>, j: int, pred: spec_fn(T) -> bool)
    requires
        0 <= j < s.len(),
    ensures
        s.take(j + 1).filter(pred) == if pred(s[j]) {
            s.take(j).filter(pred).push(s[j])
        } else {
            s.take(j).filter(pred)
        },
{
    assert(s.take(j + 1) =~= s.take(j) + seq![s[j]]);
    broadcast use vstd::seq_lib::group_seq_properties;

    Seq::<T>::filter_distributes_over_add(s.take(j), seq![s[j]], pred);
    reveal_with_fuel(Seq::filter, 2);
    assert(seq![s[j]].drop_last() =~= Seq::<T>::empty());
    if pred(s[j]) {
        assert(seq![s[j]].filter(pred) =~= seq![s[j]]);
        assert(s.take(j).filter(pred) + seq![s[j]] =~= s.take(j).filter(pred).push(s[j]));
    } else {
        assert(seq![s[j]].filter(pred) =~= Seq::<T>::empty());
        assert(s.take(j).filter(pred) + Seq::<T>::empty() =~= s.take(j).filter(pred));
    }
}

/// The least index at or after `i` whose entry carries title `t` (the
/// listing's length when none does).
pub open spec fn first_with_title_from(
    acts: Seq<(ActivityId, Activity)>,
    t: Seq<char>,
    i: int,
) -> int
    decreases acts.len() - i,
    when i >= 0
{
    if i >= acts.len() {
        acts.len() as int
    } else if acts[i].1@.title() == t {
        i
    } else {
        first_with_title_from(acts, t, i + 1)
    }
}

/// The least index whose entry carries title `t`.
pub open spec fn first_with_title(acts: Seq<(ActivityId, Activity)>, t: Seq<char>) -> int {
    first_with_title_from(acts, t, 0)
}

/// What the least matching index satisfies.
proof fn lemma_first_with_title_from(acts: Seq<(ActivityId, Activity)>, t: Seq<char>, i: int)
    requires
        0 <= i <= acts.len(),
    ensures
        i <= first_with_title_from(acts, t, i) <= acts.len(),
        first_with_title_from(acts, t, i) < acts.len() ==> acts[first_with_title_from(
            acts,
            t,
            i,
        )].1@.title() == t,
        forall|x: int|
            i <= x < first_with_title_from(acts, t, i) ==> (#[trigger] acts[x]).1@.title() != t,
    decreases acts.len() - i,
{
    if i < acts.len() && acts[i].1@.title() != t {
        lemma_first_with_title_from(acts, t, i + 1);
    }
}

/// Some aggregated row carries exactly the title `t`.
pub open spec fn title_present(
    rs: Seq<(ActivityId, Activity, DurationW, usize)>,
    t: Seq<char>,
) -> bool {
    exists|k: int| 0 <= k < rs.len() && (#[trigger] rs[k]).1@.title() == t
}

/// Aggregates a listing by exact title: one row per distinct title, carrying
/// the first entry with that title, the summed duration and the number of
/// segments (entries) sharing it. Differently ordered tag lists count as
/// distinct titles.
pub fn merge_same_tags(activities: &Vec<(ActivityId, Activity)>) -> (r: Vec<
    (ActivityId, Activity, DurationW, usize),
>)
    requires
        forall|i: int| 0 <= i < activities@.len() ==> (#[trigger] activities@[i]).1.is_valid(),
        forall|i: int|
            0 <= i < activities@.len() ==> (#[trigger] activities@[i]).1@.duration_secs()
                < 0x10_0000_0000,
        activities@.len() < 1000000,
    ensures
        forall|k1: int, k2: int|
            0 <= k1 < k2 < r@.len() ==> (#[trigger] r@[k1]).1@.title() != (
            #[trigger] r@[k2]).1@.title(),
        forall|i: int|
            0 <= i < activities@.len() ==> title_present(r@, (#[trigger] activities@[i]).1@.title()),
        forall|k: int|
            0 <= k < r@.len() ==> {
                &&& 0 <= first_with_title(activities@, (#[trigger] r@[k]).1@.title())
                    < activities@.len()
                &&& r@[k].0 == activities@[first_with_title(activities@, r@[k].1@.title())].0
                &&& r@[k].1@ == activities@[first_with_title(activities@, r@[k].1@.title())].1@
                &&& r@[k].2.secs == sum_durations(with_title(activities@, r@[k].1@.title()))
                &&& r@[k].3 == with_title(activities@, r@[k].1@.title()).len()
            },
        forall|k1: int, k2: int|
            0 <= k1 < k2 < r@.len() ==> first_with_title(activities@, (#[trigger] r@[k1]).1@.title())
                < first_with_title(activities@, (#[trigger] r@[k2]).1@.title()),
{
    let n = activities.len();
    let mut r: Vec<(ActivityId, Activity, DurationW, usize)> = Vec::new();
    let mut seen: Vec<String> = Vec::new();
    let mut i: usize = 0;
    while i < n
        invariant
            n == activities@.len(),
            n < 1000000,
            i <= n,
            forall|x: int| 0 <= x < n ==> (#[trigger] activities@[x]).1.is_valid(),
            forall|x: int|
                0 <= x < n ==> (#[trigger] activities@[x]).1@.duration_secs() < 0x10_0000_0000,
            seen@.len() == r@.len(),
            forall|k: int| 0 <= k < r@.len() ==> (#[trigger] seen@[k])@ == r@[k].1@.title(),
            forall|k1: int, k2: int|
                0 <= k1 < k2 < r@.len() ==> (#[trigger] r@[k1]).1@.title() != (
                #[trigger] r@[k2]).1@.title(),
            forall|x: int|
                0 <= x < i ==> title_present(r@, (#[trigger] activities@[x]).1@.title()),
            forall|k: int|
                0 <= k < r@.len() ==> {
                    &&& 0 <= first_with_title(activities@, (#[trigger] r@[k]).1@.title()) < i
                    &&& r@[k].0 == activities@[first_with_title(activities@, r@[k].1@.title())].0
                    &&& r@[k].1@ == activities@[first_with_title(activities@, r@[k].1@.title())].1@
                    &&& r@[k].2.secs == sum_durations(with_title(activities@, r@[k].1@.title()))
                    &&& r@[k].3 == with_title(activities@, r@[k].1@.title()).len()
                },
            forall|k1: int, k2: int|
                0 <= k1 < k2 < r@.len() ==> first_with_title(
                    activities@,
                    (#[trigger] r@[k1]).1@.title(),
                ) < first_with_title(activities@, (#[trigger] r@[k2]).1@.title()),
        decreases n - i,
    {
        let t = activities[i].1.get_title();
        let mut already: bool = false;
        let mut k: usize = 0;
        while k < seen.len()
            invariant
                seen@.len() == r@.len(),
                k <= seen@.len(),
                forall|k2: int| 0 <= k2 < r@.len() ==> (#[trigger] seen@[k2])@ == r@[k2].1@.title(),
                t@ == activities@[i as int].1@.title(),
                i < n,
                n == activities@.len(),
                already == (exists|k2: int|
                    0 <= k2 < k && (#[trigger] seen@[k2])@ == t@),
            decreases seen@.len() - k,
        {
            if seen[k].eq(&t) {
                already = true;
            }
            k = k + 1;
        }
        let ghost rpre = r@;
        let ghost seenpre = seen@;
        if !already {
            let ghost avs = listing_views(activities@);
            let ghost pred = |a: ActivityView| a.title() == t@;
            let mut total: u64 = 0;
            let mut segments: usize = 0;
            let mut j: usize = 0;
            proof {
                assert(avs.take(0) =~= Seq::<ActivityView>::empty());
                assert(avs.take(0).filter(pred) =~= Seq::<ActivityView>::empty());
            }
            while j < n
                invariant
                    n == activities@.len(),
                    n < 1000000,
                    j <= n,
                    avs == listing_views(activities@),
                    pred == (|a: ActivityView| a.title() == t@),
                    forall|x: int| 0 <= x < n ==> (#[trigger] activities@[x]).1.is_valid(),
                    forall|x: int|
                        0 <= x < n ==> (#[trigger] activities@[x]).1@.duration_secs()
                            < 0x10_0000_0000,
                    segments == avs.take(j as int).filter(pred).len(),
                    total == sum_durations(avs.take(j as int).filter(pred)),
                    total <= j * 0x10_0000_0000,
                    segments <= j,
                decreases n - j,
            {
                let tj = activities[j].1.get_title();
                proof {
                    lemma_filter_take_step(avs, j as int, pred);
                    assert(avs[j as int] == activities@[j as int].1@);
                }
                if tj.eq(&t) {
                    let d = activities[j].1.get_duration();
                    proof {
                        crate::timeline::lemma_sum_durations_push(
                            avs.take(j as int).filter(pred),
                            avs[j as int],
                        );
                    }
                    total = total + (d.secs as u64);
                    segments = segments + 1;
                }
                j = j + 1;
            }
            proof {
                assert(avs.take(n as int) =~= avs);
            }
            proof {
                assert forall|x: int|
                    0 <= x < i implies (#[trigger] activities@[x]).1@.title() != t@ by {
                    if activities@[x].1@.title() == t@ {
                        assert(title_present(rpre, activities@[x].1@.title()));
                        let k3 = choose|k3: int|
                            0 <= k3 < rpre.len() && (#[trigger] rpre[k3]).1@.title()
                                == activities@[x].1@.title();
                        assert(seenpre[k3]@ == t@);
                        assert(false);
                    }
                };
                lemma_first_with_title_from(activities@, t@, 0);
                assert(activities@[i as int].1@.title() == t@);
                assert(first_with_title(activities@, t@) == i as int) by {
                    let f = first_with_title(activities@, t@);
                    if f < i {
                        assert(activities@[f].1@.title() != t@);
                    }
                    if f > i {
                        assert(activities@[i as int].1@.title() != t@);
                    }
                };
            }
            let entry = (activities[i].0, activities[i].1.clone());
            r.push((entry.0, entry.1, DurationW::new(total as i64), segments));
            seen.push(t);
            proof {
                assert(r@[r@.len() - 1].1@ == activities@[i as int].1@);
                assert(r@[r@.len() - 1].1@.title() == t@);
                assert(r@[r@.len() - 1].0 == activities@[i as int].0);
                assert(forall|k2: int| 0 <= k2 < r@.len() - 1 ==> r@[k2] == rpre[k2]);
                assert forall|k2: int|
                    0 <= k2 < r@.len() - 1 implies (#[trigger] r@[k2]).1@.title() != t@ by {
                    assert(seenpre[k2]@ == rpre[k2].1@.title());
                };
                assert(forall|k2: int| 0 <= k2 < r@.len() - 1 ==> (#[trigger] seen@[k2])@ == r@[
                    k2
                ].1@.title());
                assert forall|x: int|
                    0 <= x < i + 1 implies title_present(
                    r@,
                    (#[trigger] activities@[x]).1@.title(),
                ) by {
                    if x == i {
                        assert(r@[r@.len() - 1].1@.title() == activities@[x].1@.title());
                    } else {
                        assert(title_present(rpre, activities@[x].1@.title()));
                        let k2 = choose|k2: int|
                            0 <= k2 < rpre.len() && (#[trigger] rpre[k2]).1@.title()
                                == activities@[x].1@.title();
                        assert(r@[k2].1@.title() == activities@[x].1@.title());
                    }
                };
            }
        } else {
            proof {
                let k2 = choose|k2: int| 0 <= k2 < seen@.len() && (#[trigger] seen@[k2])@ == t@;
                assert(r@[k2].1@.title() == t@);
                assert forall|x: int|
                    0 <= x < i + 1 implies title_present(
                    r@,
                    (#[trigger] activities@[x]).1@.title(),
                ) by {
                    if x == i {
                        assert(r@[k2].1@.title() == activities@[x].1@.title());
                    }
                };
            }
        }
        i = i + 1;
    }
    r
}

/// The listing entries whose start time falls inside the inclusive range.
pub fn filter_in_range(
    activities: &Vec<(ActivityId, Activity)>,
    range_start: &DateTimeW,
    range_end: &DateTimeW,
) -> (r: Vec<(ActivityId, Activity)>)
    requires
        range_start.is_valid(),
        range_end.is_valid(),
        forall|i: int| 0 <= i < activities@.len() ==> (#[trigger] activities@[i]).1.is_valid(),
    ensures
        r@.len() <= activities@.len(),
        forall|k: int|
            0 <= k < r@.len() ==> {
                &&& range_start.timestamp() <= (#[trigger] r@[k]).1@.start_time.timestamp()
                    <= range_end.timestamp()
                &&& exists|i: int|
                    0 <= i < activities@.len() && (#[trigger] activities@[i]).0 == r@[k].0
                        && activities@[i].1@ == r@[k].1@
            },
        forall|i: int|
            0 <= i < activities@.len() && range_start.timestamp() <= (
            #[trigger] activities@[i]).1@.start_time.timestamp() <= range_end.timestamp() ==> (
            exists|k: int|
                0 <= k < r@.len() && (#[trigger] r@[k]).0 == activities@[i].0 && r@[k].1@
                    == activities@[i].1@),
{
    let n = activities.len();
    let mut r: Vec<(ActivityId, Activity)> = Vec::new();
    let mut i: usize = 0;
    while i < n
        invariant
            n == activities@.len(),
            i <= n,
            range_start.is_valid(),
            range_end.is_valid(),
            forall|x: int| 0 <= x < n ==> (#[trigger] activities@[x]).1.is_valid(),
            r@.len() <= i,
            forall|k: int|
                0 <= k < r@.len() ==> {
                    &&& range_start.timestamp() <= (#[trigger] r@[k]).1@.start_time.timestamp()
                        <= range_end.timestamp()
                    &&& exists|x: int|
                        0 <= x < n && (#[trigger] activities@[x]).0 == r@[k].0 && activities@[
                            x
                        ].1@ == r@[k].1@
                },
            forall|x: int|
                0 <= x < i && range_start.timestamp() <= (
                #[trigger] activities@[x]).1@.start_time.timestamp() <= range_end.timestamp()
                    ==> (exists|k: int|
                    0 <= k < r@.len() && (#[trigger] r@[k]).0 == activities@[x].0 && r@[k].1@
                        == activities@[x].1@),
        decreases n - i,
    {
        let ghost rpre = r@;
        let a = &activities[i];
        let s = a.1.get_start_time();
        let in_range = range_start.le(&s) && s.le(range_end);
        if in_range {
            r.push((a.0, a.1.clone()));
        }
        i = i + 1;
        proof {
            if in_range {
                assert(r@[r@.len() - 1].1@ == activities@[i - 1].1@);
                assert(r@[r@.len() - 1].0 == activities@[i - 1].0);
            }
            assert forall|x: int|
                0 <= x < i && range_start.timestamp() <= (
                #[trigger] activities@[x]).1@.start_time.timestamp() <= range_end.timestamp()
                implies (exists|k: int|
                0 <= k < r@.len() && (#[trigger] r@[k]).0 == activities@[x].0 && r@[k].1@
                    == activities@[x].1@) by {
                if x == i - 1 {
                    assert(r@[r@.len() - 1].0 == activities@[x].0 && r@[r@.len() - 1].1@
                        == activities@[x].1@);
                } else {
                    let k = choose|k: int|
                        0 <= k < rpre.len() && (#[trigger] rpre[k]).0 == activities@[x].0
                            && rpre[k].1@ == activities@[x].1@;
                    assert(r@[k].0 == activities@[x].0 && r@[k].1@ == activities@[x].1@);
                }
            };
        }
    }
    r
}

/// The outcome of resolving an optional ongoing-activity id: the resolved
/// activity (or none to act on), an ambiguity, or an unknown id.
pub enum OptionalOrAmbiguousOrNotFound {
    /// The single target, with its id, or nothing to act on.
    Optional(Option<(ActivityId, OngoingActivity)>),
    /// Several ongoing activities but no id was given.
    Ambiguous,
    /// No ongoing activity carries the given id.
    NotFound(ActivityId),
}

/// Resolves an optional id against the ongoing activities: without an id,
/// answers the single ongoing activity (id 0), nothing, or `Ambiguous` when
/// several are ongoing; with an id, answers the activity carrying it or
/// `NotFound`.
pub fn get_ongoing_activity<S: Storage>(
    id_maybe: Option<ActivityId>,
    service: &Service<S>,
) -> (r: Result<OptionalOrAmbiguousOrNotFound, RtwError>)
    requires
        service.inv(),
    ensures
        (match r {
            Ok(OptionalOrAmbiguousOrNotFound::Optional(None)) => id_maybe is None
                && service.ongoing().len() == 0,
            Ok(OptionalOrAmbiguousOrNotFound::Optional(Some((id, o)))) => {
                &&& id < service.ongoing().len()
                &&& o@ == service.ongoing()[id as int]
                &&& (match id_maybe {
                    None => service.ongoing().len() == 1 && id == 0,
                    Some(given) => id == given,
                })
            },
            Ok(OptionalOrAmbiguousOrNotFound::Ambiguous) => id_maybe is None
                && service.ongoing().len() > 1,
            Ok(OptionalOrAmbiguousOrNotFound::NotFound(id)) => id_maybe == Some(id) && id
                >= service.ongoing().len(),
            Err(e) => e is Storage,
        }),
{
    match id_maybe {
        None => {
            let mut listing = match service.get_ongoing_activities() {
                Ok(v) => v,
                Err(e) => {
                    return Err(e);
                },
            };
            if listing.len() == 0 {
                Ok(OptionalOrAmbiguousOrNotFound::Optional(None))
            } else if listing.len() == 1 {
                let entry = listing.remove(0);
                Ok(OptionalOrAmbiguousOrNotFound::Optional(Some(entry)))
            } else {
                Ok(OptionalOrAmbiguousOrNotFound::Ambiguous)
            }
        },
        Some(id) => {
            match service.get_ongoing_activity(id) {
                Ok(None) => Ok(OptionalOrAmbiguousOrNotFound::NotFound(id)),
                Ok(Some(o)) => Ok(OptionalOrAmbiguousOrNotFound::Optional(Some((id, o)))),
                Err(e) => Err(e),
            }
        },
    }
}

} // verus!
