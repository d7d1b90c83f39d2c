//! The timeline renderer: lays out (id, activity) pairs into day-bucketed,
//! proportionally scaled, colorized text blocks.
//!
//! An activity whose interval crosses midnight is split into one piece per
//! calendar day; pieces meet exactly at midnight, so their durations sum to
//! the original duration. A piece ending exactly at midnight belongs to the
//! day it starts in and reaches relative second 86400 of that day.

use vstd::prelude::*;

use crate::activity::{Activity, ActivityView};
use crate::durationw::DurationW;
use crate::datetimew::{lemma_not_last_day, lemma_timestamp_bounds, SECONDS_PER_DAY};
use crate::ActivityId;

verus! {

/// A color as red, green and blue.
pub type Rgb = (u8, u8, u8);

/// One timeline entry: a finished activity with its listing id.
pub type Interval = (ActivityId, Activity);

/// The terminal width assumed when none can be detected.
pub const DEFAULT_TERMINAL_SIZE: usize = 90;

/// The activity stops no later than the midnight after its start.
pub open spec fn within_day(a: ActivityView) -> bool {
    a.stop_time.timestamp() <= (a.start_time.spec_day_index() + 1) * (SECONDS_PER_DAY as int)
}

/// The stop instant in seconds relative to the midnight of the start's day
/// (86400 for a piece that ends exactly at the following midnight).
pub open spec fn rel_stop(a: ActivityView) -> int {
    a.stop_time.timestamp() - a.start_time.spec_day_index() * (SECONDS_PER_DAY as int)
}

/// The larger of two integers.
pub open spec fn int_max(a: int, b: int) -> int {
    if a >= b {
        a
    } else {
        b
    }
}

/// The smaller of two integers.
pub open spec fn int_min(a: int, b: int) -> int {
    if a <= b {
        a
    } else {
        b
    }
}

/// How many day pieces an activity splits into.
pub open spec fn piece_count(a: ActivityView) -> int {
    let d = a.stop_time.spec_day_index() - a.start_time.spec_day_index();
    if a.stop_time.spec_second_of_day() == 0 {
        if d <= 1 {
            1
        } else {
            d
        }
    } else {
        d + 1
    }
}

/// Splits off the start day's piece when the activity crosses the midnight
/// after its start; pieces meet exactly at that midnight.
pub fn split_interval_if_needed(interval: &Interval) -> (r: (Interval, Option<Interval>))
    requires
        interval.1.is_valid(),
    ensures
        r.0.0 == interval.0,
        r.0.1@.is_valid(),
        within_day(r.0.1@),
        r.0.1@.start_time == interval.1.start_time,
        r.0.1@.tags == interval.1@.tags,
        r.0.1@.description == interval.1@.description,
        (match r.1 {
            None => r.0.1@.stop_time == interval.1.stop_time && within_day(interval.1@),
            Some(rest) => {
                &&& !within_day(interval.1@)
                &&& rest.0 == interval.0
                &&& rest.1@.is_valid()
                &&& rest.1@.tags == interval.1@.tags
                &&& rest.1@.description == interval.1@.description
                &&& rest.1@.start_time == r.0.1@.stop_time
                &&& rest.1@.stop_time == interval.1.stop_time
                &&& rest.1@.start_time.spec_second_of_day() == 0
                &&& rest.1@.start_time.spec_day_index() == interval.1@.start_time.spec_day_index()
                    + 1
                &&& rest.1@.start_time.timestamp() < rest.1@.stop_time.timestamp()
                &&& rest.1@.start_time.timestamp() > interval.1@.start_time.timestamp()
            },
        }),
{
    let activity = &interval.1;
    let start = activity.get_start_time();
    let stop = activity.get_stop_time();
    proof {
        lemma_timestamp_bounds(start);
        lemma_timestamp_bounds(stop);
    }
    let start_day = start.day_index();
    let stop_ts = stop.timestamp_secs();
    if stop_ts <= (start_day + 1) * SECONDS_PER_DAY {
        ((interval.0, activity.clone()), None)
    } else {
        proof {
            lemma_not_last_day(start, stop);
        }
        let midnight = start.next_day_start();
        let first = Activity {
            start_time: start,
            stop_time: midnight,
            tags: activity.get_tags(),
            description: activity.get_description(),
        };
        let rest = Activity {
            start_time: midnight,
            stop_time: stop,
            tags: activity.get_tags(),
            description: activity.get_description(),
        };
        ((interval.0, first), Some((interval.0, rest)))
    }
}

/// Splits an activity into one piece per calendar day: pieces share the
/// activity's id, tags and description, meet exactly at midnights, and the
/// piece of day `start day + k` is the `k`-th.
pub fn split_interval(interval: &Interval) -> (r: Vec<Interval>)
    requires
        interval.1.is_valid(),
    ensures
        r@.len() == piece_count(interval.1@),
        r@.len() >= 1,
        forall|k: int|
            0 <= k < r@.len() ==> {
                &&& (#[trigger] r@[k]).0 == interval.0
                &&& r@[k].1@.is_valid()
                &&& within_day(r@[k].1@)
                &&& r@[k].1@.tags == interval.1@.tags
                &&& r@[k].1@.description == interval.1@.description
                &&& r@[k].1@.start_time.spec_day_index() == interval.1@.start_time.spec_day_index()
                    + k
            },
        r@[0].1@.start_time == interval.1.start_time,
        r@[r@.len() - 1].1@.stop_time == interval.1.stop_time,
        forall|k: int|
            0 <= k < r@.len() - 1 ==> (#[trigger] r@[k]).1@.stop_time == r@[k + 1].1@.start_time,
        forall|k: int|
            1 <= k < r@.len() ==> (#[trigger] r@[k]).1@.start_time.spec_second_of_day() == 0,
        forall|k: int|
            0 <= k < r@.len() ==> (#[trigger] r@[k]).1@.start_time.timestamp() == int_max(
                interval.1@.start_time.timestamp(),
                (interval.1@.start_time.spec_day_index() + k) * (SECONDS_PER_DAY as int),
            ),
        forall|k: int|
            0 <= k < r@.len() ==> (#[trigger] r@[k]).1@.stop_time.timestamp() == int_min(
                interval.1@.stop_time.timestamp(),
                (interval.1@.start_time.spec_day_index() + k + 1) * (SECONDS_PER_DAY as int),
            ),
    decreases interval.1@.stop_time.timestamp() - interval.1@.start_time.timestamp(),
{
    proof {
        lemma_timestamp_bounds(interval.1@.start_time);
        lemma_timestamp_bounds(interval.1@.stop_time);
    }
    let (first, other_maybe) = split_interval_if_needed(interval);
    match other_maybe {
        None => {
            let mut v: Vec<Interval> = Vec::new();
            v.push(first);
            v
        },
        Some(other) => {
            proof {
                lemma_timestamp_bounds(other.1@.start_time);
            }
            let mut v: Vec<Interval> = Vec::new();
            v.push(first);
            let mut rest = split_interval(&other);
            let ghost rest_snapshot = rest@;
            v.append(&mut rest);
            proof {
                assert(v@.len() == 1 + rest_snapshot.len());
                assert(forall|k: int| 1 <= k < v@.len() ==> v@[k] == rest_snapshot[k - 1]);
            }
            v
        },
    }
}

/// The seconds of an activity's pieces sum to the seconds of the activity:
/// a chain of pieces that starts at the activity's start, ends at its stop,
/// and hands each stop to the next start loses nothing.
pub open spec fn sum_durations(s: Seq<ActivityView>) -> int
    decreases s.len(),
{
    if s.len() == 0 {
        0
    } else {
        s[0].duration_secs() + sum_durations(s.drop_first())
    }
}

/// The durations of a midnight-split chain sum to the original duration.
pub proof fn lemma_split_durations(orig: ActivityView, pieces: Seq<ActivityView>)
    requires
        pieces.len() >= 1,
        pieces[0].start_time == orig.start_time,
        pieces[pieces.len() - 1].stop_time == orig.stop_time,
        forall|k: int|
            0 <= k < pieces.len() - 1 ==> (#[trigger] pieces[k]).stop_time == pieces[k
                + 1].start_time,
    ensures
        sum_durations(pieces) == orig.duration_secs(),
    decreases pieces.len(),
{
    assert(sum_durations(pieces) == pieces[0].duration_secs() + sum_durations(
        pieces.drop_first(),
    ));
    if pieces.len() == 1 {
        assert(pieces.drop_first().len() == 0);
        assert(sum_durations(pieces.drop_first()) == 0);
    } else {
        let rest = pieces.drop_first();
        let shorter = ActivityView { start_time: pieces[1].start_time, ..orig };
        assert(pieces[0].stop_time == pieces[1].start_time);
        assert(rest[0] == pieces[1]);
        assert(rest[rest.len() - 1] == pieces[pieces.len() - 1]);
        assert(forall|k: int|
            0 <= k < rest.len() - 1 ==> (#[trigger] rest[k]).stop_time == rest[k + 1].start_time);
        lemma_split_durations(shorter, rest);
    }
}

/// An activity spanning two calendar days (its stop falls on the day after
/// its start, not exactly at midnight) splits into exactly two pieces.
pub proof fn lemma_two_day_split(a: ActivityView)
    requires
        a.stop_time.spec_day_index() == a.start_time.spec_day_index() + 1,
        a.stop_time.spec_second_of_day() > 0,
    ensures
        piece_count(a) == 2,
{
}

/// `n` spaces.
pub open spec fn space_seq(n: int) -> Seq<char> {
    Seq::new(
        if n >= 0 {
            n as nat
        } else {
            0
        },
        |i: int| ' ',
    )
}

/// The `k`-th chunk of `cs` cut into `size`-character pieces: complete
/// chunks first, then the remainder padded with spaces to `size`.
pub open spec fn chunk_of(cs: Seq<char>, size: int, k: int) -> Seq<char> {
    if (k + 1) * size <= cs.len() {
        cs.subrange(k * size, (k + 1) * size)
    } else {
        cs.skip(k * size) + space_seq(size - (cs.len() - k * size))
    }
}

/// Cuts `s` into `size`-character chunks; the remainder (possibly empty) is
/// padded with trailing spaces into one final chunk.
pub fn chunkify(s: &str, size: usize) -> (r: Vec<String>)
    ensures
        size == 0 ==> r@.len() == 0,
        size > 0 ==> {
            &&& r@.len() == s@.len() as int / (size as int) + 1
            &&& forall|k: int|
                0 <= k < r@.len() ==> (#[trigger] r@[k])@ == chunk_of(s@, size as int, k)
            &&& forall|k: int| 0 <= k < r@.len() ==> (#[trigger] r@[k])@.len() == size
        },
{
    if size == 0 {
        return Vec::new();
    }
    let cs = crate::text::chars_vec(s);
    let n = cs.len();
    let mut r: Vec<String> = Vec::new();
    let mut pos: usize = 0;
    proof {
        assert(0int * (size as int) == 0) by (nonlinear_arith);
    }
    while n - pos >= size
        invariant
            size > 0,
            n == cs@.len(),
            cs@ == s@,
            pos == r@.len() * size,
            pos <= n,
            forall|k: int|
                0 <= k < r@.len() ==> (#[trigger] r@[k])@ == chunk_of(s@, size as int, k),
            forall|k: int| 0 <= k < r@.len() ==> (#[trigger] r@[k])@.len() == size,
        decreases n - pos,
    {
        let mut chunk = String::new();
        let mut j: usize = 0;
        while j < size
            invariant
                j <= size,
                pos + size <= n,
                n == cs@.len(),
                chunk@ == cs@.subrange(pos as int, pos + j),
            decreases size - j,
        {
            crate::text::push_char(&mut chunk, cs[pos + j]);
            j = j + 1;
            proof {
                assert(chunk@ =~= cs@.subrange(pos as int, pos + j));
            }
        }
        let ghost k = r@.len() as int;
        r.push(chunk);
        proof {
            assert((k + 1) * size == k * size + size) by (nonlinear_arith);
            assert(chunk_of(s@, size as int, k) == cs@.subrange(pos as int, pos + size));
        }
        pos = pos + size;
    }
    let mut chunk = String::new();
    let mut j: usize = 0;
    let rem = n - pos;
    while j < rem
        invariant
            j <= rem,
            rem == n - pos,
            pos <= n,
            n == cs@.len(),
            chunk@ == cs@.subrange(pos as int, pos + j),
        decreases rem - j,
    {
        crate::text::push_char(&mut chunk, cs[pos + j]);
        j = j + 1;
        proof {
            assert(chunk@ =~= cs@.subrange(pos as int, pos + j));
        }
    }
    while j < size
        invariant
            rem <= j <= size,
            rem == n - pos,
            pos <= n,
            n == cs@.len(),
            chunk@ == cs@.subrange(pos as int, n as int) + space_seq(j - rem),
        decreases size - j,
    {
        crate::text::push_char(&mut chunk, ' ');
        j = j + 1;
        proof {
            assert(chunk@ =~= cs@.subrange(pos as int, n as int) + space_seq(j - rem));
        }
    }
    let ghost kk = r@.len() as int;
    r.push(chunk);
    proof {
        vstd::arithmetic::div_mod::lemma_fundamental_div_mod_converse_div(
            n as int,
            size as int,
            kk,
            n - pos,
        );
        assert((kk + 1) * size == kk * size + size) by (nonlinear_arith);
        assert(cs@.skip(kk * size) == cs@.subrange(pos as int, n as int));
        assert(chunk_of(s@, size as int, kk) == cs@.subrange(pos as int, n as int) + space_seq(
            size - (n - pos),
        ));
    }
    r
}

/// Maps a second of the day range `[lo, hi]` linearly onto `[0, width]`.
pub open spec fn spec_scale(sec: int, lo: int, hi: int, width: int) -> int {
    if hi > lo {
        (sec - lo) * width / (hi - lo)
    } else {
        0
    }
}

/// The scale map is monotone and never exceeds the width.
pub proof fn lemma_scale_monotone(s1: int, s2: int, lo: int, hi: int, w: int)
    requires
        lo <= s1 <= s2 <= hi,
        w >= 0,
    ensures
        0 <= spec_scale(s1, lo, hi, w) <= spec_scale(s2, lo, hi, w) <= w,
{
    if hi > lo {
        vstd::arithmetic::mul::lemma_mul_inequality(s1 - lo, s2 - lo, w);
        vstd::arithmetic::div_mod::lemma_div_is_ordered((s1 - lo) * w, (s2 - lo) * w, hi - lo);
        vstd::arithmetic::mul::lemma_mul_inequality(s2 - lo, hi - lo, w);
        vstd::arithmetic::div_mod::lemma_div_is_ordered((s2 - lo) * w, (hi - lo) * w, hi - lo);
        vstd::arithmetic::div_mod::lemma_div_multiples_vanish(w, hi - lo);
        assert(0 * w == 0) by (nonlinear_arith);
        vstd::arithmetic::mul::lemma_mul_inequality(0, s1 - lo, w);
        vstd::arithmetic::div_mod::lemma_div_is_ordered(0, (s1 - lo) * w, hi - lo);
    }
}

/// Maps `sec` from the range `[lo, hi]` linearly onto a column in
/// `[0, width]`.
pub fn scale(sec: u64, lo: u64, hi: u64, width: usize) -> (r: usize)
    requires
        lo <= sec <= hi,
    ensures
        r == spec_scale(sec as int, lo as int, hi as int, width as int),
        r <= width,
{
    proof {
        lemma_scale_monotone(sec as int, sec as int, lo as int, hi as int, width as int);
    }
    if hi > lo {
        proof {
            assert(((sec - lo) as int) * (width as int) <= (u64::MAX as int) * (u64::MAX as int)
                <= u128::MAX as int) by (nonlinear_arith)
                requires
                    0 <= (sec - lo) as int <= u64::MAX as int,
                    0 <= width as int <= u64::MAX as int,
            ;
        }
        let num: u128 = ((sec - lo) as u128) * (width as u128);
        let q: u128 = num / ((hi - lo) as u128);
        proof {
            assert(q as int == spec_scale(sec as int, lo as int, hi as int, width as int));
            assert(q <= width);
        }
        q as usize
    } else {
        0
    }
}

/// The two closed intervals intersect in more than a shared endpoint.
pub open spec fn ranges_conflict(a: ActivityView, b: ActivityView) -> bool {
    a.start_time.timestamp() < b.stop_time.timestamp() && b.start_time.timestamp()
        < a.stop_time.timestamp()
}

/// The palette color for a listing id: entry `id mod palette length`.
pub fn color(id: ActivityId, colors: &Vec<Rgb>) -> (r: Rgb)
    requires
        colors@.len() > 0,
    ensures
        r == colors@[(id as int) % (colors@.len() as int)],
{
    colors[id % colors.len()]
}

/// The second-of-day bounds of a day piece: start's second of day, and the
/// stop relative to the same midnight (86400 for a stop exactly at the next
/// midnight).
pub fn bounds(interval: &Interval) -> (r: (u64, u64))
    requires
        interval.1.is_valid(),
        within_day(interval.1@),
    ensures
        r.0 == interval.1@.start_time.spec_second_of_day(),
        r.1 == rel_stop(interval.1@),
        r.0 <= r.1 <= 86400,
{
    proof {
        lemma_timestamp_bounds(interval.1@.start_time);
        lemma_timestamp_bounds(interval.1@.stop_time);
    }
    let start = interval.1.get_start_time();
    let stop = interval.1.get_stop_time();
    let day = start.day_index();
    (start.second_of_day(), stop.timestamp_secs() - day * SECONDS_PER_DAY)
}

/// Appending one activity adds its seconds to the sum.
pub proof fn lemma_sum_durations_push(s: Seq<ActivityView>, a: ActivityView)
    ensures
        sum_durations(s.push(a)) == sum_durations(s) + a.duration_secs(),
    decreases s.len(),
{
    if s.len() == 0 {
        assert(s.push(a)[0] == a);
        assert(s.push(a).drop_first() =~= Seq::<ActivityView>::empty());
        assert(sum_durations(Seq::<ActivityView>::empty()) == 0);
    } else {
        assert(s.push(a).drop_first() =~= s.drop_first().push(a));
        lemma_sum_durations_push(s.drop_first(), a);
    }
}

/// The total seconds of a list of day pieces.
pub fn day_total(activities: &Vec<Interval>) -> (r: DurationW)
    requires
        forall|i: int| 0 <= i < activities@.len() ==> (#[trigger] activities@[i]).1.is_valid(),
        forall|i: int|
            0 <= i < activities@.len() ==> (#[trigger] activities@[i]).1@.duration_secs() <= 86400,
        activities@.len() < 1000000,
    ensures
        r.secs == sum_durations(activities@.map_values(|p: Interval| p.1@)),
        0 <= r.secs <= 86400 * activities@.len(),
{
    let ghost views = activities@.map_values(|p: Interval| p.1@);
    let mut total: u64 = 0;
    let mut i: usize = 0;
    let n = activities.len();
    proof {
        assert(views.take(0) =~= Seq::<ActivityView>::empty());
    }
    while i < n
        invariant
            n == activities@.len(),
            i <= n,
            n < 1000000,
            views == activities@.map_values(|p: Interval| p.1@),
            forall|k: int| 0 <= k < n ==> (#[trigger] activities@[k]).1.is_valid(),
            forall|k: int| 0 <= k < n ==> (#[trigger] activities@[k]).1@.duration_secs() <= 86400,
            total == sum_durations(views.take(i as int)),
            total <= 86400 * i,
        decreases n - i,
    {
        let d = activities[i].1.get_duration();
        proof {
            lemma_sum_durations_push(views.take(i as int), views[i as int]);
            assert(views.take(i + 1) =~= views.take(i as int).push(views[i as int]));
        }
        total = total + (d.secs as u64);
        i = i + 1;
    }
    proof {
        assert(views.take(n as int) =~= views);
    }
    DurationW::new(total as i64)
}

/// The second-of-day bounds of a day's pieces: the least start and the
/// greatest relative stop, defaulting to the whole day when empty.
pub fn day_bounds(activities: &Vec<Interval>) -> (r: (u64, u64))
    requires
        forall|i: int|
            0 <= i < activities@.len() ==> (#[trigger] activities@[i]).1.is_valid() && within_day(
                activities@[i].1@,
            ),
    ensures
        activities@.len() == 0 ==> r == (0u64, 86400u64),
        r.0 <= r.1 <= 86400,
        forall|i: int|
            0 <= i < activities@.len() ==> r.0 <= (
            #[trigger] activities@[i]).1@.start_time.spec_second_of_day() && rel_stop(
                activities@[i].1@,
            ) <= r.1,
        activities@.len() > 0 ==> (exists|i: int|
            0 <= i < activities@.len() && r.0 == (
            #[trigger] activities@[i]).1@.start_time.spec_second_of_day()),
        activities@.len() > 0 ==> (exists|i: int|
            0 <= i < activities@.len() && r.1 == rel_stop((#[trigger] activities@[i]).1@)),
{
    let n = activities.len();
    if n == 0 {
        return (0, 86400);
    }
    let mut lo: u64 = 86400;
    let mut hi: u64 = 0;
    let mut i: usize = 0;
    while i < n
        invariant
            n == activities@.len(),
            i <= n,
            forall|k: int|
                0 <= k < n ==> (#[trigger] activities@[k]).1.is_valid() && within_day(
                    activities@[k].1@,
                ),
            lo <= 86400,
            hi <= 86400,
            forall|k: int|
                0 <= k < i ==> lo <= (#[trigger] activities@[k]).1@.start_time.spec_second_of_day()
                    && rel_stop(activities@[k].1@) <= hi,
            i == 0 ==> lo == 86400 && hi == 0,
            i > 0 ==> (exists|k: int|
                0 <= k < i && lo == (#[trigger] activities@[k]).1@.start_time.spec_second_of_day()),
            i > 0 ==> (exists|k: int|
                0 <= k < i && hi == rel_stop((#[trigger] activities@[k]).1@)),
        decreases n - i,
    {
        let ghost lo_pre = lo;
        let ghost hi_pre = hi;
        let (s, e) = bounds(&activities[i]);
        if s < lo {
            lo = s;
        }
        if e > hi {
            hi = e;
        }
        proof {
            if lo == s {
                assert(lo == activities@[i as int].1@.start_time.spec_second_of_day());
            } else {
                assert(i > 0 && lo == lo_pre);
            }
            if hi == e {
                assert(hi == rel_stop(activities@[i as int].1@));
            } else {
                assert(i > 0 && hi == hi_pre);
            }
        }
        i = i + 1;
    }
    proof {
        let k0 = choose|k: int|
            0 <= k < n && lo == (#[trigger] activities@[k]).1@.start_time.spec_second_of_day();
        assert(lo <= activities@[k0].1@.start_time.spec_second_of_day());
        assert(rel_stop(activities@[k0].1@) <= hi);
        assert(activities@[k0].1@.start_time.spec_second_of_day() <= rel_stop(activities@[k0].1@));
        assert(lo <= hi);
    }
    (lo, hi)
}

/// The day range touched by the activities: least start day and greatest
/// stop day, `(0, 0)` when empty.
pub fn days(activities: &Vec<Interval>) -> (r: (u64, u64))
    requires
        forall|i: int| 0 <= i < activities@.len() ==> (#[trigger] activities@[i]).1.is_valid(),
    ensures
        forall|i: int|
            0 <= i < activities@.len() ==> r.0 <= (
            #[trigger] activities@[i]).1@.start_time.spec_day_index() && activities@[
                i
            ].1@.stop_time.spec_day_index() <= r.1,
        activities@.len() > 0 ==> (exists|i: int|
            0 <= i < activities@.len() && r.0 == (
            #[trigger] activities@[i]).1@.start_time.spec_day_index()),
        activities@.len() > 0 ==> (exists|i: int|
            0 <= i < activities@.len() && r.1 == (
            #[trigger] activities@[i]).1@.stop_time.spec_day_index()),
        activities@.len() == 0 ==> r == (0u64, 0u64),
        r.1 < 3660000,
        r.0 <= r.1,
{
    let n = activities.len();
    if n == 0 {
        return (0, 0);
    }
    proof {
        lemma_timestamp_bounds(activities@[0].1@.start_time);
    }
    let mut lo: u64 = activities[0].1.get_start_time().day_index();
    let mut hi: u64 = 0;
    let mut i: usize = 0;
    while i < n
        invariant
            n == activities@.len(),
            n > 0,
            i <= n,
            forall|k: int| 0 <= k < n ==> (#[trigger] activities@[k]).1.is_valid(),
            forall|k: int|
                0 <= k < i ==> lo <= (#[trigger] activities@[k]).1@.start_time.spec_day_index()
                    && activities@[k].1@.stop_time.spec_day_index() <= hi,
            exists|k: int|
                0 <= k < n && lo == (#[trigger] activities@[k]).1@.start_time.spec_day_index(),
            i == 0 ==> hi == 0,
            i > 0 ==> (exists|k: int|
                0 <= k < i && hi == (#[trigger] activities@[k]).1@.stop_time.spec_day_index()),
            hi < 3660000,
            lo < 3660000,
        decreases n - i,
    {
        let a = &activities[i];
        proof {
            lemma_timestamp_bounds(a.1@.start_time);
            lemma_timestamp_bounds(a.1@.stop_time);
        }
        let ghost hi_pre = hi;
        let s = a.1.get_start_time().day_index();
        let e = a.1.get_stop_time().day_index();
        if s < lo {
            lo = s;
        }
        if e > hi {
            hi = e;
        }
        proof {
            if hi == e {
                assert(hi == activities@[i as int].1@.stop_time.spec_day_index());
            } else {
                assert(i > 0 && hi == hi_pre);
            }
        }
        i = i + 1;
    }
    proof {
        let a0 = activities@[0].1@;
        assert(a0.start_time.timestamp() <= a0.stop_time.timestamp());
        assert(a0.start_time.spec_day_index() <= a0.stop_time.spec_day_index());
        assert(lo <= hi);
    }
    (lo, hi)
}

/// A timeline layout failure.
#[derive(Debug)]
pub enum TimelineError {
    /// Two same-day pieces map to intersecting column ranges; carries the
    /// titles of the two conflicting activities.
    Intersection(String, String),
}

/// What ansi_term renders for `text` on the given background color: the
/// escape `[48;2;` with the three color components in decimal, then `m` and
/// the text, closed by the reset escape `[0m`.
pub open spec fn painted(text: Seq<char>, color: Rgb) -> Seq<char> {
    seq!['\u{1b}', '[', '4', '8', ';', '2', ';'] + crate::text::dec_digits(color.0 as int)
        + seq![';'] + crate::text::dec_digits(color.1 as int) + seq![';']
        + crate::text::dec_digits(color.2 as int) + seq!['m'] + text + seq!['\u{1b}', '[', '0', 'm']
}

/// Relies on ansi_term's `Style::paint` with a `Color::RGB` background: the
/// rendering writes the background escape code (`48;2;` and the components
/// in decimal), the text, and the reset code, in that order.
#[verifier::external_body]
fn paint_on(text: &str, color: Rgb) -> (r: String)
    ensures
        r@ == painted(text@, color),
{
    let (red, green, blue) = color;
    ansi_term::Style::new().on(ansi_term::Color::RGB(red, green, blue)).paint(text).to_string()
}

/// Relies on term_size's `dimensions`: the terminal's column count, where one
/// is attached; nothing is promised of the machine-dependent outcome.
#[verifier::external_body]
fn terminal_width() -> (r: Option<usize>)
{
    term_size::dimensions().map(|d| d.0)
}

/// The legend label of a day piece: its wall-clock bounds as `HH:MM-HH:MM`
/// (a stop exactly at the following midnight shows as `24:00`).
pub open spec fn legend_text(a: ActivityView) -> Seq<char> {
    a.start_time.spec_hh_mm() + seq!['-'] + (if rel_stop(a) == 86400 {
        seq!['2', '4', ':', '0', '0']
    } else {
        a.stop_time.spec_hh_mm()
    })
}

/// The legend entry of a day piece: its `HH:MM-HH:MM` label, black.
pub fn legend(interval: &Interval) -> (r: (String, Rgb))
    requires
        interval.1.is_valid(),
        within_day(interval.1@),
    ensures
        r.0@ == legend_text(interval.1@),
        r.1 == (0u8, 0u8, 0u8),
{
    proof {
        lemma_timestamp_bounds(interval.1@.start_time);
        lemma_timestamp_bounds(interval.1@.stop_time);
    }
    let start = interval.1.get_start_time();
    let stop = interval.1.get_stop_time();
    let day = start.day_index();
    let rel = stop.timestamp_secs() - day * SECONDS_PER_DAY;
    let mut t = start.hh_mm();
    crate::text::push_char(&mut t, '-');
    if rel == 86400 {
        t.append("24:00");
        proof {
            reveal_strlit("24:00");
            assert("24:00"@ =~= seq!['2', '4', ':', '0', '0']);
            assert(t@ =~= legend_text(interval.1@));
        }
    } else {
        let e = stop.hh_mm();
        t.append(e.as_str());
        proof {
            assert(t@ =~= legend_text(interval.1@));
        }
    }
    (t, (0, 0, 0))
}

/// The data entry of a day piece: its title, on the palette color of its id.
pub fn label(interval: &Interval, colors: &Vec<Rgb>) -> (r: (String, Rgb))
    requires
        colors@.len() > 0,
    ensures
        r.0@ == interval.1@.title(),
        r.1 == colors@[(interval.0 as int) % (colors@.len() as int)],
{
    (interval.1.get_title(), color(interval.0, colors))
}

/// The last calendar day that holds a piece of the activity.
pub open spec fn last_piece_day(a: ActivityView) -> int {
    a.start_time.spec_day_index() + piece_count(a) - 1
}

/// The activity has a piece on calendar day `d`.
pub open spec fn has_piece(a: ActivityView, d: int) -> bool {
    a.start_time.spec_day_index() <= d <= last_piece_day(a)
}

/// The day-`d` piece's start, in seconds relative to that day's midnight.
pub open spec fn piece_rel_start(a: ActivityView, d: int) -> int {
    int_max(a.start_time.timestamp(), d * (SECONDS_PER_DAY as int)) - d * (SECONDS_PER_DAY as int)
}

/// The day-`d` piece's stop, in seconds relative to that day's midnight.
pub open spec fn piece_rel_stop(a: ActivityView, d: int) -> int {
    int_min(a.stop_time.timestamp(), (d + 1) * (SECONDS_PER_DAY as int)) - d * (SECONDS_PER_DAY as int)
}

/// Lexicographic order of two day-`d` pieces by (relative start, relative
/// stop); this is the order pieces are laid out in.
pub open spec fn piece_key_le(a: ActivityView, b: ActivityView, d: int) -> bool {
    piece_rel_start(a, d) < piece_rel_start(b, d) || (piece_rel_start(a, d) == piece_rel_start(
        b,
        d,
    ) && piece_rel_stop(a, d) <= piece_rel_stop(b, d))
}

/// The least relative start second among day-`d` pieces (86400 when none).
pub open spec fn day_lo(acts: Seq<Interval>, d: int) -> int
    decreases acts.len(),
{
    if acts.len() == 0 {
        86400
    } else {
        let rest = day_lo(acts.drop_last(), d);
        if has_piece(acts.last().1@, d) {
            int_min(rest, piece_rel_start(acts.last().1@, d))
        } else {
            rest
        }
    }
}

/// The greatest relative stop second among day-`d` pieces (0 when none).
pub open spec fn day_hi(acts: Seq<Interval>, d: int) -> int
    decreases acts.len(),
{
    if acts.len() == 0 {
        0
    } else {
        let rest = day_hi(acts.drop_last(), d);
        if has_piece(acts.last().1@, d) {
            int_max(rest, piece_rel_stop(acts.last().1@, d))
        } else {
            rest
        }
    }
}

/// The summed seconds of the day-`d` pieces.
pub open spec fn day_total_secs(acts: Seq<Interval>, d: int) -> int
    decreases acts.len(),
{
    if acts.len() == 0 {
        0
    } else {
        let rest = day_total_secs(acts.drop_last(), d);
        if has_piece(acts.last().1@, d) {
            rest + piece_rel_stop(acts.last().1@, d) - piece_rel_start(acts.last().1@, d)
        } else {
            rest
        }
    }
}

/// The character count of a total's `HH:MM:SS` display.
pub open spec fn total_text_len(secs: int) -> int {
    crate::text::two_digits(secs / 3600).len() as int + 6
}

/// The character width available to a day's row: the full width minus the
/// day total's display and one separating space.
pub open spec fn day_avail(acts: Seq<Interval>, d: int, width: int) -> int {
    let tl = total_text_len(day_total_secs(acts, d));
    if width > tl {
        width - tl - 1
    } else {
        0
    }
}

/// The day-`d` pieces of activities `i` and `j` (laid out in key order) map
/// to intersecting column ranges under that day's own bounds and width.
pub open spec fn cols_conflict(acts: Seq<Interval>, width: int, d: int, i: int, j: int) -> bool {
    let lo = day_lo(acts, d);
    let hi = day_hi(acts, d);
    let avail = day_avail(acts, d, width);
    &&& 0 <= i < acts.len()
    &&& 0 <= j < acts.len()
    &&& i != j
    &&& has_piece(acts[i].1@, d)
    &&& has_piece(acts[j].1@, d)
    &&& piece_key_le(acts[i].1@, acts[j].1@, d)
    &&& spec_scale(piece_rel_stop(acts[i].1@, d), lo, hi, avail) > spec_scale(
        piece_rel_start(acts[j].1@, d),
        lo,
        hi,
        avail,
    )
}

/// Some calendar day holds two pieces whose column ranges intersect.
pub open spec fn any_cols_conflict(acts: Seq<Interval>, width: int) -> bool {
    exists|d: int, i: int, j: int| #[trigger] cols_conflict(acts, width, d, i, j)
}

/// Day bounds cover every piece: the day's low bound is at most each
/// piece's relative start and its high bound at least each relative stop.
proof fn lemma_day_bound_covers(acts: Seq<Interval>, d: int, i: int)
    requires
        0 <= i < acts.len(),
        has_piece(acts[i].1@, d),
    ensures
        day_lo(acts, d) <= piece_rel_start(acts[i].1@, d),
        piece_rel_stop(acts[i].1@, d) <= day_hi(acts, d),
    decreases acts.len(),
{
    if i == acts.len() - 1 {
        assert(acts.last() == acts[i]);
    } else {
        assert(acts.drop_last()[i] == acts[i]);
        lemma_day_bound_covers(acts.drop_last(), d, i);
    }
}

/// A column conflict is only possible where the two activities' intervals
/// intersect in more than a shared endpoint: activities that merely touch
/// never collide on the timeline.
pub proof fn lemma_cols_conflict_overlaps(acts: Seq<Interval>, w: int, d: int, i: int, j: int)
    requires
        forall|k: int| 0 <= k < acts.len() ==> (#[trigger] acts[k]).1.is_valid(),
        cols_conflict(acts, w, d, i, j),
    ensures
        ranges_conflict(acts[i].1@, acts[j].1@),
{
    let s = SECONDS_PER_DAY as int;
    let ai = acts[i].1@;
    let aj = acts[j].1@;
    let lo = day_lo(acts, d);
    let hi = day_hi(acts, d);
    let avail = day_avail(acts, d, w);
    lemma_piece_day_in_span(ai, d);
    lemma_piece_day_in_span(aj, d);
    crate::datetimew::lemma_timestamp_bounds(ai.start_time);
    crate::datetimew::lemma_timestamp_bounds(ai.stop_time);
    crate::datetimew::lemma_timestamp_bounds(aj.start_time);
    crate::datetimew::lemma_timestamp_bounds(aj.stop_time);
    lemma_day_bound_covers(acts, d, i);
    lemma_day_bound_covers(acts, d, j);
    assert(piece_rel_start(ai, d) <= piece_rel_stop(ai, d));
    assert(piece_rel_start(aj, d) <= piece_rel_stop(aj, d));
    if piece_rel_stop(ai, d) <= piece_rel_start(aj, d) {
        lemma_scale_monotone(piece_rel_stop(ai, d), piece_rel_start(aj, d), lo, hi, avail);
        assert(false);
    }
    assert(int_min(ai.stop_time.timestamp(), (d + 1) * s) > int_max(aj.start_time.timestamp(), d * s));
    assert(aj.start_time.timestamp() < ai.stop_time.timestamp());
    if piece_rel_start(ai, d) < piece_rel_start(aj, d) {
        assert(int_max(ai.start_time.timestamp(), d * s) < int_max(aj.start_time.timestamp(), d * s));
        assert(ai.start_time.timestamp() < aj.start_time.timestamp());
        assert(ai.start_time.timestamp() < aj.stop_time.timestamp());
    } else {
        assert(piece_rel_start(ai, d) == piece_rel_start(aj, d));
        assert(piece_rel_stop(ai, d) <= piece_rel_stop(aj, d));
        assert(piece_rel_stop(aj, d) > piece_rel_start(ai, d));
        assert(int_min(aj.stop_time.timestamp(), (d + 1) * s) > int_max(ai.start_time.timestamp(), d * s));
        assert(ai.start_time.timestamp() < aj.stop_time.timestamp());
    }
}

/// A two-digit display of a value below 100 has exactly two characters.
proof fn lemma_two_digits_len_small(n: int)
    requires
        0 <= n < 100,
    ensures
        crate::text::two_digits(n).len() == 2,
{
    reveal_with_fuel(crate::text::dec_digits, 2);
}

/// Every piece of a valid activity lies between its start and stop days.
proof fn lemma_piece_day_in_span(a: ActivityView, d: int)
    requires
        a.is_valid(),
        has_piece(a, d),
    ensures
        a.start_time.spec_day_index() <= d <= a.stop_time.spec_day_index(),
{
    crate::datetimew::lemma_timestamp_bounds(a.start_time);
    crate::datetimew::lemma_timestamp_bounds(a.stop_time);
}

/// The day bound over a prefix extends by one activity at a time.
proof fn lemma_day_fold_step(acts: Seq<Interval>, d: int, idx: int)
    requires
        0 <= idx < acts.len(),
    ensures
        day_lo(acts.take(idx + 1), d) == if has_piece(acts[idx].1@, d) {
            int_min(day_lo(acts.take(idx), d), piece_rel_start(acts[idx].1@, d))
        } else {
            day_lo(acts.take(idx), d)
        },
        day_hi(acts.take(idx + 1), d) == if has_piece(acts[idx].1@, d) {
            int_max(day_hi(acts.take(idx), d), piece_rel_stop(acts[idx].1@, d))
        } else {
            day_hi(acts.take(idx), d)
        },
        day_total_secs(acts.take(idx + 1), d) == if has_piece(acts[idx].1@, d) {
            day_total_secs(acts.take(idx), d) + piece_rel_stop(acts[idx].1@, d) - piece_rel_start(
                acts[idx].1@,
                d,
            )
        } else {
            day_total_secs(acts.take(idx), d)
        },
{
    assert(acts.take(idx + 1).drop_last() =~= acts.take(idx));
    assert(acts.take(idx + 1).last() == acts[idx]);
}

/// A collected day entry: a day piece paired with the index of the activity
/// it came from.
type DayEntry = (Interval, Ghost<int>);

/// The entry is the day-`d` piece of the activity at its source index.
pub open spec fn entry_ok(e: DayEntry, acts: Seq<Interval>, d: int) -> bool {
    let src = e.1@;
    &&& 0 <= src < acts.len()
    &&& has_piece(acts[src].1@, d)
    &&& e.0.0 == acts[src].0
    &&& e.0.1@.tags == acts[src].1@.tags
    &&& e.0.1@.is_valid()
    &&& within_day(e.0.1@)
    &&& e.0.1@.start_time.spec_day_index() == d
    &&& e.0.1@.start_time.timestamp() == int_max(
        acts[src].1@.start_time.timestamp(),
        d * (SECONDS_PER_DAY as int),
    )
    &&& e.0.1@.stop_time.timestamp() == int_min(
        acts[src].1@.stop_time.timestamp(),
        (d + 1) * (SECONDS_PER_DAY as int),
    )
}

/// Lexicographic order on (second of day of the start, relative stop).
pub open spec fn entry_key_le(a: DayEntry, b: DayEntry) -> bool {
    let sa = a.0.1@.start_time.spec_second_of_day();
    let sb = b.0.1@.start_time.spec_second_of_day();
    sa < sb || (sa == sb && rel_stop(a.0.1@) <= rel_stop(b.0.1@))
}

/// The entries are sorted by key and come from pairwise distinct activities.
pub open spec fn entries_wf(es: Seq<DayEntry>, acts: Seq<Interval>, d: int) -> bool {
    &&& forall|i: int| 0 <= i < es.len() ==> entry_ok(#[trigger] es[i], acts, d)
    &&& forall|i: int, j: int| 0 <= i < j < es.len() ==> entry_key_le(#[trigger] es[i], #[trigger] es[j])
    &&& forall|i: int, j: int| 0 <= i < j < es.len() ==> (#[trigger] es[i]).1@ != (#[trigger] es[j]).1@
}

/// The piece sorts strictly before the key `(s_new, e_new)`.
fn key_before(p: &Interval, s_new: u64, e_new: u64) -> (r: bool)
    requires
        p.1.is_valid(),
        within_day(p.1@),
    ensures
        r == (p.1@.start_time.spec_second_of_day() < s_new || (p.1@.start_time.spec_second_of_day()
            == s_new && rel_stop(p.1@) <= e_new)),
{
    let (s, e) = bounds(p);
    s < s_new || (s == s_new && e <= e_new)
}

/// Inserts a day piece at its sorted position.
fn insert_day_entry(
    entries: &mut Vec<DayEntry>,
    e: DayEntry,
    Ghost(acts): Ghost<Seq<Interval>>,
    Ghost(d): Ghost<int>,
)
    requires
        entries_wf(old(entries)@, acts, d),
        entry_ok(e, acts, d),
        forall|i: int| 0 <= i < old(entries)@.len() ==> (#[trigger] old(entries)@[i]).1@ != e.1@,
    ensures
        entries_wf(final(entries)@, acts, d),
        final(entries)@.len() == old(entries)@.len() + 1,
        forall|i: int|
            0 <= i < final(entries)@.len() ==> ((#[trigger] final(entries)@[i]) == e || old(
                entries,
            )@.contains(final(entries)@[i])),
        forall|i: int|
            0 <= i < old(entries)@.len() ==> final(entries)@.contains(#[trigger] old(entries)@[i]),
        final(entries)@.contains(e),
{
    let ghost pre = entries@;
    proof {
        lemma_timestamp_bounds(e.0.1@.start_time);
        lemma_timestamp_bounds(e.0.1@.stop_time);
    }
    let (s_new, e_new) = bounds(&e.0);
    let n = entries.len();
    let mut i: usize = 0;
    proof {
        assert forall|k: int| 0 <= k < n implies (#[trigger] entries@[k]).0.1.is_valid()
            && within_day(entries@[k].0.1@) by {
            assert(entry_ok(entries@[k], acts, d));
        };
    }
    while i < n && key_before(&entries[i].0, s_new, e_new)
        invariant
            n == entries@.len(),
            i <= n,
            entries_wf(entries@, acts, d),
            entry_ok(e, acts, d),
            s_new == e.0.1@.start_time.spec_second_of_day(),
            e_new == rel_stop(e.0.1@),
            forall|k: int|
                0 <= k < n ==> (#[trigger] entries@[k]).0.1.is_valid() && within_day(
                    entries@[k].0.1@,
                ),
            forall|k: int| 0 <= k < i ==> entry_key_le(#[trigger] entries@[k], e),
        decreases n - i,
    {
        i = i + 1;
    }
    proof {
        if i < n {
            assert(entry_key_le(e, entries@[i as int]));
            assert forall|k: int| i <= k < n implies entry_key_le(e, #[trigger] entries@[k]) by {
                if k > i {
                    assert(entry_key_le(entries@[i as int], entries@[k]));
                }
            };
        }
    }
    entries.insert(i, e);
    proof {
        assert(entries@ == pre.insert(i as int, e));
        pre.insert_ensures(i as int, e);
        assert forall|p: int, q: int|
            0 <= p < q < entries@.len() implies entry_key_le(
            #[trigger] entries@[p],
            #[trigger] entries@[q],
        ) && (#[trigger] entries@[p]).1@ != (#[trigger] entries@[q]).1@ by {
            if p < i && q < i {
            } else if p < i && q == i {
            } else if p == i && q > i {
            } else if p < i && q > i {
                assert(entries@[p] == pre[p]);
                assert(entries@[q] == pre[q - 1]);
            } else {
                assert(entries@[p] == pre[p - 1]);
                assert(entries@[q] == pre[q - 1]);
            }
        };
        assert forall|k: int|
            0 <= k < entries@.len() implies ((#[trigger] entries@[k]) == e || pre.contains(
            entries@[k],
        )) by {
            if k < i {
                assert(entries@[k] == pre[k]);
            } else if k > i {
                assert(entries@[k] == pre[k - 1]);
            }
        };
        assert forall|k: int|
            0 <= k < pre.len() implies entries@.contains(#[trigger] pre[k]) by {
            if k < i {
                assert(entries@[k] == pre[k]);
            } else {
                assert(entries@[k + 1] == pre[k]);
            }
        };
        assert(entries@[i as int] == e);
        assert(entries@.contains(e));
    }
}

/// A column conflict between two sorted day entries means the two source
/// activities' intervals intersect in more than a shared endpoint.
proof fn lemma_conflict_transfer(p: DayEntry, q: DayEntry, acts: Seq<Interval>, d: int)
    requires
        entry_ok(p, acts, d),
        entry_ok(q, acts, d),
        entry_key_le(p, q),
        rel_stop(p.0.1@) > q.0.1@.start_time.spec_second_of_day(),
    ensures
        ranges_conflict(acts[p.1@].1@, acts[q.1@].1@),
        p.0.1@.title() == acts[p.1@].1@.title(),
        q.0.1@.title() == acts[q.1@].1@.title(),
{
    let s = SECONDS_PER_DAY as int;
    let a = acts[p.1@].1@;
    let b = acts[q.1@].1@;
    let pp = p.0.1@;
    let qq = q.0.1@;
    assert(pp.start_time.timestamp() == d * s + pp.start_time.spec_second_of_day());
    assert(qq.start_time.timestamp() == d * s + qq.start_time.spec_second_of_day());
    assert(pp.stop_time.timestamp() > qq.start_time.timestamp());
    assert(b.start_time.timestamp() <= qq.start_time.timestamp());
    assert(pp.stop_time.timestamp() <= a.stop_time.timestamp());
    if pp.start_time.spec_second_of_day() == qq.start_time.spec_second_of_day() {
        assert(pp.stop_time.timestamp() <= qq.stop_time.timestamp());
        assert(qq.stop_time.timestamp() <= b.stop_time.timestamp());
        assert(a.start_time.timestamp() <= pp.start_time.timestamp());
        assert(pp.stop_time.timestamp() > pp.start_time.timestamp());
    } else {
        assert(pp.start_time.timestamp() < qq.start_time.timestamp());
        assert(a.start_time.timestamp() <= pp.start_time.timestamp());
        assert(qq.start_time.timestamp() <= qq.stop_time.timestamp());
        assert(qq.stop_time.timestamp() <= b.stop_time.timestamp());
    }
}

/// One rendered block of a day row.
struct Segment {
    c0: usize,
    c1: usize,
    chunks: Vec<String>,
}

/// The line ends with the given suffix.
pub open spec fn line_ends_with(line: Seq<char>, suffix: Seq<char>) -> bool {
    line.len() >= suffix.len() && line.subrange(
        line.len() - suffix.len(),
        line.len() as int,
    ) == suffix
}

/// Assembles the multi-line row of one day renderer: each line lays the
/// segments' chunks at their columns, padded with spaces; the row's first
/// line ends with `suffix_first` and every further line with `suffix_rest`.
fn build_row_lines(
    segs: &Vec<Segment>,
    width: usize,
    suffix_first: &String,
    suffix_rest: &String,
    out: &mut Vec<String>,
)
    requires
        forall|k: int|
            0 <= k < segs@.len() ==> (#[trigger] segs@[k]).c0 <= segs@[k].c1 && segs@[k].c1
                <= width,
        forall|k: int| 0 <= k < segs@.len() - 1 ==> (#[trigger] segs@[k]).c1 <= segs@[k + 1].c0,
    ensures
        final(out)@.len() >= old(out)@.len(),
        forall|k: int| 0 <= k < old(out)@.len() ==> (#[trigger] final(out)@[k]) == old(out)@[k],
        forall|k: int|
            old(out)@.len() <= k < final(out)@.len() ==> line_ends_with(
                (#[trigger] final(out)@[k])@,
                if k == old(out)@.len() {
                    suffix_first@
                } else {
                    suffix_rest@
                },
            ),
{
    let mut maxlines: usize = 0;
    let mut k: usize = 0;
    let n = segs.len();
    while k < n
        invariant
            out@ == old(out)@,
            n == segs@.len(),
            k <= n,
        decreases n - k,
    {
        let c = segs[k].chunks.len();
        if c > maxlines {
            maxlines = c;
        }
        k = k + 1;
    }
    let ghost base = out@.len() as int;
    let mut j: usize = 0;
    while j < maxlines
        invariant
            n == segs@.len(),
            j <= maxlines,
            forall|k2: int|
                0 <= k2 < segs@.len() ==> (#[trigger] segs@[k2]).c0 <= segs@[k2].c1 && segs@[
                    k2
                ].c1 <= width,
            forall|k2: int|
                0 <= k2 < segs@.len() - 1 ==> (#[trigger] segs@[k2]).c1 <= segs@[k2 + 1].c0,
            base == old(out)@.len() as int,
            out@.len() == base + j,
            forall|k2: int| 0 <= k2 < base ==> (#[trigger] out@[k2]) == old(out)@[k2],
            forall|k2: int|
                base <= k2 < out@.len() ==> line_ends_with(
                    (#[trigger] out@[k2])@,
                    if k2 == base {
                        suffix_first@
                    } else {
                        suffix_rest@
                    },
                ),
        decreases maxlines - j,
    {
        let mut line = String::new();
        let ghost out_at = out@;
        let mut cursor: usize = 0;
        let mut k2: usize = 0;
        while k2 < n
            invariant
                out@ == out_at,
                n == segs@.len(),
                k2 <= n,
                forall|m: int|
                    0 <= m < segs@.len() ==> (#[trigger] segs@[m]).c0 <= segs@[m].c1 && segs@[
                        m
                    ].c1 <= width,
                forall|m: int|
                    0 <= m < segs@.len() - 1 ==> (#[trigger] segs@[m]).c1 <= segs@[m + 1].c0,
                k2 == 0 ==> cursor == 0,
                k2 > 0 ==> cursor == segs@[k2 - 1].c1,
            decreases n - k2,
        {
            let seg = &segs[k2];
            proof {
                if k2 > 0 {
                    assert(segs@[k2 - 1].c1 <= segs@[k2 as int].c0);
                }
            }
            let gap = crate::text::spaces(seg.c0 - cursor);
            line.append(gap.as_str());
            if j < seg.chunks.len() {
                line.append(seg.chunks[j].as_str());
            } else {
                let blank = crate::text::spaces(seg.c1 - seg.c0);
                line.append(blank.as_str());
            }
            cursor = seg.c1;
            k2 = k2 + 1;
        }
        let tail = crate::text::spaces(width - cursor);
        line.append(tail.as_str());
        let ghost body = line@;
        if j == 0 {
            line.append(suffix_first.as_str());
        } else {
            line.append(suffix_rest.as_str());
        }
        let ghost out_pre = out@;
        proof {
            assert(out_pre == out_at);
        }
        out.push(line);
        j = j + 1;
        proof {
            let suffix = if out@.len() - 1 == base {
                suffix_first@
            } else {
                suffix_rest@
            };
            assert(out@[out@.len() - 1]@ == body + suffix);
            assert((body + suffix).subrange(
                body.len() as int,
                (body + suffix).len() as int,
            ) =~= suffix);
            assert(line_ends_with(out@[out@.len() - 1]@, suffix));
            assert(forall|k3: int| 0 <= k3 < out_pre.len() ==> (#[trigger] out@[k3]) == out_pre[k3]);
            assert forall|k3: int|
                base <= k3 < out@.len() implies line_ends_with(
                (#[trigger] out@[k3])@,
                if k3 == base {
                    suffix_first@
                } else {
                    suffix_rest@
                },
            ) by {
                assert(out@.len() == out_pre.len() + 1);
                if k3 < out@.len() - 1 {
                    assert(0 <= k3 < out_pre.len());
                    assert(out@[k3] == out_pre[k3]);
                    assert(line_ends_with(
                        out_pre[k3]@,
                        if k3 == base {
                            suffix_first@
                        } else {
                            suffix_rest@
                        },
                    ));
                }
            };
        }
    }
}

/// Paints every chunk on the given background color.
fn paint_chunks(chunks: &Vec<String>, color: Rgb) -> (r: Vec<String>) {
    let mut r: Vec<String> = Vec::new();
    let mut i: usize = 0;
    while i < chunks.len()
        decreases chunks@.len() - i,
    {
        r.push(paint_on(chunks[i].as_str(), color));
        i = i + 1;
    }
    r
}

/// Collects the day-`day` piece of the activity at `idx`, if it has one,
/// into the sorted entry list; hands back the piece's relative bounds.
fn collect_day_entry(
    entries: &mut Vec<DayEntry>,
    activities: &Vec<Interval>,
    idx: usize,
    day: u64,
) -> (r: Option<(u64, u64)>)
    requires
        idx < activities@.len(),
        forall|i: int| 0 <= i < activities@.len() ==> (#[trigger] activities@[i]).1.is_valid(),
        entries_wf(old(entries)@, activities@, day as int),
        forall|k: int| 0 <= k < old(entries)@.len() ==> (#[trigger] old(entries)@[k]).1@ < idx,
    ensures
        entries_wf(final(entries)@, activities@, day as int),
        forall|k: int| 0 <= k < final(entries)@.len() ==> (#[trigger] final(entries)@[k]).1@ < idx
            + 1,
        forall|k: int|
            0 <= k < old(entries)@.len() ==> final(entries)@.contains(#[trigger] old(entries)@[k]),
        (match r {
            Some(b) => {
                &&& has_piece(activities@[idx as int].1@, day as int)
                &&& b.0 == piece_rel_start(activities@[idx as int].1@, day as int)
                &&& b.1 == piece_rel_stop(activities@[idx as int].1@, day as int)
                &&& final(entries)@.len() == old(entries)@.len() + 1
                &&& exists|k: int|
                    0 <= k < final(entries)@.len() && (#[trigger] final(entries)@[k]).1@
                        == idx as int
            },
            None => !has_piece(activities@[idx as int].1@, day as int) && final(entries)@ == old(
                entries,
            )@,
        }),
{
    let ghost acts = activities@;
    let ghost d = day as int;
    let a = &activities[idx];
    proof {
        lemma_timestamp_bounds(a.1@.start_time);
    }
    let pieces = split_interval(a);
    let m = pieces.len();
    let a_start_day = a.1.get_start_time().day_index();
    if day >= a_start_day && day - a_start_day < m as u64 {
        let k = (day - a_start_day) as usize;
        let piece: Interval = (pieces[k].0, pieces[k].1.clone());
        proof {
            let kk = k as int;
            let av = acts[idx as int].1@;
            assert(day - a_start_day < m as u64);
            assert(m as u64 <= usize::MAX as u64);
            assert(k as u64 == day - a_start_day);
            assert(kk == day as int - a_start_day as int);
            assert(d == a_start_day + kk);
            assert(piece.1@ == pieces@[kk].1@);
            assert(pieces@[kk].0 == acts[idx as int].0);
            assert(a_start_day == av.start_time.spec_day_index());
            assert(pieces@[kk].1@.start_time.spec_day_index() == av.start_time.spec_day_index()
                + kk);
            assert(d == av.start_time.spec_day_index() + kk);
            assert(pieces@[kk].1@.start_time.timestamp() == int_max(
                av.start_time.timestamp(),
                (av.start_time.spec_day_index() + kk) * (SECONDS_PER_DAY as int),
            ));
            assert(pieces@[kk].1@.stop_time.timestamp() == int_min(
                av.stop_time.timestamp(),
                (av.start_time.spec_day_index() + kk + 1) * (SECONDS_PER_DAY as int),
            ));
            assert(has_piece(av, d));
            assert(entry_ok((piece, Ghost(idx as int)), acts, d));
        }
        let (ps, pe) = bounds(&piece);
        proof {
            let av = acts[idx as int].1@;
            assert(piece.1@.start_time.timestamp() == piece.1@.start_time.spec_day_index() * (
            SECONDS_PER_DAY as int) + piece.1@.start_time.spec_second_of_day());
            assert(ps == piece_rel_start(av, d));
            assert(pe == piece_rel_stop(av, d));
        }
        let ghost e = (piece, Ghost(idx as int));
        insert_day_entry(entries, (piece, Ghost(idx as int)), Ghost(acts), Ghost(d));
        proof {
            assert(entries@.contains(e));
            let k0 = choose|k0: int| 0 <= k0 < entries@.len() && entries@[k0] == e;
            assert(entries@[k0].1@ == idx as int);
            assert forall|k2: int|
                0 <= k2 < entries@.len() implies (#[trigger] entries@[k2]).1@ < idx + 1 by {}
        }
        Some((ps, pe))
    } else {
        proof {
            let av = acts[idx as int].1@;
            assert(a_start_day == av.start_time.spec_day_index());
            assert(m == piece_count(av));
            assert(!has_piece(av, d));
            assert forall|k2: int|
                0 <= k2 < entries@.len() implies entries@.contains(
                #[trigger] entries@[k2],
            ) by {}
        }
        None
    }
}

/// Renders the activities day by day under a fixed width: for each calendar
/// day holding at least one piece, a legend row (`HH:MM-HH:MM` labels, the
/// day's `DD/MM` right-aligned) and a data row (titles on palette colors,
/// the day's total duration), each row possibly spanning several lines.
///
/// Fails with a diagnostic naming both activities exactly when two pieces of
/// one day map to intersecting column ranges; that only happens when the two
/// activities' intervals intersect in more than a shared endpoint, so
/// touching activities render successfully.
#[verifier::rlimit(100)]
pub fn render_days_with_width(activities: &Vec<Interval>, colors: &Vec<Rgb>, width: usize) -> (r:
    Result<Vec<String>, TimelineError>)
    requires
        forall|i: int| 0 <= i < activities@.len() ==> (#[trigger] activities@[i]).1.is_valid(),
        activities@.len() < 1000000,
        colors@.len() > 0,
    ensures
        r matches Ok(lines) ==> (activities@.len() == 0 ==> lines@.len() == 0),
        r is Err <==> any_cols_conflict(activities@, width as int),
        (forall|i: int, j: int|
            0 <= i < activities@.len() && 0 <= j < activities@.len() && i != j
                ==> !ranges_conflict(
                (#[trigger] activities@[i]).1@,
                (#[trigger] activities@[j]).1@,
            )) ==> r is Ok,
        (match r {
            Err(TimelineError::Intersection(t1, t2)) => exists|i: int, j: int|
                0 <= i < activities@.len() && 0 <= j < activities@.len() && i != j
                    && ranges_conflict(
                    (#[trigger] activities@[i]).1@,
                    (#[trigger] activities@[j]).1@,
                ) && t1@ == activities@[i].1@.title() && t2@ == activities@[j].1@.title(),
            _ => true,
        }),
{
    let ghost acts = activities@;
    let ghost w = width as int;
    let n = activities.len();
    let mut rendered: Vec<String> = Vec::new();
    if n == 0 {
        proof {
            assert forall|d2: int, i: int, j: int|
                !(#[trigger] cols_conflict(acts, w, d2, i, j)) by {}
        }
        return Ok(rendered);
    }
    let (min_day, max_day) = days(activities);
    let mut day = min_day;
    while day <= max_day
        invariant
            acts == activities@,
            w == width as int,
            n == acts.len(),
            0 < n < 1000000,
            forall|i: int| 0 <= i < n ==> (#[trigger] acts[i]).1.is_valid(),
            colors@.len() > 0,
            max_day < 3660000,
            day <= max_day + 1,
            forall|i: int|
                0 <= i < n ==> min_day <= (#[trigger] acts[i]).1@.start_time.spec_day_index()
                    && acts[i].1@.stop_time.spec_day_index() <= max_day,
            forall|d2: int, i: int, j: int|
                min_day <= d2 < day ==> !(#[trigger] cols_conflict(acts, w, d2, i, j)),
        decreases max_day + 1 - day,
    {
        let ghost d = day as int;
        let mut entries: Vec<DayEntry> = Vec::new();
        let mut lo: u64 = 86400;
        let mut hi: u64 = 0;
        let mut total: u64 = 0;
        let mut idx: usize = 0;
        proof {
            assert(acts.take(0) =~= Seq::<Interval>::empty());
        }
        while idx < n
            invariant
                acts == activities@,
                n == acts.len(),
                n < 1000000,
                idx <= n,
                d == day as int,
                forall|i: int| 0 <= i < n ==> (#[trigger] acts[i]).1.is_valid(),
                entries_wf(entries@, acts, d),
                entries@.len() <= idx,
                forall|k: int| 0 <= k < entries@.len() ==> (#[trigger] entries@[k]).1@ < idx,
                forall|x: int|
                    0 <= x < idx && has_piece((#[trigger] acts[x]).1@, d) ==> (exists|k: int|
                        0 <= k < entries@.len() && (#[trigger] entries@[k]).1@ == x),
                lo == day_lo(acts.take(idx as int), d),
                hi == day_hi(acts.take(idx as int), d),
                total == day_total_secs(acts.take(idx as int), d),
                lo <= 86400,
                hi <= 86400,
                total <= 86400 * idx,
            decreases n - idx,
        {
            proof {
                lemma_day_fold_step(acts, d, idx as int);
            }
            let ghost entries_pre = entries@;
            match collect_day_entry(&mut entries, activities, idx, day) {
                Some((ps, pe)) => {
                    if ps < lo {
                        lo = ps;
                    }
                    if pe > hi {
                        hi = pe;
                    }
                    proof {
                        assert(piece_rel_start(acts[idx as int].1@, d) <= piece_rel_stop(
                            acts[idx as int].1@,
                            d,
                        ));
                        assert(pe <= 86400) by {
                            lemma_timestamp_bounds(acts[idx as int].1@.stop_time);
                        };
                    }
                    total = total + (pe - ps);
                },
                None => {},
            }
            idx = idx + 1;
            proof {
                assert forall|x: int|
                    0 <= x < idx && has_piece((#[trigger] acts[x]).1@, d) implies (exists|k: int|
                        0 <= k < entries@.len() && (#[trigger] entries@[k]).1@ == x) by {
                    if x < idx - 1 {
                        let k0 = choose|k0: int|
                            0 <= k0 < entries_pre.len() && (#[trigger] entries_pre[k0]).1@ == x;
                        assert(entries@.contains(entries_pre[k0]));
                        let k1 = choose|k1: int|
                            0 <= k1 < entries@.len() && entries@[k1] == entries_pre[k0];
                        assert(entries@[k1].1@ == x);
                    }
                };
            }
        }
        proof {
            assert(acts.take(n as int) =~= acts);
        }
        let en = entries.len();
        if en > 0 {
            proof {
                assert forall|k: int|
                    0 <= k < en implies lo as int <= (
                    #[trigger] entries@[k]).0.1@.start_time.spec_second_of_day() && rel_stop(
                    entries@[k].0.1@,
                ) <= hi as int by {
                    assert(entry_ok(entries@[k], acts, d));
                    let src = entries@[k].1@;
                    let pv = entries@[k].0.1@;
                    assert(pv.start_time.timestamp() == pv.start_time.spec_day_index() * (
                    SECONDS_PER_DAY as int) + pv.start_time.spec_second_of_day());
                    assert(pv.start_time.spec_second_of_day() == piece_rel_start(acts[src].1@, d));
                    assert(rel_stop(pv) == piece_rel_stop(acts[src].1@, d));
                    lemma_day_bound_covers(acts, d, src);
                };
                assert(entry_ok(entries@[0], acts, d));
                assert(lo <= hi) by {
                    let pv = entries@[0].0.1@;
                    assert(lo as int <= pv.start_time.spec_second_of_day());
                    assert(pv.start_time.spec_second_of_day() <= rel_stop(pv));
                    assert(rel_stop(pv) <= hi as int);
                };
            }
            let total_w = DurationW::new(total as i64);
            let total_str = total_w.hh_mm_ss();
            let day_label = entries[0].0.1.get_start_time().dd_mm();
            let pad = total_str.as_str().unicode_len();
            proof {
                lemma_two_digits_len_small(total as int / 60 % 60);
                lemma_two_digits_len_small(total as int % 60);
                assert(pad == total_text_len(day_total_secs(acts, d)));
            }
            let avail = if width > pad {
                width - pad - 1
            } else {
                0
            };
            proof {
                assert(avail as int == day_avail(acts, d, w));
            }
            let mut segs_legend: Vec<Segment> = Vec::new();
            let mut segs_data: Vec<Segment> = Vec::new();
            let mut prev_c1: usize = 0;
            let mut i2: usize = 0;
            while i2 < en
                invariant
                    acts == activities@,
                    w == width as int,
                    en == entries@.len(),
                    i2 <= en,
                    en <= n,
                    n == acts.len(),
                    colors@.len() > 0,
                    d == day as int,
                    entries_wf(entries@, acts, d),
                    lo <= hi <= 86400,
                    lo as int == day_lo(acts, d),
                    hi as int == day_hi(acts, d),
                    avail as int == day_avail(acts, d, w),
                    forall|k: int|
                        0 <= k < en ==> lo as int <= (
                        #[trigger] entries@[k]).0.1@.start_time.spec_second_of_day() && rel_stop(
                            entries@[k].0.1@,
                        ) <= hi as int,
                    segs_legend@.len() == i2,
                    segs_data@.len() == i2,
                    forall|k: int|
                        0 <= k < i2 ==> (#[trigger] segs_legend@[k]).c0 <= segs_legend@[k].c1
                            && segs_legend@[k].c1 <= avail,
                    forall|k: int|
                        0 <= k < i2 ==> (#[trigger] segs_legend@[k]).c0 == spec_scale(
                            entries@[k].0.1@.start_time.spec_second_of_day() as int,
                            lo as int,
                            hi as int,
                            avail as int,
                        ) && segs_legend@[k].c1 == spec_scale(
                            rel_stop(entries@[k].0.1@),
                            lo as int,
                            hi as int,
                            avail as int,
                        ),
                    forall|k1: int, k2: int|
                        0 <= k1 < k2 < i2 ==> (#[trigger] segs_legend@[k1]).c1 <= (
                        #[trigger] segs_legend@[k2]).c0,
                    forall|k: int|
                        0 <= k < i2 ==> (#[trigger] segs_data@[k]).c0 == segs_legend@[k].c0
                            && segs_data@[k].c1 == segs_legend@[k].c1,
                    i2 > 0 ==> prev_c1 == segs_legend@[i2 - 1].c1,
                decreases en - i2,
            {
                proof {
                    assert(entry_ok(entries@[i2 as int], acts, d));
                }
                let (s, e) = bounds(&entries[i2].0);
                let c0 = scale(s, lo, hi, avail);
                let c1 = scale(e, lo, hi, avail);
                proof {
                    lemma_scale_monotone(s as int, e as int, lo as int, hi as int, avail as int);
                }
                if i2 > 0 && prev_c1 > c0 {
                    let t1 = entries[i2 - 1].0.1.get_title();
                    let t2 = entries[i2].0.1.get_title();
                    proof {
                        let pe2 = entries@[i2 - 1];
                        let qe = entries@[i2 as int];
                        assert(entry_ok(pe2, acts, d));
                        if rel_stop(pe2.0.1@) <= s {
                            lemma_scale_monotone(
                                lo as int,
                                rel_stop(pe2.0.1@),
                                lo as int,
                                hi as int,
                                avail as int,
                            );
                            lemma_scale_monotone(
                                rel_stop(pe2.0.1@),
                                s as int,
                                lo as int,
                                hi as int,
                                avail as int,
                            );
                            assert(false);
                        }
                        assert(entry_key_le(pe2, qe));
                        lemma_conflict_transfer(pe2, qe, acts, d);
                        assert(pe2.1@ != qe.1@);
                        let i0 = pe2.1@;
                        let j0 = qe.1@;
                        assert(pe2.0.1@.start_time.timestamp() == pe2.0.1@.start_time.spec_day_index()
                            * (SECONDS_PER_DAY as int) + pe2.0.1@.start_time.spec_second_of_day());
                        assert(qe.0.1@.start_time.timestamp() == qe.0.1@.start_time.spec_day_index()
                            * (SECONDS_PER_DAY as int) + qe.0.1@.start_time.spec_second_of_day());
                        assert(rel_stop(pe2.0.1@) == piece_rel_stop(acts[i0].1@, d));
                        assert(qe.0.1@.start_time.spec_second_of_day() == piece_rel_start(
                            acts[j0].1@,
                            d,
                        ));
                        assert(pe2.0.1@.start_time.spec_second_of_day() == piece_rel_start(
                            acts[i0].1@,
                            d,
                        ));
                        assert(rel_stop(qe.0.1@) == piece_rel_stop(acts[j0].1@, d));
                        assert(piece_key_le(acts[i0].1@, acts[j0].1@, d));
                        assert(prev_c1 as int == spec_scale(
                            piece_rel_stop(acts[i0].1@, d),
                            day_lo(acts, d),
                            day_hi(acts, d),
                            day_avail(acts, d, w),
                        ));
                        assert(c0 as int == spec_scale(
                            piece_rel_start(acts[j0].1@, d),
                            day_lo(acts, d),
                            day_hi(acts, d),
                            day_avail(acts, d, w),
                        ));
                        assert(cols_conflict(acts, w, d, i0, j0));
                    }
                    return Err(TimelineError::Intersection(t1, t2));
                }
                let (ltxt, lcol) = legend(&entries[i2].0);
                let lchunks = chunkify(ltxt.as_str(), c1 - c0);
                let (dtxt, dcol) = label(&entries[i2].0, colors);
                let dchunks = chunkify(dtxt.as_str(), c1 - c0);
                let ghost segs_pre = segs_legend@;
                segs_legend.push(Segment { c0, c1, chunks: paint_chunks(&lchunks, lcol) });
                segs_data.push(Segment { c0, c1, chunks: paint_chunks(&dchunks, dcol) });
                proof {
                    assert forall|k1: int, k2: int|
                        0 <= k1 < k2 < i2 + 1 implies (#[trigger] segs_legend@[k1]).c1 <= (
                        #[trigger] segs_legend@[k2]).c0 by {
                        if k2 == i2 as int {
                            if i2 > 0 && k1 < i2 - 1 {
                                assert(segs_pre[k1].c1 <= segs_pre[i2 - 1].c0);
                                assert(segs_pre[i2 - 1].c0 <= segs_pre[i2 - 1].c1);
                            }
                        } else {
                            assert(segs_legend@[k1] == segs_pre[k1]);
                            assert(segs_legend@[k2] == segs_pre[k2]);
                        }
                    };
                }
                prev_c1 = c1;
                i2 = i2 + 1;
            }
            proof {
                assert forall|i: int, j: int| !(#[trigger] cols_conflict(acts, w, d, i, j)) by {
                    if cols_conflict(acts, w, d, i, j) {
                        let a = choose|k: int|
                            0 <= k < entries@.len() && (#[trigger] entries@[k]).1@ == i;
                        let b = choose|k: int|
                            0 <= k < entries@.len() && (#[trigger] entries@[k]).1@ == j;
                        assert(entry_ok(entries@[a], acts, d));
                        assert(entry_ok(entries@[b], acts, d));
                        let pa = entries@[a].0.1@;
                        let pb = entries@[b].0.1@;
                        assert(pa.start_time.timestamp() == pa.start_time.spec_day_index() * (
                        SECONDS_PER_DAY as int) + pa.start_time.spec_second_of_day());
                        assert(pb.start_time.timestamp() == pb.start_time.spec_day_index() * (
                        SECONDS_PER_DAY as int) + pb.start_time.spec_second_of_day());
                        assert(pa.start_time.spec_second_of_day() == piece_rel_start(acts[i].1@, d));
                        assert(rel_stop(pa) == piece_rel_stop(acts[i].1@, d));
                        assert(pb.start_time.spec_second_of_day() == piece_rel_start(acts[j].1@, d));
                        assert(rel_stop(pb) == piece_rel_stop(acts[j].1@, d));
                        assert(a != b);
                        if a < b {
                            assert(segs_legend@[a].c1 <= segs_legend@[b].c0);
                        } else {
                            assert(entry_key_le(entries@[b], entries@[a]));
                            assert(piece_rel_start(acts[i].1@, d) == piece_rel_start(acts[j].1@, d));
                            assert(piece_rel_stop(acts[i].1@, d) == piece_rel_stop(acts[j].1@, d));
                            assert(segs_legend@[b].c1 <= segs_legend@[a].c0);
                        }
                        assert(false);
                    }
                };
            }
            let mut legend_suffix = crate::text::spaces(3);
            legend_suffix.append(day_label.as_str());
            let eight = crate::text::spaces(8);
            build_row_lines(&segs_legend, avail, &legend_suffix, &eight, &mut rendered);
            build_row_lines(&segs_data, avail, &total_str, &eight, &mut rendered);
        } else {
            proof {
                assert forall|i: int, j: int| !(#[trigger] cols_conflict(acts, w, d, i, j)) by {
                    if cols_conflict(acts, w, d, i, j) {
                        assert(has_piece(acts[i].1@, d));
                        assert(exists|k: int|
                            0 <= k < entries@.len() && (#[trigger] entries@[k]).1@ == i);
                        assert(false);
                    }
                };
            }
        }
        day = day + 1;
    }
    proof {
        assert forall|d2: int, i: int, j: int|
            !(#[trigger] cols_conflict(acts, w, d2, i, j)) by {
            if cols_conflict(acts, w, d2, i, j) {
                lemma_piece_day_in_span(acts[i].1@, d2);
                assert(min_day <= d2 <= max_day);
            }
        };
    }
    Ok(rendered)
}

/// Renders the activities as day rows for the attached terminal, or for a
/// width of 90 columns when none can be detected.
pub fn render_days(activities: &Vec<Interval>, colors: &Vec<Rgb>) -> (r: Result<
    Vec<String>,
    TimelineError,
>)
    requires
        forall|i: int| 0 <= i < activities@.len() ==> (#[trigger] activities@[i]).1.is_valid(),
        activities@.len() < 1000000,
        colors@.len() > 0,
    ensures
        r matches Ok(lines) ==> (activities@.len() == 0 ==> lines@.len() == 0),
        r is Err ==> exists|w0: int| 0 <= w0 && any_cols_conflict(activities@, w0),
        (forall|i: int, j: int|
            0 <= i < activities@.len() && 0 <= j < activities@.len() && i != j
                ==> !ranges_conflict(
                (#[trigger] activities@[i]).1@,
                (#[trigger] activities@[j]).1@,
            )) ==> r is Ok,
        (match r {
            Err(TimelineError::Intersection(t1, t2)) => exists|i: int, j: int|
                0 <= i < activities@.len() && 0 <= j < activities@.len() && i != j
                    && ranges_conflict(
                    (#[trigger] activities@[i]).1@,
                    (#[trigger] activities@[j]).1@,
                ) && t1@ == activities@[i].1@.title() && t2@ == activities@[j].1@.title(),
            _ => true,
        }),
{
    let width = match terminal_width() {
        Some(w) => w,
        None => DEFAULT_TERMINAL_SIZE,
    };
    render_days_with_width(activities, colors, width)
}

} // verus!
