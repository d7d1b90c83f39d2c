//! Status rendering: one line per ongoing activity, driven by a template
//! with `{id}`, `{ongoing}`, `{start}`, `{human_duration}` and `{duration}`
//! placeholders, joined by single spaces.

use vstd::prelude::*;

use crate::activity::{OngoingActivity, OngoingView};
use crate::datetimew::DateTimeW;
use crate::durationw::DurationW;
use crate::text::{chars_vec, dec_digits, join_space, push_char, spec_join, two_digits};
use crate::ActivityId;

verus! {

/// `s` with every non-overlapping occurrence of `pat`, scanned left to
/// right, replaced by `rep`.
pub open spec fn spec_replace(s: Seq<char>, pat: Seq<char>, rep: Seq<char>) -> Seq<char>
    decreases s.len(),
    when pat.len() > 0
{
    if s.len() < pat.len() {
        s
    } else if s.subrange(0, pat.len() as int) == pat {
        rep + spec_replace(s.skip(pat.len() as int), pat, rep)
    } else {
        seq![s[0]] + spec_replace(s.skip(1), pat, rep)
    }
}

/// `pat` occurs in `cs` at position `i`.
fn match_at(cs: &Vec<char>, patc: &Vec<char>, i: usize) -> (r: bool)
    requires
        i <= cs@.len(),
    ensures
        r == (i + patc@.len() <= cs@.len() && cs@.subrange(i as int, i + patc@.len()) == patc@),
{
    let n = cs.len();
    let m = patc.len();
    if n - i < m {
        return false;
    }
    let mut j: usize = 0;
    while j < m
        invariant
            n == cs@.len(),
            m == patc@.len(),
            i + m <= n,
            j <= m,
            cs@.subrange(i as int, i + j) == patc@.subrange(0, j as int),
        decreases m - j,
    {
        if cs[i + j] != patc[j] {
            proof {
                assert(cs@.subrange(i as int, i + patc@.len())[j as int] == cs@[i + j]);
                assert(patc@[j as int] != cs@[i + j]);
            }
            return false;
        }
        j = j + 1;
        proof {
            assert(cs@.subrange(i as int, i + j) =~= patc@.subrange(0, j as int));
        }
    }
    proof {
        assert(patc@.subrange(0, patc@.len() as int) == patc@);
        assert(cs@.subrange(i as int, i + patc@.len()) == patc@);
    }
    true
}

/// Replaces every non-overlapping occurrence of `pat` in `s` by `rep`,
/// scanning left to right.
pub fn replace_all(s: &str, pat: &str, rep: &str) -> (r: String)
    requires
        pat@.len() > 0,
    ensures
        r@ == spec_replace(s@, pat@, rep@),
{
    let cs = chars_vec(s);
    let patc = chars_vec(pat);
    let mut r = String::new();
    let mut i: usize = 0;
    let n = cs.len();
    proof {
        assert(cs@.skip(0) =~= cs@);
    }
    while i < n
        invariant
            n == cs@.len(),
            cs@ == s@,
            patc@ == pat@,
            pat@.len() > 0,
            i <= n,
            spec_replace(s@, pat@, rep@) == r@ + spec_replace(cs@.skip(i as int), pat@, rep@),
        decreases n - i,
    {
        let ghost pre = i as int;
        if match_at(&cs, &patc, i) {
            r.append(rep);
            i = i + patc.len();
            proof {
                let tail = cs@.skip(pre);
                assert(tail.subrange(0, pat@.len() as int) =~= cs@.subrange(
                    pre,
                    pre + pat@.len(),
                ));
                assert(tail.skip(pat@.len() as int) =~= cs@.skip(i as int));
                assert(spec_replace(tail, pat@, rep@) == rep@ + spec_replace(
                    cs@.skip(i as int),
                    pat@,
                    rep@,
                ));
            }
        } else {
            push_char(&mut r, cs[i]);
            i = i + 1;
            proof {
                let tail = cs@.skip(pre);
                assert(tail[0] == cs@[pre]);
                assert(tail.skip(1) =~= cs@.skip(i as int));
                if tail.len() >= pat@.len() {
                    assert(tail.subrange(0, pat@.len() as int) =~= cs@.subrange(
                        pre,
                        pre + pat@.len(),
                    ));
                    assert(tail.subrange(0, pat@.len() as int) != pat@);
                    assert(spec_replace(tail, pat@, rep@) == seq![cs@[pre]] + spec_replace(
                        tail.skip(1),
                        pat@,
                        rep@,
                    ));
                } else {
                    assert(spec_replace(tail, pat@, rep@) == tail);
                    assert(spec_replace(tail.skip(1), pat@, rep@) == tail.skip(1));
                    assert(tail =~= seq![cs@[pre]] + tail.skip(1));
                }
            }
        }
    }
    proof {
        assert(cs@.skip(n as int) =~= Seq::<char>::empty());
        assert(spec_replace(Seq::<char>::empty(), pat@, rep@) == Seq::<char>::empty());
        assert(r@ =~= spec_replace(s@, pat@, rep@));
    }
    r
}

/// What chrono_humanize renders for a span of seconds.
pub uninterp spec fn human_duration_of(secs: int) -> Seq<char>;

/// Relies on chrono_humanize's `HumanTime` display: deterministic in the
/// span it is built from. The bound keeps the span inside the range that
/// chrono's duration constructor accepts (a millisecond count within `i64`).
#[verifier::external_body]
fn human_time(secs: i64) -> (r: String)
    requires
        -9_000_000_000_000_000 <= secs <= 9_000_000_000_000_000,
    ensures
        r@ == human_duration_of(secs as int),
{
    format!("{}", chrono_humanize::HumanTime::from(chrono::Duration::seconds(secs)))
}

/// The status line of one ongoing activity: the template with `{id}`,
/// `{ongoing}`, `{start}`, `{human_duration}` and `{duration}` substituted,
/// in that order. The elapsed `{duration}` clamps at zero for a start time
/// in the clock's future.
pub open spec fn status_line(fmt: Seq<char>, id: int, o: OngoingView, now: DateTimeW) -> Seq<
    char,
> {
    let human = human_duration_of(o.start_time.timestamp() - now.timestamp());
    let dsecs = if now.timestamp() >= o.start_time.timestamp() {
        now.timestamp() - o.start_time.timestamp()
    } else {
        0
    };
    let dur = two_digits(dsecs / 3600) + seq![':'] + two_digits(dsecs / 60 % 60) + seq![':']
        + two_digits(dsecs % 60);
    spec_replace(
        spec_replace(
            spec_replace(
                spec_replace(spec_replace(fmt, "{id}"@, dec_digits(id)), "{ongoing}"@, o.title()),
                "{start}"@,
                o.start_time.spec_text(),
            ),
            "{human_duration}"@,
            human,
        ),
        "{duration}"@,
        dur,
    )
}

/// The template in force: the given one, or `{ongoing}`.
pub open spec fn template_view(format_string: Option<String>) -> Seq<char> {
    match format_string {
        None => "{ongoing}"@,
        Some(f) => f@,
    }
}

/// Renders the status of the ongoing activities against `now`: one line per
/// activity under the template (`{ongoing}` when none is given), joined by
/// single spaces.
pub fn format_status(
    format_string: Option<String>,
    ongoing: &Vec<(ActivityId, OngoingActivity)>,
    now: DateTimeW,
) -> (r: String)
    requires
        now.is_valid(),
        forall|i: int| 0 <= i < ongoing@.len() ==> (#[trigger] ongoing@[i]).1.is_valid(),
    ensures
        r@ == spec_join(
            Seq::new(
                ongoing@.len(),
                |i: int|
                    status_line(
                        template_view(format_string),
                        ongoing@[i].0 as int,
                        ongoing@[i].1@,
                        now,
                    ),
            ),
            seq![' '],
        ),
{
    let ghost wanted = template_view(format_string);
    let fmt: String = match format_string {
        None => {
            let mut d = String::new();
            d.append("{ongoing}");
            proof {
                assert(d@ =~= "{ongoing}"@);
            }
            d
        },
        Some(f) => f,
    };
    let ghost fmtv = fmt@;
    proof {
        assert(fmtv == wanted);
    }
    let ghost lines = Seq::new(
        ongoing@.len(),
        |i: int| status_line(fmtv, ongoing@[i].0 as int, ongoing@[i].1@, now),
    );
    proof {
        reveal_strlit("{id}");
        reveal_strlit("{ongoing}");
        reveal_strlit("{start}");
        reveal_strlit("{human_duration}");
        reveal_strlit("{duration}");
    }
    let mut entries: Vec<String> = Vec::new();
    let mut i: usize = 0;
    let n = ongoing.len();
    while i < n
        invariant
            n == ongoing@.len(),
            i <= n,
            now.is_valid(),
            fmt@ == fmtv,
            forall|x: int| 0 <= x < n ==> (#[trigger] ongoing@[x]).1.is_valid(),
            lines == Seq::new(
                ongoing@.len(),
                |x: int| status_line(fmtv, ongoing@[x].0 as int, ongoing@[x].1@, now),
            ),
            entries@.len() == i,
            forall|x: int| 0 <= x < i ==> (#[trigger] entries@[x])@ == lines[x],
            "{id}"@.len() > 0,
            "{ongoing}"@.len() > 0,
            "{start}"@.len() > 0,
            "{human_duration}"@.len() > 0,
            "{duration}"@.len() > 0,
        decreases n - i,
    {
        let (id, o) = (ongoing[i].0, &ongoing[i].1);
        proof {
            crate::datetimew::lemma_timestamp_bounds(now);
            crate::datetimew::lemma_timestamp_bounds(o.start_time);
        }
        let mut id_text = String::new();
        crate::text::append_u64(&mut id_text, id as u64);
        let title = o.get_title();
        let start_text = o.get_start_time().to_text();
        let started = o.get_start_time().diff(&now);
        let human = human_time(started.secs);
        let elapsed = now.diff(&o.get_start_time());
        let clamped = DurationW::new(
            if elapsed.secs >= 0 {
                elapsed.secs
            } else {
                0
            },
        );
        let dur_text = clamped.hh_mm_ss();
        let s1 = replace_all(fmt.as_str(), "{id}", id_text.as_str());
        let s2 = replace_all(s1.as_str(), "{ongoing}", title.as_str());
        let s3 = replace_all(s2.as_str(), "{start}", start_text.as_str());
        let s4 = replace_all(s3.as_str(), "{human_duration}", human.as_str());
        let s5 = replace_all(s4.as_str(), "{duration}", dur_text.as_str());
        entries.push(s5);
        proof {
            assert(entries@[i as int]@ == lines[i as int]);
        }
        i = i + 1;
    }
    proof {
        assert(entries@.map_values(|p: String| p@) =~= lines);
        assert(lines =~= Seq::new(
            ongoing@.len(),
            |x: int|
                status_line(
                    template_view(format_string),
                    ongoing@[x].0 as int,
                    ongoing@[x].1@,
                    now,
                ),
        ));
    }
    join_space(&entries)
}

} // verus!
