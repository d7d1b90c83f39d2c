//! Natural-language time parsing, through the htp parser.
//!
//! The parser is evaluated against a fixed-offset (UTC) reference built from
//! the library's zone-less civil instant, so no local daylight-saving
//! resolution takes part; callers bound the digit runs in the input so the
//! parser's duration arithmetic stays in range.

use vstd::prelude::*;

use chrono::{Datelike, TimeZone, Timelike};

use crate::chrono_clock::{clamp_to_instant, ChronoClock};
use crate::clock::{Clock, Time};
use crate::datetimew::DateTimeW;

verus! {

/// Seven decimal digits stand at position `i` of `s`.
pub open spec fn seven_digits_at(s: Seq<char>, i: int) -> bool {
    0 <= i && i + 7 <= s.len() && forall|j: int| i <= j < i + 7 ==> '0' <= #[trigger] s[j] <= '9'
}

/// Every run of consecutive decimal digits in `s` is at most six long.
pub open spec fn digit_runs_bounded(s: Seq<char>) -> bool {
    forall|i: int| !(#[trigger] seven_digits_at(s, i))
}

/// Decides whether every digit run in `s` is at most six long.
pub fn check_digit_runs(s: &str) -> (r: bool)
    ensures
        r == digit_runs_bounded(s@),
{
    let cs = crate::text::chars_vec(s);
    let n = cs.len();
    let mut run: usize = 0;
    let mut i: usize = 0;
    while i < n
        invariant
            n == cs@.len(),
            cs@ == s@,
            i <= n,
            run <= i,
            run <= 6,
            forall|j: int| i - run <= j < i ==> '0' <= #[trigger] cs@[j] <= '9',
            i >= run + 1 ==> !('0' <= cs@[i - run - 1] <= '9'),
            forall|k: int| k + 7 <= i ==> !(#[trigger] seven_digits_at(cs@, k)),
        decreases n - i,
    {
        let ghost old_run = run as int;
        let ghost old_i = i as int;
        let c = cs[i];
        let digit = '0' <= c && c <= '9';
        if digit {
            if run == 6 {
                proof {
                    assert(forall|j: int| i - 6 <= j <= i ==> '0' <= #[trigger] cs@[j] <= '9');
                    assert(seven_digits_at(cs@, i - 6));
                }
                return false;
            }
            run = run + 1;
        } else {
            run = 0;
        }
        i = i + 1;
        proof {
            assert forall|k: int| k + 7 <= i implies !(#[trigger] seven_digits_at(cs@, k)) by {
                if k >= 0 && k + 7 == i {
                    if digit {
                        assert(old_i >= old_run + 1);
                        assert(!('0' <= cs@[old_i - old_run - 1] <= '9'));
                        assert(k <= old_i - old_run - 1 < k + 7);
                    } else {
                        assert(!('0' <= cs@[old_i] <= '9'));
                        assert(k <= old_i < k + 7);
                    }
                }
            };
        }
    }
    proof {
        assert forall|k: int| !(#[trigger] seven_digits_at(s@, k)) by {
            if 0 <= k && k + 7 <= n {
                assert(!seven_digits_at(cs@, k));
            }
        };
    }
    true
}

/// Relies on htp's `parse`, evaluated against a UTC reference built with
/// chrono from the given valid instant (a valid civil date and time always
/// builds, and UTC has no daylight-saving gaps, so the evaluator's
/// date-and-time constructions cannot fail); with every digit run bounded,
/// the parser's duration values and date offsets stay inside chrono's range.
/// On success hands back the parsed instant's year, month (1 to 12), day (1
/// to 31), hour (below 24), minute and second (below 60); on failure, the
/// parser's message.
#[verifier::external_body]
fn htp_parse(s: &str, now: &DateTimeW) -> (r: Result<(i32, u8, u8, u8, u8, u8), String>)
    requires
        now.is_valid(),
        digit_runs_bounded(s@),
    ensures
        r matches Ok(f) ==> 1 <= f.1 <= 12 && 1 <= f.2 <= 31 && f.3 < 24 && f.4 < 60 && f.5 < 60,
{
    let reference = chrono::Utc
        .with_ymd_and_hms(
            now.year as i32, now.month as u32, now.day as u32,
            now.hour as u32, now.minute as u32, now.second as u32,
        )
        .unwrap();
    match htp::parse(s, reference) {
        Ok(d) => Ok((d.year(), d.month() as u8, d.day() as u8, d.hour() as u8, d.minute() as u8, d.second() as u8)),
        Err(e) => Err(e.to_string()),
    }
}

/// Time-parsing helpers over the natural-language parser.
pub struct TimeTools {}

impl TimeTools {
    /// Whether `s` parses as a time clue against the current clock. Inputs
    /// with digit runs longer than six are not accepted as times.
    pub fn is_time(s: &str) -> bool {
        if !check_digit_runs(s) {
            return false;
        }
        let now = (ChronoClock {  }).get_time();
        htp_parse(s, &now).is_ok()
    }

    /// Parses `s` against the clock's current time; on success the result is
    /// an absolute, valid instant. Inputs with digit runs longer than six
    /// are rejected with a message.
    pub fn time_from_str<C: Clock>(s: &str, clock: &C) -> (r: Result<Time, String>)
        ensures
            r matches Ok(t) ==> t matches Time::DateTime(dt) && dt.is_valid(),
    {
        if !check_digit_runs(s) {
            let mut msg = String::new();
            msg.append("too many consecutive digits in time clue");
            return Err(msg);
        }
        let now = clock.get_time();
        match htp_parse(s, &now) {
            Ok((y, month, day, hour, minute, second)) => Ok(
                Time::DateTime(clamp_to_instant(y, month, day, hour, minute, second)),
            ),
            Err(e) => Err(e),
        }
    }
}

} // verus!
