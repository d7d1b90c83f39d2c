//! Signed spans of seconds.

use vstd::prelude::*;

use crate::text::{append_two_digits, push_char, two_digits};

verus! {

/// A span of time in whole seconds.
///
/// Durations of activities are non-negative by construction (a finished
/// activity never stops before it starts); the type itself also carries the
/// signed differences that status reporting needs.
#[derive(Clone, Copy, Debug, PartialEq, Eq, Structural)]
pub struct DurationW {
    pub secs: i64,
}

impl DurationW {
    /// A duration of `secs` seconds.
    pub fn new(secs: i64) -> (r: DurationW)
        ensures
            r.secs == secs,
    {
        DurationW { secs }
    }

    /// The display form `HH:MM:SS`; hours may exceed 24.
    pub open spec fn spec_text(self) -> Seq<char> {
        two_digits(self.secs as int / 3600) + seq![':'] + two_digits(self.secs as int / 60 % 60)
            + seq![':'] + two_digits(self.secs as int % 60)
    }

    /// Formats this span as `HH:MM:SS` (hours may exceed 24).
    pub fn hh_mm_ss(&self) -> (r: String)
        requires
            self.secs >= 0,
        ensures
            r@ == self.spec_text(),
    {
        let mut r = String::new();
        append_two_digits(&mut r, (self.secs / 3600) as u64);
        push_char(&mut r, ':');
        append_two_digits(&mut r, (self.secs / 60 % 60) as u64);
        push_char(&mut r, ':');
        append_two_digits(&mut r, (self.secs % 60) as u64);
        proof {
            assert(r@ =~= self.spec_text());
        }
        r
    }

    /// The sum of the two spans.
    pub fn plus(&self, rhs: &DurationW) -> (r: DurationW)
        requires
            i64::MIN <= self.secs + rhs.secs <= i64::MAX,
        ensures
            r.secs == self.secs + rhs.secs,
    {
        DurationW { secs: self.secs + rhs.secs }
    }
}

impl Default for DurationW {
    /// The zero span, the identity of `plus`.
    fn default() -> (r: DurationW)
        ensures
            r.secs == 0,
    {
        DurationW { secs: 0 }
    }
}

/// Addition of spans is associative.
pub proof fn lemma_plus_associative(a: DurationW, b: DurationW, c: DurationW)
    ensures
        a.secs + (b.secs + c.secs) == (a.secs + b.secs) + c.secs,
{
}

} // verus!
