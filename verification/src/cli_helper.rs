//! Token-splitting helpers behind the command line: separating a leading
//! time clue (or a time range) from the activity tags.

use vstd::prelude::*;

use crate::activity::clone_strings;
use crate::clock::{Clock, Time};
use crate::text::join_space;
use crate::time_tools::TimeTools;

verus! {

/// Whether a parsed `Time` is well-formed.
pub open spec fn time_wf(t: Time) -> bool {
    match t {
        Time::Now => true,
        Time::DateTime(dt) => dt.is_valid(),
    }
}

/// Copies the tokens from `from` on.
fn suffix_of(tokens: &Vec<String>, from: usize) -> (r: Vec<String>)
    requires
        from <= tokens@.len(),
    ensures
        r@ == tokens@.skip(from as int),
{
    let mut r: Vec<String> = Vec::new();
    let mut i: usize = from;
    while i < tokens.len()
        invariant
            from <= i <= tokens@.len(),
            r@ == tokens@.subrange(from as int, i as int),
        decreases tokens@.len() - i,
    {
        r.push(tokens[i].clone());
        i = i + 1;
        proof {
            assert(r@ =~= tokens@.subrange(from as int, i as int));
        }
    }
    proof {
        assert(tokens@.subrange(from as int, tokens@.len() as int) =~= tokens@.skip(from as int));
    }
    r
}

/// Copies the tokens before `to`.
fn prefix_of(tokens: &Vec<String>, to: usize) -> (r: Vec<String>)
    requires
        to <= tokens@.len(),
    ensures
        r@ == tokens@.take(to as int),
{
    let mut r: Vec<String> = Vec::new();
    let mut i: usize = 0;
    while i < to
        invariant
            i <= to <= tokens@.len(),
            r@ == tokens@.take(i as int),
        decreases to - i,
    {
        r.push(tokens[i].clone());
        i = i + 1;
        proof {
            assert(r@ =~= tokens@.take(i as int));
        }
    }
    r
}

/// Splits a leading time clue from the tags: the longest token prefix that
/// the time parser accepts becomes the time, the rest are the tags; with no
/// accepted prefix the time is `Now` and every token is a tag.
pub fn split_time_clue_from_tags<C: Clock>(tokens: &Vec<String>, clock: &C) -> (r: (
    Time,
    Vec<String>,
))
    ensures
        time_wf(r.0),
        exists|at: int| 0 <= at <= tokens@.len() && r.1@ == tokens@.skip(at),
        r.0 is Now ==> r.1@ == tokens@,
{
    let n = tokens.len();
    let mut at: usize = n;
    loop
        invariant
            at <= n,
            n == tokens@.len(),
        decreases at + 1,
    {
        let clue_tokens = prefix_of(tokens, at);
        let clue = join_space(&clue_tokens);
        if TimeTools::is_time(clue.as_str()) {
            match TimeTools::time_from_str(clue.as_str(), clock) {
                Ok(time) => {
                    let tags = suffix_of(tokens, at);
                    return (time, tags);
                },
                Err(_) => {},
            }
        }
        if at == 0 {
            let tags = clone_strings(tokens);
            proof {
                assert(tokens@.skip(0) =~= tokens@);
            }
            return (Time::Now, tags);
        }
        at = at - 1;
    }
}

/// Whether the token is the range separator `-`.
fn is_separator(token: &String) -> (r: bool)
    ensures
        r == (token@ == "-"@),
{
    let dash: String = "-".to_owned();
    token.eq(&dash)
}

/// The index of the first `-` separator token, if any.
fn find_separator(tokens: &Vec<String>) -> (r: Option<usize>)
    ensures
        r matches Some(at) ==> at < tokens@.len() && tokens@[at as int]@ == "-"@,
        r is None ==> forall|i: int| 0 <= i < tokens@.len() ==> (#[trigger] tokens@[i])@ != "-"@,
{
    let mut i: usize = 0;
    let n = tokens.len();
    while i < n
        invariant
            i <= n,
            n == tokens@.len(),
            forall|j: int| 0 <= j < i ==> (#[trigger] tokens@[j])@ != "-"@,
        decreases n - i,
    {
        if is_separator(&tokens[i]) {
            return Some(i);
        }
        i = i + 1;
    }
    None
}

/// Splits `start - end tags...` into the two range bounds and the tags: the
/// tokens before the first `-` are the range start, a time clue after it is
/// the range end, and the remaining tokens are the tags. Fails with a hint
/// when no `-` separator token is present, and with the parser's message
/// when the range start cannot be parsed.
pub fn split_time_range_from_tags<C: Clock>(tokens: &Vec<String>, clock: &C) -> (r: Result<
    (Time, Time, Vec<String>),
    String,
>)
    ensures
        r matches Ok(t) ==> time_wf(t.0) && time_wf(t.1),
        (forall|i: int| 0 <= i < tokens@.len() ==> (#[trigger] tokens@[i])@ != "-"@) ==> r is Err,
{
    match find_separator(tokens) {
        None => {
            let mut msg = String::new();
            msg.append("missing ' - ' between range start and range end? ");
            Err(msg)
        },
        Some(at) => {
            let n = tokens.len();
            proof {
                assert(at < n);
            }
            let start_tokens = prefix_of(tokens, at);
            let start_clue = join_space(&start_tokens);
            match TimeTools::time_from_str(start_clue.as_str(), clock) {
                Ok(range_start) => {
                    let rest = suffix_of(tokens, at + 1);
                    let (range_end, tags) = split_time_clue_from_tags(&rest, clock);
                    Ok((range_start, range_end, tags))
                },
                Err(e) => Err(e),
            }
        },
    }
}

/// Splits `start - end` into the two range bounds: the tokens before the
/// first `-` are the range start; an empty remainder means the range ends
/// now. Fails with a hint when no `-` separator token is present, and when
/// either bound cannot be parsed.
pub fn split_time_range<C: Clock>(tokens: &Vec<String>, clock: &C) -> (r: Result<
    (Time, Time),
    String,
>)
    ensures
        r matches Ok(t) ==> time_wf(t.0) && time_wf(t.1),
        (forall|i: int| 0 <= i < tokens@.len() ==> (#[trigger] tokens@[i])@ != "-"@) ==> r is Err,
{
    match find_separator(tokens) {
        None => {
            let mut msg = String::new();
            msg.append("missing ' - ' between range start and range end? ");
            Err(msg)
        },
        Some(at) => {
            let n = tokens.len();
            proof {
                assert(at < n);
            }
            let start_tokens = prefix_of(tokens, at);
            let start_clue = join_space(&start_tokens);
            let range_start = match TimeTools::time_from_str(start_clue.as_str(), clock) {
                Ok(t) => t,
                Err(_) => {
                    let mut msg = String::new();
                    msg.append("invalid range");
                    return Err(msg);
                },
            };
            let end_tokens = suffix_of(tokens, at + 1);
            if end_tokens.len() == 0 {
                Ok((range_start, Time::Now))
            } else {
                let end_clue = join_space(&end_tokens);
                match TimeTools::time_from_str(end_clue.as_str(), clock) {
                    Ok(range_end) => Ok((range_start, range_end)),
                    Err(_) => {
                        let mut msg = String::new();
                        msg.append("invalid range");
                        Err(msg)
                    },
                }
            }
        },
    }
}

} // verus!
