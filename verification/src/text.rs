//! Verified text building: decimal formatting, joining, and chunk padding
//! helpers shared by displays and the timeline renderer.

use vstd::prelude::*;

verus! {

/// The decimal digit character for `d` (0 to 9).
pub open spec fn digit_char(d: int) -> char {
    if d == 0 {
        '0'
    } else if d == 1 {
        '1'
    } else if d == 2 {
        '2'
    } else if d == 3 {
        '3'
    } else if d == 4 {
        '4'
    } else if d == 5 {
        '5'
    } else if d == 6 {
        '6'
    } else if d == 7 {
        '7'
    } else if d == 8 {
        '8'
    } else {
        '9'
    }
}

/// Decimal digits of `n`, most significant first, no padding.
pub open spec fn dec_digits(n: int) -> Seq<char>
    decreases n,
{
    if n < 10 {
        seq![digit_char(n)]
    } else {
        dec_digits(n / 10).push(digit_char(n % 10))
    }
}

/// `n` in decimal, zero-padded to at least two digits.
pub open spec fn two_digits(n: int) -> Seq<char> {
    if n < 10 {
        seq!['0', digit_char(n)]
    } else {
        dec_digits(n)
    }
}

/// `n` in decimal, zero-padded to four digits (`n` below 10000).
pub open spec fn four_digits(n: int) -> Seq<char> {
    seq![
        digit_char(n / 1000 % 10),
        digit_char(n / 100 % 10),
        digit_char(n / 10 % 10),
        digit_char(n % 10),
    ]
}

/// `parts` joined by `sep`.
pub open spec fn spec_join(parts: Seq<Seq<char>>, sep: Seq<char>) -> Seq<char>
    decreases parts.len(),
{
    if parts.len() == 0 {
        Seq::empty()
    } else if parts.len() == 1 {
        parts[0]
    } else {
        spec_join(parts.drop_last(), sep) + sep + parts.last()
    }
}

/// Appends one character.
///
/// Relies on std's `String::push`: appends the given char to the end of
/// this `String`.
#[verifier::external_body]
pub fn push_char(s: &mut String, c: char)
    ensures
        final(s)@ == old(s)@.push(c),
{
    s.push(c);
}

/// The characters of `s`, in order.
///
/// Relies on std's `str::chars`: an iterator over the chars of a string
/// slice, front to back.
#[verifier::external_body]
pub fn chars_vec(s: &str) -> (r: Vec<char>)
    ensures
        r@ == s@,
{
    s.chars().collect()
}

/// The digit character for `d`.
pub fn digit(d: u64) -> (r: char)
    requires
        d < 10,
    ensures
        r == digit_char(d as int),
{
    if d == 0 {
        '0'
    } else if d == 1 {
        '1'
    } else if d == 2 {
        '2'
    } else if d == 3 {
        '3'
    } else if d == 4 {
        '4'
    } else if d == 5 {
        '5'
    } else if d == 6 {
        '6'
    } else if d == 7 {
        '7'
    } else if d == 8 {
        '8'
    } else {
        '9'
    }
}

/// Appends `n` in decimal, no padding.
pub fn append_u64(s: &mut String, n: u64)
    ensures
        final(s)@ == old(s)@ + dec_digits(n as int),
    decreases n,
{
    if n < 10 {
        push_char(s, digit(n));
    } else {
        append_u64(s, n / 10);
        push_char(s, digit(n % 10));
        proof {
            assert(old(s)@ + dec_digits(n as int) == (old(s)@ + dec_digits(n as int / 10)).push(
                digit_char(n as int % 10),
            ));
        }
    }
}

/// Appends `n` in decimal, zero-padded to at least two digits.
pub fn append_two_digits(s: &mut String, n: u64)
    ensures
        final(s)@ == old(s)@ + two_digits(n as int),
{
    if n < 10 {
        push_char(s, '0');
        push_char(s, digit(n));
        proof {
            assert(old(s)@ + two_digits(n as int) == old(s)@.push('0').push(
                digit_char(n as int),
            ));
        }
    } else {
        append_u64(s, n);
    }
}

/// Appends `n` in decimal, zero-padded to four digits.
pub fn append_four_digits(s: &mut String, n: u64)
    requires
        n < 10000,
    ensures
        final(s)@ == old(s)@ + four_digits(n as int),
{
    push_char(s, digit(n / 1000 % 10));
    push_char(s, digit(n / 100 % 10));
    push_char(s, digit(n / 10 % 10));
    push_char(s, digit(n % 10));
    proof {
        assert(old(s)@ + four_digits(n as int) == old(s)@.push(digit_char(n as int / 1000 % 10)).push(
            digit_char(n as int / 100 % 10),
        ).push(digit_char(n as int / 10 % 10)).push(digit_char(n as int % 10)));
    }
}

/// `parts` joined by a single space.
pub fn join_space(parts: &Vec<String>) -> (r: String)
    ensures
        r@ == spec_join(parts@.map_values(|p: String| p@), seq![' ']),
    decreases parts@.len(),
{
    let ghost views = parts@.map_values(|p: String| p@);
    let mut r = String::new();
    let mut i: usize = 0;
    while i < parts.len()
        invariant
            i <= parts@.len(),
            views == parts@.map_values(|p: String| p@),
            r@ == spec_join(views.take(i as int), seq![' ']),
        decreases parts@.len() - i,
    {
        if i > 0 {
            push_char(&mut r, ' ');
        }
        let part: &String = &parts[i];
        r.append(part.as_str());
        i = i + 1;
        proof {
            assert(views.take(i as int).drop_last() == views.take(i - 1));
            assert(views.take(i as int).last() == views[i - 1]);
            if i > 1 {
                assert(r@ == spec_join(views.take(i as int), seq![' ']));
            } else {
                assert(views.take(1int) =~= seq![views[0]]);
                assert(r@ =~= spec_join(views.take(i as int), seq![' ']));
            }
        }
    }
    proof {
        assert(views.take(parts@.len() as int) == views);
    }
    r
}

/// `width` spaces.
pub fn spaces(width: usize) -> (r: String)
    ensures
        r@.len() == width,
        forall|i: int| 0 <= i < width ==> r@[i] == ' ',
    decreases width,
{
    let mut r = String::new();
    let mut i: usize = 0;
    while i < width
        invariant
            i <= width,
            r@.len() == i,
            forall|j: int| 0 <= j < i ==> r@[j] == ' ',
        decreases width - i,
    {
        push_char(&mut r, ' ');
        i = i + 1;
    }
    r
}

} // verus!
