//! Durations as a reader wants to see them.

use crate::text::{push_str_chars, string_of};
use vstd::prelude::*;

verus! {

/// A length of time: whole seconds and the milliseconds beyond them.
#[derive(Clone, Copy, Debug)]
pub struct Elapsed {
    pub secs: u64,
    pub millis: u32,
}

/// The decimal digits of `n`.
pub open spec fn decimal(n: nat) -> Seq<char>
    decreases n,
{
    if n < 10 {
        seq![digit(n)]
    } else {
        decimal(n / 10).push(digit(n % 10))
    }
}

/// The character of the digit `d`.
pub open spec fn digit(d: nat) -> char {
    if d == 0 {
        '0'
    } else if d == 1 {
        '1'
    } else if d == 2 {
        '2'
    } else if d == 3 {
        '3'
    } else if d == 4 {
        '4'
    } else if d == 5 {
        '5'
    } else if d == 6 {
        '6'
    } else if d == 7 {
        '7'
    } else if d == 8 {
        '8'
    } else {
        '9'
    }
}

/// The text for a time of `secs` seconds and `millis` milliseconds: hours,
/// minutes and seconds from an hour on, minutes and seconds from a minute on,
/// seconds and tenths from a tenth of a second on, and `< 0.1s` below that.
/// Hours are counted up to sixty and start again.
pub open spec fn human_text(secs: u64, millis: u32) -> Seq<char> {
    let hours = ((secs / 3600) % 60) as nat;
    let minutes = ((secs / 60) % 60) as nat;
    let seconds = (secs % 60) as nat;
    let tenths = (millis / 100) as nat;
    if hours > 0 {
        decimal(hours) + seq!['h', ' '] + decimal(minutes) + seq!['m', ' '] + decimal(seconds)
            + seq!['s']
    } else if minutes > 0 {
        decimal(minutes) + seq!['m', ' '] + decimal(seconds) + seq!['s']
    } else if seconds > 0 || millis >= 100 {
        decimal(seconds) + seq!['.'] + decimal(tenths) + seq!['s']
    } else {
        seq!['<', ' ', '0', '.', '1', 's']
    }
}

/// The character of the digit `d`.
fn digit_char(d: u64) -> (c: char)
    requires
        d < 10,
    ensures
        c == digit(d as nat),
{
    if d == 0 {
        '0'
    } else if d == 1 {
        '1'
    } else if d == 2 {
        '2'
    } else if d == 3 {
        '3'
    } else if d == 4 {
        '4'
    } else if d == 5 {
        '5'
    } else if d == 6 {
        '6'
    } else if d == 7 {
        '7'
    } else if d == 8 {
        '8'
    } else {
        '9'
    }
}

/// Appends the decimal digits of `n` to `out`.
pub fn push_decimal(out: &mut Vec<char>, n: u64)
    ensures
        final(out)@ == old(out)@ + decimal(n as nat),
    decreases n,
{
    if n < 10 {
        out.push(digit_char(n));
        assert(out@ =~= old(out)@ + decimal(n as nat));
    } else {
        push_decimal(out, n / 10);
        out.push(digit_char(n % 10));
        assert(out@ =~= old(out)@ + decimal(n as nat));
    }
}

/// Computes [`human_text`] on characters.
pub fn human_chars(elapsed: &Elapsed) -> (r: Vec<char>)
    ensures
        r@ == human_text(elapsed.secs, elapsed.millis),
{
    let hours: u64 = (elapsed.secs / 3600) % 60;
    let minutes: u64 = (elapsed.secs / 60) % 60;
    let seconds: u64 = elapsed.secs % 60;
    let tenths: u32 = elapsed.millis / 100;
    let mut r: Vec<char> = Vec::new();
    proof {
        reveal_strlit("h ");
        reveal_strlit("m ");
        reveal_strlit("s");
        reveal_strlit(".");
        reveal_strlit("< 0.1s");
    }
    if hours > 0 {
        push_decimal(&mut r, hours);
        push_str_chars(&mut r, "h ");
        push_decimal(&mut r, minutes);
        push_str_chars(&mut r, "m ");
        push_decimal(&mut r, seconds);
        push_str_chars(&mut r, "s");
        assert(r@ =~= human_text(elapsed.secs, elapsed.millis));
    } else if minutes > 0 {
        push_decimal(&mut r, minutes);
        push_str_chars(&mut r, "m ");
        push_decimal(&mut r, seconds);
        push_str_chars(&mut r, "s");
        assert(r@ =~= human_text(elapsed.secs, elapsed.millis));
    } else if seconds > 0 || elapsed.millis >= 100 {
        push_decimal(&mut r, seconds);
        push_str_chars(&mut r, ".");
        push_decimal(&mut r, tenths as u64);
        push_str_chars(&mut r, "s");
        assert(r@ =~= human_text(elapsed.secs, elapsed.millis));
    } else {
        push_str_chars(&mut r, "< 0.1s");
        assert(r@ =~= human_text(elapsed.secs, elapsed.millis));
    }
    r
}

/// The time `elapsed` as text for a reader.
pub fn human(elapsed: &Elapsed) -> (r: String)
    ensures
        r@ == human_text(elapsed.secs, elapsed.millis),
{
    let chars = human_chars(elapsed);
    string_of(&chars)
}

} // verus!
