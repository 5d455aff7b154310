//! Helpers for formatting and colorizing your output.

use crate::ansi_escape::{wrap, wrap_chars, ANSI};
use crate::text::{chars_of, push_chars, push_str_chars, string_of};
use vstd::prelude::*;

verus! {

/// What every line of streamed command output is indented by.
pub const CMD_INDENT: &'static str = "      ";

/// `contents` as a value: yellow, between backticks.
pub open spec fn value_text(contents: Seq<char>) -> Seq<char> {
    seq!['`'] + wrap(ANSI::Yellow.code(), contents) + seq!['`']
}

/// `contents` as the name of a command: a value in bold cyan.
pub open spec fn command_text(contents: Seq<char>) -> Seq<char> {
    value_text(wrap(ANSI::BoldCyan.code(), contents))
}

/// `contents` as a detail at the end of a line: between round brackets.
pub open spec fn details_text(contents: Seq<char>) -> Seq<char> {
    seq!['('] + contents + seq![')']
}

/// The announcement that the command `contents` runs.
pub open spec fn running_command_text(contents: Seq<char>) -> Seq<char> {
    seq!['R', 'u', 'n', 'n', 'i', 'n', 'g', ' '] + command_text(contents)
}

/// Computes [`value_text`] on characters.
pub fn value_chars(contents: &Vec<char>) -> (r: Vec<char>)
    ensures
        r@ == value_text(contents@),
{
    let colored = wrap_chars(&ANSI::Yellow, contents);
    let mut r: Vec<char> = Vec::new();
    r.push('`');
    push_chars(&mut r, &colored);
    r.push('`');
    assert(r@ =~= value_text(contents@));
    r
}

/// Computes [`details_text`] on characters.
pub fn details_chars(contents: &Vec<char>) -> (r: Vec<char>)
    ensures
        r@ == details_text(contents@),
{
    let mut r: Vec<char> = Vec::new();
    r.push('(');
    push_chars(&mut r, contents);
    r.push(')');
    assert(r@ =~= details_text(contents@));
    r
}

/// Computes [`running_command_text`] on characters.
pub fn running_command_chars(contents: &Vec<char>) -> (r: Vec<char>)
    ensures
        r@ == running_command_text(contents@),
{
    let named = wrap_chars(&ANSI::BoldCyan, contents);
    let shown = value_chars(&named);
    let mut r: Vec<char> = Vec::new();
    proof {
        reveal_strlit("Running ");
    }
    push_str_chars(&mut r, "Running ");
    push_chars(&mut r, &shown);
    assert(r@ =~= running_command_text(contents@));
    r
}

/// Decorate a URL for the build output.
pub fn url(contents: &str) -> (r: String)
    ensures
        r@ == wrap(ANSI::BoldUnderlineCyan.code(), contents@),
{
    let chars = chars_of(contents);
    string_of(&wrap_chars(&ANSI::BoldUnderlineCyan, &chars))
}

/// Decorate the name of a command being run i.e. `bundle install`.
pub fn command(contents: &str) -> (r: String)
    ensures
        r@ == command_text(contents@),
{
    let chars = chars_of(contents);
    let named = wrap_chars(&ANSI::BoldCyan, &chars);
    string_of(&value_chars(&named))
}

/// Decorate an important value i.e. `2.3.4`.
pub fn value(contents: &str) -> (r: String)
    ensures
        r@ == value_text(contents@),
{
    let chars = chars_of(contents);
    string_of(&value_chars(&chars))
}

/// Decorate additional information at the end of a line.
pub fn details(contents: &str) -> (r: String)
    ensures
        r@ == details_text(contents@),
{
    let chars = chars_of(contents);
    string_of(&details_chars(&chars))
}

/// Verb-ify command output i.e. "Running `bundle install`".
pub fn running_command(contents: &str) -> (r: String)
    ensures
        r@ == running_command_text(contents@),
{
    let chars = chars_of(contents);
    string_of(&running_command_chars(&chars))
}

/// Decorate important information.
pub fn important(contents: &str) -> (r: String)
    ensures
        r@ == wrap(ANSI::BoldCyan.code(), contents@),
{
    let chars = chars_of(contents);
    string_of(&wrap_chars(&ANSI::BoldCyan, &chars))
}

} // verus!
