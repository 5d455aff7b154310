//! Coloring of text with ANSI escape sequences, line by line and with nested
//! colors kept, and the removal of those sequences again.

use crate::text::{
    chars_of, first_index_of, lemma_first_index_is, lemma_first_index_of, lemma_replace_skips,
    occurs, push_chars, replace_all, replace_chars, slice_chars, string_of,
};
use vstd::prelude::*;

verus! {

pub const RESET: &'static str = "\x1B[0m";

pub const RED: &'static str = "\x1B[0;31m";

pub const YELLOW: &'static str = "\x1B[0;33m";

pub const BOLD_CYAN: &'static str = "\x1B[1;36m";

pub const BOLD_PURPLE: &'static str = "\x1B[1;35m";

pub const BOLD_UNDERLINE_CYAN: &'static str = "\x1B[1;4;36m";

/// The default color, less vibrant.
pub const DIM: &'static str = "\x1B[2;1m";

/// The colors the output uses.
#[allow(clippy::upper_case_acronyms)]
#[derive(Debug)]
pub enum ANSI {
    Dim,
    Red,
    Yellow,
    BoldCyan,
    BoldUnderlineCyan,
    BoldPurple,
}

/// The escape character, which opens every escape sequence.
pub open spec fn escape() -> char {
    '\u{1b}'
}

/// The sequence that switches every color off.
pub open spec fn reset_code() -> Seq<char> {
    seq!['\u{1b}', '[', '0', 'm']
}

impl ANSI {
    /// The escape sequence that switches this color on.
    pub open spec fn code(&self) -> Seq<char> {
        match self {
            ANSI::Dim => seq!['\u{1b}', '[', '2', ';', '1', 'm'],
            ANSI::Red => seq!['\u{1b}', '[', '0', ';', '3', '1', 'm'],
            ANSI::Yellow => seq!['\u{1b}', '[', '0', ';', '3', '3', 'm'],
            ANSI::BoldCyan => seq!['\u{1b}', '[', '1', ';', '3', '6', 'm'],
            ANSI::BoldPurple => seq!['\u{1b}', '[', '1', ';', '3', '5', 'm'],
            ANSI::BoldUnderlineCyan => seq!['\u{1b}', '[', '1', ';', '4', ';', '3', '6', 'm'],
        }
    }

    pub fn to_str(&self) -> (s: &'static str)
        ensures
            s@ == self.code(),
    {
        proof {
            reveal_strlit("\x1B[2;1m");
            reveal_strlit("\x1B[0;31m");
            reveal_strlit("\x1B[0;33m");
            reveal_strlit("\x1B[1;36m");
            reveal_strlit("\x1B[1;35m");
            reveal_strlit("\x1B[1;4;36m");
        }
        let s = match self {
            ANSI::Dim => DIM,
            ANSI::Red => RED,
            ANSI::Yellow => YELLOW,
            ANSI::BoldCyan => BOLD_CYAN,
            ANSI::BoldPurple => BOLD_PURPLE,
            ANSI::BoldUnderlineCyan => BOLD_UNDERLINE_CYAN,
        };
        assert(s@ =~= self.code());
        s
    }
}

/// One line in the color `color`: the color is set again after every reset
/// inside the line, the line stands between the color and a reset, and a color
/// set twice in a row or reset at once is taken out again. `line` holds no
/// line break.
pub open spec fn wrap_line(color: Seq<char>, line: Seq<char>) -> Seq<char> {
    let nested = replace_all(line, reset_code(), reset_code() + color);
    let wrapped = color + nested + reset_code();
    let once = replace_all(wrapped, color + color, color);
    replace_all(once, color + reset_code(), Seq::empty())
}

/// `s` with each of its lines, as the line breaks in it divide them, wrapped
/// by [`wrap_line`]. The line breaks stay outside the colors.
pub open spec fn wrap(color: Seq<char>, s: Seq<char>) -> Seq<char>
    decreases s.len(),
{
    let i = first_index_of(s, '\n');
    if 0 <= i < s.len() {
        wrap_line(color, s.take(i)) + seq!['\n'] + wrap(color, s.skip(i + 1))
    } else {
        wrap_line(color, s)
    }
}

/// Whether the stripper is inside an escape sequence after reading `c` in the
/// state `inside`.
pub open spec fn next_state(inside: bool, c: char) -> bool {
    if c == escape() {
        true
    } else if inside {
        c != 'm'
    } else {
        false
    }
}

/// What is left of `s` when every escape sequence, from an escape character
/// to the next `m`, is taken out, for a reader that starts in the state
/// `inside`.
pub open spec fn strip_from(inside: bool, s: Seq<char>) -> Seq<char>
    decreases s.len(),
{
    if s.len() == 0 {
        Seq::empty()
    } else {
        let rest = strip_from(next_state(inside, s[0]), s.drop_first());
        if s[0] != escape() && !inside {
            seq![s[0]] + rest
        } else {
            rest
        }
    }
}

/// `s` without its escape sequences.
pub open spec fn strip(s: Seq<char>) -> Seq<char> {
    strip_from(false, s)
}

/// The state of the stripper after reading `s` from the state `inside`.
pub open spec fn end_state(inside: bool, s: Seq<char>) -> bool
    decreases s.len(),
{
    if s.len() == 0 {
        inside
    } else {
        end_state(next_state(inside, s[0]), s.drop_first())
    }
}

/// Whether every escape character and every line break of `s` stands outside
/// an escape sequence, for a reader that starts in the state `inside`.
pub open spec fn well_placed(inside: bool, s: Seq<char>) -> bool
    decreases s.len(),
{
    if s.len() == 0 {
        true
    } else {
        &&& (s[0] == escape() || s[0] == '\n') ==> !inside
        &&& well_placed(next_state(inside, s[0]), s.drop_first())
    }
}

/// Text whose escape sequences are whole: each is closed by its `m` before
/// the next escape character, the next line break and the end of the text.
pub open spec fn clean(s: Seq<char>) -> bool {
    well_placed(false, s) && !end_state(false, s)
}

/// Clean text that consists of escape sequences only.
pub open spec fn invisible(s: Seq<char>) -> bool {
    clean(s) && strip(s) == Seq::<char>::empty()
}

/// The colors of `colors` applied to `text` one after the other, the first
/// innermost.
pub open spec fn wrap_nested(colors: Seq<ANSI>, text: Seq<char>) -> Seq<char>
    decreases colors.len(),
{
    if colors.len() == 0 {
        text
    } else {
        wrap(colors.last().code(), wrap_nested(colors.drop_last(), text))
    }
}

/// Reading `a + b` is reading `a` and then `b`.
pub proof fn lemma_read_concat(inside: bool, a: Seq<char>, b: Seq<char>)
    ensures
        strip_from(inside, a + b) == strip_from(inside, a) + strip_from(end_state(inside, a), b),
        end_state(inside, a + b) == end_state(end_state(inside, a), b),
        well_placed(inside, a + b) == (well_placed(inside, a) && well_placed(
            end_state(inside, a),
            b,
        )),
    decreases a.len(),
{
    if a.len() == 0 {
        assert(a + b =~= b);
        assert(strip_from(inside, a) + strip_from(inside, b) =~= strip_from(inside, b));
    } else {
        assert((a + b).drop_first() =~= a.drop_first() + b);
        lemma_read_concat(next_state(inside, a[0]), a.drop_first(), b);
        let next = next_state(inside, a[0]);
        assert(strip_from(inside, a + b) =~= strip_from(inside, a) + strip_from(
            end_state(inside, a),
            b,
        ));
    }
}

/// Text without an escape character is clean, and stripping leaves it as it is.
pub proof fn lemma_plain_text(s: Seq<char>)
    requires
        !s.contains(escape()),
    ensures
        clean(s),
        strip(s) == s,
    decreases s.len(),
{
    if s.len() > 0 {
        let rest = s.drop_first();
        assert(s[0] != escape()) by {
            assert(s.contains(s[0]));
        };
        assert forall|c: char| rest.contains(c) implies s.contains(c) by {
            let j = choose|j: int| 0 <= j < rest.len() && rest[j] == c;
            assert(s[j + 1] == c);
        };
        lemma_plain_text(rest);
        assert(strip(s) =~= s);
    } else {
        assert(strip(s) =~= s);
    }
}

/// Whether `k` has the shape of an escape sequence of this module: an escape
/// character, then characters that are no escape character, line break or
/// `m`, then `m`.
pub open spec fn is_code(k: Seq<char>) -> bool {
    &&& k.len() >= 2
    &&& k[0] == escape()
    &&& k.last() == 'm'
    &&& forall|i: int| 0 < i < k.len() - 1 ==> k[i] != escape() && k[i] != '\n' && k[i] != 'm'
}

/// The rest of an escape sequence, read from inside it, leaves nothing and
/// ends outside.
proof fn lemma_code_tail(t: Seq<char>)
    requires
        t.len() >= 1,
        t.last() == 'm',
        forall|i: int| 0 <= i < t.len() - 1 ==> t[i] != escape() && t[i] != '\n' && t[i] != 'm',
    ensures
        well_placed(true, t),
        !end_state(true, t),
        strip_from(true, t) == Seq::<char>::empty(),
    decreases t.len(),
{
    let rest = t.drop_first();
    if t.len() == 1 {
        assert(rest.len() == 0);
        assert(next_state(true, t[0]) == false);
        assert(well_placed(false, rest));
        assert(!end_state(false, rest));
        assert(strip_from(false, rest) =~= Seq::<char>::empty());
    } else {
        assert(rest.last() == t.last());
        assert(next_state(true, t[0]) == true);
        lemma_code_tail(rest);
    }
}

/// Reading a single character.
pub proof fn lemma_read_one(inside: bool, c: char)
    ensures
        end_state(inside, seq![c]) == next_state(inside, c),
        strip_from(inside, seq![c]) == if c != escape() && !inside {
            seq![c]
        } else {
            Seq::empty()
        },
        well_placed(inside, seq![c]) == ((c == escape() || c == '\n') ==> !inside),
{
    let rest = seq![c].drop_first();
    let next = next_state(inside, c);
    assert(rest.len() == 0);
    assert(end_state(next, rest) == next);
    assert(strip_from(next, rest) =~= Seq::<char>::empty());
    assert(well_placed(next, rest));
    assert(seq![c] + Seq::<char>::empty() =~= seq![c]);
}

/// An escape sequence is invisible.
pub proof fn lemma_code_invisible(k: Seq<char>)
    requires
        is_code(k),
    ensures
        invisible(k),
{
    let t = k.drop_first();
    assert(t.last() == k.last());
    lemma_code_tail(t);
}

/// The reset and every color are escape sequences.
pub proof fn lemma_codes(color: ANSI)
    ensures
        is_code(reset_code()),
        is_code(color.code()),
        invisible(reset_code()),
        invisible(color.code()),
{
    lemma_code_invisible(reset_code());
    lemma_code_invisible(color.code());
}

/// Two pieces of invisible text in a row are invisible.
pub proof fn lemma_invisible_concat(a: Seq<char>, b: Seq<char>)
    requires
        invisible(a),
        invisible(b),
    ensures
        invisible(a + b),
{
    lemma_read_concat(false, a, b);
    assert(strip(a) + strip(b) =~= Seq::<char>::empty());
}

/// Replacing one invisible piece of text, which begins with an escape
/// character, by another changes neither what stripping leaves nor where the
/// escape characters and line breaks stand.
pub proof fn lemma_replace_keeps_text(
    inside: bool,
    s: Seq<char>,
    pat: Seq<char>,
    with: Seq<char>,
)
    requires
        pat.len() > 0,
        pat[0] == escape(),
        invisible(pat),
        invisible(with),
        well_placed(inside, s),
    ensures
        well_placed(inside, replace_all(s, pat, with)),
        end_state(inside, replace_all(s, pat, with)) == end_state(inside, s),
        strip_from(inside, replace_all(s, pat, with)) == strip_from(inside, s),
    decreases s.len(),
{
    if s.len() < pat.len() {
    } else if s.take(pat.len() as int) == pat {
        let tail = s.skip(pat.len() as int);
        assert(s =~= pat + tail);
        assert(s[0] == s.take(pat.len() as int)[0]);
        lemma_read_concat(false, pat, tail);
        lemma_replace_keeps_text(false, tail, pat, with);
        let done = replace_all(tail, pat, with);
        lemma_read_concat(false, with, done);
        assert(strip_from(false, with) + strip_from(false, done) =~= strip_from(false, done));
        assert(strip_from(false, pat) + strip_from(false, tail) =~= strip_from(false, tail));
    } else {
        let c = s[0];
        let tail = s.drop_first();
        lemma_replace_keeps_text(next_state(inside, c), tail, pat, with);
        let done = replace_all(tail, pat, with);
        assert((seq![c] + done).drop_first() =~= done);
        assert((seq![c] + done)[0] == c);
    }
}

/// Wrapping a clean line in a color leaves it clean and leaves what stripping
/// gives.
pub proof fn lemma_wrap_line_keeps_text(color: ANSI, line: Seq<char>)
    requires
        clean(line),
    ensures
        clean(wrap_line(color.code(), line)),
        strip(wrap_line(color.code(), line)) == strip(line),
{
    let c = color.code();
    let r = reset_code();
    lemma_codes(color);
    lemma_invisible_concat(r, c);
    lemma_invisible_concat(c, c);
    lemma_invisible_concat(c, r);
    assert(invisible(Seq::<char>::empty()));
    let nested = replace_all(line, r, r + c);
    lemma_replace_keeps_text(false, line, r, r + c);
    let wrapped = c + nested + r;
    lemma_read_concat(false, c, nested);
    lemma_read_concat(false, c + nested, r);
    assert(strip(wrapped) =~= strip(line));
    let once = replace_all(wrapped, c + c, c);
    lemma_replace_keeps_text(false, wrapped, c + c, c);
    lemma_replace_keeps_text(false, once, c + r, Seq::empty());
}

/// Wrapping clean text in a color leaves it clean and leaves what stripping
/// gives.
pub proof fn lemma_wrap_keeps_text(color: ANSI, s: Seq<char>)
    requires
        clean(s),
    ensures
        clean(wrap(color.code(), s)),
        strip(wrap(color.code(), s)) == strip(s),
    decreases s.len(),
{
    let i = first_index_of(s, '\n');
    lemma_first_index_of(s, '\n');
    if 0 <= i < s.len() {
        let head = s.take(i);
        let tail = s.skip(i + 1);
        let nl = seq!['\n'];
        assert(s =~= head + nl + tail);
        lemma_read_concat(false, head, nl);
        lemma_read_concat(false, head + nl, tail);
        lemma_read_one(end_state(false, head), '\n');
        lemma_read_one(false, '\n');
        lemma_wrap_line_keeps_text(color, head);
        lemma_wrap_keeps_text(color, tail);
        let wh = wrap_line(color.code(), head);
        let wt = wrap(color.code(), tail);
        lemma_read_concat(false, wh, nl);
        lemma_read_concat(false, wh + nl, wt);
    } else {
        lemma_wrap_line_keeps_text(color, s);
    }
}

/// Clean text stays clean under any nesting of colors, and stripping the
/// result gives what stripping the text gives.
pub proof fn lemma_wrap_nested_keeps_text(colors: Seq<ANSI>, text: Seq<char>)
    requires
        clean(text),
    ensures
        clean(wrap_nested(colors, text)),
        strip(wrap_nested(colors, text)) == strip(text),
    decreases colors.len(),
{
    if colors.len() > 0 {
        lemma_wrap_nested_keeps_text(colors.drop_last(), text);
        lemma_wrap_keeps_text(colors.last(), wrap_nested(colors.drop_last(), text));
    }
}

/// Stripping undoes wrapping at every depth of nesting: text that holds no
/// escape character of its own comes back exactly, whatever colors it was
/// wrapped in, one inside the other.
pub proof fn lemma_strip_undoes_wrap(colors: Seq<ANSI>, text: Seq<char>)
    requires
        !text.contains(escape()),
    ensures
        strip(wrap_nested(colors, text)) == text,
{
    lemma_plain_text(text);
    lemma_wrap_nested_keeps_text(colors, text);
}

/// Computes [`wrap_line`].
fn wrap_line_chars(color: &Vec<char>, line: &Vec<char>) -> (r: Vec<char>)
    ensures
        r@ == wrap_line(color@, line@),
{
    proof {
        reveal_strlit("\x1B[0m");
    }
    let reset = chars_of(RESET);
    assert(reset@ =~= reset_code());
    let mut reset_color: Vec<char> = Vec::new();
    push_chars(&mut reset_color, &reset);
    push_chars(&mut reset_color, color);
    assert(reset_color@ =~= reset_code() + color@);
    let nested = replace_chars(line, &reset, &reset_color);
    let mut wrapped: Vec<char> = Vec::new();
    push_chars(&mut wrapped, color);
    push_chars(&mut wrapped, &nested);
    push_chars(&mut wrapped, &reset);
    assert(wrapped@ =~= color@ + nested@ + reset_code());
    let mut twice: Vec<char> = Vec::new();
    push_chars(&mut twice, color);
    push_chars(&mut twice, color);
    assert(twice@ =~= color@ + color@);
    let once = replace_chars(&wrapped, &twice, color);
    let mut color_reset: Vec<char> = Vec::new();
    push_chars(&mut color_reset, color);
    push_chars(&mut color_reset, &reset);
    assert(color_reset@ =~= color@ + reset_code());
    let nothing: Vec<char> = Vec::new();
    assert(nothing@ =~= Seq::<char>::empty());
    replace_chars(&once, &color_reset, &nothing)
}

/// Computes [`wrap`] on characters.
pub fn wrap_chars(ansi: &ANSI, body: &Vec<char>) -> (r: Vec<char>)
    ensures
        r@ == wrap(ansi.code(), body@),
{
    let color = chars_of(ansi.to_str());
    let mut r: Vec<char> = Vec::new();
    let mut start: usize = 0;
    let mut i: usize = 0;
    assert(body@.skip(0) =~= body@);
    assert(r@ + wrap(color@, body@) =~= wrap(color@, body@));
    while i < body.len()
        invariant
            start <= i <= body.len(),
            color@ == ansi.code(),
            forall|j: int| start <= j < i ==> body@[j] != '\n',
            r@ + wrap(color@, body@.skip(start as int)) == wrap(color@, body@),
        decreases body.len() - i,
    {
        if body[i] == '\n' {
            let ghost rest = body@.skip(start as int);
            let line = slice_chars(body, start, i);
            let done = wrap_line_chars(&color, &line);
            proof {
                lemma_first_index_is(rest, '\n', i - start);
                assert(rest.take(i - start) =~= line@);
                assert(rest.skip(i - start + 1) =~= body@.skip(i + 1));
            }
            let ghost before = r@;
            push_chars(&mut r, &done);
            r.push('\n');
            assert(r@ + wrap(color@, body@.skip(i + 1)) =~= before + (done@ + seq!['\n'] + wrap(
                color@,
                body@.skip(i + 1),
            )));
            start = i + 1;
        }
        i += 1;
    }
    let ghost rest = body@.skip(start as int);
    let line = slice_chars(body, start, body.len());
    let done = wrap_line_chars(&color, &line);
    proof {
        lemma_first_index_is(rest, '\n', rest.len() as int);
        assert(rest =~= line@);
    }
    push_chars(&mut r, &done);
    r
}

/// Wraps each line of `body` in the color `ansi`. Colors that `body` already
/// holds stay: after each of their resets the color `ansi` is set again.
/// Line breaks, and with them blank lines, stay outside the colors.
pub fn wrap_ansi_escape_each_line(ansi: &ANSI, body: &str) -> (r: String)
    ensures
        r@ == wrap(ansi.code(), body@),
{
    let chars = chars_of(body);
    let wrapped = wrap_chars(ansi, &chars);
    string_of(&wrapped)
}

/// Computes [`strip`] on characters.
pub fn strip_chars(contents: &Vec<char>) -> (r: Vec<char>)
    ensures
        r@ == strip(contents@),
{
    let mut r: Vec<char> = Vec::new();
    let mut in_sequence = false;
    let mut i: usize = 0;
    assert(contents@.skip(0) =~= contents@);
    assert(r@ + strip(contents@) =~= strip(contents@));
    while i < contents.len()
        invariant
            i <= contents.len(),
            r@ + strip_from(in_sequence, contents@.skip(i as int)) == strip(contents@),
        decreases contents.len() - i,
    {
        let c = contents[i];
        let ghost rest = contents@.skip(i as int);
        let ghost before = r@;
        assert(rest.drop_first() =~= contents@.skip(i + 1));
        if c == '\x1B' {
            in_sequence = true;
        } else if in_sequence {
            if c == 'm' {
                in_sequence = false;
            }
        } else {
            r.push(c);
            assert(r@ + strip_from(false, contents@.skip(i + 1)) =~= before + (seq![c]
                + strip_from(false, contents@.skip(i + 1))));
        }
        i += 1;
    }
    assert(r@ + Seq::<char>::empty() =~= r@);
    r
}

/// Removes the escape sequences of this library from `contents`: everything
/// from an escape character to the next `m`. Other ANSI sequences may stay.
pub fn strip_ansi(contents: &str) -> (r: String)
    ensures
        r@ == strip(contents@),
{
    let chars = chars_of(contents);
    let stripped = strip_chars(&chars);
    string_of(&stripped)
}

/// A wrapped line that begins with a visible character begins with the
/// color.
pub proof fn lemma_wrap_line_starts(color: ANSI, line: Seq<char>)
    requires
        line.len() > 0,
        line[0] != escape(),
    ensures
        wrap_line(color.code(), line).len() > 0,
        wrap_line(color.code(), line)[0] == escape(),
{
    let c = color.code();
    let r = reset_code();
    lemma_codes(color);
    let x = line[0];
    assert(!occurs(line, r, 0)) by {
        if occurs(line, r, 0) {
            assert(line.subrange(0, 0 + r.len() as int)[0] == line[0]);
        }
    };
    lemma_replace_skips(line, r, r + c, 1);
    let nested = replace_all(line, r, r + c);
    assert(nested[0] == x);
    let wrapped = c + nested + r;
    let n = c.len() + 1;
    assert(wrapped[c.len() as int] == x);
    assert forall|i: int| 0 <= i < n implies !occurs(wrapped, c + c, i) by {
        if occurs(wrapped, c + c, i) {
            let part = wrapped.subrange(i, i + (c + c).len());
            if i == 0 {
                assert(part[c.len() as int] == wrapped[c.len() as int]);
                assert((c + c)[c.len() as int] == c[0]);
            } else {
                assert(part[0] == wrapped[i]);
                assert((c + c)[0] == c[0]);
            }
        }
    };
    lemma_replace_skips(wrapped, c + c, c, n as int);
    let once = replace_all(wrapped, c + c, c);
    assert forall|i: int| 0 <= i < n implies once[i] == wrapped[i] by {
        assert(wrapped.take(n as int)[i] == wrapped[i]);
    };
    assert forall|i: int| 0 <= i < n implies !occurs(once, c + r, i) by {
        if occurs(once, c + r, i) {
            let part = once.subrange(i, i + (c + r).len());
            if i == 0 {
                assert(part[c.len() as int] == once[c.len() as int]);
                assert((c + r)[c.len() as int] == r[0]);
            } else {
                assert(part[0] == once[i]);
                assert((c + r)[0] == c[0]);
            }
        }
    };
    lemma_replace_skips(once, c + r, Seq::empty(), n as int);
    let last = replace_all(once, c + r, Seq::empty());
    assert(last[0] == once.take(n as int)[0]);
}

/// Wrapped text that begins with a visible character other than a line break
/// begins with the color.
pub proof fn lemma_wrap_starts(color: ANSI, s: Seq<char>)
    requires
        s.len() > 0,
        s[0] != escape(),
        s[0] != '\n',
    ensures
        wrap(color.code(), s).len() > 0,
        wrap(color.code(), s)[0] == escape(),
{
    let i = first_index_of(s, '\n');
    lemma_first_index_of(s, '\n');
    if 0 <= i < s.len() {
        lemma_wrap_line_starts(color, s.take(i));
    } else {
        lemma_wrap_line_starts(color, s);
    }
}

/// A line of visible characters alone is wrapped in its color and a reset,
/// and nothing else about it changes.
pub proof fn lemma_wrap_line_plain(color: ANSI, line: Seq<char>)
    requires
        line.len() > 0,
        !line.contains(escape()),
    ensures
        wrap_line(color.code(), line) == color.code() + line + reset_code(),
{
    let c = color.code();
    let r = reset_code();
    lemma_codes(color);
    assert forall|i: int| 0 <= i < line.len() implies line[i] != escape() by {
        assert(line.contains(line[i]));
    };
    assert forall|i: int| 0 <= i < line.len() implies !occurs(line, r, i) by {
        if occurs(line, r, i) {
            assert(line.subrange(i, i + r.len())[0] == line[i]);
        }
    };
    lemma_replace_skips(line, r, r + c, line.len() as int);
    assert(line.skip(line.len() as int).len() == 0);
    assert(line.take(line.len() as int) + line.skip(line.len() as int) =~= line);
    let wrapped = c + line + r;
    let n = c.len() + line.len();
    assert forall|i: int| 0 <= i < n implies wrapped[i] != escape() || i == 0 by {
        if 0 < i < c.len() {
            assert(wrapped[i] == c[i]);
        } else if i >= c.len() {
            assert(wrapped[i] == line[i - c.len()]);
        }
    };
    assert forall|i: int| 0 <= i < n implies !occurs(wrapped, c + c, i) by {
        if occurs(wrapped, c + c, i) {
            let part = wrapped.subrange(i, i + (c + c).len());
            if i == 0 {
                assert(part[c.len() as int] == wrapped[c.len() as int]);
                assert(wrapped[c.len() as int] == line[0]);
                assert((c + c)[c.len() as int] == c[0]);
            } else {
                assert(part[0] == wrapped[i]);
                assert((c + c)[0] == c[0]);
            }
        }
    };
    lemma_replace_skips(wrapped, c + c, c, n as int);
    assert(wrapped.skip(n as int) =~= r);
    assert(wrapped.take(n as int) + r =~= wrapped);
    assert forall|i: int| 0 <= i < n implies !occurs(wrapped, c + r, i) by {
        if occurs(wrapped, c + r, i) {
            let part = wrapped.subrange(i, i + (c + r).len());
            if i == 0 {
                assert(part[c.len() as int] == wrapped[c.len() as int]);
                assert(wrapped[c.len() as int] == line[0]);
                assert((c + r)[c.len() as int] == r[0]);
            } else {
                assert(part[0] == wrapped[i]);
                assert((c + r)[0] == c[0]);
            }
        }
    };
    lemma_replace_skips(wrapped, c + r, Seq::empty(), n as int);
}

/// Wrapped text of visible characters that does not end in a line break
/// ends in a reset.
pub proof fn lemma_wrap_ends(color: ANSI, s: Seq<char>)
    requires
        s.len() > 0,
        !s.contains(escape()),
        s.last() != '\n',
    ensures
        wrap(color.code(), s).len() > 0,
        wrap(color.code(), s).last() == 'm',
    decreases s.len(),
{
    let i = first_index_of(s, '\n');
    lemma_first_index_of(s, '\n');
    if 0 <= i < s.len() {
        let tail = s.skip(i + 1);
        assert(tail.len() > 0);
        assert(tail.last() == s.last());
        assert forall|c: char| tail.contains(c) implies s.contains(c) by {
            let j = choose|j: int| 0 <= j < tail.len() && tail[j] == c;
            assert(s[j + i + 1] == c);
        };
        lemma_wrap_ends(color, tail);
    } else {
        lemma_wrap_line_plain(color, s);
    }
}

} // verus!
