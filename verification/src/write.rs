//! What each construct of the output writes: headers, bullets, paragraphs,
//! streamed output and timers.

use crate::ansi_escape::{escape, lemma_wrap_ends, lemma_wrap_starts, wrap, wrap_chars, ANSI};
use crate::background_printer::{print_interval, PrintGuard};
use crate::clock::elapsed_since;
use crate::duration_format::{human_chars, human_text, Elapsed};
use crate::sink::ByteSink;
use crate::state;
use crate::style::{details_chars, details_text, running_command, running_command_text};
use crate::text::{
    bytes_of, chars_of, is_white_space, lemma_encode_concat, lemma_trim, push_chars,
    push_str_chars, string_of, trim, trim_chars, trim_end, trim_end_chars,
};
use crate::util::{
    indented, joined, lemma_trailing_newlines_bound, lemma_trailing_newlines_concat, only_newlines,
    prefix_first_rest, prefix_first_rest_lines, prefix_lines, prefix_of, prefix_targets,
    prefixes_of, run_after, trailing_newlines, weave, Indent, ParagraphInspectWrite,
};
use crate::{writeln_now, Print};
use std::time::Instant;
use vstd::prelude::*;
use vstd::utf8::{encode_utf8, is_ascii_chars, is_ascii_chars_encode_utf8};

verus! {

/// The bytes of `text` as a line of output: its encoding and a line break.
pub open spec fn line_bytes(text: Seq<char>) -> Seq<u8> {
    encode_utf8(text) + seq![10u8]
}

/// What it takes to end the output in a paragraph: a line break, or nothing
/// where a run of `run` line breaks already makes one.
pub open spec fn gap(run: usize) -> Seq<u8> {
    if run > 1 {
        Seq::empty()
    } else {
        seq![10u8]
    }
}

/// Writes `text`.
pub fn write_chars<W: ByteSink>(writer: &mut W, text: &Vec<char>)
    ensures
        final(writer).wrote(old(writer), encode_utf8(text@)),
{
    let bytes = bytes_of(text);
    writer.write_all(bytes.as_slice());
}

/// Writes `text` and a line break.
pub fn write_line<W: ByteSink>(writer: &mut W, text: &Vec<char>)
    ensures
        final(writer).wrote(old(writer), line_bytes(text@)),
{
    let mut bytes = bytes_of(text);
    bytes.push(10u8);
    assert(bytes@ =~= line_bytes(text@));
    writer.write_all(bytes.as_slice());
}

/// Writes a line break.
pub fn write_newline<W: ByteSink>(writer: &mut W)
    ensures
        final(writer).wrote(old(writer), seq![10u8]),
{
    let mut bytes: Vec<u8> = Vec::new();
    bytes.push(10u8);
    assert(bytes@ =~= seq![10u8]);
    writer.write_all(bytes.as_slice());
}

/// Ends the output in a paragraph: writes a line break unless the output
/// ends with a blank line already.
pub fn write_gap<W: ByteSink>(writer: &mut ParagraphInspectWrite<W>)
    ensures
        final(writer).wrote(old(writer), gap(old(writer).newline_run())),
{
    if !writer.trailing_paragraph() {
        write_newline(writer);
    } else {
        proof {
            writer.lemma_wrote_nothing();
        }
    }
}

/// The line of a header: its mark and the trimmed text, in bold purple.
pub open spec fn header_text(mark: Seq<char>, s: Seq<char>) -> Seq<char> {
    wrap(ANSI::BoldPurple.code(), mark + trim(s))
}

/// What a header writes to a sink whose run of line breaks is `run`: a blank
/// line before the header line unless the output ends in one, and a blank
/// line after it unless the header line itself ends in one.
pub open spec fn header_bytes(run: usize, mark: Seq<char>, s: Seq<char>) -> Seq<u8> {
    let top = gap(run) + line_bytes(header_text(mark, s));
    top + gap(run_after(run, top))
}

/// Writes a header with the given mark.
fn header<W: ByteSink>(writer: &mut ParagraphInspectWrite<W>, mark: &str, s: &str)
    ensures
        final(writer).wrote(old(writer), header_bytes(old(writer).newline_run(), mark@, s@)),
{
    let ghost before = *writer;
    write_gap(writer);
    let ghost led = *writer;
    let mut text = chars_of(mark);
    let trimmed = trim_chars(&chars_of(s));
    push_chars(&mut text, &trimmed);
    let colored = wrap_chars(&ANSI::BoldPurple, &text);
    write_line(writer, &colored);
    let ghost top = gap(before.newline_run()) + line_bytes(header_text(mark@, s@));
    proof {
        writer.lemma_wrote_more(&led, &before, gap(before.newline_run()), line_bytes(colored@));
    }
    let ghost headed = *writer;
    write_gap(writer);
    proof {
        writer.lemma_wrote_more(&headed, &before, top, gap(headed.newline_run()));
    }
}

/// The mark of a header of the first level.
pub open spec fn h1_mark() -> Seq<char> {
    seq!['#', ' ']
}

/// The mark of a header of the second level.
pub open spec fn h2_mark() -> Seq<char> {
    seq!['#', '#', ' ']
}

/// The mark of a header of the third level.
pub open spec fn h3_mark() -> Seq<char> {
    seq!['#', '#', '#', ' ']
}

/// Writes a header of the first level, with a blank line before and after it.
pub fn h1<W: ByteSink>(writer: &mut ParagraphInspectWrite<W>, s: &str)
    ensures
        final(writer).wrote(old(writer), header_bytes(old(writer).newline_run(), h1_mark(), s@)),
{
    proof {
        reveal_strlit("# ");
    }
    assert("# "@ =~= h1_mark());
    header(writer, "# ", s);
}

/// Writes a header of the second level, with a blank line before and after it.
pub fn h2<W: ByteSink>(writer: &mut ParagraphInspectWrite<W>, s: &str)
    ensures
        final(writer).wrote(old(writer), header_bytes(old(writer).newline_run(), h2_mark(), s@)),
{
    proof {
        reveal_strlit("## ");
    }
    assert("## "@ =~= h2_mark());
    header(writer, "## ", s);
}

/// Writes a header of the third level, with a blank line before and after it.
pub fn h3<W: ByteSink>(writer: &mut ParagraphInspectWrite<W>, s: &str)
    ensures
        final(writer).wrote(old(writer), header_bytes(old(writer).newline_run(), h3_mark(), s@)),
{
    proof {
        reveal_strlit("### ");
    }
    assert("### "@ =~= h3_mark());
    header(writer, "### ", s);
}

/// The line of a header begins with its color, whatever the text.
pub proof fn lemma_header_text_starts(mark: Seq<char>, s: Seq<char>)
    requires
        mark.len() > 0,
        mark[0] == '#',
    ensures
        header_text(mark, s).len() > 0,
        header_text(mark, s)[0] == escape(),
{
    lemma_wrap_starts(ANSI::BoldPurple, mark + trim(s));
}

/// Text that begins with an escape character is encoded to bytes that begin
/// with its byte.
pub proof fn lemma_encode_first(t: Seq<char>)
    requires
        t.len() > 0,
        t[0] == escape(),
    ensures
        encode_utf8(t).len() > 0,
        encode_utf8(t)[0] == 0x1bu8,
{
    let head = seq![t[0]];
    assert(t =~= head + t.drop_first());
    lemma_encode_concat(head, t.drop_first());
    assert(is_ascii_chars(head));
    is_ascii_chars_encode_utf8(head);
    assert(encode_utf8(head)[0] == head[0] as u8);
}

/// A byte string that begins with anything but a line break does not
/// consist of line breaks.
pub proof fn lemma_not_only_newlines(s: Seq<u8>)
    requires
        s.len() > 0,
        s[0] != 10u8,
    ensures
        !only_newlines(s),
    decreases s.len(),
{
    lemma_trailing_newlines_bound(s.drop_last());
    if s.len() > 1 && s.last() == 10u8 {
        lemma_not_only_newlines(s.drop_last());
    }
}

/// Exactly one blank line stands between two headers written one after the
/// other, whatever white space their texts end with and whatever the output
/// ended with before: the first header leaves the output with exactly two
/// line breaks at its end, and the second starts with its header line at
/// once. The first header's line, once colored, must not itself end in a
/// blank line, as it can when the text ends in lines of escape sequences
/// alone.
pub proof fn lemma_one_blank_line_between_headers(
    run: usize,
    mark1: Seq<char>,
    s1: Seq<char>,
    mark2: Seq<char>,
    s2: Seq<char>,
)
    requires
        mark1.len() > 0 && mark1[0] == '#',
        mark2.len() > 0 && mark2[0] == '#',
        trailing_newlines(encode_utf8(header_text(mark1, s1))) <= 1,
    ensures
        trailing_newlines(header_bytes(run, mark1, s1)) == 2,
        run_after(run, header_bytes(run, mark1, s1)) == 2,
        header_bytes(2, mark2, s2).len() > 0,
        header_bytes(2, mark2, s2)[0] != 10u8,
{
    let nl = seq![10u8];
    let text1 = encode_utf8(header_text(mark1, s1));
    lemma_header_text_starts(mark1, s1);
    lemma_encode_first(header_text(mark1, s1));
    lemma_not_only_newlines(text1);
    assert(trailing_newlines(nl) == 1) by {
        assert(nl.drop_last() =~= Seq::<u8>::empty());
        assert(trailing_newlines(nl.drop_last()) == 0);
    };
    assert(only_newlines(nl));
    let led = gap(run) + text1;
    lemma_trailing_newlines_concat(gap(run), text1);
    lemma_trailing_newlines_bound(led);
    let top = led + nl;
    assert(top =~= gap(run) + line_bytes(header_text(mark1, s1)));
    lemma_trailing_newlines_concat(led, nl);
    lemma_trailing_newlines_bound(top);
    assert(!only_newlines(top));
    let between = run_after(run, top);
    assert(between == trailing_newlines(text1) + 1);
    let first = top + gap(between);
    assert(first == header_bytes(run, mark1, s1));
    if between > 1 {
        assert(first =~= top);
    } else {
        lemma_trailing_newlines_concat(top, nl);
        lemma_trailing_newlines_bound(first);
    }
    let text2 = encode_utf8(header_text(mark2, s2));
    lemma_header_text_starts(mark2, s2);
    lemma_encode_first(header_text(mark2, s2));
    assert(gap(2) + line_bytes(header_text(mark2, s2)) =~= text2 + nl);
    assert(header_bytes(2, mark2, s2)[0] == text2[0]);
}

/// The line of a header over text without an escape character does not end
/// in a line break, whatever white space the text ends with.
pub proof fn lemma_plain_header_text_ends(mark: Seq<char>, s: Seq<char>)
    requires
        mark.len() > 0,
        !mark.contains(escape()),
        mark.last() != '\n',
        !s.contains(escape()),
    ensures
        trailing_newlines(encode_utf8(header_text(mark, s))) == 0,
{
    let text = mark + trim(s);
    lemma_trim(s);
    assert(is_white_space('\n'));
    assert(text.last() != '\n') by {
        if trim(s).len() > 0 {
            assert(text.last() == trim(s).last());
        } else {
            assert(text =~= mark);
        }
    };
    assert(!text.contains(escape())) by {
        if text.contains(escape()) {
            let j = choose|j: int| 0 <= j < text.len() && text[j] == escape();
            if j < mark.len() {
                assert(mark.contains(mark[j]));
            } else {
                assert(trim(s).contains(trim(s)[j - mark.len()]));
            }
        }
    };
    lemma_wrap_ends(ANSI::BoldPurple, text);
    let line = header_text(mark, s);
    let last = seq![line.last()];
    assert(line =~= line.drop_last() + last);
    lemma_encode_concat(line.drop_last(), last);
    assert(is_ascii_chars(last));
    is_ascii_chars_encode_utf8(last);
    assert(encode_utf8(line).last() == encode_utf8(last)[0]);
}

/// Exactly one blank line stands between two headers written one after the
/// other over text without escape characters, whatever white space and
/// blank lines the texts end with and whatever the output ended with before.
pub proof fn lemma_one_blank_line_between_plain_headers(
    run: usize,
    mark1: Seq<char>,
    s1: Seq<char>,
    mark2: Seq<char>,
    s2: Seq<char>,
)
    requires
        mark1.len() > 0 && mark1[0] == '#' && mark1.last() != '\n' && !mark1.contains(escape()),
        mark2.len() > 0 && mark2[0] == '#',
        !s1.contains(escape()),
    ensures
        trailing_newlines(header_bytes(run, mark1, s1)) == 2,
        run_after(run, header_bytes(run, mark1, s1)) == 2,
        header_bytes(2, mark2, s2).len() > 0,
        header_bytes(2, mark2, s2)[0] != 10u8,
{
    lemma_plain_header_text_ends(mark1, s1);
    lemma_one_blank_line_between_headers(run, mark1, s1, mark2, s2);
}

/// The text of a bullet: `- ` before the first line of the trimmed text and
/// two spaces before each following line.
pub open spec fn bullet_text(s: Seq<char>) -> Seq<char> {
    prefix_first_rest(seq!['-', ' '], seq![' ', ' '], trim(s))
}

/// The text of a sub-bullet: `  - ` before the first line of the trimmed
/// text and four spaces before each following line.
pub open spec fn sub_bullet_text(s: Seq<char>) -> Seq<char> {
    prefix_first_rest(seq![' ', ' ', '-', ' '], seq![' ', ' ', ' ', ' '], trim(s))
}

/// Writes a bullet point as a line.
pub fn bullet<W: ByteSink>(writer: &mut W, s: &str)
    ensures
        final(writer).wrote(old(writer), line_bytes(bullet_text(s@))),
{
    proof {
        reveal_strlit("- ");
        reveal_strlit("  ");
    }
    assert("- "@ =~= seq!['-', ' ']);
    assert("  "@ =~= seq![' ', ' ']);
    let trimmed = string_of(&trim_chars(&chars_of(s)));
    let text = prefix_first_rest_lines("- ", "  ", trimmed.as_str());
    write_line(writer, &chars_of(text.as_str()));
}

/// Writes `s` without its trailing white space as a line.
pub fn plain<W: ByteSink>(writer: &mut W, s: &str)
    ensures
        final(writer).wrote(old(writer), line_bytes(trim_end(s@))),
{
    let text = trim_end_chars(&chars_of(s));
    write_line(writer, &text);
}

/// The text of a sub-bullet, without a line break after it.
pub fn sub_bullet_prefix(s: &str) -> (r: String)
    ensures
        r@ == sub_bullet_text(s@),
{
    proof {
        reveal_strlit("  - ");
        reveal_strlit("    ");
    }
    assert("  - "@ =~= seq![' ', ' ', '-', ' ']);
    assert("    "@ =~= seq![' ', ' ', ' ', ' ']);
    let trimmed = string_of(&trim_chars(&chars_of(s)));
    prefix_first_rest_lines("  - ", "    ", trimmed.as_str())
}

/// Writes a sub-bullet point as a line.
pub fn sub_bullet<W: ByteSink>(writer: &mut W, s: &str)
    ensures
        final(writer).wrote(old(writer), line_bytes(sub_bullet_text(s@))),
{
    let text = sub_bullet_prefix(s);
    write_line(writer, &chars_of(text.as_str()));
}

/// The text that closes the output: `Done`, with the time it all took where
/// that was measured.
pub open spec fn done_text(elapsed: Option<Elapsed>) -> Seq<char> {
    match elapsed {
        Some(e) => seq![
            'D',
            'o',
            'n',
            'e',
            ' ',
            '(',
            'f',
            'i',
            'n',
            'i',
            's',
            'h',
            'e',
            'd',
            ' ',
            'i',
            'n',
            ' ',
        ] + human_text(e.secs, e.millis) + seq![')'],
        None => seq!['D', 'o', 'n', 'e'],
    }
}

/// Writes the bullet that closes the output, for a run that took `elapsed`,
/// or that was not timed.
pub fn all_done_after<W: ByteSink>(writer: &mut W, elapsed: &Option<Elapsed>)
    ensures
        final(writer).wrote(old(writer), line_bytes(bullet_text(done_text(*elapsed)))),
{
    proof {
        reveal_strlit("Done (finished in ");
        reveal_strlit(")");
        reveal_strlit("Done");
    }
    let mut text: Vec<char> = Vec::new();
    match elapsed {
        Some(e) => {
            push_str_chars(&mut text, "Done (finished in ");
            let time = human_chars(e);
            push_chars(&mut text, &time);
            push_str_chars(&mut text, ")");
        },
        None => {
            push_str_chars(&mut text, "Done");
        },
    }
    assert(text@ =~= done_text(*elapsed));
    bullet(writer, string_of(&text).as_str());
}

/// Writes the bullet that closes the output, with the time since `started`
/// where a start was recorded.
pub fn all_done<W: ByteSink>(writer: &mut W, started: &Option<Instant>)
    ensures
        *started is None ==> final(writer).wrote(
            old(writer),
            line_bytes(bullet_text(done_text(None))),
        ),
        *started is Some ==> exists|e: Elapsed|
            e.millis < 1000 && #[trigger] final(writer).wrote(
                old(writer),
                line_bytes(bullet_text(done_text(Some(e)))),
            ),
{
    match started {
        Some(start) => {
            let e = elapsed_since(start);
            all_done_after(writer, &Some(e));
        },
        None => {
            all_done_after(writer, &None);
        },
    }
}

/// The prefix of a line of an announcement: an exclamation mark, and a space
/// after it unless the line is blank.
pub open spec fn bang(line: Seq<char>) -> Seq<char> {
    if line.len() == 0 || line == seq!['\n'] {
        seq!['!']
    } else {
        seq!['!', ' ']
    }
}

/// The text of an announcement before it is colored: each line of the
/// trimmed text behind its exclamation mark.
pub open spec fn announcement_text(s: Seq<char>) -> Seq<char> {
    let lines = prefix_targets(trim(s));
    weave(Seq::new(lines.len(), |i: int| bang(lines[i])), lines)
}

/// What an announcement in the color `color` writes to a sink whose run of
/// line breaks is `run`: a blank line unless the output ends in one, the
/// colored lines, and a blank line.
pub open spec fn paragraph_bytes(run: usize, color: ANSI, s: Seq<char>) -> Seq<u8> {
    gap(run) + line_bytes(wrap(color.code(), announcement_text(s))) + seq![10u8]
}

/// Writes an announcement: a paragraph of its own, in the color `color`,
/// each line behind an exclamation mark.
pub fn write_paragraph<W: ByteSink>(io: &mut ParagraphInspectWrite<W>, color: &ANSI, s: &str)
    ensures
        final(io).wrote(old(io), paragraph_bytes(old(io).newline_run(), *color, s@)),
{
    let ghost before = *io;
    let contents = string_of(&trim_chars(&chars_of(s)));
    write_gap(io);
    let ghost led = *io;
    let f = |_index: usize, line: &str| -> (p: String)
        ensures
            p@ == bang(line@),
        {
            proof {
                reveal_strlit("!");
                reveal_strlit("! ");
            }
            let chars = chars_of(line);
            if chars.len() == 0 || (chars.len() == 1 && chars[0] == '\n') {
                assert(line@ =~= seq!['\n'] || line@.len() == 0);
                assert("!"@ =~= seq!['!']);
                String::from_str("!")
            } else {
                assert("! "@ =~= seq!['!', ' ']);
                String::from_str("! ")
            }
        };
    let prefixed = prefix_lines(contents.as_str(), f);
    proof {
        let lines = prefix_targets(trim(s@));
        let prefixes = choose|prefixes: Seq<Seq<char>>|
            prefixes_of(f, lines, prefixes) && prefixed@ == #[trigger] weave(prefixes, lines);
        let wanted = Seq::new(lines.len(), |i: int| bang(lines[i]));
        assert forall|i: int| 0 <= i < lines.len() implies prefixes[i] == wanted[i] by {
            assert(prefix_of(f, i, lines[i], prefixes[i]));
        };
        assert(prefixes =~= wanted);
    }
    let colored = wrap_chars(color, &chars_of(prefixed.as_str()));
    write_line(io, &colored);
    let ghost top = gap(before.newline_run()) + line_bytes(colored@);
    proof {
        io.lemma_wrote_more(&led, &before, gap(before.newline_run()), line_bytes(colored@));
    }
    let ghost told = *io;
    write_newline(io);
    proof {
        io.lemma_wrote_more(&told, &before, top, seq![10u8]);
    }
}

/// Writes a warning: an announcement in yellow.
pub fn warning<W: ByteSink>(writer: &mut ParagraphInspectWrite<W>, s: &str)
    ensures
        final(writer).wrote(
            old(writer),
            paragraph_bytes(old(writer).newline_run(), ANSI::Yellow, s@),
        ),
{
    write_paragraph(writer, &ANSI::Yellow, s);
}

/// Writes an error: an announcement in red.
pub fn error<W: ByteSink>(writer: &mut ParagraphInspectWrite<W>, s: &str)
    ensures
        final(writer).wrote(old(writer), paragraph_bytes(old(writer).newline_run(), ANSI::Red, s@)),
{
    write_paragraph(writer, &ANSI::Red, s);
}

/// Writes an important message: an announcement in bold cyan.
pub fn important<W: ByteSink>(writer: &mut ParagraphInspectWrite<W>, s: &str)
    ensures
        final(writer).wrote(
            old(writer),
            paragraph_bytes(old(writer).newline_run(), ANSI::BoldCyan, s@),
        ),
{
    write_paragraph(writer, &ANSI::BoldCyan, s);
}

/// A pure function from one record to the bytes that are written for it.
pub trait Mapping {
    /// The bytes written for `record`.
    spec fn mapped(&self, record: Seq<u8>) -> Seq<u8>;

    fn apply(&self, record: Vec<u8>) -> (out: Vec<u8>)
        ensures
            out@ == self.mapped(record@),
    ;
}

/// Whether `f` may be called on every record and returns, for equal records,
/// equal bytes.
pub open spec fn is_pure<F: Fn(Vec<u8>) -> Vec<u8>>(f: F) -> bool {
    &&& forall|record: Vec<u8>| call_requires(f, (record,))
    &&& forall|r1: Vec<u8>, r2: Vec<u8>, o1: Vec<u8>, o2: Vec<u8>|
        r1@ == r2@ && #[trigger] call_ensures(f, (r1,), o1) && #[trigger] call_ensures(
            f,
            (r2,),
            o2,
        ) ==> o1@ == o2@
}

/// Whether `f` can return `out` for `record`.
pub open spec fn maps_to<F: Fn(Vec<u8>) -> Vec<u8>>(f: F, record: Seq<u8>, out: Seq<u8>) -> bool {
    exists|r: Vec<u8>, o: Vec<u8>| r@ == record && o@ == out && #[trigger] call_ensures(f, (r,), o)
}

/// A pure closure as a [`Mapping`].
pub struct PureFn<F: Fn(Vec<u8>) -> Vec<u8>> {
    f: F,
}

impl<F: Fn(Vec<u8>) -> Vec<u8>> PureFn<F> {
    #[verifier::type_invariant]
    spec fn pure(self) -> bool {
        is_pure(self.f)
    }

    /// The closure.
    pub closed spec fn function(&self) -> F {
        self.f
    }

    pub fn new(f: F) -> (p: Self)
        requires
            is_pure(f),
        ensures
            p.function() == f,
    {
        PureFn { f }
    }
}

impl<F: Fn(Vec<u8>) -> Vec<u8>> Mapping for PureFn<F> {
    open spec fn mapped(&self, record: Seq<u8>) -> Seq<u8> {
        choose|out: Seq<u8>| maps_to(self.function(), record, out)
    }

    fn apply(&self, record: Vec<u8>) -> (out: Vec<u8>) {
        proof {
            use_type_invariant(self);
        }
        let out = (self.f)(record);
        proof {
            assert(maps_to(self.f, record@, out@));
            let chosen = choose|o: Seq<u8>| maps_to(self.f, record@, o);
            assert(maps_to(self.f, record@, chosen));
        }
        out
    }
}

/// The bytes forwarded when `input` is fed to a buffer that holds `buffer`:
/// for each marker byte in `input`, what `mapping` makes of the record that
/// the marker ends.
pub open spec fn forwarded<T: Mapping>(mapping: T, marker: u8, buffer: Seq<u8>, input: Seq<u8>) -> Seq<
    u8,
>
    decreases input.len(),
{
    if input.len() == 0 {
        Seq::empty()
    } else if input[0] == marker {
        mapping.mapped(buffer.push(input[0])) + forwarded(
            mapping,
            marker,
            Seq::empty(),
            input.drop_first(),
        )
    } else {
        forwarded(mapping, marker, buffer.push(input[0]), input.drop_first())
    }
}

/// What the buffer holds after `input` is fed to a buffer that held
/// `buffer`: the bytes after the last marker byte.
pub open spec fn held_after(marker: u8, buffer: Seq<u8>, input: Seq<u8>) -> Seq<u8>
    decreases input.len(),
{
    if input.len() == 0 {
        buffer
    } else if input[0] == marker {
        held_after(marker, Seq::empty(), input.drop_first())
    } else {
        held_after(marker, buffer.push(input[0]), input.drop_first())
    }
}

/// Feeding `a + b` is feeding `a` and then `b`: how the input is cut into
/// writes changes neither what is forwarded nor what is kept.
pub proof fn lemma_fed_in_parts<T: Mapping>(
    mapping: T,
    marker: u8,
    buffer: Seq<u8>,
    a: Seq<u8>,
    b: Seq<u8>,
)
    ensures
        forwarded(mapping, marker, buffer, a + b) == forwarded(mapping, marker, buffer, a)
            + forwarded(mapping, marker, held_after(marker, buffer, a), b),
        held_after(marker, buffer, a + b) == held_after(marker, held_after(marker, buffer, a), b),
    decreases a.len(),
{
    if a.len() == 0 {
        assert(a + b =~= b);
        assert(Seq::<u8>::empty() + forwarded(mapping, marker, buffer, b) =~= forwarded(
            mapping,
            marker,
            buffer,
            b,
        ));
    } else {
        assert((a + b).drop_first() =~= a.drop_first() + b);
        let held = buffer.push(a[0]);
        if a[0] == marker {
            lemma_fed_in_parts(mapping, marker, Seq::empty(), a.drop_first(), b);
            let first = mapping.mapped(held);
            let second = forwarded(mapping, marker, Seq::empty(), a.drop_first());
            let third = forwarded(
                mapping,
                marker,
                held_after(marker, Seq::empty(), a.drop_first()),
                b,
            );
            assert(first + (second + third) =~= (first + second) + third);
        } else {
            lemma_fed_in_parts(mapping, marker, held, a.drop_first(), b);
        }
    }
}

/// Input without a marker byte is kept whole, and nothing is forwarded.
pub proof fn lemma_fed_unfinished<T: Mapping>(
    mapping: T,
    marker: u8,
    buffer: Seq<u8>,
    input: Seq<u8>,
)
    requires
        !input.contains(marker),
    ensures
        forwarded(mapping, marker, buffer, input) == Seq::<u8>::empty(),
        held_after(marker, buffer, input) == buffer + input,
    decreases input.len(),
{
    if input.len() == 0 {
        assert(buffer + input =~= buffer);
    } else {
        assert(input.contains(input[0]));
        let rest = input.drop_first();
        assert forall|b: u8| rest.contains(b) implies input.contains(b) by {
            let j = choose|j: int| 0 <= j < rest.len() && rest[j] == b;
            assert(input[j + 1] == b);
        };
        lemma_fed_unfinished(mapping, marker, buffer.push(input[0]), rest);
        assert(buffer.push(input[0]) + rest =~= buffer + input);
    }
}

/// The mapping is applied once to each whole record: when a record, which
/// holds no marker byte but its last, is fed to an empty buffer, it is
/// forwarded, mapped, as one piece and nothing of it is kept.
pub proof fn lemma_fed_record<T: Mapping>(mapping: T, marker: u8, record: Seq<u8>)
    requires
        record.len() > 0,
        record.last() == marker,
        !record.drop_last().contains(marker),
    ensures
        forwarded(mapping, marker, Seq::empty(), record) == mapping.mapped(record),
        held_after(marker, Seq::empty(), record) == Seq::<u8>::empty(),
{
    let body = record.drop_last();
    let end = seq![marker];
    assert(record =~= body + end);
    lemma_fed_in_parts(mapping, marker, Seq::empty(), body, end);
    lemma_fed_unfinished(mapping, marker, Seq::empty(), body);
    assert(Seq::<u8>::empty() + body =~= body);
    assert(end.drop_first() =~= Seq::<u8>::empty());
    assert(forwarded(mapping, marker, Seq::empty(), end.drop_first()) =~= Seq::<u8>::empty());
    assert(held_after(marker, Seq::empty(), end.drop_first()) =~= Seq::<u8>::empty());
    assert(body.push(marker) =~= record);
    assert(forwarded(mapping, marker, body, end) =~= mapping.mapped(record));
    assert(Seq::<u8>::empty() + mapping.mapped(record) =~= mapping.mapped(record));
}

/// Feeds `buf` to `buffer` byte by byte. Each time the marker byte arrives,
/// the buffer, a whole record with its marker, goes through `mapping` to
/// `inner`, and the buffer starts empty again.
pub fn feed_records<W: ByteSink, T: Mapping>(
    inner: &mut W,
    marker: u8,
    buffer: &mut Vec<u8>,
    mapping: &T,
    buf: &[u8],
)
    ensures
        final(inner).wrote(old(inner), forwarded(*mapping, marker, old(buffer)@, buf@)),
        final(buffer)@ == held_after(marker, old(buffer)@, buf@),
{
    let ghost before = *inner;
    let ghost mut sent: Seq<u8> = Seq::empty();
    let mut i: usize = 0;
    proof {
        inner.lemma_wrote_nothing();
        assert(buf@.skip(0) =~= buf@);
        assert(sent + forwarded(*mapping, marker, buffer@, buf@) =~= forwarded(
            *mapping,
            marker,
            buffer@,
            buf@,
        ));
    }
    while i < buf.len()
        invariant
            i <= buf.len(),
            inner.wrote(&before, sent),
            sent + forwarded(*mapping, marker, buffer@, buf@.skip(i as int)) == forwarded(
                *mapping,
                marker,
                old(buffer)@,
                buf@,
            ),
            held_after(marker, buffer@, buf@.skip(i as int)) == held_after(
                marker,
                old(buffer)@,
                buf@,
            ),
        decreases buf.len() - i,
    {
        let byte = buf[i];
        let ghost rest = buf@.skip(i as int);
        assert(rest.drop_first() =~= buf@.skip(i + 1));
        buffer.push(byte);
        if byte == marker {
            let mut record: Vec<u8> = Vec::new();
            std::mem::swap(buffer, &mut record);
            let out = mapping.apply(record);
            let ghost middle = *inner;
            inner.write_all(out.as_slice());
            proof {
                inner.lemma_wrote_more(&middle, &before, sent, out@);
                assert((sent + out@) + forwarded(*mapping, marker, buffer@, buf@.skip(i + 1))
                    =~= sent + (out@ + forwarded(*mapping, marker, buffer@, buf@.skip(i + 1))));
                sent = sent + out@;
            }
        }
        i += 1;
    }
    proof {
        assert(sent + Seq::<u8>::empty() =~= sent);
    }
}

/// Writes to its inner sink record by record: it keeps the bytes written to
/// it until the marker byte arrives and then hands the record, mapped, on.
pub struct MappedWrite<W, T> {
    inner: W,
    marker_byte: u8,
    buffer: Vec<u8>,
    mapping: T,
}

impl<W: ByteSink, T: Mapping> MappedWrite<W, T> {
    /// The sink that the mapped records go to.
    pub closed spec fn inner(&self) -> W {
        self.inner
    }

    /// The byte that ends a record.
    pub closed spec fn marker(&self) -> u8 {
        self.marker_byte
    }

    /// The bytes of the record that has not ended yet.
    pub closed spec fn held(&self) -> Seq<u8> {
        self.buffer@
    }

    /// What is applied to each record.
    pub closed spec fn mapping(&self) -> T {
        self.mapping
    }

    pub fn new(w: W, marker_byte: u8, mapping: T) -> (m: Self)
        ensures
            m.inner() == w,
            m.marker() == marker_byte,
            m.held() == Seq::<u8>::empty(),
            m.mapping() == mapping,
    {
        MappedWrite { inner: w, marker_byte, buffer: Vec::new(), mapping }
    }

    /// Takes `buf`: every record that a marker byte in `buf` ends is mapped
    /// and forwarded, once, and in order; what follows the last marker byte
    /// is kept.
    pub fn write_all(&mut self, buf: &[u8])
        ensures
            final(self).inner().wrote(
                &old(self).inner(),
                forwarded(old(self).mapping(), old(self).marker(), old(self).held(), buf@),
            ),
            final(self).held() == held_after(old(self).marker(), old(self).held(), buf@),
            final(self).marker() == old(self).marker(),
            final(self).mapping() == old(self).mapping(),
    {
        feed_records(&mut self.inner, self.marker_byte, &mut self.buffer, &self.mapping, buf);
    }

    /// What releasing the sink forwards: the record that has not ended, if
    /// it holds anything.
    pub open spec fn remainder(&self) -> Seq<u8> {
        if self.held().len() > 0 {
            self.mapping().mapped(self.held())
        } else {
            Seq::empty()
        }
    }

    /// Gives the inner sink back. A record that has not ended is mapped and
    /// forwarded first, once, so that output without a final marker is not
    /// lost.
    pub fn unwrap(self) -> (w: W)
        ensures
            w.wrote(&self.inner(), self.remainder()),
    {
        let mut this = self;
        if this.buffer.len() > 0 {
            let out = this.mapping.apply(this.buffer);
            this.inner.write_all(out.as_slice());
        } else {
            proof {
                this.inner.lemma_wrote_nothing();
            }
        }
        this.inner
    }
}

/// Constructs a writer that buffers written data until given marker byte is
/// encountered and then applies the given mapping function to the data before
/// passing the result to the wrapped writer.
pub fn mapped<W: ByteSink, F: Fn(Vec<u8>) -> Vec<u8>>(w: W, marker_byte: u8, f: F) -> (m:
    MappedWrite<W, PureFn<F>>)
    requires
        is_pure(f),
    ensures
        m.inner() == w,
        m.marker() == marker_byte,
        m.held() == Seq::<u8>::empty(),
        m.mapping().function() == f,
{
    MappedWrite::new(w, marker_byte, PureFn::new(f))
}

/// Constructs a writer that buffers written data until an ASCII/UTF-8 newline
/// byte (`b'\n'`) is encountered and then applies the given mapping function
/// to the data before passing the result to the wrapped writer.
pub fn line_mapped<W: ByteSink, F: Fn(Vec<u8>) -> Vec<u8>>(w: W, f: F) -> (m: MappedWrite<
    W,
    PureFn<F>,
>)
    requires
        is_pure(f),
    ensures
        m.inner() == w,
        m.marker() == 10u8,
        m.held() == Seq::<u8>::empty(),
        m.mapping().function() == f,
{
    mapped(w, 10u8, f)
}

/// How many seconds pass between two marks of a timer.
pub const TIMER_INTERVAL_SECS: u64 = 1;

/// `text` in the muted tone of the timer's marks.
pub open spec fn dim(text: Seq<char>) -> Seq<char> {
    wrap(ANSI::Dim.code(), text)
}

/// The mark that a timer writes for each interval.
pub open spec fn timer_tick_text() -> Seq<char> {
    dim(seq!['.'])
}

/// The mark that a timer writes when it ends.
pub open spec fn timer_end_text() -> Seq<char> {
    dim(seq!['.', ' '])
}

/// What is left on the line of a timer that was given up.
pub open spec fn timer_error_text() -> Seq<char> {
    seq!['(', 'E', 'r', 'r', 'o', 'r', ')']
}

/// What the start of a timer writes: the sub-bullet without a line break,
/// the opening mark and the mark of the first interval.
pub open spec fn timer_start_bytes(s: Seq<char>) -> Seq<u8> {
    encode_utf8(sub_bullet_text(s)) + (encode_utf8(dim(seq![' ', '.'])) + encode_utf8(
        timer_tick_text(),
    ))
}

/// Whether `guard` is the guard of a timer of this library.
pub open spec fn is_timer<W: ByteSink>(guard: PrintGuard<W>) -> bool {
    &&& guard.tick_text() == timer_tick_text()
    &&& guard.end_text() == timer_end_text()
    &&& guard.dropped_text() == timer_error_text()
}

/// Starts a timer on `writer`: writes the sub-bullet `s` and the first
/// marks, and leaves the line open for the marks to come.
pub fn sub_start_print_interval<W: ByteSink>(writer: W, s: &str) -> (guard: PrintGuard<W>)
    ensures
        guard.sink().wrote(&writer, timer_start_bytes(s@)),
        is_timer(guard),
{
    let mut writer = writer;
    let ghost before = writer;
    let label = sub_bullet_prefix(s);
    write_chars(&mut writer, &chars_of(label.as_str()));
    let ghost labelled = writer;
    proof {
        reveal_strlit(" .");
        reveal_strlit(".");
        reveal_strlit(". ");
        reveal_strlit("(Error)");
    }
    assert(" ."@ =~= seq![' ', '.']);
    assert("."@ =~= seq!['.']);
    assert(". "@ =~= seq!['.', ' ']);
    assert("(Error)"@ =~= timer_error_text());
    let start = string_of(&wrap_chars(&ANSI::Dim, &chars_of(" .")));
    let tick = string_of(&wrap_chars(&ANSI::Dim, &chars_of(".")));
    let end = string_of(&wrap_chars(&ANSI::Dim, &chars_of(". ")));
    let guard = print_interval(writer, start.as_str(), tick.as_str(), end.as_str(), "(Error)");
    proof {
        guard.sink().lemma_wrote_more(
            &labelled,
            &before,
            encode_utf8(sub_bullet_text(s@)),
            encode_utf8(start@) + encode_utf8(tick@),
        );
    }
    guard
}

/// Starts a timer as the state of the output: the reading `started` is kept
/// for the end of the whole output, and a new reading is taken for the timer.
pub fn sub_start_timer<W: ByteSink>(
    writer: ParagraphInspectWrite<W>,
    started: Instant,
    s: &str,
) -> (p: Print<state::Background<W>>)
    ensures
        p.sink().wrote(&writer, timer_start_bytes(s@)),
        p.started() == Some(started),
{
    let guard = sub_start_print_interval(writer, s);
    Print { started: Some(started), state: state::Background { started: Instant::now(), write: guard } }
}

/// What ends the line of a timer: the closing mark and `details` in round
/// brackets.
pub open spec fn timer_close_bytes(details: Seq<char>) -> Seq<u8> {
    encode_utf8(timer_end_text()) + line_bytes(details_text(details))
}

/// Ends the marks of `guard` and writes `details`, in round brackets, as the
/// last of the line. For the guard of a timer that is
/// [`timer_close_bytes`].
pub fn timer_close<W: ByteSink>(guard: PrintGuard<W>, details: &Vec<char>) -> (io: W)
    ensures
        io.wrote(
            &guard.sink(),
            encode_utf8(guard.end_text()) + line_bytes(details_text(details@)),
        ),
{
    let ghost before = guard.sink();
    let ghost end = guard.end_text();
    let mut io = guard.stop();
    let ghost stopped = io;
    writeln_now(&mut io, string_of(&details_chars(details)).as_str());
    proof {
        io.lemma_wrote_more(&stopped, &before, encode_utf8(end), line_bytes(details_text(details@)));
    }
    io
}

/// What ends the line of a timer that nobody closed: the closing mark and
/// the text `(Error)`.
pub open spec fn timer_abandon_bytes() -> Seq<u8> {
    encode_utf8(timer_end_text()) + line_bytes(timer_error_text())
}

/// What the start of streamed output writes: the sub-bullet and a blank
/// line.
pub open spec fn stream_start_bytes(s: Seq<char>) -> Seq<u8> {
    line_bytes(sub_bullet_text(s)) + seq![10u8]
}

/// Announces streamed output: writes the sub-bullet `s` and a blank line.
pub fn stream_start<W: ByteSink>(writer: &mut W, s: &str)
    ensures
        final(writer).wrote(old(writer), stream_start_bytes(s@)),
{
    let ghost before = *writer;
    sub_bullet(writer, s);
    let ghost announced = *writer;
    proof {
        reveal_strlit("");
    }
    writeln_now(writer, "");
    proof {
        assert(line_bytes(""@) =~= seq![10u8]);
        writer.lemma_wrote_more(&announced, &before, line_bytes(sub_bullet_text(s@)), seq![10u8]);
    }
}

/// The text of the sub-bullet that closes streamed output that took
/// `elapsed`.
pub open spec fn stream_done_text(elapsed: Elapsed) -> Seq<char> {
    seq!['D', 'o', 'n', 'e', ' '] + details_text(human_text(elapsed.secs, elapsed.millis))
}

/// What the end of streamed output writes to a sink whose run of line
/// breaks is `run`: a blank line unless the output ends in one, and the
/// sub-bullet with the time.
pub open spec fn stream_finish_bytes(run: usize, elapsed: Elapsed) -> Seq<u8> {
    gap(run) + line_bytes(sub_bullet_text(stream_done_text(elapsed)))
}

/// Closes streamed output that took `elapsed`.
pub fn stream_finish<W: ByteSink>(writer: &mut ParagraphInspectWrite<W>, elapsed: &Elapsed)
    ensures
        final(writer).wrote(
            old(writer),
            stream_finish_bytes(old(writer).newline_run(), *elapsed),
        ),
{
    let ghost before = *writer;
    write_gap(writer);
    let ghost led = *writer;
    proof {
        reveal_strlit("Done ");
    }
    let mut text: Vec<char> = Vec::new();
    push_str_chars(&mut text, "Done ");
    push_chars(&mut text, &details_chars(&human_chars(elapsed)));
    assert(text@ =~= stream_done_text(*elapsed));
    sub_bullet(writer, string_of(&text).as_str());
    proof {
        writer.lemma_wrote_more(
            &led,
            &before,
            gap(before.newline_run()),
            line_bytes(sub_bullet_text(stream_done_text(*elapsed))),
        );
    }
}

/// The byte strings of `messages`, in order.
pub open spec fn message_bytes(messages: Seq<Vec<u8>>) -> Seq<Seq<u8>> {
    messages.map_values(|m: Vec<u8>| m@)
}

/// Writes each of `messages` to `writer`, in order.
pub fn stream_forward<W: ByteSink>(writer: &mut W, messages: &Vec<Vec<u8>>)
    ensures
        final(writer).wrote(old(writer), joined(message_bytes(messages@))),
{
    let ghost before = *writer;
    let ghost all = message_bytes(messages@);
    let ghost mut sent: Seq<u8> = Seq::empty();
    let mut i: usize = 0;
    proof {
        writer.lemma_wrote_nothing();
        assert(all.skip(0) =~= all);
        assert(sent + joined(all) =~= joined(all));
    }
    while i < messages.len()
        invariant
            i <= messages.len(),
            all == message_bytes(messages@),
            writer.wrote(&before, sent),
            sent + joined(all.skip(i as int)) == joined(all),
        decreases messages.len() - i,
    {
        let ghost middle = *writer;
        writer.write_all(messages[i].as_slice());
        proof {
            let rest = all.skip(i as int);
            assert(rest[0] == messages@[i as int]@);
            assert(rest.drop_first() =~= all.skip(i + 1));
            writer.lemma_wrote_more(&middle, &before, sent, messages@[i as int]@);
            assert((sent + rest[0]) + joined(all.skip(i + 1)) =~= sent + (rest[0] + joined(
                all.skip(i + 1),
            )));
            sent = sent + rest[0];
        }
        i += 1;
    }
    proof {
        assert(sent + Seq::<u8>::empty() =~= sent);
    }
}

/// What streaming `streamed` under the sub-bullet `s` writes, when it took
/// `elapsed`, to a sink whose run of line breaks is `run`: the announcement,
/// the streamed bytes, and the closing sub-bullet behind a blank line.
pub open spec fn stream_bytes(run: usize, s: Seq<char>, streamed: Seq<u8>, elapsed: Elapsed) -> Seq<
    u8,
> {
    let body = stream_start_bytes(s) + streamed;
    body + stream_finish_bytes(run_after(run, body), elapsed)
}

/// Streams the output of a command under the sub-bullet `s`. `messages`
/// holds what arrived from the command's two streams, in the order of
/// arrival, each message a whole record as a sink of
/// [`crate::util::format_stream_writer`] hands it on. The command took
/// `elapsed`.
pub fn sub_stream_with<W: ByteSink>(
    writer: &mut ParagraphInspectWrite<W>,
    s: &str,
    messages: &Vec<Vec<u8>>,
    elapsed: &Elapsed,
)
    ensures
        final(writer).wrote(
            old(writer),
            stream_bytes(
                old(writer).newline_run(),
                s@,
                joined(message_bytes(messages@)),
                *elapsed,
            ),
        ),
{
    let ghost before = *writer;
    stream_start(writer, s);
    let ghost announced = *writer;
    stream_forward(writer, messages);
    let ghost body = stream_start_bytes(s@) + joined(message_bytes(messages@));
    proof {
        writer.lemma_wrote_more(
            &announced,
            &before,
            stream_start_bytes(s@),
            joined(message_bytes(messages@)),
        );
    }
    let ghost streamed = *writer;
    stream_finish(writer, elapsed);
    proof {
        writer.lemma_wrote_more(
            &streamed,
            &before,
            body,
            stream_finish_bytes(streamed.newline_run(), *elapsed),
        );
    }
}

/// What the end of a stream writes to a sink whose run of line breaks is
/// `run`, when the stream holds the unfinished line `held` and took
/// `elapsed`: the unfinished line as it is shown, if there is one, and what
/// closes streamed output.
pub open spec fn stream_end_bytes(run: usize, held: Seq<u8>, elapsed: Elapsed) -> Seq<u8> {
    let rest = if held.len() > 0 {
        indented(held)
    } else {
        Seq::empty()
    };
    rest + stream_finish_bytes(run_after(run, rest), elapsed)
}

/// Ends a stream that took `elapsed`: hands on a line that has not ended and
/// closes the streamed output.
pub fn stream_end<W: ByteSink>(
    stream: MappedWrite<ParagraphInspectWrite<W>, Indent>,
    elapsed: &Elapsed,
) -> (io: ParagraphInspectWrite<W>)
    ensures
        io.wrote(
            &stream.inner(),
            stream_end_bytes(stream.inner().newline_run(), stream.held(), *elapsed),
        ),
{
    let ghost before = stream.inner();
    let ghost rest = stream.remainder();
    let mut io = stream.unwrap();
    let ghost flushed = io;
    stream_finish(&mut io, elapsed);
    proof {
        io.lemma_wrote_more(
            &flushed,
            &before,
            rest,
            stream_finish_bytes(flushed.newline_run(), *elapsed),
        );
    }
    io
}

/// `bytes` written `n` times in a row.
pub open spec fn repeated(bytes: Seq<u8>, n: nat) -> Seq<u8>
    decreases n,
{
    if n == 0 {
        Seq::empty()
    } else {
        repeated(bytes, (n - 1) as nat) + bytes
    }
}

/// The whole line of a timer under the sub-bullet `s` that ended with
/// `details` after `ticks` further intervals had passed.
pub open spec fn timer_line_bytes(s: Seq<char>, ticks: nat, details: Seq<char>) -> Seq<u8> {
    timer_start_bytes(s) + repeated(encode_utf8(timer_tick_text()), ticks) + timer_close_bytes(
        details,
    )
}

/// Writes the whole line of a timer that has ended: the sub-bullet `s`, the
/// marks of a timer over which `ticks` intervals passed after the first, and
/// `details` in round brackets.
pub fn timer_line<W: ByteSink>(writer: &mut W, s: &str, ticks: usize, details: &Vec<char>)
    ensures
        final(writer).wrote(old(writer), timer_line_bytes(s@, ticks as nat, details@)),
{
    proof {
        reveal_strlit(" .");
        reveal_strlit(".");
        reveal_strlit(". ");
    }
    assert(" ."@ =~= seq![' ', '.']);
    assert("."@ =~= seq!['.']);
    assert(". "@ =~= seq!['.', ' ']);
    let ghost before = *writer;
    let tick = wrap_chars(&ANSI::Dim, &chars_of("."));
    let label = chars_of(sub_bullet_prefix(s).as_str());
    let mut bytes = bytes_of(&label);
    let start = bytes_of(&wrap_chars(&ANSI::Dim, &chars_of(" .")));
    let tick_bytes = bytes_of(&tick);
    let end = bytes_of(&wrap_chars(&ANSI::Dim, &chars_of(". ")));
    bytes.extend_from_slice(start.as_slice());
    assert(bytes@ =~= encode_utf8(sub_bullet_text(s@)) + encode_utf8(dim(seq![' ', '.'])));
    bytes.extend_from_slice(tick_bytes.as_slice());
    assert(bytes@ =~= timer_start_bytes(s@));
    let mut i: usize = 0;
    assert(bytes@ =~= timer_start_bytes(s@) + repeated(tick_bytes@, 0));
    while i < ticks
        invariant
            i <= ticks,
            tick_bytes@ == encode_utf8(timer_tick_text()),
            bytes@ == timer_start_bytes(s@) + repeated(tick_bytes@, i as nat),
        decreases ticks - i,
    {
        let ghost held = bytes@;
        bytes.extend_from_slice(tick_bytes.as_slice());
        assert(bytes@ =~= held + tick_bytes@);
        assert(bytes@ =~= timer_start_bytes(s@) + repeated(tick_bytes@, (i + 1) as nat));
        i += 1;
    }
    let ghost marked = bytes@;
    bytes.extend_from_slice(end.as_slice());
    let closing = bytes_of(&details_chars(details));
    bytes.extend_from_slice(closing.as_slice());
    bytes.push(10u8);
    assert(bytes@ =~= marked + timer_close_bytes(details@));
    writer.write_all(bytes.as_slice());
}

/// Announces the command `name` under a timer and closes the timer's line
/// with the time `elapsed` that the command took. Over the run of the
/// command, `ticks` intervals passed after the first mark. The output of the
/// command is not shown.
pub fn sub_time_cmd<W: ByteSink>(
    writer: ParagraphInspectWrite<W>,
    name: &str,
    ticks: usize,
    elapsed: &Elapsed,
) -> (io: ParagraphInspectWrite<W>)
    ensures
        io.wrote(
            &writer,
            timer_line_bytes(
                running_command_text(name@),
                ticks as nat,
                human_text(elapsed.secs, elapsed.millis),
            ),
        ),
{
    let mut io = writer;
    timer_line(&mut io, running_command(name).as_str(), ticks, &human_chars(elapsed));
    io
}

/// Announces the command `name` and streams its output, which arrived as
/// `messages`, in the order of arrival, and took `elapsed`.
pub fn sub_stream_cmd<W: ByteSink>(
    writer: &mut ParagraphInspectWrite<W>,
    name: &str,
    messages: &Vec<Vec<u8>>,
    elapsed: &Elapsed,
)
    ensures
        final(writer).wrote(
            old(writer),
            stream_bytes(
                old(writer).newline_run(),
                running_command_text(name@),
                joined(message_bytes(messages@)),
                *elapsed,
            ),
        ),
{
    sub_stream_with(writer, running_command(name).as_str(), messages, elapsed);
}

} // verus!
