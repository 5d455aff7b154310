//! Line prefixes and the sink that keeps track of trailing line breaks.

use crate::sink::ByteSink;
use crate::style::CMD_INDENT;
use crate::text::{
    chars_of, first_index_of, lemma_first_index_is, push_bytes, push_chars, slice_chars,
    string_of,
};
use crate::write::{MappedWrite, Mapping};
use vstd::prelude::*;
use vstd::utf8::{is_ascii_chars, is_ascii_chars_encode_utf8};

verus! {

/// Number of line breaks at the end of `s`.
pub open spec fn trailing_newlines(s: Seq<u8>) -> nat
    decreases s.len(),
{
    if s.len() > 0 && s.last() == 10u8 {
        1 + trailing_newlines(s.drop_last())
    } else {
        0
    }
}

/// Whether `s` holds nothing but line breaks.
pub open spec fn only_newlines(s: Seq<u8>) -> bool {
    trailing_newlines(s) == s.len()
}

/// The run of line breaks at the end of the output after `buf` is written to
/// a sink whose run was `run`: a chunk of line breaks alone lengthens the run,
/// any other chunk starts it again with its own trailing line breaks. The
/// count stops at the largest `usize`.
pub open spec fn run_after(run: usize, buf: Seq<u8>) -> usize {
    let n = if only_newlines(buf) {
        run + buf.len()
    } else {
        trailing_newlines(buf) as int
    };
    if n > usize::MAX {
        usize::MAX
    } else {
        n as usize
    }
}

/// What a paragraph-tracking sink knows of the end of the output: the run
/// of line breaks there, and whether that run makes a paragraph.
#[derive(Clone, Copy)]
struct TrailingState {
    was_paragraph: bool,
    newlines_since_last_char: usize,
}

impl TrailingState {
    /// The output ends with a paragraph when more than one line break ends
    /// it.
    #[verifier::type_invariant]
    spec fn consistent(self) -> bool {
        self.was_paragraph == (self.newlines_since_last_char > 1)
    }

    /// The run of line breaks.
    closed spec fn run(self) -> usize {
        self.newlines_since_last_char
    }

    /// The state of output that ends with `newlines` line breaks.
    fn of(newlines: usize) -> (state: Self)
        ensures
            state.run() == newlines,
    {
        TrailingState { was_paragraph: newlines > 1, newlines_since_last_char: newlines }
    }

    /// The state after `buf` is written.
    fn after(self, buf: &[u8]) -> (state: Self)
        ensures
            state.run() == run_after(self.run(), buf@),
    {
        let count = count_trailing_newlines(buf);
        // The buffer contains only newlines
        let run: usize = if buf.len() == count {
            if count > usize::MAX - self.newlines_since_last_char {
                usize::MAX
            } else {
                self.newlines_since_last_char + count
            }
        } else {
            count
        };
        TrailingState { was_paragraph: run > 1, newlines_since_last_char: run }
    }

    /// True if the last thing written was two newlines.
    fn trailing_paragraph(self) -> (b: bool)
        ensures
            b == (self.run() > 1),
    {
        proof {
            use_type_invariant(self);
        }
        self.was_paragraph
    }
}

/// A trailing newline aware writer.
///
/// A paragraph style block of text has an empty newline before and after the
/// text. When multiple paragraphs are emitted, it's important that they
/// don't double up on empty newlines or the output will look off. This
/// writer keeps the knowledge of prior newline writes and shows it to the
/// caller.
pub struct ParagraphInspectWrite<W> {
    inner: W,
    state: TrailingState,
}

impl<W> ParagraphInspectWrite<W> {
    /// The run of line breaks at the end of what was written through this
    /// sink.
    pub closed spec fn newline_run(&self) -> usize {
        self.state.run()
    }

    /// The sink that the output goes to.
    pub closed spec fn inner(&self) -> W {
        self.inner
    }

    pub fn new(io: W) -> (w: Self)
        ensures
            w.inner() == io,
            w.newline_run() == 0,
    {
        Self { inner: io, state: TrailingState::of(0) }
    }

    /// A sink on `io` that goes on from a run of `newlines` line breaks, for
    /// output that follows other output on the same target.
    pub fn continuing(io: W, newlines: usize) -> (w: Self)
        ensures
            w.inner() == io,
            w.newline_run() == newlines,
    {
        Self { inner: io, state: TrailingState::of(newlines) }
    }

    /// True if the last thing written was two newlines.
    pub fn trailing_paragraph(&self) -> (b: bool)
        ensures
            b == (self.newline_run() > 1),
    {
        self.state.trailing_paragraph()
    }

    pub fn trailing_newline_count(&self) -> (n: usize)
        ensures
            n == self.newline_run(),
    {
        self.state.newlines_since_last_char
    }
}

/// Counts the line breaks at the end of `buf`.
fn count_trailing_newlines(buf: &[u8]) -> (n: usize)
    ensures
        n == trailing_newlines(buf@),
{
    let mut n: usize = 0;
    assert(buf@.take(buf.len() as int) =~= buf@);
    while n < buf.len() && buf[buf.len() - 1 - n] == 10u8
        invariant
            n <= buf.len(),
            trailing_newlines(buf@) == n + trailing_newlines(buf@.take(buf.len() - n)),
        decreases buf.len() - n,
    {
        assert(buf@.take(buf.len() - n).drop_last() =~= buf@.take(buf.len() - n - 1));
        n += 1;
    }
    n
}

impl<W: ByteSink> ByteSink for ParagraphInspectWrite<W> {
    open spec fn written(&self) -> Seq<u8> {
        self.inner().written()
    }

    open spec fn wrote(&self, before: &Self, bytes: Seq<u8>) -> bool {
        &&& self.inner().wrote(&before.inner(), bytes)
        &&& self.newline_run() == run_after(before.newline_run(), bytes)
    }

    /// We need to track newlines across multiple writes to eliminate the
    /// double empty newline problem described above.
    fn write_all(&mut self, buf: &[u8]) {
        self.state = self.state.after(buf);
        self.inner.write_all(buf);
    }

    proof fn lemma_wrote(&self, before: &Self, bytes: Seq<u8>) {
        self.inner().lemma_wrote(&before.inner(), bytes);
    }

    proof fn lemma_wrote_nothing(&self) {
        self.inner().lemma_wrote_nothing();
        assert(trailing_newlines(Seq::<u8>::empty()) == 0);
    }

    proof fn lemma_wrote_more(&self, middle: &Self, before: &Self, first: Seq<u8>, second: Seq<u8>) {
        self.inner().lemma_wrote_more(&middle.inner(), &before.inner(), first, second);
        lemma_run_after_concat(before.newline_run(), first, second);
    }
}

impl<W> ParagraphInspectWrite<W> {
    /// Gives the wrapped sink back.
    pub fn into_inner(self) -> (io: W)
        ensures
            io == self.inner(),
    {
        self.inner
    }
}

/// The chunks of `chunks` one after the other, as one byte string.
pub open spec fn joined(chunks: Seq<Seq<u8>>) -> Seq<u8>
    decreases chunks.len(),
{
    if chunks.len() == 0 {
        Seq::empty()
    } else {
        chunks[0] + joined(chunks.drop_first())
    }
}

/// The run of line breaks after the chunks of `chunks` are written one by
/// one to a sink whose run was `run`.
pub open spec fn replay(run: usize, chunks: Seq<Seq<u8>>) -> usize
    decreases chunks.len(),
{
    if chunks.len() == 0 {
        run
    } else {
        replay(run_after(run, chunks[0]), chunks.drop_first())
    }
}

/// No more line breaks end a byte string than it has bytes.
pub proof fn lemma_trailing_newlines_bound(s: Seq<u8>)
    ensures
        trailing_newlines(s) <= s.len(),
    decreases s.len(),
{
    if s.len() > 0 && s.last() == 10u8 {
        lemma_trailing_newlines_bound(s.drop_last());
    }
}

/// The line breaks at the end of `a + b` are those of `b`, and those of `a`
/// too where `b` holds nothing else.
pub proof fn lemma_trailing_newlines_concat(a: Seq<u8>, b: Seq<u8>)
    ensures
        trailing_newlines(a + b) == if only_newlines(b) {
            trailing_newlines(a) + b.len()
        } else {
            trailing_newlines(b)
        },
    decreases b.len(),
{
    if b.len() == 0 {
        assert(a + b =~= a);
    } else {
        assert((a + b).last() == b.last());
        assert((a + b).drop_last() =~= a + b.drop_last());
        lemma_trailing_newlines_bound(b.drop_last());
        if b.last() == 10u8 {
            lemma_trailing_newlines_concat(a, b.drop_last());
        }
    }
}

/// Writing `a` and then `b` leaves the run of line breaks that writing
/// `a + b` at once leaves.
pub proof fn lemma_run_after_concat(run: usize, a: Seq<u8>, b: Seq<u8>)
    ensures
        run_after(run_after(run, a), b) == run_after(run, a + b),
{
    lemma_trailing_newlines_concat(a, b);
    lemma_trailing_newlines_bound(a);
    lemma_trailing_newlines_bound(b);
    lemma_trailing_newlines_bound(a + b);
}

/// The paragraph state does not depend on how the output was cut into
/// writes: after the chunks of any splitting of a byte string are written one
/// by one, the run of line breaks, and with it whether the output ends in a
/// paragraph, is what one write of the whole string leaves.
pub proof fn lemma_fragmentation_insensitive(run: usize, chunks: Seq<Seq<u8>>)
    ensures
        replay(run, chunks) == run_after(run, joined(chunks)),
    decreases chunks.len(),
{
    if chunks.len() == 0 {
        assert(trailing_newlines(joined(chunks)) == 0);
    } else {
        lemma_fragmentation_insensitive(run_after(run, chunks[0]), chunks.drop_first());
        lemma_run_after_concat(run, chunks[0], joined(chunks.drop_first()));
    }
}

/// The lines of `s`, each with the line break that ends it. The last line has
/// none where `s` does not end with one, and the empty text has no line.
pub open spec fn lines_inclusive(s: Seq<char>) -> Seq<Seq<char>>
    decreases s.len(),
{
    if s.len() == 0 {
        Seq::empty()
    } else {
        let i = first_index_of(s, '\n');
        let n = if 0 <= i < s.len() {
            i + 1
        } else {
            s.len() as int
        };
        seq![s.take(n)] + lines_inclusive(s.skip(n))
    }
}

/// The lines that get a prefix: those of `s`, or one empty line where `s` is
/// empty, so that a prefix is written even then.
pub open spec fn prefix_targets(s: Seq<char>) -> Seq<Seq<char>> {
    if s.len() == 0 {
        seq![Seq::empty()]
    } else {
        lines_inclusive(s)
    }
}

/// Each line of `lines` behind the prefix of `prefixes` that has its index.
pub open spec fn weave(prefixes: Seq<Seq<char>>, lines: Seq<Seq<char>>) -> Seq<char>
    decreases lines.len(),
{
    if lines.len() == 0 || prefixes.len() == 0 {
        Seq::empty()
    } else {
        weave(prefixes.drop_last(), lines.drop_last()) + prefixes.last() + lines.last()
    }
}

/// Whether `f` can return `prefix` for the line `line` with the index `index`.
pub open spec fn prefix_of<F: Fn(usize, &str) -> String>(
    f: F,
    index: int,
    line: Seq<char>,
    prefix: Seq<char>,
) -> bool {
    exists|l: &str, p: String|
        l@ == line && p@ == prefix && #[trigger] call_ensures(f, (index as usize, l), p)
}

/// Whether `prefixes` holds, for each line of `lines`, a prefix that `f` can
/// return for it.
pub open spec fn prefixes_of<F: Fn(usize, &str) -> String>(
    f: F,
    lines: Seq<Seq<char>>,
    prefixes: Seq<Seq<char>>,
) -> bool {
    &&& prefixes.len() == lines.len()
    &&& forall|i: int| 0 <= i < lines.len() ==> prefix_of(f, i, #[trigger] lines[i], prefixes[i])
}

/// Puts before each line of `contents` the prefix that `f` returns for the
/// line and its index. The lines keep their line breaks. For empty `contents`
/// the prefix of an empty first line is returned.
pub fn prefix_lines<F: Fn(usize, &str) -> String>(contents: &str, f: F) -> (r: String)
    requires
        forall|i: usize, line: &str| call_requires(f, (i, line)),
    ensures
        prefix_targets(contents@).len() <= usize::MAX,
        exists|prefixes: Seq<Seq<char>>|
            prefixes_of(f, prefix_targets(contents@), prefixes) && r@ == #[trigger] weave(
                prefixes,
                prefix_targets(contents@),
            ),
{
    let chars = chars_of(contents);
    if chars.len() == 0 {
        let empty = "";
        proof {
            reveal_strlit("");
        }
        let p = f(0, empty);
        proof {
            let lines = prefix_targets(contents@);
            let prefixes = seq![p@];
            assert(empty@ =~= lines[0]);
            assert(call_ensures(f, (0int as usize, empty), p));
            assert(prefix_of(f, 0, lines[0], prefixes[0]));
            assert(prefixes.drop_last() =~= Seq::<Seq<char>>::empty());
            assert(weave(prefixes.drop_last(), lines.drop_last()) =~= Seq::<char>::empty());
            assert(weave(prefixes, lines) =~= p@);
            assert(prefixes_of(f, lines, prefixes));
        }
        return p;
    }
    let mut out: Vec<char> = Vec::new();
    let mut start: usize = 0;
    let mut index: usize = 0;
    let ghost mut lines: Seq<Seq<char>> = Seq::empty();
    let ghost mut prefixes: Seq<Seq<char>> = Seq::empty();
    proof {
        assert(chars@.skip(0) =~= chars@);
        assert(lines + lines_inclusive(chars@) =~= lines_inclusive(chars@));
    }
    while start < chars.len()
        invariant
            index <= start <= chars.len(),
            forall|i: usize, line: &str| call_requires(f, (i, line)),
            lines + lines_inclusive(chars@.skip(start as int)) == lines_inclusive(chars@),
            lines.len() == index,
            prefixes_of(f, lines, prefixes),
            out@ == weave(prefixes, lines),
        decreases chars.len() - start,
    {
        let mut end: usize = start;
        while end < chars.len() && chars[end] != '\n'
            invariant
                start <= end <= chars.len(),
                forall|j: int| start <= j < end ==> chars@[j] != '\n',
            decreases chars.len() - end,
        {
            end += 1;
        }
        let stop: usize = if end < chars.len() {
            end + 1
        } else {
            end
        };
        let line = slice_chars(&chars, start, stop);
        let line_string = string_of(&line);
        let line_str = line_string.as_str();
        let prefix = f(index, line_str);
        let prefix_chars = chars_of(prefix.as_str());
        proof {
            let rest = chars@.skip(start as int);
            lemma_first_index_is(rest, '\n', end - start);
            assert(rest.take(stop - start) =~= line@);
            assert(rest.skip(stop - start) =~= chars@.skip(stop as int));
            let old_lines = lines;
            let old_prefixes = prefixes;
            lines = lines.push(line@);
            prefixes = prefixes.push(prefix@);
            assert(lines + lines_inclusive(chars@.skip(stop as int)) =~= old_lines + (seq![line@]
                + lines_inclusive(chars@.skip(stop as int))));
            assert(call_ensures(f, (index as int as usize, line_str), prefix));
            assert(prefix_of(f, index as int, line@, prefix@));
            assert(lines.drop_last() =~= old_lines);
            assert(prefixes.drop_last() =~= old_prefixes);
            assert forall|i: int| 0 <= i < lines.len() implies prefix_of(
                f,
                i,
                #[trigger] lines[i],
                prefixes[i],
            ) by {
                if i < old_lines.len() {
                    assert(lines[i] == old_lines[i]);
                    assert(prefixes[i] == old_prefixes[i]);
                }
            };
        }
        push_chars(&mut out, &prefix_chars);
        push_chars(&mut out, &line);
        start = stop;
        index += 1;
    }
    let r = string_of(&out);
    proof {
        assert(lines + Seq::<Seq<char>>::empty() =~= lines);
        assert(lines_inclusive(chars@.skip(start as int)) =~= Seq::<Seq<char>>::empty());
        assert(prefix_targets(contents@) == lines);
        assert(r@ == weave(prefixes, prefix_targets(contents@)));
    }
    r
}

/// The prefix `first` for the line with index 0 and `rest` for every other
/// one, for `n` lines.
pub open spec fn first_rest_prefixes(first: Seq<char>, rest: Seq<char>, n: nat) -> Seq<Seq<char>> {
    Seq::new(
        n,
        |i: int|
            if i == 0 {
                first
            } else {
                rest
            },
    )
}

/// `contents` with `first` before its first line and `rest` before each
/// following line. Empty `contents` gives `first` alone.
pub open spec fn prefix_first_rest(first: Seq<char>, rest: Seq<char>, contents: Seq<char>) -> Seq<
    char,
> {
    weave(
        first_rest_prefixes(first, rest, prefix_targets(contents).len()),
        prefix_targets(contents),
    )
}

/// Applies a prefix to the first line and a different prefix to the rest of
/// the lines, most often to align a bullet's text with its first line.
///
/// The first prefix is written even when the contents are empty, so that a
/// nested bullet point always follows a parent bullet point.
pub fn prefix_first_rest_lines(first_prefix: &str, rest_prefix: &str, contents: &str) -> (r:
    String)
    ensures
        r@ == prefix_first_rest(first_prefix@, rest_prefix@, contents@),
{
    let f = |index: usize, _line: &str| -> (p: String)
        ensures
            p@ == if index == 0 {
                first_prefix@
            } else {
                rest_prefix@
            },
        {
            if index == 0 {
                String::from_str(first_prefix)
            } else {
                String::from_str(rest_prefix)
            }
        };
    let r = prefix_lines(contents, f);
    proof {
        let lines = prefix_targets(contents@);
        let prefixes = choose|prefixes: Seq<Seq<char>>|
            prefixes_of(f, lines, prefixes) && r@ == #[trigger] weave(prefixes, lines);
        let wanted = first_rest_prefixes(first_prefix@, rest_prefix@, lines.len());
        assert forall|i: int| 0 <= i < lines.len() implies prefixes[i] == wanted[i] by {
            assert(prefix_of(f, i, lines[i], prefixes[i]));
        };
        assert(prefixes =~= wanted);
    }
    r
}

/// What streamed output is indented by: six spaces.
pub open spec fn indent_bytes() -> Seq<u8> {
    seq![32u8, 32u8, 32u8, 32u8, 32u8, 32u8]
}

/// A line of streamed output as it is shown: indented, unless it is blank,
/// so that no white space is added at the end of a line that had none.
pub open spec fn indented(line: Seq<u8>) -> Seq<u8> {
    if line.len() == 0 || line == seq![10u8] {
        line
    } else {
        indent_bytes() + line
    }
}

/// The mapping that indents streamed output.
pub struct Indent;

impl Mapping for Indent {
    open spec fn mapped(&self, record: Seq<u8>) -> Seq<u8> {
        indented(record)
    }

    fn apply(&self, record: Vec<u8>) -> (out: Vec<u8>) {
        if record.len() == 0 || (record.len() == 1 && record[0] == 10u8) {
            assert(record@.len() == 0 || record@ =~= seq![10u8]);
            record
        } else {
            proof {
                reveal_strlit("      ");
                assert(is_ascii_chars(CMD_INDENT@));
                is_ascii_chars_encode_utf8(CMD_INDENT@);
            }
            let mut out: Vec<u8> = Vec::new();
            push_bytes(&mut out, CMD_INDENT.as_bytes());
            assert(out@ =~= indent_bytes());
            push_bytes(&mut out, record.as_slice());
            out
        }
    }
}

/// A sink that takes the output of a command and hands it on line by line,
/// each line that is not blank indented.
pub fn format_stream_writer<S: ByteSink>(stream_to: S) -> (m: MappedWrite<S, Indent>)
    ensures
        m.inner() == stream_to,
        m.marker() == 10u8,
        m.held() == Seq::<u8>::empty(),
{
    MappedWrite::new(stream_to, 10u8, Indent)
}

} // verus!
