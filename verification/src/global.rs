//! The writer that a whole process shares, and printing to it without a
//! handle.
//!
//! The writer is a value that its owner passes around. A scoped override
//! puts another sink in its place for a while and sets the first aside, to be
//! put back exactly as it was.

use crate::ansi_escape::ANSI;
use crate::duration_format::{human_chars, human_text, Elapsed};
use crate::sink::ByteSink;
use crate::state;
use crate::style::{running_command, running_command_text};
use crate::text::trim_end;
use crate::util::{joined, ParagraphInspectWrite};
use crate::write::{
    bullet_text, done_text, h1_mark, h2_mark, h3_mark, header_bytes, line_bytes, message_bytes,
    paragraph_bytes, stream_bytes, stream_finish_bytes, stream_start_bytes, sub_bullet_text,
    timer_line_bytes, timer_start_bytes,
};
use crate::Print;
use std::time::Instant;
use vstd::prelude::*;

pub mod print;

verus! {

/// The writer that a process shares: the sink in place, and, while a scoped
/// override lasts, the sink that it set aside.
pub struct GlobalWriter<W> {
    current: ParagraphInspectWrite<W>,
    displaced: Option<ParagraphInspectWrite<W>>,
}

impl<W: ByteSink> GlobalWriter<W> {
    /// The sink in place.
    pub closed spec fn current(&self) -> ParagraphInspectWrite<W> {
        self.current
    }

    /// The sink that a scoped override has set aside, while one lasts.
    pub closed spec fn displaced(&self) -> Option<ParagraphInspectWrite<W>> {
        self.displaced
    }

    /// Whether a scoped override lasts.
    pub open spec fn in_scope(&self) -> bool {
        self.displaced() is Some
    }

    /// A global writer with `io` in place.
    pub fn new(io: W) -> (g: Self)
        ensures
            g.current().inner() == io,
            g.current().newline_run() == 0,
            !g.in_scope(),
    {
        GlobalWriter { current: ParagraphInspectWrite::new(io), displaced: None }
    }

    /// Whether a scoped override lasts.
    pub fn is_in_scope(&self) -> (b: bool)
        ensures
            b == self.in_scope(),
    {
        self.displaced.is_some()
    }

    /// True if the output ends with a blank line.
    pub fn trailing_paragraph(&self) -> (b: bool)
        ensures
            b == (self.current().newline_run() > 1),
    {
        self.current.trailing_paragraph()
    }

    pub fn trailing_newline_count(&self) -> (n: usize)
        ensures
            n == self.current().newline_run(),
    {
        self.current.trailing_newline_count()
    }
}

impl<W: ByteSink> ByteSink for GlobalWriter<W> {
    open spec fn written(&self) -> Seq<u8> {
        self.current().written()
    }

    open spec fn wrote(&self, before: &Self, bytes: Seq<u8>) -> bool {
        &&& self.current().wrote(&before.current(), bytes)
        &&& self.displaced() == before.displaced()
    }

    /// Writes to the sink in place.
    fn write_all(&mut self, buf: &[u8]) {
        self.current.write_all(buf);
    }

    proof fn lemma_wrote(&self, before: &Self, bytes: Seq<u8>) {
        self.current().lemma_wrote(&before.current(), bytes);
    }

    proof fn lemma_wrote_nothing(&self) {
        self.current().lemma_wrote_nothing();
    }

    proof fn lemma_wrote_more(&self, middle: &Self, before: &Self, first: Seq<u8>, second: Seq<u8>) {
        self.current().lemma_wrote_more(&middle.current(), &before.current(), first, second);
    }
}

/// Set the global writer: `new_writer` takes the place of the sink in place,
/// which is dropped. Not to be called while a scoped override lasts.
pub fn set_writer<W: ByteSink>(g: &mut GlobalWriter<W>, new_writer: W)
    requires
        !old(g).in_scope(),
    ensures
        final(g).current().inner() == new_writer,
        final(g).current().newline_run() == 0,
        !final(g).in_scope(),
{
    g.current = ParagraphInspectWrite::new(new_writer);
}

/// Whether `after` is `before` with a scoped override begun: `new_writer` is
/// in place, with no line break counted yet, and the sink that was in place
/// is set aside.
pub open spec fn entered<W: ByteSink>(
    after: GlobalWriter<W>,
    before: GlobalWriter<W>,
    new_writer: W,
) -> bool {
    &&& after.displaced() == Some(before.current())
    &&& after.current().inner() == new_writer
    &&& after.current().newline_run() == 0
}

/// Whether `after` is `before` with its scoped override ended: the sink that
/// was set aside is in place again, and `out` is the sink that the override
/// had put in place.
pub open spec fn left<W: ByteSink>(after: GlobalWriter<W>, before: GlobalWriter<W>, out: W) -> bool {
    &&& before.displaced() == Some(after.current())
    &&& !after.in_scope()
    &&& out == before.current().inner()
}

/// Begins a scoped override: puts `new_writer` in place and sets the sink in
/// place aside. An override inside an override is an error of the caller.
pub fn enter_scope<W: ByteSink>(g: &mut GlobalWriter<W>, new_writer: W)
    requires
        !old(g).in_scope(),
    ensures
        entered(*final(g), *old(g), new_writer),
{
    let mut writer = ParagraphInspectWrite::new(new_writer);
    std::mem::swap(&mut g.current, &mut writer);
    g.displaced = Some(writer);
}

/// Ends a scoped override: puts the sink that was set aside back in place
/// and returns the sink of the override with all that was written to it.
pub fn leave_scope<W: ByteSink>(g: &mut GlobalWriter<W>) -> (out: W)
    requires
        old(g).in_scope(),
    ensures
        left(*final(g), *old(g), out),
{
    let mut writer = g.displaced.take().unwrap();
    std::mem::swap(&mut g.current, &mut writer);
    writer.into_inner()
}

/// Sets the global writer for the duration of the provided closure.
///
/// The closure gets the writer with `new_writer` in place and gives it back
/// when it is done; it must leave the override standing. The sink that was
/// in place before is then in place again, exactly as it was, and
/// `new_writer` is returned with what the closure wrote. An override inside
/// an override is an error of the caller.
pub fn with_locked_writer<W: ByteSink, F: FnOnce(GlobalWriter<W>) -> GlobalWriter<W>>(
    g: GlobalWriter<W>,
    new_writer: W,
    f: F,
) -> (r: (GlobalWriter<W>, W))
    requires
        !g.in_scope(),
        forall|h: GlobalWriter<W>| entered(h, g, new_writer) ==> call_requires(f, (h,)),
        forall|h: GlobalWriter<W>, k: GlobalWriter<W>|
            entered(h, g, new_writer) && call_ensures(f, (h,), k) ==> k.displaced()
                == h.displaced(),
    ensures
        r.0.current() == g.current(),
        !r.0.in_scope(),
        exists|h: GlobalWriter<W>, k: GlobalWriter<W>|
            entered(h, g, new_writer) && #[trigger] call_ensures(f, (h,), k) && r.1
                == k.current().inner(),
{
    let mut g = g;
    let ghost before = g;
    enter_scope(&mut g, new_writer);
    let ghost h = g;
    let mut g = f(g);
    let ghost k = g;
    let out = leave_scope(&mut g);
    assert(entered(h, before, new_writer) && call_ensures(f, (h,), k) && out
        == k.current().inner());
    (g, out)
}

/// A scoped override restores the exact original sink: whatever is written
/// between its beginning and its end, the sink that was in place before is
/// in place after, as it was, with its count of line breaks, no override
/// lasts, and what was written is in the sink of the override, which comes
/// back.
pub proof fn lemma_scoped_override_restores<W: ByteSink>(
    original: GlobalWriter<W>,
    begun: GlobalWriter<W>,
    written: GlobalWriter<W>,
    ended: GlobalWriter<W>,
    new_writer: W,
    out: W,
    bytes: Seq<u8>,
)
    requires
        !original.in_scope(),
        entered(begun, original, new_writer),
        written.wrote(&begun, bytes),
        left(ended, written, out),
    ensures
        ended.current() == original.current(),
        !ended.in_scope(),
        out.wrote(&new_writer, bytes),
{
}

/// Output a h1 header to the global writer.
pub fn h1<W: ByteSink>(g: &mut GlobalWriter<W>, s: &str)
    ensures
        final(g).wrote(old(g), header_bytes(old(g).current().newline_run(), h1_mark(), s@)),
{
    crate::write::h1(&mut g.current, s);
}

/// Output a h2 header to the global writer.
pub fn h2<W: ByteSink>(g: &mut GlobalWriter<W>, s: &str)
    ensures
        final(g).wrote(old(g), header_bytes(old(g).current().newline_run(), h2_mark(), s@)),
{
    crate::write::h2(&mut g.current, s);
}

/// Output a h3 header to the global writer.
pub fn h3<W: ByteSink>(g: &mut GlobalWriter<W>, s: &str)
    ensures
        final(g).wrote(old(g), header_bytes(old(g).current().newline_run(), h3_mark(), s@)),
{
    crate::write::h3(&mut g.current, s);
}

/// Output plain text as a line, without the white space that it ends with.
pub fn plain<W: ByteSink>(g: &mut GlobalWriter<W>, s: &str)
    ensures
        final(g).wrote(old(g), line_bytes(trim_end(s@))),
{
    crate::write::plain(&mut g.current, s);
}

/// Announce the name of a buildpack, as a h2 header, and read the clock for
/// the time that [`all_done`] reports.
pub fn buildpack<W: ByteSink>(g: &mut GlobalWriter<W>, s: &str) -> (started: Instant)
    ensures
        final(g).wrote(old(g), header_bytes(old(g).current().newline_run(), h2_mark(), s@)),
{
    crate::write::h2(&mut g.current, s);
    Instant::now()
}

/// Header to break up subsections in a buildpack's output, as a h3 header.
pub fn header<W: ByteSink>(g: &mut GlobalWriter<W>, s: &str)
    ensures
        final(g).wrote(old(g), header_bytes(old(g).current().newline_run(), h3_mark(), s@)),
{
    crate::write::h3(&mut g.current, s);
}

/// Output a bullet point to the global writer.
pub fn bullet<W: ByteSink>(g: &mut GlobalWriter<W>, s: &str)
    ensures
        final(g).wrote(old(g), line_bytes(bullet_text(s@))),
{
    crate::write::bullet(&mut g.current, s);
}

/// Output a sub-bullet point to the global writer.
pub fn sub_bullet<W: ByteSink>(g: &mut GlobalWriter<W>, s: &str)
    ensures
        final(g).wrote(old(g), line_bytes(sub_bullet_text(s@))),
{
    crate::write::sub_bullet(&mut g.current, s);
}

/// Print a sub-bullet and stream the output of a command to the global
/// writer. `messages` holds what arrived from the command's two streams, in
/// the order of arrival; the command took `elapsed`.
pub fn sub_stream_with<W: ByteSink>(
    g: &mut GlobalWriter<W>,
    s: &str,
    messages: &Vec<Vec<u8>>,
    elapsed: &Elapsed,
)
    ensures
        final(g).wrote(
            old(g),
            stream_bytes(
                old(g).current().newline_run(),
                s@,
                joined(message_bytes(messages@)),
                *elapsed,
            ),
        ),
{
    crate::write::sub_stream_with(&mut g.current, s, messages, elapsed);
}

/// Print the name of a command and stream its output to the global writer.
/// The command is `name`, its output arrived as `messages`, in the order of
/// arrival, and it took `elapsed`.
pub fn sub_stream_cmd<W: ByteSink>(
    g: &mut GlobalWriter<W>,
    name: &str,
    messages: &Vec<Vec<u8>>,
    elapsed: &Elapsed,
)
    ensures
        final(g).wrote(
            old(g),
            stream_bytes(
                old(g).current().newline_run(),
                running_command_text(name@),
                joined(message_bytes(messages@)),
                *elapsed,
            ),
        ),
{
    crate::write::sub_stream_cmd(&mut g.current, name, messages, elapsed);
}

/// Print to the global writer the name of a command that ran quietly, with
/// the marks of a timer over which `ticks` intervals passed after the first
/// and the time `elapsed` that the command took.
pub fn sub_time_cmd<W: ByteSink>(
    g: &mut GlobalWriter<W>,
    name: &str,
    ticks: usize,
    elapsed: &Elapsed,
)
    ensures
        final(g).wrote(
            old(g),
            timer_line_bytes(
                running_command_text(name@),
                ticks as nat,
                human_text(elapsed.secs, elapsed.millis),
            ),
        ),
{
    crate::write::timer_line(
        &mut g.current,
        running_command(name).as_str(),
        ticks,
        &human_chars(elapsed),
    );
}

/// Announces on the global writer the output of a command that is about to
/// be streamed: the first step of [`sub_stream_with`], for a caller that
/// hands the output on while the command runs.
pub fn sub_stream_open<W: ByteSink>(g: &mut GlobalWriter<W>, s: &str)
    ensures
        final(g).wrote(old(g), stream_start_bytes(s@)),
{
    crate::write::stream_start(&mut g.current, s);
}

/// Closes on the global writer the streamed output of a command that took
/// `elapsed`: the last step of [`sub_stream_with`].
pub fn sub_stream_close<W: ByteSink>(g: &mut GlobalWriter<W>, elapsed: &Elapsed)
    ensures
        final(g).wrote(old(g), stream_finish_bytes(old(g).current().newline_run(), *elapsed)),
{
    crate::write::stream_finish(&mut g.current, elapsed);
}

/// Print a sub-bullet and then emit the marks of a timer to the global
/// writer, which the timer holds until it ends.
pub fn sub_start_timer<W: ByteSink>(g: GlobalWriter<W>, s: &str) -> (p: Print<
    state::Background<GlobalWriter<W>>,
>)
    ensures
        p.sink().inner().wrote(&g, timer_start_bytes(s@)),
        p.started() is Some,
{
    crate::write::sub_start_timer(ParagraphInspectWrite::new(g), Instant::now(), s)
}

/// Print an all done message with timing info to the global writer.
pub fn all_done<W: ByteSink>(g: &mut GlobalWriter<W>, started: &Option<Instant>)
    ensures
        *started is None ==> final(g).wrote(old(g), line_bytes(bullet_text(done_text(None)))),
        *started is Some ==> exists|e: Elapsed|
            e.millis < 1000 && #[trigger] final(g).wrote(
                old(g),
                line_bytes(bullet_text(done_text(Some(e)))),
            ),
{
    crate::write::all_done(&mut g.current, started);
    proof {
        if *started is Some {
            let e = choose|e: Elapsed|
                e.millis < 1000 && #[trigger] g.current.wrote(
                    &old(g).current,
                    line_bytes(bullet_text(done_text(Some(e)))),
                );
            assert(g.wrote(old(g), line_bytes(bullet_text(done_text(Some(e))))));
        }
    }
}

/// Print a warning to the global writer.
pub fn warning<W: ByteSink>(g: &mut GlobalWriter<W>, s: &str)
    ensures
        final(g).wrote(old(g), paragraph_bytes(old(g).current().newline_run(), ANSI::Yellow, s@)),
{
    crate::write::warning(&mut g.current, s);
}

/// Print an error to the global writer.
pub fn error<W: ByteSink>(g: &mut GlobalWriter<W>, s: &str)
    ensures
        final(g).wrote(old(g), paragraph_bytes(old(g).current().newline_run(), ANSI::Red, s@)),
{
    crate::write::error(&mut g.current, s);
}

} // verus!
