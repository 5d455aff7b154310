//! Structured progress output for long-running command-line tools: headers,
//! bullets, sub-bullets, streamed command output and background timers,
//! rendered to a byte sink with paragraph-correct spacing and nested colors.

use crate::ansi_escape::ANSI;
use crate::clock::elapsed_since;
use crate::duration_format::{human_chars, human_text, Elapsed};
use crate::global::GlobalWriter;
use crate::sink::ByteSink;
use crate::style::{running_command, running_command_text};
use crate::text::chars_of;
use crate::util::{format_stream_writer, indented, joined, Indent, ParagraphInspectWrite};
use crate::write::{
    bullet_text, done_text, forwarded, h1_mark, h2_mark, h3_mark, header_bytes, held_after,
    line_bytes, message_bytes, paragraph_bytes, stream_bytes, stream_end_bytes,
    stream_finish_bytes, stream_start_bytes, sub_bullet_text, timer_abandon_bytes,
    timer_close_bytes, timer_line_bytes, timer_start_bytes, timer_tick_text, write_line,
};
use std::time::Instant;
use vstd::prelude::*;
use vstd::utf8::encode_utf8;

pub mod ansi_escape;
pub mod background_printer;
pub mod clock;
pub mod duration_format;
pub mod global;
pub mod sink;
pub mod state;
pub mod style;
pub mod text;
pub mod util;
pub mod write;

pub use ansi_escape::strip_ansi;

verus! {

/// Use [`Print`] to output structured text as a script executes. The state
/// of the output is the type parameter: each step consumes the handle and
/// returns the handle of the next state, so that only the steps that are
/// valid in a state can be written down at all.
pub struct Print<T> {
    pub(crate) started: Option<Instant>,
    pub(crate) state: T,
}

impl<W: ByteSink> Print<state::Header<W>> {
    /// The sink that the output goes to.
    pub closed spec fn sink(&self) -> ParagraphInspectWrite<W> {
        self.state.write
    }

    /// The reading of the clock from which the whole output is timed.
    pub closed spec fn started(&self) -> Option<Instant> {
        self.started
    }

    /// Create an output struct, but do not announce anything yet.
    #[must_use]
    pub fn new(io: W) -> (p: Self)
        ensures
            p.sink().inner() == io,
            p.sink().newline_run() == 0,
            p.started() is None,
    {
        Self { state: state::Header { write: ParagraphInspectWrite::new(io) }, started: None }
    }

    /// Create an output struct for a sink on which the output goes on: what
    /// stands there ends with `newlines` line breaks.
    #[must_use]
    pub fn continuing(io: W, newlines: usize) -> (p: Self)
        ensures
            p.sink().inner() == io,
            p.sink().newline_run() == newlines,
            p.started() is None,
    {
        Self {
            state: state::Header { write: ParagraphInspectWrite::continuing(io, newlines) },
            started: None,
        }
    }

    /// Announce the start of the output with a header of the first level.
    ///
    /// This function will transition your output to [`state::Bullet`], and
    /// the output is timed from here on.
    #[must_use]
    pub fn h1(self, s: &str) -> (p: Print<state::Bullet<W>>)
        ensures
            p.sink().wrote(&self.sink(), header_bytes(self.sink().newline_run(), h1_mark(), s@)),
            p.started() is Some,
    {
        let mut this = self;
        write::h1(&mut this.state.write, s);
        this.without_header()
    }

    /// Announce the start of the output with a header of the second level.
    ///
    /// This function will transition your output to [`state::Bullet`], and
    /// the output is timed from here on.
    #[must_use]
    pub fn h2(self, s: &str) -> (p: Print<state::Bullet<W>>)
        ensures
            p.sink().wrote(&self.sink(), header_bytes(self.sink().newline_run(), h2_mark(), s@)),
            p.started() is Some,
    {
        let mut this = self;
        write::h2(&mut this.state.write, s);
        this.without_header()
    }

    /// Announce the start of the output with a header of the third level.
    ///
    /// This function will transition your output to [`state::Bullet`], and
    /// the output is timed from here on.
    #[must_use]
    pub fn h3(self, s: &str) -> (p: Print<state::Bullet<W>>)
        ensures
            p.sink().wrote(&self.sink(), header_bytes(self.sink().newline_run(), h3_mark(), s@)),
            p.started() is Some,
    {
        let mut this = self;
        write::h3(&mut this.state.write, s);
        this.without_header()
    }

    /// Releases the handle without further output and gives the raw sink
    /// back.
    pub fn release(self) -> (io: W)
        ensures
            io == self.sink().inner(),
    {
        self.state.write.into_inner()
    }

    /// Start an output without announcing the name. The output is timed from
    /// here on.
    #[must_use]
    pub fn without_header(self) -> (p: Print<state::Bullet<W>>)
        ensures
            p.sink() == self.sink(),
            p.started() is Some,
    {
        Print { started: Some(Instant::now()), state: state::Bullet { write: self.state.write } }
    }
}

impl<W: ByteSink> Print<state::Header<GlobalWriter<W>>> {
    /// Create an output struct that writes to the global writer `g` and
    /// goes on from the line breaks that the output there ends with.
    #[must_use]
    pub fn global(g: GlobalWriter<W>) -> (p: Self)
        ensures
            p.sink().inner() == g,
            p.sink().newline_run() == g.current().newline_run(),
            p.started() is None,
    {
        let run = g.trailing_newline_count();
        Print::continuing(g, run)
    }
}

impl<W: ByteSink> Print<state::Bullet<W>> {
    /// The sink that the output goes to.
    pub closed spec fn sink(&self) -> ParagraphInspectWrite<W> {
        self.state.write
    }

    /// The reading of the clock from which the whole output is timed.
    pub closed spec fn started(&self) -> Option<Instant> {
        self.started
    }

    /// A top-level bullet point section.
    ///
    /// This function will transition your output to [`state::SubBullet`].
    #[must_use]
    pub fn bullet(self, s: &str) -> (p: Print<state::SubBullet<W>>)
        ensures
            p.sink().wrote(&self.sink(), line_bytes(bullet_text(s@))),
            p.started() == self.started(),
    {
        let mut this = self;
        write::bullet(&mut this.state.write, s);
        Print { started: this.started, state: state::SubBullet { write: this.state.write } }
    }

    /// Outputs an H2 header.
    #[must_use]
    pub fn h2(self, s: &str) -> (p: Print<state::Bullet<W>>)
        ensures
            p.sink().wrote(&self.sink(), header_bytes(self.sink().newline_run(), h2_mark(), s@)),
            p.started() == self.started(),
    {
        let mut this = self;
        write::h2(&mut this.state.write, s);
        this
    }

    /// Releases the handle without further output and gives the raw sink
    /// back.
    pub fn release(self) -> (io: W)
        ensures
            io == self.sink().inner(),
    {
        self.state.write.into_inner()
    }

    /// Announce that the script has finished execution successfully: writes
    /// `Done`, with the time since the output started where that was
    /// recorded, and gives the raw sink back.
    pub fn done(self) -> (io: W)
        ensures
            self.started() is None ==> io.wrote(
                &self.sink().inner(),
                line_bytes(bullet_text(done_text(None))),
            ),
            self.started() is Some ==> exists|e: Elapsed|
                e.millis < 1000 && #[trigger] io.wrote(
                    &self.sink().inner(),
                    line_bytes(bullet_text(done_text(Some(e)))),
                ),
    {
        let mut this = self;
        write::all_done(&mut this.state.write, &this.started);
        proof {
            if self.started is Some {
                let e = choose|e: Elapsed|
                    e.millis < 1000 && #[trigger] this.state.write.wrote(
                        &self.state.write,
                        line_bytes(bullet_text(done_text(Some(e)))),
                    );
                assert(this.state.write.inner().wrote(
                    &self.sink().inner(),
                    line_bytes(bullet_text(done_text(Some(e)))),
                ));
            }
        }
        this.state.write.into_inner()
    }

    /// Emit an error and end the output: the handle is used up, and the raw
    /// sink comes back.
    pub fn error(self, s: &str) -> (io: W)
        ensures
            io.wrote(
                &self.sink().inner(),
                paragraph_bytes(self.sink().newline_run(), ANSI::Red, s@),
            ),
    {
        let mut this = self;
        write::error(&mut this.state.write, s);
        this.state.write.into_inner()
    }

    /// Emit a warning message to the end user, as a paragraph of its own.
    #[must_use]
    pub fn warning(self, s: &str) -> (p: Self)
        ensures
            p.sink().wrote(
                &self.sink(),
                paragraph_bytes(self.sink().newline_run(), ANSI::Yellow, s@),
            ),
            p.started() == self.started(),
    {
        let mut this = self;
        write::warning(&mut this.state.write, s);
        this
    }

    /// Emit an important message to the end user, as a paragraph of its own.
    #[must_use]
    pub fn important(self, s: &str) -> (p: Self)
        ensures
            p.sink().wrote(
                &self.sink(),
                paragraph_bytes(self.sink().newline_run(), ANSI::BoldCyan, s@),
            ),
            p.started() == self.started(),
    {
        let mut this = self;
        write::important(&mut this.state.write, s);
        this
    }
}

impl<W: ByteSink> Print<state::SubBullet<W>> {
    /// The sink that the output goes to.
    pub closed spec fn sink(&self) -> ParagraphInspectWrite<W> {
        self.state.write
    }

    /// The reading of the clock from which the whole output is timed.
    pub closed spec fn started(&self) -> Option<Instant> {
        self.started
    }

    /// Emit a sub bullet point step in the output under a bullet point.
    #[must_use]
    pub fn sub_bullet(self, s: &str) -> (p: Print<state::SubBullet<W>>)
        ensures
            p.sink().wrote(&self.sink(), line_bytes(sub_bullet_text(s@))),
            p.started() == self.started(),
    {
        let mut this = self;
        write::sub_bullet(&mut this.state.write, s);
        this
    }

    /// Stream output to the end user: announces the stream with the
    /// sub-bullet `s` and a blank line.
    ///
    /// This function will transition your output to [`state::Stream`].
    #[must_use]
    pub fn start_stream(self, s: &str) -> (p: Print<state::Stream<W>>)
        ensures
            p.sink().wrote(&self.sink(), stream_start_bytes(s@)),
            p.held() == Seq::<u8>::empty(),
            p.started() == self.started(),
    {
        let mut this = self;
        write::stream_start(&mut this.state.write, s);
        Print {
            started: this.started,
            state: state::Stream {
                started: Instant::now(),
                write: format_stream_writer(this.state.write),
            },
        }
    }

    /// Output periodic timer updates to the end user: writes the sub-bullet
    /// `s` without ending its line, and the first marks.
    ///
    /// This function will transition your output to [`state::Background`].
    #[must_use]
    pub fn start_timer(self, s: &str) -> (p: Print<state::Background<W>>)
        ensures
            p.sink().wrote(&self.sink(), timer_start_bytes(s@)),
            p.started() is Some,
    {
        write::sub_start_timer(self.state.write, Instant::now(), s)
    }

    /// Stream the output of a command without consuming the handle.
    /// `messages` holds what arrived from the command's two streams, in the
    /// order of arrival; the command took `elapsed`.
    pub fn stream_with(&mut self, s: &str, messages: &Vec<Vec<u8>>, elapsed: &Elapsed)
        ensures
            final(self).sink().wrote(
                &old(self).sink(),
                stream_bytes(
                    old(self).sink().newline_run(),
                    s@,
                    joined(message_bytes(messages@)),
                    *elapsed,
                ),
            ),
            final(self).started() == old(self).started(),
    {
        write::sub_stream_with(&mut self.state.write, s, messages, elapsed);
    }

    /// Announce a command and stream its output. The command is `name`, its
    /// output arrived as `messages`, in the order of arrival, and it took
    /// `elapsed`.
    pub fn stream_cmd(&mut self, name: &str, messages: &Vec<Vec<u8>>, elapsed: &Elapsed)
        ensures
            final(self).sink().wrote(
                &old(self).sink(),
                stream_bytes(
                    old(self).sink().newline_run(),
                    running_command_text(name@),
                    joined(message_bytes(messages@)),
                    *elapsed,
                ),
            ),
            final(self).started() == old(self).started(),
    {
        write::sub_stream_cmd(&mut self.state.write, name, messages, elapsed);
    }

    /// Print the name of a command that ran quietly, with the marks of a
    /// timer over which `ticks` intervals passed after the first and the time
    /// `elapsed` that the command took.
    pub fn time_cmd(&mut self, name: &str, ticks: usize, elapsed: &Elapsed)
        ensures
            final(self).sink().wrote(
                &old(self).sink(),
                timer_line_bytes(
                    running_command_text(name@),
                    ticks as nat,
                    human_text(elapsed.secs, elapsed.millis),
                ),
            ),
            final(self).started() == old(self).started(),
    {
        write::timer_line(
            &mut self.state.write,
            running_command(name).as_str(),
            ticks,
            &human_chars(elapsed),
        );
    }

    /// Announces the output of a command that is about to be streamed: the
    /// first of the three steps of [`Print::stream_with`], for a caller that
    /// hands the output on while the command runs.
    pub fn stream_open(&mut self, s: &str)
        ensures
            final(self).sink().wrote(&old(self).sink(), stream_start_bytes(s@)),
            final(self).started() == old(self).started(),
    {
        write::stream_start(&mut self.state.write, s);
    }

    /// Writes `message`, which arrived from a running command, as it is.
    pub fn stream_write(&mut self, message: &[u8])
        ensures
            final(self).sink().wrote(&old(self).sink(), message@),
            final(self).started() == old(self).started(),
    {
        self.state.write.write_all(message);
    }

    /// Closes the streamed output of a command that took `elapsed`.
    pub fn stream_close(&mut self, elapsed: &Elapsed)
        ensures
            final(self).sink().wrote(
                &old(self).sink(),
                stream_finish_bytes(old(self).sink().newline_run(), *elapsed),
            ),
            final(self).started() == old(self).started(),
    {
        write::stream_finish(&mut self.state.write, elapsed);
    }

    /// Releases the handle without further output and gives the raw sink
    /// back.
    pub fn release(self) -> (io: W)
        ensures
            io == self.sink().inner(),
    {
        self.state.write.into_inner()
    }

    /// Finish a section and transition back to [`state::Bullet`].
    #[must_use]
    pub fn done(self) -> (p: Print<state::Bullet<W>>)
        ensures
            p.sink() == self.sink(),
            p.started() == self.started(),
    {
        Print { started: self.started, state: state::Bullet { write: self.state.write } }
    }

    /// Emit an error and end the output: the handle is used up, and the raw
    /// sink comes back.
    pub fn error(self, s: &str) -> (io: W)
        ensures
            io.wrote(
                &self.sink().inner(),
                paragraph_bytes(self.sink().newline_run(), ANSI::Red, s@),
            ),
    {
        let mut this = self;
        write::error(&mut this.state.write, s);
        this.state.write.into_inner()
    }

    /// Emit a warning message to the end user, as a paragraph of its own.
    #[must_use]
    pub fn warning(self, s: &str) -> (p: Self)
        ensures
            p.sink().wrote(
                &self.sink(),
                paragraph_bytes(self.sink().newline_run(), ANSI::Yellow, s@),
            ),
            p.started() == self.started(),
    {
        let mut this = self;
        write::warning(&mut this.state.write, s);
        this
    }

    /// Emit an important message to the end user, as a paragraph of its own.
    #[must_use]
    pub fn important(self, s: &str) -> (p: Self)
        ensures
            p.sink().wrote(
                &self.sink(),
                paragraph_bytes(self.sink().newline_run(), ANSI::BoldCyan, s@),
            ),
            p.started() == self.started(),
    {
        let mut this = self;
        write::important(&mut this.state.write, s);
        this
    }
}

impl<W: ByteSink> Print<state::Stream<W>> {
    /// The sink that the output goes to.
    pub closed spec fn sink(&self) -> ParagraphInspectWrite<W> {
        self.state.write.inner()
    }

    /// The bytes of the line that has not ended yet.
    pub closed spec fn held(&self) -> Seq<u8> {
        self.state.write.held()
    }

    /// The reading of the clock from which the whole output is timed.
    pub closed spec fn started(&self) -> Option<Instant> {
        self.started
    }

    /// Takes raw output: each line that `buf` ends goes to the sink, indented
    /// unless it is blank; what follows the last line break is kept for the
    /// next write.
    #[must_use]
    pub fn write_all(self, buf: &[u8]) -> (p: Self)
        ensures
            p.sink().wrote(&self.sink(), forwarded(Indent, 10u8, self.held(), buf@)),
            p.held() == held_after(10u8, self.held(), buf@),
            p.started() == self.started(),
    {
        proof {
            use_type_invariant(&self.state);
        }
        let state::Stream { started, write } = self.state;
        let mut write = write;
        write.write_all(buf);
        Print { started: self.started, state: state::Stream { started, write } }
    }

    /// Releases the handle while the stream is open. A line that has not
    /// ended is written first, so that no output is lost, and the raw sink
    /// comes back.
    pub fn release(self) -> (io: W)
        ensures
            io.wrote(
                &self.sink().inner(),
                if self.held().len() > 0 {
                    indented(self.held())
                } else {
                    Seq::empty()
                },
            ),
    {
        let state::Stream { started: _, write } = self.state;
        write.unwrap().into_inner()
    }

    /// Finalize a stream's output: a line that has not ended is written,
    /// then `Done` with the time that the stream took, behind a blank line.
    ///
    /// This function transitions back to [`state::SubBullet`].
    #[must_use]
    pub fn done(self) -> (p: Print<state::SubBullet<W>>)
        ensures
            exists|e: Elapsed|
                e.millis < 1000 && #[trigger] p.sink().wrote(
                    &self.sink(),
                    stream_end_bytes(self.sink().newline_run(), self.held(), e),
                ),
            p.started() == self.started(),
    {
        let state::Stream { started, write } = self.state;
        let e = elapsed_since(&started);
        let io = write::stream_end(write, &e);
        let p = Print { started: self.started, state: state::SubBullet { write: io } };
        assert(p.sink().wrote(
            &self.sink(),
            stream_end_bytes(self.sink().newline_run(), self.held(), e),
        ));
        p
    }
}

impl<W: ByteSink> Print<state::Background<W>> {
    /// The sink that the output goes to.
    pub closed spec fn sink(&self) -> ParagraphInspectWrite<W> {
        self.state.write.sink()
    }

    /// The reading of the clock from which the whole output is timed.
    pub closed spec fn started(&self) -> Option<Instant> {
        self.started
    }

    /// Another interval has passed while the task runs: writes one more
    /// mark.
    #[must_use]
    pub fn tick(self) -> (p: Self)
        ensures
            p.sink().wrote(&self.sink(), encode_utf8(timer_tick_text())),
            p.started() == self.started(),
    {
        proof {
            use_type_invariant(&self.state);
        }
        let state::Background { started, write } = self.state;
        let mut write = write;
        write.tick();
        Print { started: self.started, state: state::Background { started, write } }
    }

    /// Interrupt a timer with a message explaining why: the closing mark and
    /// the message in round brackets end the timer's line.
    #[must_use]
    pub fn cancel(self, why_details: &str) -> (p: Print<state::SubBullet<W>>)
        ensures
            p.sink().wrote(&self.sink(), timer_close_bytes(why_details@)),
            p.started() == self.started(),
    {
        proof {
            use_type_invariant(&self.state);
        }
        let state::Background { started: _, write } = self.state;
        let io = write::timer_close(write, &chars_of(why_details));
        Print { started: self.started, state: state::SubBullet { write: io } }
    }

    /// Finalize a timer's output: the closing mark and the time that the
    /// task took, in round brackets, end the timer's line.
    ///
    /// This function transitions back to [`state::SubBullet`].
    #[must_use]
    pub fn done(self) -> (p: Print<state::SubBullet<W>>)
        ensures
            exists|e: Elapsed|
                e.millis < 1000 && #[trigger] p.sink().wrote(
                    &self.sink(),
                    timer_close_bytes(human_text(e.secs, e.millis)),
                ),
            p.started() == self.started(),
    {
        proof {
            use_type_invariant(&self.state);
        }
        let state::Background { started, write } = self.state;
        let e = elapsed_since(&started);
        let io = write::timer_close(write, &human_chars(&e));
        let p = Print { started: self.started, state: state::SubBullet { write: io } };
        assert(p.sink().wrote(&self.sink(), timer_close_bytes(human_text(e.secs, e.millis))));
        p
    }

    /// Releases the handle while the timer was neither finished nor
    /// interrupted. The timer is not lost in silence: its line is closed with
    /// the text `(Error)`, and the raw sink comes back.
    pub fn release(self) -> (io: W)
        ensures
            io.wrote(&self.sink().inner(), timer_abandon_bytes()),
    {
        proof {
            use_type_invariant(&self.state);
        }
        let state::Background { started: _, write } = self.state;
        write.abandon().into_inner()
    }
}

/// Writes `msg` as a line.
pub fn writeln_now<D: ByteSink>(destination: &mut D, msg: &str)
    ensures
        final(destination).wrote(old(destination), line_bytes(msg@)),
{
    write_line(destination, &chars_of(msg));
}

} // verus!
