//! The marks that show, while other work is done, that the work goes on.
//!
//! The guard here decides what is written; who owns it calls `tick` each
//! time the interval has passed.

use crate::sink::ByteSink;
use crate::text::chars_of;
use crate::write::{line_bytes, write_chars, write_line};
use vstd::prelude::*;
use vstd::utf8::encode_utf8;

verus! {

/// A sink on which progress marks are being written. It ends in one of three
/// ways: `stop` writes the closing mark, `abandon` writes the closing mark
/// and the text for a timer that nobody closed.
pub struct PrintGuard<W> {
    sink: W,
    tick: Vec<char>,
    end: Vec<char>,
    dropped: Vec<char>,
}

impl<W: ByteSink> PrintGuard<W> {
    /// The sink that the marks go to.
    pub closed spec fn sink(&self) -> W {
        self.sink
    }

    /// The mark written for each interval.
    pub closed spec fn tick_text(&self) -> Seq<char> {
        self.tick@
    }

    /// The mark written when the guard is stopped.
    pub closed spec fn end_text(&self) -> Seq<char> {
        self.end@
    }

    /// The text written when the guard is given up without being stopped.
    pub closed spec fn dropped_text(&self) -> Seq<char> {
        self.dropped@
    }

    /// Another interval has passed: writes the mark for it.
    pub fn tick(&mut self)
        ensures
            final(self).sink().wrote(&old(self).sink(), encode_utf8(old(self).tick_text())),
            final(self).tick_text() == old(self).tick_text(),
            final(self).end_text() == old(self).end_text(),
            final(self).dropped_text() == old(self).dropped_text(),
    {
        write_chars(&mut self.sink, &self.tick);
    }

    /// Ends the marks: writes the closing mark and gives the sink back.
    pub fn stop(self) -> (io: W)
        ensures
            io.wrote(&self.sink(), encode_utf8(self.end_text())),
    {
        let mut this = self;
        write_chars(&mut this.sink, &this.end);
        this.sink
    }

    /// What [`PrintGuard::abandon`] writes.
    pub open spec fn abandoned_bytes(&self) -> Seq<u8> {
        encode_utf8(self.end_text()) + line_bytes(self.dropped_text())
    }

    /// Ends marks that nobody stopped: writes the closing mark and then, as
    /// the last of the line, the text for a timer that was given up.
    pub fn abandon(self) -> (io: W)
        ensures
            io.wrote(&self.sink(), self.abandoned_bytes()),
    {
        let mut this = self;
        let ghost before = this.sink;
        write_chars(&mut this.sink, &this.end);
        let ghost ended = this.sink;
        write_line(&mut this.sink, &this.dropped);
        proof {
            this.sink.lemma_wrote_more(
                &ended,
                &before,
                encode_utf8(this.end@),
                line_bytes(this.dropped@),
            );
        }
        this.sink
    }
}

/// Starts progress marks on `buffer`: writes `start` and the mark of the
/// first interval, `tick`. The guard writes `tick` again for each further
/// interval, `end` when it is stopped, and `dropped` on a line's end when it
/// is given up.
pub fn print_interval<W: ByteSink>(
    buffer: W,
    start: &str,
    tick: &str,
    end: &str,
    dropped: &str,
) -> (guard: PrintGuard<W>)
    ensures
        guard.sink().wrote(&buffer, encode_utf8(start@) + encode_utf8(tick@)),
        guard.tick_text() == tick@,
        guard.end_text() == end@,
        guard.dropped_text() == dropped@,
{
    let mut sink = buffer;
    let tick_chars = chars_of(tick);
    write_chars(&mut sink, &chars_of(start));
    let ghost started = sink;
    write_chars(&mut sink, &tick_chars);
    proof {
        sink.lemma_wrote_more(&started, &buffer, encode_utf8(start@), encode_utf8(tick@));
    }
    PrintGuard { sink, tick: tick_chars, end: chars_of(end), dropped: chars_of(dropped) }
}

} // verus!
