//! Various states for [`crate::Print`] to contain.
//!
//! The [`crate::Print`] struct acts as an output state machine. These structs
//! represent the various states.

use crate::background_printer::PrintGuard;
use crate::sink::ByteSink;
use crate::util::{Indent, ParagraphInspectWrite};
use crate::write::{is_timer, MappedWrite};
use std::time::Instant;
use vstd::prelude::*;

verus! {

/// At the start of the output a header can be written. In this state the
/// reader has seen no output yet.
pub struct Header<W> {
    pub(crate) write: ParagraphInspectWrite<W>,
}

/// After the output has started, its top level is a list of bullets. A
/// bullet opens a section of sub-bullets.
pub struct Bullet<W> {
    pub(crate) write: ParagraphInspectWrite<W>,
}

/// The details of a section. When the section is finished, the output is
/// back at the top level.
pub struct SubBullet<W> {
    pub(crate) write: ParagraphInspectWrite<W>,
}

/// Output of a process is streamed to the reader, line by line and indented.
/// The state is started from a sub-bullet and finished back to one.
pub struct Stream<W: ByteSink> {
    pub(crate) started: Instant,
    pub(crate) write: MappedWrite<ParagraphInspectWrite<W>, Indent>,
}

/// A task runs that shows no output of its own; marks show that it goes on.
/// The state is started from a sub-bullet and finished back to one.
pub struct Background<W: ByteSink> {
    pub(crate) started: Instant,
    pub(crate) write: PrintGuard<ParagraphInspectWrite<W>>,
}

impl<W: ByteSink> Stream<W> {
    /// A stream hands its output on line by line.
    #[verifier::type_invariant]
    pub(crate) open spec fn line_by_line(self) -> bool {
        self.write.marker() == 10u8
    }
}

impl<W: ByteSink> Background<W> {
    /// The marks are those of a timer.
    #[verifier::type_invariant]
    pub(crate) open spec fn timer_marks(self) -> bool {
        is_timer(self.write)
    }
}

} // verus!
