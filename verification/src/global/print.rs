//! Print to a global writer without stateful protections.
//!
//! The [`crate::Print`] struct gives maximum safety. These functions write
//! the same output and leave the order of the calls to the caller; the
//! spacing between paragraphs is still kept.

pub use super::all_done;
pub use super::buildpack;
pub use super::bullet;
pub use super::error;
pub use super::h1;
pub use super::h2;
pub use super::h3;
pub use super::header;
pub use super::plain;
pub use super::sub_bullet;
pub use super::sub_start_timer;
pub use super::sub_stream_close;
pub use super::sub_stream_cmd;
pub use super::sub_stream_open;
pub use super::sub_stream_with;
pub use super::sub_time_cmd;
pub use super::warning;
