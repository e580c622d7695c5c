//! Reads subtitle blocks from a sequence of text lines, shifts their
//! timestamps and renders them back to text.

pub mod block;
pub mod decoder;
pub mod error;
pub mod offset;
pub mod text;
pub mod time;

pub use block::Block;
pub use decoder::{BlockReader, Decoder, SourceLine, Step};
pub use error::ParseError;
pub use offset::{add_offset_to, dur, dur_from_str, shift};
pub use time::{parse_time_line, StartEnd, Time, Times};
