//! Parsing of SubRip (.srt) subtitles from bytes.
//!
//! A [`SubRipParser`] walks a byte buffer record by record. It detects the
//! text encoding from a byte-order mark, splits the buffer into lines,
//! decodes each line, and turns position, timecode and text lines into
//! [`SubRip`] records. A malformed record yields one [`Error`] and parsing
//! resumes after the next empty line.
pub mod encoding;
pub mod error;
pub mod fields;
pub mod format;
pub mod lines;
pub mod number;
pub mod parser;

pub use encoding::{detect_encoding, TextEncoding};
pub use error::{Error, ErrorKind, FieldError};
pub use fields::{parse_position, parse_timecode};
pub use format::{SubRip, Timecode};
pub use lines::trim_newline;
pub use parser::SubRipParser;
