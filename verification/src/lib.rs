//! Applies a stream of line-level text edits to in-memory file buffers.
//!
//! Each input record has the form `FILE_PATH:LINE_NUMBER:NEW_LINE_CONTENT`.
//! A record replaces the content of one line of the named file while keeping
//! the line's original terminator bytes (`\n`, `\r\n`, or none) and every
//! other line untouched. Records are grouped by file: consecutive records for
//! the same path share one buffer, which is persisted exactly once when the
//! path changes or the stream ends. All file and stream I/O is left to the
//! caller; this crate works on plain byte values.

pub mod dispatcher;
pub mod patcher;
pub mod record;
pub mod summary;
pub mod text;
