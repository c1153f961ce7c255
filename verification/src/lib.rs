//! Reader and writer for the `ftab` firmware table container: a 48-byte
//! header, a list of 16-byte segment entries, the segment data and an
//! optional trailing ticket, all addressed by absolute byte offsets.
//!
//! * [`format`]: the layout of the header and of a segment list entry.
//! * [`parser`]: validating a buffer and walking its segments.
//! * [`builder`]: laying out segments and writing a file.
//! * [`manifest`]: the description of an unpacked file, and segment tags.
//! * [`roundtrip`]: the proof that what is written is read back.
//! * [`text`]: ASCII text for diagnostics and file names.

pub mod builder;
pub mod format;
pub mod manifest;
pub mod parser;
pub mod roundtrip;
pub mod text;
