//! Errors reported while reading an `ftab` file.

use vstd::prelude::*;
use vstd::string::StringExecFns;
use crate::text::{escape_ascii, spec_ascii, spec_escape_ascii, string_from_ascii};

verus! {

/// Why a buffer was rejected as an `ftab` file.
#[derive(Clone, Copy, Debug, PartialEq, Eq, Structural)]
pub enum ParseError {
    /// The buffer is shorter than the file header.
    TooShort,
    /// The buffer does not hold the `rkosftab` magic value at its place.
    UnknownMagic,
    /// The byte length of the segment list does not fit in `usize`.
    OverflowingSegmentsLength,
    /// The segment list extends past the end of the buffer.
    OobSegmentsList,
    /// The ticket extends past the end of the buffer, or starts inside the
    /// header or the segment list.
    OobTicket,
}

impl ParseError {
    /// The text of the diagnostic for each error.
    pub open spec fn spec_message(self) -> Seq<char> {
        match self {
            ParseError::TooShort => "file is too short to be a ftab file"@,
            ParseError::UnknownMagic => "file is not a ftab file (invalid magic value)"@,
            ParseError::OverflowingSegmentsLength => "segments list byte length is too large"@,
            ParseError::OobSegmentsList =>
                "segments list is larger than the space available in the file"@,
            ParseError::OobTicket => "ticket range in file is out of bounds"@,
        }
    }

    /// A human-readable description of the error.
    pub fn message(&self) -> (text: &'static str)
        ensures
            text@ == self.spec_message(),
    {
        match self {
            ParseError::TooShort => "file is too short to be a ftab file",
            ParseError::UnknownMagic => "file is not a ftab file (invalid magic value)",
            ParseError::OverflowingSegmentsLength => "segments list byte length is too large",
            ParseError::OobSegmentsList =>
                "segments list is larger than the space available in the file",
            ParseError::OobTicket => "ticket range in file is out of bounds",
        }
    }
}

/// A segment list entry whose byte range lies outside the file, or inside
/// the header or the segment list.
#[derive(Clone, Copy, Debug)]
#[non_exhaustive]
pub struct OobSegmentError {
    /// The tag of the offending entry.
    pub tag: [u8; 4],
}

impl OobSegmentError {
    /// The text of the diagnostic: it shows the tag in escaped form.
    pub open spec fn spec_message(self) -> Seq<char> {
        "segment with tag "@ + spec_ascii(spec_escape_ascii(self.tag@)) + " is out of bounds"@
    }

    /// A human-readable description of the error.
    pub fn message(&self) -> (text: String)
        ensures
            text@ == self.spec_message(),
    {
        let escaped = string_from_ascii(escape_ascii(self.tag.as_slice()));
        let mut text = String::from_str("segment with tag ");
        text.append(escaped.as_str());
        text.append(" is out of bounds");
        text
    }
}

} // verus!
