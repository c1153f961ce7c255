//! The manifest of an unpacked `ftab` file: the header fields that are kept
//! as they are, the name of the ticket file and one description for each
//! segment file. Also the two ways in which a segment tag is written down in
//! a manifest: as a short string or as a number.

use vstd::prelude::*;
use vstd::slice::slice_to_vec;
use vstd::string::{StringExecFns, StringSliceAdditionalSpecFns};
use crate::parser::{ParsedSegment, Parser};
use crate::text::{hex_encode, spec_ascii, spec_hex, string_from_ascii};

verus! {

/// The four-byte tag that names a segment.
#[derive(Clone, Copy, Debug, PartialEq, Eq, Hash)]
pub struct Tag(pub [u8; 4]);

/// Whether `b` is an ASCII letter or digit.
pub open spec fn spec_is_ascii_alphanumeric(b: u8) -> bool {
    ||| 0x30 <= b <= 0x39
    ||| 0x41 <= b <= 0x5a
    ||| 0x61 <= b <= 0x7a
}

/// Whether `b` is an ASCII letter or digit.
pub fn is_ascii_alphanumeric(b: u8) -> (r: bool)
    ensures
        r == spec_is_ascii_alphanumeric(b),
{
    (0x30 <= b && b <= 0x39) || (0x41 <= b && b <= 0x5a) || (0x61 <= b && b <= 0x7a)
}

/// The four bytes that store `x` in big-endian order.
pub open spec fn spec_u32_to_be(x: u32) -> [u8; 4] {
    [
        ((x / 0x100_0000) % 0x100) as u8,
        ((x / 0x1_0000) % 0x100) as u8,
        ((x / 0x100) % 0x100) as u8,
        (x % 0x100) as u8,
    ]
}

/// The value of four bytes read as a big-endian unsigned integer.
pub open spec fn spec_u32_from_be(b: [u8; 4]) -> u32 {
    (b[0] as int * 0x100_0000 + b[1] as int * 0x1_0000 + b[2] as int * 0x100 + b[3] as int) as u32
}

/// The first `bytes.len()` bytes of the tag are `bytes`, the rest are zero.
pub open spec fn spec_zero_padded(bytes: Seq<u8>) -> [u8; 4]
    recommends
        bytes.len() <= 4,
{
    [
        if bytes.len() > 0 { bytes[0] } else { 0 },
        if bytes.len() > 1 { bytes[1] } else { 0 },
        if bytes.len() > 2 { bytes[2] } else { 0 },
        if bytes.len() > 3 { bytes[3] } else { 0 },
    ]
}

impl Tag {
    /// Whether every byte of the tag is an ASCII letter or digit.
    pub open spec fn spec_is_alphanumeric(self) -> bool {
        forall|i: int| 0 <= i < 4 ==> spec_is_ascii_alphanumeric(#[trigger] self.0[i])
    }

    /// Whether every byte of the tag is an ASCII letter or digit, so that a
    /// manifest shows it as a string; other tags are shown as a number.
    pub fn is_alphanumeric(&self) -> (r: bool)
        ensures
            r == self.spec_is_alphanumeric(),
    {
        is_ascii_alphanumeric(self.0[0]) && is_ascii_alphanumeric(self.0[1])
            && is_ascii_alphanumeric(self.0[2]) && is_ascii_alphanumeric(self.0[3])
    }

    /// The tag read as a big-endian number.
    pub fn to_u32(&self) -> (x: u32)
        ensures
            x == spec_u32_from_be(self.0),
    {
        (self.0[0] as u32) * 0x100_0000 + (self.0[1] as u32) * 0x1_0000 + (self.0[2] as u32)
            * 0x100 + (self.0[3] as u32)
    }

    /// The tag whose bytes store `x` in big-endian order.
    pub fn from_u32(x: u32) -> (tag: Tag)
        ensures
            tag.0 == spec_u32_to_be(x),
    {
        let bytes: [u8; 4] = [
            ((x / 0x100_0000) % 0x100) as u8,
            ((x / 0x1_0000) % 0x100) as u8,
            ((x / 0x100) % 0x100) as u8,
            (x % 0x100) as u8,
        ];
        assert(bytes =~= spec_u32_to_be(x));
        Tag(bytes)
    }
}

/// Why a value in a manifest is not a tag.
#[derive(Clone, Copy, Debug, PartialEq, Eq, Structural)]
pub enum TagError {
    /// The number is negative.
    Negative,
    /// The number is 2^32 or more.
    TooLarge,
    /// The string or byte string is longer than four bytes.
    TooLong { len: usize },
}

/// Turns the values that a manifest may hold in place of a tag into tags.
#[derive(Clone, Copy, Debug)]
pub struct TagVisitor;

impl TagVisitor {
    /// The tag that the signed number `v` stands for.
    pub open spec fn spec_visit_i64(v: i64) -> Result<Tag, TagError> {
        if v < 0 {
            Err(TagError::Negative)
        } else if v > u32::MAX {
            Err(TagError::TooLarge)
        } else {
            Ok(Tag(spec_u32_to_be(v as u32)))
        }
    }

    /// The tag that the unsigned number `v` stands for.
    pub open spec fn spec_visit_u64(v: u64) -> Result<Tag, TagError> {
        if v > u32::MAX {
            Err(TagError::TooLarge)
        } else {
            Ok(Tag(spec_u32_to_be(v as u32)))
        }
    }

    /// The tag that the byte string `v` stands for.
    pub open spec fn spec_visit_bytes(v: Seq<u8>) -> Result<Tag, TagError> {
        if v.len() <= 4 {
            Ok(Tag(spec_zero_padded(v)))
        } else {
            Err(TagError::TooLong { len: v.len() as usize })
        }
    }

    /// What a manifest may hold in place of a tag.
    pub fn expecting(&self) -> (text: &'static str)
        ensures
            text@ == "either a non-negative integer less than 2^32 or a 4-byte string"@,
    {
        "either a non-negative integer less than 2^32 or a 4-byte string"
    }

    /// A signed number is a tag where it is not negative and less than 2^32:
    /// the tag's bytes store it in big-endian order.
    pub fn visit_i64(&self, v: i64) -> (r: Result<Tag, TagError>)
        ensures
            r == Self::spec_visit_i64(v),
    {
        if v < 0 {
            Err(TagError::Negative)
        } else if v > u32::MAX as i64 {
            Err(TagError::TooLarge)
        } else {
            Ok(Tag::from_u32(v as u32))
        }
    }

    /// An unsigned number is a tag where it is less than 2^32: the tag's
    /// bytes store it in big-endian order.
    pub fn visit_u64(&self, v: u64) -> (r: Result<Tag, TagError>)
        ensures
            r == Self::spec_visit_u64(v),
    {
        if v > u32::MAX as u64 {
            Err(TagError::TooLarge)
        } else {
            Ok(Tag::from_u32(v as u32))
        }
    }

    /// A string is a tag where it takes four bytes or less: the tag starts
    /// with the string's bytes and is filled up with zeros.
    pub fn visit_str(&self, v: &str) -> (r: Result<Tag, TagError>)
        ensures
            r == Self::spec_visit_bytes(v.spec_bytes()),
    {
        self.visit_bytes(v.as_bytes())
    }

    /// A byte string is a tag where it is four bytes long or less: the tag
    /// starts with these bytes and is filled up with zeros.
    pub fn visit_bytes(&self, v: &[u8]) -> (r: Result<Tag, TagError>)
        ensures
            r == Self::spec_visit_bytes(v@),
    {
        let len = v.len();
        if len <= 4 {
            let tag: [u8; 4] = [
                if len > 0 { v[0] } else { 0 },
                if len > 1 { v[1] } else { 0 },
                if len > 2 { v[2] } else { 0 },
                if len > 3 { v[3] } else { 0 },
            ];
            assert(tag =~= spec_zero_padded(v@));
            Ok(Tag(tag))
        } else {
            Err(TagError::TooLong { len })
        }
    }
}

/// The name of the file that holds the segment with the given tag: the tag
/// itself where it is made of ASCII letters and digits, and else `tag_`
/// with the tag in hexadecimal; both with the extension `.bin`.
pub open spec fn spec_filename_for_tag(tag: [u8; 4]) -> Seq<char> {
    if Tag(tag).spec_is_alphanumeric() {
        spec_ascii(tag@) + ".bin"@
    } else {
        "tag_"@ + spec_ascii(spec_hex(tag@)) + ".bin"@
    }
}

/// The name of the file that holds the segment with the given tag.
pub fn filename_for_tag(tag: [u8; 4]) -> (name: String)
    ensures
        name@ == spec_filename_for_tag(tag),
{
    if Tag(tag).is_alphanumeric() {
        let bytes = slice_to_vec(tag.as_slice());
        assert forall|i: int| 0 <= i < bytes@.len() implies #[trigger] bytes@[i] < 0x80 by {
            assert(spec_is_ascii_alphanumeric(Tag(tag).0[i]));
        }
        let name = string_from_ascii(bytes);
        name.concat(".bin")
    } else {
        let mut name = String::from_str("tag_");
        let digits = hex_encode(tag.as_slice());
        name.append(digits.as_str());
        name.append(".bin");
        name
    }
}

/// One segment of an unpacked file: where its bytes are kept, its tag and
/// the field of unknown purpose of its entry.
#[derive(Debug)]
pub struct SegmentDesc {
    /// Path of the file that holds the segment's bytes.
    pub path: String,
    /// The segment's tag.
    pub tag: Tag,
    /// A field of unknown purpose, kept as it is.
    pub unk: u32,
}

impl SegmentDesc {
    /// Describes `segment`, whose bytes are kept in the file that is named
    /// after its tag.
    pub fn with_segment(segment: &ParsedSegment) -> (desc: SegmentDesc)
        ensures
            desc.path@ == spec_filename_for_tag(segment.tag),
            desc.tag.0 == segment.tag,
            desc.unk == segment.unk,
    {
        SegmentDesc { path: filename_for_tag(segment.tag), tag: Tag(segment.tag), unk: segment.unk }
    }
}

/// An unpacked `ftab` file.
#[derive(Debug)]
pub struct Manifest {
    pub unk_0: u32,
    pub unk_1: u32,
    pub unk_2: u32,
    pub unk_3: u32,
    pub unk_4: u32,
    pub unk_5: u32,
    pub unk_6: u32,
    /// Path of the file that holds the ticket, where there is one.
    pub ticket: Option<String>,
    /// The segments in the order of the segment list.
    pub segments: Vec<SegmentDesc>,
}

impl Manifest {
    /// A manifest with the header fields of a parsed file, no ticket and no
    /// segments yet.
    pub fn with_parser(parser: &Parser) -> (m: Manifest)
        ensures
            m.unk_0 == parser@.unk_0,
            m.unk_1 == parser@.unk_1,
            m.unk_2 == parser@.unk_2,
            m.unk_3 == parser@.unk_3,
            m.unk_4 == parser@.unk_4,
            m.unk_5 == parser@.unk_5,
            m.unk_6 == parser@.unk_6,
            m.ticket is None,
            m.segments@.len() == 0,
    {
        Manifest {
            unk_0: parser.unk_0(),
            unk_1: parser.unk_1(),
            unk_2: parser.unk_2(),
            unk_3: parser.unk_3(),
            unk_4: parser.unk_4(),
            unk_5: parser.unk_5(),
            unk_6: parser.unk_6(),
            ticket: None,
            segments: Vec::new(),
        }
    }
}

} // verus!
