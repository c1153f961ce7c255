//! Reading `ftab` files held in memory: [`Parser`] validates the header and
//! [`SegmentsParser`] walks the segment list.

use vstd::prelude::*;
use vstd::slice::slice_subrange;
use crate::format::{
    get_u32_le, spec_u32_at, SegmentHeader, HEADER_LEN, MAGIC, SEGMENT_HEADER_LEN,
};

pub mod error;
pub mod laws;

pub use error::{OobSegmentError, ParseError};

verus! {

/// The bytes at `[offset, offset + len)` of a file, seen from a slice of
/// that file which starts at the absolute offset `slice_offset`; `None`
/// where the range starts before the slice or ends after it.
pub open spec fn spec_cut_subslice(slice: Seq<u8>, offset: int, len: int, slice_offset: int)
    -> Option<Seq<u8>> {
    let start = offset - slice_offset;
    if 0 <= start && start <= slice.len() && len <= slice.len() - start {
        Some(slice.subrange(start, start + len))
    } else {
        None
    }
}

/// Takes a subslice of `slice` by absolute offset and length, where `slice`
/// itself starts at the absolute offset `slice_offset`.
pub fn cut_subslice<'a>(slice: &'a [u8], offset: usize, len: usize, slice_offset: usize) -> (r:
    Option<&'a [u8]>)
    ensures
        match r {
            Some(s) => spec_cut_subslice(slice@, offset as int, len as int, slice_offset as int)
                == Some(s@),
            None => spec_cut_subslice(slice@, offset as int, len as int, slice_offset as int)
                is None,
        },
{
    match offset.checked_sub(slice_offset) {
        None => None,
        Some(start) => {
            if start <= slice.len() && slice.len() - start >= len {
                Some(slice_subrange(slice, start, start + len))
            } else {
                None
            }
        },
    }
}

/// A cursor that stands at offset `at` of `all` reads the next `n` bytes of
/// `all` and then stands at `at + n`.
proof fn lemma_cursor_step(all: Seq<u8>, cursor: Seq<u8>, at: int, n: int)
    requires
        0 <= at,
        0 <= n,
        at + n <= all.len(),
        cursor == all.skip(at),
    ensures
        cursor.take(n) == all.subrange(at, at + n),
        cursor.skip(n) == all.skip(at + n),
{
    assert(cursor.take(n) =~= all.subrange(at, at + n));
    assert(cursor.skip(n) =~= all.skip(at + n));
}

/// Checks that `bytes` starts with the magic value and returns what follows
/// it.
pub fn match_magic(bytes: &[u8]) -> (r: Result<&[u8], ParseError>)
    requires
        bytes@.len() >= 8,
    ensures
        match r {
            Ok(tail) => bytes@.take(8) == MAGIC@ && tail@ == bytes@.skip(8),
            Err(e) => bytes@.take(8) != MAGIC@ && e == ParseError::UnknownMagic,
        },
{
    let mut i: usize = 0;
    while i < 8
        invariant
            i <= 8,
            bytes@.len() >= 8,
            forall|j: int| 0 <= j < i ==> bytes@[j] == MAGIC@[j],
        decreases 8 - i,
    {
        if bytes[i] != MAGIC[i] {
            assert(bytes@.take(8)[i as int] != MAGIC@[i as int]);
            return Err(ParseError::UnknownMagic);
        }
        i += 1;
    }
    assert(bytes@.take(8) =~= MAGIC@);
    Ok(slice_subrange(bytes, 8, bytes.len()))
}

/// The entries stored in a raw segment list, in file order.
pub open spec fn spec_decode_list(raw: Seq<u8>) -> Seq<SegmentHeader> {
    Seq::new(
        (raw.len() / 16) as nat,
        |i: int| SegmentHeader::spec_decode(raw.subrange(16 * i, 16 * i + 16)),
    )
}

/// Dropping the first 16 bytes of a raw segment list drops its first entry.
pub proof fn lemma_decode_list_skip(raw: Seq<u8>)
    requires
        raw.len() >= 16,
    ensures
        spec_decode_list(raw.skip(16)) == spec_decode_list(raw).skip(1),
{
    let a = spec_decode_list(raw.skip(16));
    let b = spec_decode_list(raw).skip(1);
    assert(a.len() == b.len());
    assert forall|i: int| 0 <= i < a.len() implies #[trigger] a[i] == b[i] by {
        assert(raw.skip(16).subrange(16 * i, 16 * i + 16) =~= raw.subrange(
            16 * (i + 1),
            16 * (i + 1) + 16,
        ));
    }
    assert(a =~= b);
}

/// What a successfully parsed file holds.
pub struct ParserView {
    pub unk_0: u32,
    pub unk_1: u32,
    pub unk_2: u32,
    pub unk_3: u32,
    pub unk_4: u32,
    pub unk_5: u32,
    pub unk_6: u32,
    /// The ticket, where the header names one.
    pub ticket: Option<Seq<u8>>,
    /// The entries of the segment list, in file order.
    pub segments: Seq<SegmentHeader>,
    /// Everything that follows the segment list.
    pub data: Seq<u8>,
}

impl ParserView {
    /// Absolute offset of the first byte after the segment list.
    pub open spec fn data_offset(self) -> int {
        HEADER_LEN + SEGMENT_HEADER_LEN * self.segments.len()
    }

    /// The cursor over all entries of the file.
    pub open spec fn segments_view(self) -> SegmentsParserView {
        SegmentsParserView {
            headers: self.segments,
            data: self.data,
            data_offset: self.data_offset(),
        }
    }
}

/// The ticket named by a header with the given ticket offset and length,
/// over the data region `data` that starts at `data_offset`: absent where
/// both fields are zero, and otherwise a range that must lie in `data`.
pub open spec fn spec_ticket(data: Seq<u8>, ticket_offset: u32, ticket_len: u32, data_offset: int)
    -> Result<Option<Seq<u8>>, ParseError> {
    if ticket_offset == 0 && ticket_len == 0 {
        Ok(None)
    } else {
        match spec_cut_subslice(data, ticket_offset as int, ticket_len as int, data_offset) {
            Some(t) => Ok(Some(t)),
            None => Err(ParseError::OobTicket),
        }
    }
}

/// The result of parsing `bytes` as an `ftab` file: the checks in the order
/// in which they are made, and what an accepted file holds.
pub open spec fn spec_parse(bytes: Seq<u8>) -> Result<ParserView, ParseError> {
    if bytes.len() < HEADER_LEN {
        Err(ParseError::TooShort)
    } else if bytes.subrange(32, 40) != MAGIC@ {
        Err(ParseError::UnknownMagic)
    } else {
        let count = spec_u32_at(bytes, 40);
        let list_len = count * SEGMENT_HEADER_LEN;
        if list_len > usize::MAX {
            Err(ParseError::OverflowingSegmentsLength)
        } else if list_len > bytes.len() - HEADER_LEN {
            Err(ParseError::OobSegmentsList)
        } else {
            let data_offset = HEADER_LEN + list_len;
            let data = bytes.skip(data_offset);
            match spec_ticket(data, spec_u32_at(bytes, 16), spec_u32_at(bytes, 20), data_offset) {
                Err(e) => Err(e),
                Ok(ticket) => Ok(
                    ParserView {
                        unk_0: spec_u32_at(bytes, 0),
                        unk_1: spec_u32_at(bytes, 4),
                        unk_2: spec_u32_at(bytes, 8),
                        unk_3: spec_u32_at(bytes, 12),
                        unk_4: spec_u32_at(bytes, 24),
                        unk_5: spec_u32_at(bytes, 28),
                        unk_6: spec_u32_at(bytes, 44),
                        ticket,
                        segments: spec_decode_list(bytes.subrange(HEADER_LEN as int, data_offset)),
                        data,
                    },
                ),
            }
        }
    }
}

/// A validated `ftab` file header over a borrowed buffer.
#[derive(Clone, Copy, Debug)]
pub struct Parser<'a> {
    ticket: Option<&'a [u8]>,
    segments: &'a [u8],
    tail: &'a [u8],
    unk_0: u32,
    unk_1: u32,
    unk_2: u32,
    unk_3: u32,
    unk_4: u32,
    unk_5: u32,
    unk_6: u32,
}

impl<'a> View for Parser<'a> {
    type V = ParserView;

    closed spec fn view(&self) -> ParserView {
        ParserView {
            unk_0: self.unk_0,
            unk_1: self.unk_1,
            unk_2: self.unk_2,
            unk_3: self.unk_3,
            unk_4: self.unk_4,
            unk_5: self.unk_5,
            unk_6: self.unk_6,
            ticket: match self.ticket {
                Some(t) => Some(t@),
                None => None,
            },
            segments: spec_decode_list(self.segments@),
            data: self.tail@,
        }
    }
}

impl<'a> Parser<'a> {
    #[verifier::type_invariant]
    spec fn inv(self) -> bool {
        &&& self.segments@.len() % 16 == 0
        &&& HEADER_LEN + self.segments@.len() <= usize::MAX
    }

    /// Parses `bytes` as an `ftab` file.
    ///
    /// Fails with the first check of [`spec_parse`] that the buffer does not
    /// pass.
    pub fn parse(bytes: &'a [u8]) -> (r: Result<Self, ParseError>)
        ensures
            match r {
                Ok(p) => spec_parse(bytes@) == Ok::<ParserView, ParseError>(p@),
                Err(e) => spec_parse(bytes@) == Err::<ParserView, ParseError>(e),
            },
    {
        if bytes.len() < HEADER_LEN {
            return Err(ParseError::TooShort);
        }
        let ghost all = bytes@;
        assert(bytes@ =~= all.skip(0));

        let (bytes, unk_0) = get_u32_le(bytes);
        proof {
            lemma_cursor_step(all, all.skip(0), 0, 4);
        }
        let (bytes, unk_1) = get_u32_le(bytes);
        proof {
            lemma_cursor_step(all, all.skip(4), 4, 4);
        }
        let (bytes, unk_2) = get_u32_le(bytes);
        proof {
            lemma_cursor_step(all, all.skip(8), 8, 4);
        }
        let (bytes, unk_3) = get_u32_le(bytes);
        proof {
            lemma_cursor_step(all, all.skip(12), 12, 4);
        }
        let (bytes, ticket_offset) = get_u32_le(bytes);
        proof {
            lemma_cursor_step(all, all.skip(16), 16, 4);
        }
        let (bytes, ticket_len) = get_u32_le(bytes);
        proof {
            lemma_cursor_step(all, all.skip(20), 20, 4);
        }
        let (bytes, unk_4) = get_u32_le(bytes);
        proof {
            lemma_cursor_step(all, all.skip(24), 24, 4);
        }
        let (bytes, unk_5) = get_u32_le(bytes);
        proof {
            lemma_cursor_step(all, all.skip(28), 28, 4);
            lemma_cursor_step(all, all.skip(32), 32, 8);
        }
        let bytes = match match_magic(bytes) {
            Ok(tail) => tail,
            Err(e) => {
                return Err(e);
            },
        };
        let (bytes, segments_cnt) = get_u32_le(bytes);
        proof {
            lemma_cursor_step(all, all.skip(40), 40, 4);
        }
        let (tail, unk_6) = get_u32_le(bytes);
        proof {
            lemma_cursor_step(all, all.skip(44), 44, 4);
        }

        let segments_len = match (segments_cnt as usize).checked_mul(SEGMENT_HEADER_LEN) {
            Some(len) => len,
            None => {
                return Err(ParseError::OverflowingSegmentsLength);
            },
        };
        if segments_len > tail.len() {
            return Err(ParseError::OobSegmentsList);
        }
        let segments = slice_subrange(tail, 0, segments_len);
        let tail = slice_subrange(tail, segments_len, tail.len());
        proof {
            assert(segments@ =~= all.subrange(HEADER_LEN as int, HEADER_LEN + segments_len));
            assert(tail@ =~= all.skip(HEADER_LEN + segments_len));
        }

        let ticket = if ticket_offset != 0 || ticket_len != 0 {
            match cut_subslice(
                tail,
                ticket_offset as usize,
                ticket_len as usize,
                HEADER_LEN + segments_len,
            ) {
                Some(ticket) => Some(ticket),
                None => {
                    return Err(ParseError::OobTicket);
                },
            }
        } else {
            None
        };

        Ok(Self { ticket, segments, tail, unk_0, unk_1, unk_2, unk_3, unk_4, unk_5, unk_6 })
    }

    /// The first field of the header; its purpose is unknown.
    pub fn unk_0(&self) -> (r: u32)
        ensures
            r == self@.unk_0,
    {
        self.unk_0
    }

    /// The second field of the header; its purpose is unknown.
    pub fn unk_1(&self) -> (r: u32)
        ensures
            r == self@.unk_1,
    {
        self.unk_1
    }

    /// The third field of the header; its purpose is unknown.
    pub fn unk_2(&self) -> (r: u32)
        ensures
            r == self@.unk_2,
    {
        self.unk_2
    }

    /// The fourth field of the header; its purpose is unknown.
    pub fn unk_3(&self) -> (r: u32)
        ensures
            r == self@.unk_3,
    {
        self.unk_3
    }

    /// The field of unknown purpose that follows the ticket length.
    pub fn unk_4(&self) -> (r: u32)
        ensures
            r == self@.unk_4,
    {
        self.unk_4
    }

    /// The field of unknown purpose that precedes the magic value.
    pub fn unk_5(&self) -> (r: u32)
        ensures
            r == self@.unk_5,
    {
        self.unk_5
    }

    /// The last field of the header; its purpose is unknown.
    pub fn unk_6(&self) -> (r: u32)
        ensures
            r == self@.unk_6,
    {
        self.unk_6
    }

    /// The ticket stored in the file, or `None` where the file has none.
    pub fn ticket(&self) -> (r: Option<&'a [u8]>)
        ensures
            match r {
                Some(t) => self@.ticket == Some(t@),
                None => self@.ticket is None,
            },
    {
        self.ticket
    }

    /// A fresh cursor over the segment list, positioned at its first entry.
    pub fn segments(&self) -> (r: SegmentsParser<'a>)
        ensures
            r@ == self@.segments_view(),
    {
        proof {
            use_type_invariant(self);
        }
        SegmentsParser {
            headers: self.segments,
            data: self.tail,
            data_offset: self.segments.len() + HEADER_LEN,
        }
    }
}

/// A segment of the file: its tag, its bytes and the field of unknown
/// purpose of its entry.
#[derive(Clone, Copy, Debug)]
pub struct ParsedSegment<'a> {
    /// The tag of the segment's entry.
    pub tag: [u8; 4],
    /// The segment's bytes.
    pub data: &'a [u8],
    /// A field of unknown purpose from the entry, kept as it is.
    pub unk: u32,
}

/// What a [`ParsedSegment`] holds.
pub struct SegmentView {
    pub tag: [u8; 4],
    pub data: Seq<u8>,
    pub unk: u32,
}

impl<'a> View for ParsedSegment<'a> {
    type V = SegmentView;

    open spec fn view(&self) -> SegmentView {
        SegmentView { tag: self.tag, data: self.data@, unk: self.unk }
    }
}

/// The state of a cursor over a segment list.
pub struct SegmentsParserView {
    /// The entries not yet consumed, in file order.
    pub headers: Seq<SegmentHeader>,
    /// The data region that the entries point into.
    pub data: Seq<u8>,
    /// Absolute offset of the first byte of `data`.
    pub data_offset: int,
}

impl SegmentsParserView {
    /// The segment that the entry `header` names, or the error that carries
    /// its tag where its range does not lie in the data region.
    pub open spec fn resolve(self, header: SegmentHeader) -> Result<SegmentView, OobSegmentError> {
        match spec_cut_subslice(
            self.data,
            header.seg_off as int,
            header.seg_len as int,
            self.data_offset,
        ) {
            Some(data) => Ok(SegmentView { tag: header.tag, data, unk: header.unk }),
            None => Err(OobSegmentError { tag: header.tag }),
        }
    }

    /// The outcome for the `i`-th entry not yet consumed.
    pub open spec fn segment(self, i: int) -> Result<SegmentView, OobSegmentError>
        recommends
            0 <= i < self.headers.len(),
    {
        self.resolve(self.headers[i])
    }

    /// The cursor after one entry was consumed.
    pub open spec fn advance(self) -> SegmentsParserView
        recommends
            self.headers.len() > 0,
    {
        SegmentsParserView { headers: self.headers.skip(1), ..self }
    }
}

/// A single-pass cursor over the segment list of a parsed file.
#[derive(Clone, Copy, Debug)]
pub struct SegmentsParser<'a> {
    headers: &'a [u8],
    data: &'a [u8],
    data_offset: usize,
}

impl<'a> View for SegmentsParser<'a> {
    type V = SegmentsParserView;

    closed spec fn view(&self) -> SegmentsParserView {
        SegmentsParserView {
            headers: spec_decode_list(self.headers@),
            data: self.data@,
            data_offset: self.data_offset as int,
        }
    }
}

impl<'a> SegmentsParser<'a> {
    #[verifier::type_invariant]
    spec fn inv(self) -> bool {
        self.headers@.len() % 16 == 0
    }

    /// Decodes the next entry of the segment list and moves past it, whether
    /// or not its range is valid. Returns `Ok(None)` once the list is
    /// exhausted.
    pub fn next_segment(&mut self) -> (r: Result<Option<ParsedSegment<'a>>, OobSegmentError>)
        ensures
            old(self)@.headers.len() == 0 ==> r == Ok::<Option<ParsedSegment<'a>>, OobSegmentError>(
                None,
            ) && final(self)@ == old(self)@,
            old(self)@.headers.len() > 0 ==> final(self)@ == old(self)@.advance() && match r {
                Ok(Some(segment)) => old(self)@.segment(0) == Ok::<SegmentView, OobSegmentError>(
                    segment@,
                ),
                Ok(None) => false,
                Err(e) => old(self)@.segment(0) == Err::<SegmentView, OobSegmentError>(e),
            },
    {
        proof {
            use_type_invariant(&*self);
        }
        if self.headers.len() < SEGMENT_HEADER_LEN {
            return Ok(None);
        }
        let entry = slice_subrange(self.headers, 0, SEGMENT_HEADER_LEN);
        let tail = slice_subrange(self.headers, SEGMENT_HEADER_LEN, self.headers.len());
        let header = SegmentHeader::decode(entry);
        proof {
            let raw = self.headers@;
            assert(entry@ =~= raw.subrange(16 * 0int, 16 * 0int + 16));
            assert(tail@ =~= raw.skip(16));
            lemma_decode_list_skip(raw);
        }
        self.headers = tail;
        match cut_subslice(
            self.data,
            header.seg_off as usize,
            header.seg_len as usize,
            self.data_offset,
        ) {
            Some(data) => Ok(Some(ParsedSegment { tag: header.tag, data, unk: header.unk })),
            None => Err(OobSegmentError { tag: header.tag }),
        }
    }

    /// The number of entries not yet consumed.
    pub fn count(&self) -> (n: usize)
        ensures
            n == self@.headers.len(),
    {
        self.headers.len() / SEGMENT_HEADER_LEN
    }
}

} // verus!
