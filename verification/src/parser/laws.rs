//! What holds of every buffer handed to the parser, stated over
//! [`spec_parse`] and the cursor's view.

use vstd::prelude::*;
use crate::format::{spec_u32_at, HEADER_LEN, MAGIC, SEGMENT_HEADER_LEN};
use crate::parser::{
    spec_parse, OobSegmentError, ParseError, ParserView, SegmentView, SegmentsParserView,
};

verus! {

/// Whether `bytes` passes the checks on the header and on the segment list:
/// it holds a whole header with the magic value and a whole segment list.
pub open spec fn spec_holds_segment_list(bytes: Seq<u8>) -> bool {
    &&& bytes.len() >= HEADER_LEN
    &&& bytes.subrange(32, 40) == MAGIC@
    &&& spec_u32_at(bytes, 40) * SEGMENT_HEADER_LEN <= usize::MAX
    &&& spec_u32_at(bytes, 40) * SEGMENT_HEADER_LEN <= bytes.len() - HEADER_LEN
}

/// A buffer shorter than the header is rejected as too short, whatever it
/// holds.
pub proof fn lemma_short_buffer_rejected(bytes: Seq<u8>)
    requires
        bytes.len() < HEADER_LEN,
    ensures
        spec_parse(bytes) == Err::<ParserView, ParseError>(ParseError::TooShort),
{
}

/// Cutting an accepted file off inside its header gives a buffer that is
/// rejected as too short; cutting it off inside its segment list gives one
/// that is rejected because the segment list does not fit.
pub proof fn lemma_truncated_file_rejected(bytes: Seq<u8>, len: int)
    requires
        spec_parse(bytes) is Ok,
        0 <= len < HEADER_LEN + spec_u32_at(bytes, 40) * SEGMENT_HEADER_LEN,
    ensures
        len < HEADER_LEN ==> spec_parse(bytes.take(len)) == Err::<ParserView, ParseError>(
            ParseError::TooShort,
        ),
        len >= HEADER_LEN ==> spec_parse(bytes.take(len)) == Err::<ParserView, ParseError>(
            ParseError::OobSegmentsList,
        ),
{
    let cut = bytes.take(len);
    if len >= HEADER_LEN {
        assert(cut.subrange(32, 40) =~= bytes.subrange(32, 40));
        assert(cut.subrange(40, 44) =~= bytes.subrange(40, 44));
    }
}

/// A buffer that holds a whole header is rejected for its magic value as
/// soon as one of the eight bytes differs from the expected one.
pub proof fn lemma_wrong_magic_rejected(bytes: Seq<u8>, i: int)
    requires
        bytes.len() >= HEADER_LEN,
        0 <= i < 8,
        bytes[32 + i] != MAGIC@[i],
    ensures
        spec_parse(bytes) == Err::<ParserView, ParseError>(ParseError::UnknownMagic),
{
    assert(bytes.subrange(32, 40)[i] == bytes[32 + i]);
}

/// Changing one byte of the magic value of any buffer that holds a whole
/// header makes the parser reject it for its magic value.
pub proof fn lemma_altered_magic_rejected(bytes: Seq<u8>, i: int, byte: u8)
    requires
        bytes.len() >= HEADER_LEN,
        bytes.subrange(32, 40) == MAGIC@,
        0 <= i < 8,
        byte != bytes[32 + i],
    ensures
        spec_parse(bytes.update(32 + i, byte)) == Err::<ParserView, ParseError>(
            ParseError::UnknownMagic,
        ),
{
    assert(bytes.subrange(32, 40)[i] == bytes[32 + i]);
    lemma_wrong_magic_rejected(bytes.update(32 + i, byte), i);
}

/// A header that claims the largest possible number of segments is rejected,
/// unless the buffer really is long enough to hold that many entries: for
/// the overflow of the list's byte length where `usize` cannot hold it, and
/// else because the list does not fit in the buffer.
pub proof fn lemma_largest_count_rejected(bytes: Seq<u8>)
    requires
        bytes.len() >= HEADER_LEN,
        bytes.subrange(32, 40) == MAGIC@,
        spec_u32_at(bytes, 40) == u32::MAX,
        bytes.len() - HEADER_LEN < u32::MAX * SEGMENT_HEADER_LEN,
    ensures
        u32::MAX * SEGMENT_HEADER_LEN > usize::MAX ==> spec_parse(bytes) == Err::<
            ParserView,
            ParseError,
        >(ParseError::OverflowingSegmentsLength),
        u32::MAX * SEGMENT_HEADER_LEN <= usize::MAX ==> spec_parse(bytes) == Err::<
            ParserView,
            ParseError,
        >(ParseError::OobSegmentsList),
{
}

/// The ticket rule. In a buffer that holds a whole header and segment list:
/// where ticket offset and ticket length are both zero, the file is accepted
/// without a ticket; in every other case the ticket is the range that the
/// two fields name, which must start at or after the end of the segment list
/// and end in the buffer, and the file is rejected where it does not.
pub proof fn lemma_ticket_rule(bytes: Seq<u8>)
    requires
        spec_holds_segment_list(bytes),
    ensures
        ({
            let offset = spec_u32_at(bytes, 16) as int;
            let len = spec_u32_at(bytes, 20) as int;
            let data_offset = HEADER_LEN + spec_u32_at(bytes, 40) * SEGMENT_HEADER_LEN;
            if offset == 0 && len == 0 {
                spec_parse(bytes) matches Ok(p) && p.ticket is None
            } else if data_offset <= offset && offset + len <= bytes.len() {
                spec_parse(bytes) matches Ok(p) && p.ticket == Some(
                    bytes.subrange(offset, offset + len),
                )
            } else {
                spec_parse(bytes) == Err::<ParserView, ParseError>(ParseError::OobTicket)
            }
        }),
{
    let offset = spec_u32_at(bytes, 16) as int;
    let len = spec_u32_at(bytes, 20) as int;
    let data_offset = HEADER_LEN + spec_u32_at(bytes, 40) * SEGMENT_HEADER_LEN;
    if !(offset == 0 && len == 0) && data_offset <= offset && offset + len <= bytes.len() {
        assert(bytes.skip(data_offset).subrange(offset - data_offset, offset - data_offset + len)
            =~= bytes.subrange(offset, offset + len));
    }
}

/// The data region of an accepted file ends where the file ends.
pub proof fn lemma_data_region_ends_with_file(bytes: Seq<u8>)
    requires
        spec_parse(bytes) is Ok,
    ensures
        ({
            let p = spec_parse(bytes)->Ok_0;
            p.data_offset() + p.data.len() == bytes.len()
        }),
{
}

/// An entry whose range ends after the end of the file gives the error that
/// carries the tag of that entry.
pub proof fn lemma_segment_past_end_rejected(bytes: Seq<u8>, i: int)
    requires
        spec_parse(bytes) is Ok,
        0 <= i < spec_parse(bytes)->Ok_0.segments.len(),
        ({
            let entry = spec_parse(bytes)->Ok_0.segments[i];
            entry.seg_off + entry.seg_len > bytes.len()
        }),
    ensures
        ({
            let p = spec_parse(bytes)->Ok_0;
            p.segments_view().segment(i) == Err::<SegmentView, OobSegmentError>(
                OobSegmentError { tag: p.segments[i].tag },
            )
        }),
{
    lemma_data_region_ends_with_file(bytes);
}

/// The outcome for an entry depends on that entry, the data region and its
/// offset alone: a segment whose range lies in the data region is found
/// with its tag, the bytes of that range and its field of unknown purpose,
/// whatever the other entries hold.
pub proof fn lemma_segment_in_range_found(cursor: SegmentsParserView, i: int)
    requires
        0 <= i < cursor.headers.len(),
        cursor.data_offset <= cursor.headers[i].seg_off,
        cursor.headers[i].seg_off + cursor.headers[i].seg_len <= cursor.data_offset
            + cursor.data.len(),
    ensures
        ({
            let entry = cursor.headers[i];
            let start = entry.seg_off - cursor.data_offset;
            cursor.segment(i) == Ok::<SegmentView, OobSegmentError>(
                SegmentView {
                    tag: entry.tag,
                    data: cursor.data.subrange(start, start + entry.seg_len),
                    unk: entry.unk,
                },
            )
        }),
{
}

/// Consuming an entry, whether it was valid or not, leaves the outcomes of
/// the entries after it as they were.
pub proof fn lemma_advance_keeps_later_segments(cursor: SegmentsParserView, i: int)
    requires
        0 <= i,
        i + 1 < cursor.headers.len(),
    ensures
        cursor.advance().headers.len() == cursor.headers.len() - 1,
        cursor.advance().segment(i) == cursor.segment(i + 1),
{
}

} // verus!
