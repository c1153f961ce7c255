use ftab::parser::{cut_subslice, match_magic, OobSegmentError, ParseError, Parser};

const MAGIC: &[u8; 8] = b"rkosftab";

/// A header with the given opaque fields, ticket range and segment count.
fn header(unk: [u32; 7], ticket_offset: u32, ticket_len: u32, count: u32) -> Vec<u8> {
    let mut out = Vec::new();
    for field in &unk[..4] {
        out.extend_from_slice(&field.to_le_bytes());
    }
    out.extend_from_slice(&ticket_offset.to_le_bytes());
    out.extend_from_slice(&ticket_len.to_le_bytes());
    out.extend_from_slice(&unk[4].to_le_bytes());
    out.extend_from_slice(&unk[5].to_le_bytes());
    out.extend_from_slice(MAGIC);
    out.extend_from_slice(&count.to_le_bytes());
    out.extend_from_slice(&unk[6].to_le_bytes());
    out
}

fn entry(tag: &[u8; 4], offset: u32, len: u32, unk: u32) -> Vec<u8> {
    let mut out = tag.to_vec();
    out.extend_from_slice(&offset.to_le_bytes());
    out.extend_from_slice(&len.to_le_bytes());
    out.extend_from_slice(&unk.to_le_bytes());
    out
}

/// Two segments and a ticket:
/// header (48) | 2 entries (32) | "abc" + pad | "defgh" | ticket "TK".
fn sample_file() -> Vec<u8> {
    let mut file = header([1, 2, 3, 4, 5, 6, 7], 89, 2, 2);
    file.extend_from_slice(&entry(b"AAAA", 80, 3, 0x11));
    file.extend_from_slice(&entry(b"BBBB", 84, 5, 0x22));
    file.extend_from_slice(b"abc\0defgh");
    file.extend_from_slice(b"TK");
    file
}

#[test]
fn parse_reads_header_fields_in_order() {
    let file = sample_file();
    let parser = Parser::parse(&file).unwrap();
    assert_eq!(parser.unk_0(), 1);
    assert_eq!(parser.unk_1(), 2);
    assert_eq!(parser.unk_2(), 3);
    assert_eq!(parser.unk_3(), 4);
    assert_eq!(parser.unk_4(), 5);
    assert_eq!(parser.unk_5(), 6);
    assert_eq!(parser.unk_6(), 7);
}

#[test]
fn parse_reads_fields_as_little_endian() {
    let file = header([0x0403_0201, 0, 0, 0, 0, 0, 0xa1b2_c3d4], 0, 0, 0);
    assert_eq!(&file[..4], &[1, 2, 3, 4]);
    assert_eq!(&file[44..48], &[0xd4, 0xc3, 0xb2, 0xa1]);
    let parser = Parser::parse(&file).unwrap();
    assert_eq!(parser.unk_0(), 0x0403_0201);
    assert_eq!(parser.unk_6(), 0xa1b2_c3d4);
}

#[test]
fn parse_finds_ticket_and_segments() {
    let file = sample_file();
    let parser = Parser::parse(&file).unwrap();
    assert_eq!(parser.ticket(), Some(&b"TK"[..]));

    let mut segments = parser.segments();
    assert_eq!(segments.count(), 2);
    let first = segments.next_segment().unwrap().unwrap();
    assert_eq!(first.tag, *b"AAAA");
    assert_eq!(first.data, b"abc");
    assert_eq!(first.unk, 0x11);
    assert_eq!(segments.count(), 1);
    let second = segments.next_segment().unwrap().unwrap();
    assert_eq!(second.tag, *b"BBBB");
    assert_eq!(second.data, b"defgh");
    assert_eq!(second.unk, 0x22);
    assert_eq!(segments.count(), 0);
    assert!(segments.next_segment().unwrap().is_none());
    assert!(segments.next_segment().unwrap().is_none());
    assert_eq!(segments.count(), 0);
}

#[test]
fn segments_gives_a_fresh_cursor_each_time() {
    let file = sample_file();
    let parser = Parser::parse(&file).unwrap();
    let mut first = parser.segments();
    first.next_segment().unwrap();
    first.next_segment().unwrap();
    assert_eq!(first.count(), 0);
    let mut again = parser.segments();
    assert_eq!(again.count(), 2);
    assert_eq!(again.next_segment().unwrap().unwrap().tag, *b"AAAA");
}

#[test]
fn parse_empty_file_of_header_only() {
    let file = header([0; 7], 0, 0, 0);
    assert_eq!(file.len(), 48);
    let parser = Parser::parse(&file).unwrap();
    assert_eq!(parser.ticket(), None);
    let mut segments = parser.segments();
    assert_eq!(segments.count(), 0);
    assert!(segments.next_segment().unwrap().is_none());
}

#[test]
fn parse_rejects_every_buffer_shorter_than_the_header() {
    let file = sample_file();
    for len in 0..48 {
        assert_eq!(Parser::parse(&file[..len]).unwrap_err(), ParseError::TooShort);
    }
    assert_eq!(Parser::parse(&[]).unwrap_err(), ParseError::TooShort);
    assert_eq!(Parser::parse(&[0xff; 47]).unwrap_err(), ParseError::TooShort);
}

#[test]
fn parse_rejects_a_file_cut_inside_the_segment_list() {
    let file = sample_file();
    for len in 48..80 {
        assert_eq!(Parser::parse(&file[..len]).unwrap_err(), ParseError::OobSegmentsList);
    }
}

#[test]
fn parse_rejects_a_file_cut_inside_the_ticket() {
    let file = sample_file();
    // The segment list is whole, the ticket is not.
    for len in 80..file.len() {
        assert_eq!(Parser::parse(&file[..len]).unwrap_err(), ParseError::OobTicket);
    }
    assert!(Parser::parse(&file).is_ok());
}

#[test]
fn parse_rejects_each_altered_magic_byte() {
    let file = sample_file();
    for i in 32..40 {
        for flip in [0x01u8, 0x20, 0x80, 0xff] {
            let mut altered = file.clone();
            altered[i] ^= flip;
            assert_eq!(Parser::parse(&altered).unwrap_err(), ParseError::UnknownMagic);
        }
    }
}

#[test]
fn magic_is_checked_before_the_segment_count() {
    let mut file = header([0; 7], 0, 0, 0xffff_ffff);
    file[32] = b'R';
    assert_eq!(Parser::parse(&file).unwrap_err(), ParseError::UnknownMagic);
}

#[test]
fn parse_rejects_the_largest_segment_count() {
    let mut file = header([0; 7], 0, 0, 0xffff_ffff);
    file.extend_from_slice(&[0u8; 64]);
    let expected = if (u32::MAX as u128) * 16 > usize::MAX as u128 {
        ParseError::OverflowingSegmentsLength
    } else {
        ParseError::OobSegmentsList
    };
    assert_eq!(Parser::parse(&file).unwrap_err(), expected);
}

#[test]
fn parse_rejects_a_count_one_more_than_fits() {
    let mut file = header([0; 7], 0, 0, 3);
    file.extend_from_slice(&entry(b"AAAA", 96, 0, 0));
    file.extend_from_slice(&entry(b"BBBB", 96, 0, 0));
    file.extend_from_slice(&[0u8; 15]);
    assert_eq!(Parser::parse(&file).unwrap_err(), ParseError::OobSegmentsList);
    file.push(0);
    assert!(Parser::parse(&file).is_ok());
}

#[test]
fn ticket_is_absent_only_where_offset_and_length_are_zero() {
    let mut file = header([0; 7], 0, 0, 0);
    file.extend_from_slice(b"data");
    assert_eq!(Parser::parse(&file).unwrap().ticket(), None);
}

#[test]
fn ticket_with_zero_length_is_present() {
    // Offset at the start of the data region, at its end, and inside it.
    for offset in [48u32, 50, 52] {
        let mut file = header([0; 7], offset, 0, 0);
        file.extend_from_slice(b"data");
        assert_eq!(Parser::parse(&file).unwrap().ticket(), Some(&b""[..]));
    }
    let mut file = header([0; 7], 53, 0, 0);
    file.extend_from_slice(b"data");
    assert_eq!(Parser::parse(&file).unwrap_err(), ParseError::OobTicket);
}

#[test]
fn ticket_with_zero_offset_and_a_length_is_rejected() {
    let mut file = header([0; 7], 0, 1, 0);
    file.extend_from_slice(b"data");
    assert_eq!(Parser::parse(&file).unwrap_err(), ParseError::OobTicket);
}

#[test]
fn ticket_must_not_start_in_header_or_segment_list() {
    let mut file = header([0; 7], 63, 1, 1);
    file.extend_from_slice(&entry(b"AAAA", 64, 0, 0));
    file.extend_from_slice(b"data");
    assert_eq!(Parser::parse(&file).unwrap_err(), ParseError::OobTicket);
    file[16] = 64;
    assert_eq!(Parser::parse(&file).unwrap().ticket(), Some(&b"d"[..]));
}

#[test]
fn ticket_must_end_in_the_file() {
    let mut file = header([0; 7], 48, 5, 0);
    file.extend_from_slice(b"data");
    assert_eq!(Parser::parse(&file).unwrap_err(), ParseError::OobTicket);
    file[20] = 4;
    assert_eq!(Parser::parse(&file).unwrap().ticket(), Some(&b"data"[..]));
}

#[test]
fn ticket_with_largest_offset_and_length_is_rejected() {
    let mut file = header([0; 7], u32::MAX, u32::MAX, 0);
    file.extend_from_slice(b"data");
    assert_eq!(Parser::parse(&file).unwrap_err(), ParseError::OobTicket);
}

#[test]
fn ticket_may_overlap_segment_data() {
    let mut file = header([0; 7], 64, 4, 1);
    file.extend_from_slice(&entry(b"AAAA", 64, 4, 0));
    file.extend_from_slice(b"data");
    let parser = Parser::parse(&file).unwrap();
    assert_eq!(parser.ticket(), Some(&b"data"[..]));
    assert_eq!(parser.segments().next_segment().unwrap().unwrap().data, b"data");
}

#[test]
fn bad_segment_gives_its_tag_and_does_not_stop_the_cursor() {
    let mut file = header([0; 7], 0, 0, 3);
    file.extend_from_slice(&entry(b"GOOD", 96, 2, 1));
    // Ends one byte after the end of the file.
    file.extend_from_slice(&entry(b"\x00BAD", 98, 3, 2));
    file.extend_from_slice(&entry(b"LAST", 98, 2, 3));
    file.extend_from_slice(b"abcd");
    assert_eq!(file.len(), 100);

    let parser = Parser::parse(&file).unwrap();
    let mut segments = parser.segments();
    assert_eq!(segments.count(), 3);
    assert_eq!(segments.next_segment().unwrap().unwrap().data, b"ab");
    let error: OobSegmentError = segments.next_segment().unwrap_err();
    assert_eq!(error.tag, *b"\x00BAD");
    assert_eq!(segments.count(), 1);
    let last = segments.next_segment().unwrap().unwrap();
    assert_eq!(last.tag, *b"LAST");
    assert_eq!(last.data, b"cd");
    assert_eq!(last.unk, 3);
    assert!(segments.next_segment().unwrap().is_none());
}

#[test]
fn bad_first_segment_leaves_the_others_readable() {
    let mut file = header([0; 7], 0, 0, 2);
    // Starts inside the segment list.
    file.extend_from_slice(&entry(b"HEAD", 79, 1, 0));
    file.extend_from_slice(&entry(b"BODY", 80, 4, 0));
    file.extend_from_slice(b"abcd");
    let parser = Parser::parse(&file).unwrap();
    let mut segments = parser.segments();
    assert_eq!(segments.next_segment().unwrap_err().tag, *b"HEAD");
    assert_eq!(segments.next_segment().unwrap().unwrap().data, b"abcd");
    assert!(segments.next_segment().unwrap().is_none());
}

#[test]
fn segment_ranges_at_the_edges_of_the_data_region() {
    let mut file = header([0; 7], 0, 0, 4);
    file.extend_from_slice(&entry(b"ZERO", 112, 0, 0));
    file.extend_from_slice(&entry(b"END0", 116, 0, 0));
    file.extend_from_slice(&entry(b"PAST", 117, 0, 0));
    file.extend_from_slice(&entry(b"HUGE", u32::MAX, u32::MAX, 0));
    file.extend_from_slice(b"abcd");
    let parser = Parser::parse(&file).unwrap();
    let mut segments = parser.segments();
    assert_eq!(segments.next_segment().unwrap().unwrap().data, b"");
    assert_eq!(segments.next_segment().unwrap().unwrap().data, b"");
    assert_eq!(segments.next_segment().unwrap_err().tag, *b"PAST");
    assert_eq!(segments.next_segment().unwrap_err().tag, *b"HUGE");
    assert!(segments.next_segment().unwrap().is_none());
}

#[test]
fn segments_may_overlap_each_other() {
    let mut file = header([0; 7], 0, 0, 2);
    file.extend_from_slice(&entry(b"AAAA", 80, 4, 0));
    file.extend_from_slice(&entry(b"BBBB", 82, 2, 0));
    file.extend_from_slice(b"abcd");
    let parser = Parser::parse(&file).unwrap();
    let mut segments = parser.segments();
    assert_eq!(segments.next_segment().unwrap().unwrap().data, b"abcd");
    assert_eq!(segments.next_segment().unwrap().unwrap().data, b"cd");
}

#[test]
fn cut_subslice_offset_at_the_anchor() {
    let data = b"0123456789";
    assert_eq!(cut_subslice(data, 100, 3, 100), Some(&b"012"[..]));
    assert_eq!(cut_subslice(data, 100, 10, 100), Some(&data[..]));
    assert_eq!(cut_subslice(data, 100, 11, 100), None);
}

#[test]
fn cut_subslice_offset_before_the_anchor() {
    let data = b"0123456789";
    assert_eq!(cut_subslice(data, 99, 1, 100), None);
    assert_eq!(cut_subslice(data, 99, 0, 100), None);
    assert_eq!(cut_subslice(data, 0, 0, 1), None);
}

#[test]
fn cut_subslice_zero_length_ranges() {
    let data = b"0123456789";
    assert_eq!(cut_subslice(data, 100, 0, 100), Some(&b""[..]));
    assert_eq!(cut_subslice(data, 105, 0, 100), Some(&b""[..]));
    assert_eq!(cut_subslice(data, 110, 0, 100), Some(&b""[..]));
    assert_eq!(cut_subslice(data, 111, 0, 100), None);
    assert_eq!(cut_subslice(&[], 7, 0, 7), Some(&b""[..]));
    assert_eq!(cut_subslice(&[], 7, 1, 7), None);
}

#[test]
fn cut_subslice_inner_range() {
    let data = b"0123456789";
    assert_eq!(cut_subslice(data, 103, 4, 100), Some(&b"3456"[..]));
    assert_eq!(cut_subslice(data, 109, 1, 100), Some(&b"9"[..]));
    assert_eq!(cut_subslice(data, 109, 2, 100), None);
    assert_eq!(cut_subslice(data, 3, 4, 0), Some(&b"3456"[..]));
}

#[test]
fn cut_subslice_sum_of_offset_and_length_overflows() {
    let data = b"0123456789";
    assert_eq!(cut_subslice(data, usize::MAX, 1, 0), None);
    assert_eq!(cut_subslice(data, usize::MAX, usize::MAX, 0), None);
    assert_eq!(cut_subslice(data, 5, usize::MAX, 0), None);
    assert_eq!(cut_subslice(data, usize::MAX, usize::MAX, usize::MAX), None);
    assert_eq!(cut_subslice(data, usize::MAX, 10, usize::MAX), Some(&data[..]));
    assert_eq!(cut_subslice(data, usize::MAX, 0, usize::MAX - 10), Some(&b""[..]));
    assert_eq!(cut_subslice(data, usize::MAX, 1, usize::MAX - 10), None);
}

#[test]
fn match_magic_accepts_only_the_magic_value() {
    assert_eq!(match_magic(b"rkosftab"), Ok(&b""[..]));
    assert_eq!(match_magic(b"rkosftab and more"), Ok(&b" and more"[..]));
    assert_eq!(match_magic(b"rkosftac"), Err(ParseError::UnknownMagic));
    assert_eq!(match_magic(b"Rkosftab"), Err(ParseError::UnknownMagic));
    assert_eq!(match_magic(&[0u8; 8]), Err(ParseError::UnknownMagic));
}

#[test]
fn parse_error_messages() {
    assert_eq!(ParseError::TooShort.message(), "file is too short to be a ftab file");
    assert_eq!(
        ParseError::UnknownMagic.message(),
        "file is not a ftab file (invalid magic value)"
    );
    assert_eq!(
        ParseError::OverflowingSegmentsLength.message(),
        "segments list byte length is too large"
    );
    assert_eq!(
        ParseError::OobSegmentsList.message(),
        "segments list is larger than the space available in the file"
    );
    assert_eq!(ParseError::OobTicket.message(), "ticket range in file is out of bounds");
}

/// The error for a file whose only segment has the given tag and lies
/// outside of the file.
fn oob_error(tag: [u8; 4]) -> OobSegmentError {
    let mut file = header([0; 7], 0, 0, 1);
    file.extend_from_slice(&entry(&tag, 64, 1, 0));
    let parser = Parser::parse(&file).unwrap();
    let error = parser.segments().next_segment().unwrap_err();
    assert_eq!(error.tag, tag);
    error
}

#[test]
fn oob_segment_error_message_shows_the_escaped_tag() {
    assert_eq!(oob_error(*b"rkos").message(), "segment with tag rkos is out of bounds");
    assert_eq!(
        oob_error([0x00, b'\n', b'"', 0xff]).message(),
        "segment with tag \\x00\\n\\\"\\xff is out of bounds"
    );
    for tag in [*b"a\\'\t", [0x7f, 0x80, 0x1f, 0x20], *b"\r~ !"] {
        let expected = format!("segment with tag {} is out of bounds", tag.escape_ascii());
        assert_eq!(oob_error(tag).message(), expected);
    }
}
