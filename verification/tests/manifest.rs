use ftab::manifest::{
    filename_for_tag, is_ascii_alphanumeric, Manifest, SegmentDesc, Tag, TagError, TagVisitor,
};
use ftab::parser::{ParsedSegment, Parser};

#[test]
fn tag_from_unsigned_number_is_big_endian() {
    assert_eq!(TagVisitor.visit_u64(0x726b_6f73), Ok(Tag(*b"rkos")));
    assert_eq!(TagVisitor.visit_u64(0), Ok(Tag([0; 4])));
    assert_eq!(TagVisitor.visit_u64(1), Ok(Tag([0, 0, 0, 1])));
    assert_eq!(TagVisitor.visit_u64(0xffff_ffff), Ok(Tag([0xff; 4])));
    assert_eq!(TagVisitor.visit_u64(0x0102_0304), Ok(Tag([1, 2, 3, 4])));
}

#[test]
fn tag_from_unsigned_number_too_large() {
    assert_eq!(TagVisitor.visit_u64(0x1_0000_0000), Err(TagError::TooLarge));
    assert_eq!(TagVisitor.visit_u64(u64::MAX), Err(TagError::TooLarge));
}

#[test]
fn tag_from_signed_number() {
    assert_eq!(TagVisitor.visit_i64(0x726b_6f73), Ok(Tag(*b"rkos")));
    assert_eq!(TagVisitor.visit_i64(0), Ok(Tag([0; 4])));
    assert_eq!(TagVisitor.visit_i64(0xffff_ffff), Ok(Tag([0xff; 4])));
    assert_eq!(TagVisitor.visit_i64(-1), Err(TagError::Negative));
    assert_eq!(TagVisitor.visit_i64(i64::MIN), Err(TagError::Negative));
    assert_eq!(TagVisitor.visit_i64(0x1_0000_0000), Err(TagError::TooLarge));
    assert_eq!(TagVisitor.visit_i64(i64::MAX), Err(TagError::TooLarge));
}

#[test]
fn tag_from_string_is_padded_with_zeros() {
    assert_eq!(TagVisitor.visit_str("rkos"), Ok(Tag(*b"rkos")));
    assert_eq!(TagVisitor.visit_str("ab"), Ok(Tag([b'a', b'b', 0, 0])));
    assert_eq!(TagVisitor.visit_str(""), Ok(Tag([0; 4])));
    assert_eq!(TagVisitor.visit_str("abcde"), Err(TagError::TooLong { len: 5 }));
    // Length is counted in bytes: two characters, four bytes.
    assert_eq!(TagVisitor.visit_str("éé"), Ok(Tag([0xc3, 0xa9, 0xc3, 0xa9])));
    assert_eq!(TagVisitor.visit_str("ééé"), Err(TagError::TooLong { len: 6 }));
}

#[test]
fn tag_from_bytes_is_padded_with_zeros() {
    assert_eq!(TagVisitor.visit_bytes(&[1, 2, 3, 4]), Ok(Tag([1, 2, 3, 4])));
    assert_eq!(TagVisitor.visit_bytes(&[1, 2, 3]), Ok(Tag([1, 2, 3, 0])));
    assert_eq!(TagVisitor.visit_bytes(&[0xff]), Ok(Tag([0xff, 0, 0, 0])));
    assert_eq!(TagVisitor.visit_bytes(&[]), Ok(Tag([0; 4])));
    assert_eq!(TagVisitor.visit_bytes(&[1, 2, 3, 4, 5]), Err(TagError::TooLong { len: 5 }));
}

#[test]
fn tag_visitor_says_what_it_expects() {
    assert_eq!(
        TagVisitor.expecting(),
        "either a non-negative integer less than 2^32 or a 4-byte string"
    );
}

#[test]
fn tag_number_is_big_endian() {
    assert_eq!(Tag(*b"rkos").to_u32(), 0x726b_6f73);
    assert_eq!(Tag([0, 0, 0, 1]).to_u32(), 1);
    assert_eq!(Tag([1, 0, 0, 0]).to_u32(), 0x0100_0000);
    assert_eq!(Tag([0xff; 4]).to_u32(), u32::MAX);
    assert_eq!(Tag::from_u32(0x726b_6f73), Tag(*b"rkos"));
    for value in [0u32, 1, 0xff, 0x100, 0xdead_beef, u32::MAX] {
        assert_eq!(Tag::from_u32(value).0, value.to_be_bytes());
        assert_eq!(Tag::from_u32(value).to_u32(), value);
    }
}

#[test]
fn ascii_alphanumeric_agrees_with_std_on_every_byte() {
    for byte in 0..=255u8 {
        assert_eq!(is_ascii_alphanumeric(byte), byte.is_ascii_alphanumeric());
    }
}

#[test]
fn tag_is_alphanumeric_only_if_every_byte_is() {
    assert!(Tag(*b"rkos").is_alphanumeric());
    assert!(Tag(*b"AZ09").is_alphanumeric());
    assert!(!Tag(*b"rko ").is_alphanumeric());
    assert!(!Tag(*b"_kos").is_alphanumeric());
    assert!(!Tag(*b"r\0os").is_alphanumeric());
    assert!(!Tag(*b"rk-s").is_alphanumeric());
    assert!(!Tag([0; 4]).is_alphanumeric());
    assert!(!Tag([b'a', b'b', b'c', 0xe9]).is_alphanumeric());
}

#[test]
fn filename_for_alphanumeric_tag_is_the_tag() {
    assert_eq!(filename_for_tag(*b"rkos"), "rkos.bin");
    assert_eq!(filename_for_tag(*b"A1b2"), "A1b2.bin");
}

#[test]
fn filename_for_other_tag_is_hexadecimal() {
    assert_eq!(filename_for_tag([0x00, 0x01, 0xab, 0xff]), "tag_0001abff.bin");
    assert_eq!(filename_for_tag(*b"rk/s"), "tag_726b2f73.bin");
    assert_eq!(filename_for_tag(*b"a b "), "tag_61206220.bin");
    assert_eq!(filename_for_tag([0x9f, 0xe0, 0x0a, 0x10]), "tag_9fe00a10.bin");
}

#[test]
fn segment_desc_is_named_after_the_tag() {
    let segment = ParsedSegment { tag: *b"iBSS", data: b"contents", unk: 0x33 };
    let desc: SegmentDesc = SegmentDesc::with_segment(&segment);
    assert_eq!(desc.path, "iBSS.bin");
    assert_eq!(desc.tag, Tag(*b"iBSS"));
    assert_eq!(desc.unk, 0x33);

    let segment = ParsedSegment { tag: [0xde, 0xad, 0xbe, 0xef], data: b"", unk: 0 };
    let desc = SegmentDesc::with_segment(&segment);
    assert_eq!(desc.path, "tag_deadbeef.bin");
    assert_eq!(desc.tag, Tag([0xde, 0xad, 0xbe, 0xef]));
}

#[test]
fn manifest_takes_the_header_fields_of_the_parser() {
    let mut file = Vec::new();
    for field in [10u32, 20, 30, 40, 0, 0, 50, 60] {
        file.extend_from_slice(&field.to_le_bytes());
    }
    file.extend_from_slice(b"rkosftab");
    file.extend_from_slice(&0u32.to_le_bytes());
    file.extend_from_slice(&70u32.to_le_bytes());
    let parser = Parser::parse(&file).unwrap();
    let manifest = Manifest::with_parser(&parser);
    assert_eq!(
        [
            manifest.unk_0,
            manifest.unk_1,
            manifest.unk_2,
            manifest.unk_3,
            manifest.unk_4,
            manifest.unk_5,
            manifest.unk_6
        ],
        [10, 20, 30, 40, 50, 60, 70]
    );
    assert!(manifest.ticket.is_none());
    assert!(manifest.segments.is_empty());
}
