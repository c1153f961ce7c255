//! On-disk layout of an `ftab` file: record sizes, the magic value and the
//! little-endian encoding of its 32-bit fields.

use vstd::prelude::*;

verus! {

/// Size in bytes of the file header.
pub const HEADER_LEN: usize = 48;

/// Size in bytes of one entry of the segment list.
pub const SEGMENT_HEADER_LEN: usize = 16;

/// The magic value stored at byte 32 of every `ftab` file: ASCII `rkosftab`.
pub const MAGIC: [u8; 8] = [0x72, 0x6b, 0x6f, 0x73, 0x66, 0x74, 0x61, 0x62];

/// The value of four bytes read as a little-endian unsigned integer.
///
/// Proofs see the definition only after `reveal(spec_u32_from_le)`; most need
/// no more than [`lemma_u32_le_roundtrip`].
#[verifier::opaque]
pub open spec fn spec_u32_from_le(s: Seq<u8>) -> u32
    recommends
        s.len() == 4,
{
    (s[0] as int + s[1] as int * 0x100 + s[2] as int * 0x1_0000 + s[3] as int * 0x100_0000) as u32
}

/// The four bytes that store `x` in little-endian order.
///
/// Proofs see the definition only after `reveal(spec_u32_to_le)`.
#[verifier::opaque]
pub open spec fn spec_u32_to_le(x: u32) -> Seq<u8> {
    seq![
        (x % 0x100) as u8,
        ((x / 0x100) % 0x100) as u8,
        ((x / 0x1_0000) % 0x100) as u8,
        ((x / 0x100_0000) % 0x100) as u8,
    ]
}

/// The little-endian `u32` stored at `[at, at + 4)` of `bytes`.
pub open spec fn spec_u32_at(bytes: Seq<u8>, at: int) -> u32
    recommends
        0 <= at,
        at + 4 <= bytes.len(),
{
    spec_u32_from_le(bytes.subrange(at, at + 4))
}

/// Decoding undoes encoding.
pub proof fn lemma_u32_le_roundtrip(x: u32)
    ensures
        spec_u32_to_le(x).len() == 4,
        spec_u32_from_le(spec_u32_to_le(x)) == x,
{
    reveal(spec_u32_from_le);
    reveal(spec_u32_to_le);
}

/// Reads a little-endian `u32` from the first four bytes of `bytes` and
/// returns it together with the rest of the slice.
pub fn get_u32_le(bytes: &[u8]) -> (r: (&[u8], u32))
    requires
        bytes@.len() >= 4,
    ensures
        r.0@ == bytes@.skip(4),
        r.1 == spec_u32_from_le(bytes@.take(4)),
{
    proof {
        reveal(spec_u32_from_le);
    }
    let b0: u32 = bytes[0] as u32;
    let b1: u32 = bytes[1] as u32;
    let b2: u32 = bytes[2] as u32;
    let b3: u32 = bytes[3] as u32;
    let value: u32 = b0 + b1 * 0x100 + b2 * 0x1_0000 + b3 * 0x100_0000;
    let tail = vstd::slice::slice_subrange(bytes, 4, bytes.len());
    (tail, value)
}

/// Appends the little-endian encoding of `x` to `out`.
pub fn put_u32_le(out: &mut Vec<u8>, x: u32)
    ensures
        final(out)@ == old(out)@ + spec_u32_to_le(x),
{
    proof {
        reveal(spec_u32_to_le);
    }
    out.push((x % 0x100) as u8);
    out.push(((x / 0x100) % 0x100) as u8);
    out.push(((x / 0x1_0000) % 0x100) as u8);
    out.push(((x / 0x100_0000) % 0x100) as u8);
    assert(out@ =~= old(out)@ + spec_u32_to_le(x));
}

/// Where each part of a header lies in the concatenation of its parts.
proof fn lemma_header_parts(
    f0: Seq<u8>,
    f1: Seq<u8>,
    f2: Seq<u8>,
    f3: Seq<u8>,
    f4: Seq<u8>,
    f5: Seq<u8>,
    f6: Seq<u8>,
    f7: Seq<u8>,
    magic: Seq<u8>,
    f8: Seq<u8>,
    f9: Seq<u8>,
)
    requires
        f0.len() == 4,
        f1.len() == 4,
        f2.len() == 4,
        f3.len() == 4,
        f4.len() == 4,
        f5.len() == 4,
        f6.len() == 4,
        f7.len() == 4,
        magic.len() == 8,
        f8.len() == 4,
        f9.len() == 4,
    ensures
        ({
            let e = f0 + f1 + f2 + f3 + f4 + f5 + f6 + f7 + magic + f8 + f9;
            &&& e.len() == 48
            &&& e.subrange(0, 4) == f0
            &&& e.subrange(4, 8) == f1
            &&& e.subrange(8, 12) == f2
            &&& e.subrange(12, 16) == f3
            &&& e.subrange(16, 20) == f4
            &&& e.subrange(20, 24) == f5
            &&& e.subrange(24, 28) == f6
            &&& e.subrange(28, 32) == f7
            &&& e.subrange(32, 40) == magic
            &&& e.subrange(40, 44) == f8
            &&& e.subrange(44, 48) == f9
        }),
{
    let e = f0 + f1 + f2 + f3 + f4 + f5 + f6 + f7 + magic + f8 + f9;
    assert(e.subrange(0, 4) =~= f0);
    assert(e.subrange(4, 8) =~= f1);
    assert(e.subrange(8, 12) =~= f2);
    assert(e.subrange(12, 16) =~= f3);
    assert(e.subrange(16, 20) =~= f4);
    assert(e.subrange(20, 24) =~= f5);
    assert(e.subrange(24, 28) =~= f6);
    assert(e.subrange(28, 32) =~= f7);
    assert(e.subrange(32, 40) =~= magic);
    assert(e.subrange(40, 44) =~= f8);
    assert(e.subrange(44, 48) =~= f9);
}

/// The file header.
#[derive(Clone, Copy, Debug)]
pub struct FtabHeader {
    pub unk_0: u32,
    pub unk_1: u32,
    pub unk_2: u32,
    pub unk_3: u32,
    /// Absolute offset of the ticket, or zero.
    pub ticket_offset: u32,
    /// Length of the ticket in bytes, or zero.
    pub ticket_len: u32,
    pub unk_4: u32,
    pub unk_5: u32,
    /// The magic value: [`MAGIC`] in every valid file.
    pub magic: [u8; 8],
    /// Number of entries in the segment list.
    pub segments_count: u32,
    pub unk_6: u32,
}

impl FtabHeader {
    /// The 48 bytes that store the header.
    pub open spec fn spec_encode(self) -> Seq<u8> {
        spec_u32_to_le(self.unk_0) + spec_u32_to_le(self.unk_1) + spec_u32_to_le(self.unk_2)
            + spec_u32_to_le(self.unk_3) + spec_u32_to_le(self.ticket_offset) + spec_u32_to_le(
            self.ticket_len,
        ) + spec_u32_to_le(self.unk_4) + spec_u32_to_le(self.unk_5) + self.magic@
            + spec_u32_to_le(self.segments_count) + spec_u32_to_le(self.unk_6)
    }

    /// Each field is found again at its offset in the encoded header.
    pub proof fn lemma_encode_fields(self)
        ensures
            self.spec_encode().len() == 48,
            spec_u32_at(self.spec_encode(), 0) == self.unk_0,
            spec_u32_at(self.spec_encode(), 4) == self.unk_1,
            spec_u32_at(self.spec_encode(), 8) == self.unk_2,
            spec_u32_at(self.spec_encode(), 12) == self.unk_3,
            spec_u32_at(self.spec_encode(), 16) == self.ticket_offset,
            spec_u32_at(self.spec_encode(), 20) == self.ticket_len,
            spec_u32_at(self.spec_encode(), 24) == self.unk_4,
            spec_u32_at(self.spec_encode(), 28) == self.unk_5,
            self.spec_encode().subrange(32, 40) == self.magic@,
            spec_u32_at(self.spec_encode(), 40) == self.segments_count,
            spec_u32_at(self.spec_encode(), 44) == self.unk_6,
    {
        lemma_u32_le_roundtrip(self.unk_0);
        lemma_u32_le_roundtrip(self.unk_1);
        lemma_u32_le_roundtrip(self.unk_2);
        lemma_u32_le_roundtrip(self.unk_3);
        lemma_u32_le_roundtrip(self.ticket_offset);
        lemma_u32_le_roundtrip(self.ticket_len);
        lemma_u32_le_roundtrip(self.unk_4);
        lemma_u32_le_roundtrip(self.unk_5);
        lemma_u32_le_roundtrip(self.segments_count);
        lemma_u32_le_roundtrip(self.unk_6);
        lemma_header_parts(
            spec_u32_to_le(self.unk_0),
            spec_u32_to_le(self.unk_1),
            spec_u32_to_le(self.unk_2),
            spec_u32_to_le(self.unk_3),
            spec_u32_to_le(self.ticket_offset),
            spec_u32_to_le(self.ticket_len),
            spec_u32_to_le(self.unk_4),
            spec_u32_to_le(self.unk_5),
            self.magic@,
            spec_u32_to_le(self.segments_count),
            spec_u32_to_le(self.unk_6),
        );
    }

    /// Appends the 48 bytes that store the header to `out`.
    pub fn encode(&self, out: &mut Vec<u8>)
        ensures
            final(out)@ == old(out)@ + self.spec_encode(),
    {
        put_u32_le(out, self.unk_0);
        put_u32_le(out, self.unk_1);
        put_u32_le(out, self.unk_2);
        put_u32_le(out, self.unk_3);
        put_u32_le(out, self.ticket_offset);
        put_u32_le(out, self.ticket_len);
        put_u32_le(out, self.unk_4);
        put_u32_le(out, self.unk_5);
        let mut i: usize = 0;
        while i < 8
            invariant
                i <= 8,
                out@ == old(out)@ + spec_u32_to_le(self.unk_0) + spec_u32_to_le(self.unk_1)
                    + spec_u32_to_le(self.unk_2) + spec_u32_to_le(self.unk_3) + spec_u32_to_le(
                    self.ticket_offset,
                ) + spec_u32_to_le(self.ticket_len) + spec_u32_to_le(self.unk_4) + spec_u32_to_le(
                    self.unk_5,
                ) + self.magic@.take(i as int),
            decreases 8 - i,
        {
            out.push(self.magic[i]);
            assert(self.magic@.take(i as int).push(self.magic@[i as int]) =~= self.magic@.take(
                i + 1,
            ));
            i += 1;
        }
        assert(self.magic@.take(8) =~= self.magic@);
        put_u32_le(out, self.segments_count);
        put_u32_le(out, self.unk_6);
        assert(out@ =~= old(out)@ + self.spec_encode());
    }
}

/// One entry of the segment list.
#[derive(Clone, Copy, Debug)]
pub struct SegmentHeader {
    /// The tag that names the segment.
    pub tag: [u8; 4],
    /// Absolute offset of the segment's first byte in the file.
    pub seg_off: u32,
    /// Length of the segment in bytes.
    pub seg_len: u32,
    /// A field of unknown purpose, kept as it is.
    pub unk: u32,
}

impl SegmentHeader {
    /// The 16 bytes that store the entry.
    pub open spec fn spec_encode(self) -> Seq<u8> {
        self.tag@ + spec_u32_to_le(self.seg_off) + spec_u32_to_le(self.seg_len) + spec_u32_to_le(
            self.unk,
        )
    }

    /// The entry stored in the first 16 bytes of `entry`.
    pub open spec fn spec_decode(entry: Seq<u8>) -> SegmentHeader
        recommends
            entry.len() >= 16,
    {
        SegmentHeader {
            tag: [entry[0], entry[1], entry[2], entry[3]],
            seg_off: spec_u32_at(entry, 4),
            seg_len: spec_u32_at(entry, 8),
            unk: spec_u32_at(entry, 12),
        }
    }

    /// Decoding undoes encoding.
    pub proof fn lemma_decode_encode(self)
        ensures
            self.spec_encode().len() == 16,
            Self::spec_decode(self.spec_encode()) == self,
    {
        let e = self.spec_encode();
        lemma_u32_le_roundtrip(self.seg_off);
        lemma_u32_le_roundtrip(self.seg_len);
        lemma_u32_le_roundtrip(self.unk);
        assert(e.subrange(4, 8) =~= spec_u32_to_le(self.seg_off));
        assert(e.subrange(8, 12) =~= spec_u32_to_le(self.seg_len));
        assert(e.subrange(12, 16) =~= spec_u32_to_le(self.unk));
        assert(Self::spec_decode(e).tag =~= self.tag);
    }

    /// Reads the entry stored in the first 16 bytes of `entry`.
    pub fn decode(entry: &[u8]) -> (h: SegmentHeader)
        requires
            entry@.len() >= 16,
        ensures
            h == Self::spec_decode(entry@),
    {
        let tag: [u8; 4] = [entry[0], entry[1], entry[2], entry[3]];
        let rest = vstd::slice::slice_subrange(entry, 4, entry.len());
        let (rest, seg_off) = get_u32_le(rest);
        let (rest, seg_len) = get_u32_le(rest);
        let (_, unk) = get_u32_le(rest);
        assert(entry@.skip(4).take(4) =~= entry@.subrange(4, 8));
        assert(entry@.skip(4).skip(4).take(4) =~= entry@.subrange(8, 12));
        assert(entry@.skip(4).skip(4).skip(4).take(4) =~= entry@.subrange(12, 16));
        let h = SegmentHeader { tag, seg_off, seg_len, unk };
        assert(h.tag =~= Self::spec_decode(entry@).tag);
        h
    }

    /// Appends the 16 bytes that store the entry to `out`.
    pub fn encode(&self, out: &mut Vec<u8>)
        ensures
            final(out)@ == old(out)@ + self.spec_encode(),
    {
        out.push(self.tag[0]);
        out.push(self.tag[1]);
        out.push(self.tag[2]);
        out.push(self.tag[3]);
        put_u32_le(out, self.seg_off);
        put_u32_le(out, self.seg_len);
        put_u32_le(out, self.unk);
        assert(out@ =~= old(out)@ + self.spec_encode());
    }
}

} // verus!
