//! Writing `ftab` files: [`Builder`] lays out the segments named by a
//! manifest and serializes the whole file.

use vstd::prelude::*;
use crate::format::{FtabHeader, SegmentHeader, HEADER_LEN, MAGIC, SEGMENT_HEADER_LEN};
use crate::manifest::Manifest;

verus! {

/// The number of zero bytes that round `len` up to a multiple of four.
pub open spec fn spec_padding(len: int) -> int {
    (4 - len % 4) % 4
}

/// `n` zero bytes.
pub open spec fn spec_zeros(n: int) -> Seq<u8> {
    Seq::new(n as nat, |i: int| 0u8)
}

/// The data region that holds `contents` in order: before each segment,
/// zero bytes round the length up to a multiple of four; nothing follows
/// the last segment.
pub open spec fn spec_data(contents: Seq<Seq<u8>>) -> Seq<u8>
    decreases contents.len(),
{
    if contents.len() == 0 {
        Seq::empty()
    } else {
        let before = spec_data(contents.drop_last());
        before + spec_zeros(spec_padding(before.len() as int)) + contents.last()
    }
}

/// Where segment `i` starts, counted from the start of the data region.
pub open spec fn spec_segment_start(contents: Seq<Seq<u8>>, i: int) -> int
    recommends
        0 <= i < contents.len(),
{
    let before = spec_data(contents.take(i)).len() as int;
    before + spec_padding(before)
}

/// Absolute offset of the data region of a file with `count` segments.
pub open spec fn spec_data_offset(count: int) -> int {
    HEADER_LEN + SEGMENT_HEADER_LEN * count
}

/// Whether a file with these segments and this ticket can be described by
/// the 32-bit fields of the format: the number of segments, the offset and
/// length of each segment, and the offset and length of the ticket.
pub open spec fn spec_fits(contents: Seq<Seq<u8>>, ticket: Option<Seq<u8>>) -> bool {
    &&& contents.len() <= u32::MAX
    &&& forall|i: int|
        0 <= i < contents.len() ==> spec_data_offset(contents.len() as int)
            + #[trigger] spec_segment_start(contents, i) <= u32::MAX
    &&& forall|i: int| 0 <= i < contents.len() ==> (#[trigger] contents[i]).len() <= u32::MAX
    &&& ticket matches Some(t) ==> {
        &&& spec_data_offset(contents.len() as int) + spec_data(contents).len() <= u32::MAX
        &&& t.len() <= u32::MAX
    }
}

/// The bytes of a segment list.
pub open spec fn spec_encode_list(segments: Seq<SegmentHeader>) -> Seq<u8> {
    Seq::new(16 * segments.len(), |i: int| segments[i / 16].spec_encode()[i % 16])
}

/// The bytes of a segment list with one more entry are those of the list
/// followed by those of the entry.
pub proof fn lemma_encode_list_push(segments: Seq<SegmentHeader>, header: SegmentHeader)
    ensures
        spec_encode_list(segments.push(header)) == spec_encode_list(segments)
            + header.spec_encode(),
{
    let n = segments.len() as int;
    let entry = header.spec_encode();
    let a = spec_encode_list(segments.push(header));
    let b = spec_encode_list(segments) + entry;
    header.lemma_decode_encode();
    assert(a.len() == b.len());
    assert forall|i: int| 0 <= i < a.len() implies a[i] == b[i] by {
        if i < 16 * n {
            assert(segments.push(header)[i / 16] == segments[i / 16]);
        } else {
            assert(i / 16 == n);
            assert(i % 16 == i - 16 * n);
        }
    }
    assert(a =~= b);
}

/// What a [`Builder`] holds.
pub struct BuilderView {
    /// The entries of the segment list.
    pub segments: Seq<SegmentHeader>,
    /// The data region: the segments' bytes with the padding between them.
    pub data: Seq<u8>,
    /// The ticket, where the file has one.
    pub ticket: Option<Seq<u8>>,
    pub unk_0: u32,
    pub unk_1: u32,
    pub unk_2: u32,
    pub unk_3: u32,
    pub unk_4: u32,
    pub unk_5: u32,
    pub unk_6: u32,
}

impl BuilderView {
    /// Absolute offset of the data region.
    pub open spec fn data_offset(self) -> int {
        spec_data_offset(self.segments.len() as int)
    }

    /// Whether the header's 32-bit fields can describe the file.
    pub open spec fn fits(self) -> bool {
        &&& self.data_offset() <= u32::MAX
        &&& self.ticket matches Some(t) ==> {
            &&& self.data_offset() + self.data.len() <= u32::MAX
            &&& t.len() <= u32::MAX
        }
    }

    /// The header of the file: the ticket is placed right after the data
    /// region, and both ticket fields are zero where there is no ticket.
    pub open spec fn header(self) -> FtabHeader {
        FtabHeader {
            unk_0: self.unk_0,
            unk_1: self.unk_1,
            unk_2: self.unk_2,
            unk_3: self.unk_3,
            ticket_offset: match self.ticket {
                Some(_) => (self.data_offset() + self.data.len()) as u32,
                None => 0,
            },
            ticket_len: match self.ticket {
                Some(t) => t.len() as u32,
                None => 0,
            },
            unk_4: self.unk_4,
            unk_5: self.unk_5,
            magic: MAGIC,
            segments_count: self.segments.len() as u32,
            unk_6: self.unk_6,
        }
    }

    /// The bytes of the ticket, none where there is no ticket.
    pub open spec fn ticket_bytes(self) -> Seq<u8> {
        match self.ticket {
            Some(t) => t,
            None => Seq::empty(),
        }
    }

    /// The whole file: header, segment list, data region, ticket.
    pub open spec fn spec_file(self) -> Seq<u8> {
        self.header().spec_encode() + spec_encode_list(self.segments) + self.data
            + self.ticket_bytes()
    }
}

/// The entry of segment `i` of a file built from `manifest` and `contents`.
pub open spec fn spec_segment_header(manifest: Manifest, contents: Seq<Seq<u8>>, i: int)
    -> SegmentHeader
    recommends
        0 <= i < contents.len(),
        contents.len() == manifest.segments@.len(),
{
    SegmentHeader {
        tag: manifest.segments@[i].tag.0,
        seg_off: (spec_data_offset(contents.len() as int) + spec_segment_start(contents, i)) as u32,
        seg_len: contents[i].len() as u32,
        unk: manifest.segments@[i].unk,
    }
}

/// The file built from a manifest, the bytes of its segments and its ticket.
pub open spec fn spec_build(manifest: Manifest, contents: Seq<Seq<u8>>, ticket: Option<Seq<u8>>)
    -> BuilderView
    recommends
        contents.len() == manifest.segments@.len(),
{
    BuilderView {
        segments: Seq::new(contents.len(), |i: int| spec_segment_header(manifest, contents, i)),
        data: spec_data(contents),
        ticket,
        unk_0: manifest.unk_0,
        unk_1: manifest.unk_1,
        unk_2: manifest.unk_2,
        unk_3: manifest.unk_3,
        unk_4: manifest.unk_4,
        unk_5: manifest.unk_5,
        unk_6: manifest.unk_6,
    }
}

/// The data region of the first `i + 1` segments is that of the first `i`,
/// the padding, and segment `i`.
pub proof fn lemma_data_step(contents: Seq<Seq<u8>>, i: int)
    requires
        0 <= i < contents.len(),
    ensures
        spec_data(contents.take(i + 1)) == spec_data(contents.take(i)) + spec_zeros(
            spec_padding(spec_data(contents.take(i)).len() as int),
        ) + contents[i],
        spec_data(contents.take(i + 1)).len() == spec_segment_start(contents, i)
            + contents[i].len(),
{
    assert(contents.take(i + 1).drop_last() =~= contents.take(i));
}

/// Every segment starts at a multiple of four bytes from the start of the
/// data region.
pub proof fn lemma_segment_start_aligned(contents: Seq<Seq<u8>>, i: int)
    ensures
        spec_segment_start(contents, i) % 4 == 0,
        spec_segment_start(contents, i) >= 0,
{
}

/// An `ftab` file under construction.
#[derive(Debug)]
pub struct Builder {
    segments: Vec<SegmentHeader>,
    data: Vec<u8>,
    ticket: Option<Vec<u8>>,
    unk_0: u32,
    unk_1: u32,
    unk_2: u32,
    unk_3: u32,
    unk_4: u32,
    unk_5: u32,
    unk_6: u32,
}

impl View for Builder {
    type V = BuilderView;

    closed spec fn view(&self) -> BuilderView {
        BuilderView {
            segments: self.segments@,
            data: self.data@,
            ticket: match self.ticket {
                Some(t) => Some(t@),
                None => None,
            },
            unk_0: self.unk_0,
            unk_1: self.unk_1,
            unk_2: self.unk_2,
            unk_3: self.unk_3,
            unk_4: self.unk_4,
            unk_5: self.unk_5,
            unk_6: self.unk_6,
        }
    }
}

impl BuilderView {
    /// A file without segments and without a ticket, all header fields zero.
    pub open spec fn empty() -> BuilderView {
        BuilderView {
            segments: Seq::empty(),
            data: Seq::empty(),
            ticket: None,
            unk_0: 0,
            unk_1: 0,
            unk_2: 0,
            unk_3: 0,
            unk_4: 0,
            unk_5: 0,
            unk_6: 0,
        }
    }
}

impl Default for Builder {
    /// A builder for a file without segments and without a ticket.
    fn default() -> (b: Builder)
        ensures
            b@ == BuilderView::empty(),
    {
        Builder {
            segments: Vec::new(),
            data: Vec::new(),
            ticket: None,
            unk_0: 0,
            unk_1: 0,
            unk_2: 0,
            unk_3: 0,
            unk_4: 0,
            unk_5: 0,
            unk_6: 0,
        }
    }
}

impl Clone for Builder {
    /// A builder that holds the same file.
    fn clone(&self) -> (b: Builder)
        ensures
            b@ == self@,
    {
        proof {
            use_type_invariant(self);
        }
        let segments = self.segments.clone();
        let data = self.data.clone();
        let ticket = match &self.ticket {
            Some(t) => Some(t.clone()),
            None => None,
        };
        assert(segments@ =~= self.segments@);
        assert(data@ =~= self.data@);
        assert(ticket is Some ==> ticket->Some_0@ =~= self.ticket->Some_0@);
        Builder {
            segments,
            data,
            ticket,
            unk_0: self.unk_0,
            unk_1: self.unk_1,
            unk_2: self.unk_2,
            unk_3: self.unk_3,
            unk_4: self.unk_4,
            unk_5: self.unk_5,
            unk_6: self.unk_6,
        }
    }
}

impl Builder {
    #[verifier::type_invariant]
    spec fn inv(self) -> bool {
        self@.fits()
    }

    /// Whether a file with these segments and this ticket can be built: see
    /// [`spec_fits`].
    pub fn fits(contents: &Vec<Vec<u8>>, ticket: &Option<Vec<u8>>) -> (ok: bool)
        ensures
            ok == spec_fits(contents.deep_view(), ticket.deep_view()),
    {
        let ghost all = contents.deep_view();
        let count = contents.len();
        if count > u32::MAX as usize {
            return false;
        }
        let data_offset: u64 = 48 + 16 * (count as u64);
        let mut len: u64 = 0;
        let mut i: usize = 0;
        while i < count
            invariant
                i <= count,
                count == contents@.len(),
                count <= u32::MAX,
                all == contents.deep_view(),
                data_offset == spec_data_offset(count as int),
                len == spec_data(all.take(i as int)).len(),
                len <= 2 * u32::MAX,
                forall|k: int|
                    0 <= k < i ==> spec_data_offset(count as int) + #[trigger] spec_segment_start(
                        all,
                        k,
                    ) <= u32::MAX,
                forall|k: int| 0 <= k < i ==> (#[trigger] all[k]).len() <= u32::MAX,
            decreases count - i,
        {
            proof {
                assert(all[i as int] == contents@[i as int]@);
                lemma_data_step(all, i as int);
            }
            let start = len + (4 - len % 4) % 4;
            if data_offset + start > u32::MAX as u64 {
                assert(spec_data_offset(count as int) + spec_segment_start(all, i as int)
                    > u32::MAX);
                return false;
            }
            let segment_len = contents[i].len();
            if segment_len > u32::MAX as usize {
                assert(all[i as int].len() > u32::MAX);
                return false;
            }
            len = start + segment_len as u64;
            i += 1;
        }
        assert(all.take(count as int) =~= all);
        match ticket {
            Some(t) => {
                assert(t.deep_view() =~= t@);
                data_offset + len <= u32::MAX as u64 && t.len() <= u32::MAX as usize
            },
            None => true,
        }
    }

    /// Lays out the file that `manifest` describes: `contents` holds the
    /// bytes of each segment in the order of the manifest, `ticket` the
    /// bytes of the ticket. The paths in the manifest are not looked at: the
    /// caller has read the files.
    ///
    /// Zero bytes are put before each segment so that it starts at a multiple
    /// of four bytes from the start of the data region. Nothing is put before
    /// the ticket.
    pub fn with_manifest(manifest: &Manifest, contents: &Vec<Vec<u8>>, ticket: Option<Vec<u8>>) -> (b:
        Builder)
        requires
            contents@.len() == manifest.segments@.len(),
            spec_fits(contents.deep_view(), ticket.deep_view()),
        ensures
            b@ == spec_build(*manifest, contents.deep_view(), ticket.deep_view()),
            b@.fits(),
            forall|i: int|
                0 <= i < b@.segments.len() ==> {
                    &&& b@.data_offset() <= (#[trigger] b@.segments[i]).seg_off
                    &&& (b@.segments[i].seg_off - b@.data_offset()) % 4 == 0
                },
    {
        let ghost all = contents.deep_view();
        let count = contents.len();
        proof {
            if count > 0 {
                assert(spec_segment_start(all, 0) >= 0);
            }
        }
        let data_offset: usize = HEADER_LEN + count * SEGMENT_HEADER_LEN;
        let mut segments: Vec<SegmentHeader> = Vec::with_capacity(count);
        let mut data: Vec<u8> = Vec::new();

        let mut i: usize = 0;
        while i < count
            invariant
                i <= count,
                count == contents@.len(),
                count == manifest.segments@.len(),
                all == contents.deep_view(),
                data_offset == spec_data_offset(count as int),
                spec_fits(all, ticket.deep_view()),
                data@ == spec_data(all.take(i as int)),
                segments@.len() == i,
                forall|k: int|
                    0 <= k < i ==> #[trigger] segments@[k] == spec_segment_header(
                        *manifest,
                        all,
                        k,
                    ),
            decreases count - i,
        {
            let segment_data = &contents[i];
            proof {
                assert(all[i as int] == segment_data@);
                assert(spec_segment_start(all, i as int) == data@.len() + spec_padding(
                    data@.len() as int,
                ));
                lemma_data_step(all, i as int);
            }
            let padding = (4 - data.len() % 4) % 4;
            let ghost before = data@;
            data.resize(data.len() + padding, 0);
            assert(data@ =~= before + spec_zeros(padding as int));

            segments.push(
                SegmentHeader {
                    tag: manifest.segments[i].tag.0,
                    seg_off: (data_offset + data.len()) as u32,
                    seg_len: segment_data.len() as u32,
                    unk: manifest.segments[i].unk,
                },
            );
            let ghost padded = data@;
            data.extend_from_slice(segment_data.as_slice());
            assert(data@ =~= padded + segment_data@);
            i += 1;
        }
        proof {
            assert(all.take(count as int) =~= all);
            assert(segments@ =~= spec_build(*manifest, all, ticket.deep_view()).segments);
            assert forall|k: int| 0 <= k < segments@.len() implies {
                &&& data_offset <= (#[trigger] segments@[k]).seg_off
                &&& (segments@[k].seg_off - data_offset) % 4 == 0
            } by {
                lemma_segment_start_aligned(all, k);
            }
            if let Some(t) = &ticket {
                assert(t.deep_view() =~= t@);
            }
        }

        Builder {
            segments,
            data,
            ticket,
            unk_0: manifest.unk_0,
            unk_1: manifest.unk_1,
            unk_2: manifest.unk_2,
            unk_3: manifest.unk_3,
            unk_4: manifest.unk_4,
            unk_5: manifest.unk_5,
            unk_6: manifest.unk_6,
        }
    }

    /// The header that describes the file.
    fn header(&self) -> (header: FtabHeader)
        ensures
            header == self@.header(),
    {
        proof {
            use_type_invariant(self);
        }
        let data_offset: usize = HEADER_LEN + self.segments.len() * SEGMENT_HEADER_LEN;
        FtabHeader {
            unk_0: self.unk_0,
            unk_1: self.unk_1,
            unk_2: self.unk_2,
            unk_3: self.unk_3,
            ticket_offset: match &self.ticket {
                Some(_) => (data_offset + self.data.len()) as u32,
                None => 0,
            },
            ticket_len: match &self.ticket {
                Some(t) => t.len() as u32,
                None => 0,
            },
            unk_4: self.unk_4,
            unk_5: self.unk_5,
            magic: MAGIC,
            segments_count: self.segments.len() as u32,
            unk_6: self.unk_6,
        }
    }

    /// Appends the segment list to `dest`.
    fn write_segment_list(&self, dest: &mut Vec<u8>)
        ensures
            final(dest)@ == old(dest)@ + spec_encode_list(self@.segments),
    {
        let count = self.segments.len();
        let mut i: usize = 0;
        assert(spec_encode_list(self.segments@.take(0)) =~= Seq::<u8>::empty());
        assert(dest@ =~= old(dest)@ + Seq::<u8>::empty());
        while i < count
            invariant
                i <= count,
                count == self.segments@.len(),
                dest@ == old(dest)@ + spec_encode_list(self.segments@.take(i as int)),
            decreases count - i,
        {
            let ghost done = spec_encode_list(self.segments@.take(i as int));
            let ghost entry = self.segments@[i as int].spec_encode();
            self.segments[i].encode(dest);
            proof {
                lemma_encode_list_push(self.segments@.take(i as int), self.segments@[i as int]);
                assert(self.segments@.take(i as int).push(self.segments@[i as int])
                    =~= self.segments@.take(i + 1));
                assert(old(dest)@ + done + entry =~= old(dest)@ + (done + entry));
            }
            i += 1;
        }
        assert(self.segments@.take(count as int) =~= self.segments@);
    }

    /// Appends the file to `dest`: the header, the segment list, the data
    /// region and then the ticket, where there is one.
    pub fn write_to(&self, dest: &mut Vec<u8>)
        ensures
            final(dest)@ == old(dest)@ + self@.spec_file(),
    {
        let header = self.header();
        let ghost head = header.spec_encode();
        let ghost list = spec_encode_list(self@.segments);
        header.encode(dest);
        self.write_segment_list(dest);
        let ghost listed = dest@;
        dest.extend_from_slice(self.data.as_slice());
        assert(dest@ =~= listed + self.data@);
        match &self.ticket {
            Some(ticket) => {
                let ghost filled = dest@;
                dest.extend_from_slice(ticket.as_slice());
                assert(dest@ =~= filled + ticket@);
            },
            None => {},
        }
        assert(dest@ =~= old(dest)@ + (head + list + self@.data + self@.ticket_bytes()));
    }
}

} // verus!
