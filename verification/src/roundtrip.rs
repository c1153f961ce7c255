//! What is written can be read back: a file laid out by the
//! [`Builder`](crate::builder::Builder) is accepted by the
//! [`Parser`](crate::parser::Parser), which finds in it the header fields,
//! the ticket and every segment that went in.

use vstd::prelude::*;
use crate::builder::{
    lemma_data_step, lemma_segment_start_aligned, spec_build, spec_data, spec_encode_list, spec_fits, spec_segment_start,
    BuilderView,
};
use crate::format::{spec_u32_at, SegmentHeader, MAGIC};
use crate::manifest::Manifest;
use crate::parser::{
    spec_decode_list, spec_parse, spec_ticket, OobSegmentError, ParseError, ParserView,
    SegmentView,
};

verus! {

/// What is built from inputs that fit the format can be described by the
/// header's 32-bit fields.
pub proof fn lemma_build_fits(manifest: Manifest, contents: Seq<Seq<u8>>, ticket: Option<Seq<u8>>)
    requires
        spec_fits(contents, ticket),
    ensures
        spec_build(manifest, contents, ticket).fits(),
{
    if contents.len() > 0 {
        lemma_segment_start_aligned(contents, 0);
    }
}

/// The data region of the first `j` segments is the start of the data
/// region of all of them.
pub proof fn lemma_data_prefix(contents: Seq<Seq<u8>>, j: int)
    requires
        0 <= j <= contents.len(),
    ensures
        spec_data(contents.take(j)).len() <= spec_data(contents).len(),
        spec_data(contents).subrange(0, spec_data(contents.take(j)).len() as int) == spec_data(
            contents.take(j),
        ),
    decreases contents.len(),
{
    if j == contents.len() {
        assert(contents.take(j) =~= contents);
        assert(spec_data(contents).subrange(0, spec_data(contents).len() as int) =~= spec_data(
            contents,
        ));
    } else {
        let shorter = contents.drop_last();
        assert(shorter.take(j) =~= contents.take(j));
        lemma_data_prefix(shorter, j);
        let part = spec_data(contents.take(j));
        assert(spec_data(contents).subrange(0, part.len() as int) =~= spec_data(
            shorter,
        ).subrange(0, part.len() as int));
    }
}

/// Segment `i` lies in the data region at its start offset.
pub proof fn lemma_segment_placed(contents: Seq<Seq<u8>>, i: int)
    requires
        0 <= i < contents.len(),
    ensures
        0 <= spec_segment_start(contents, i),
        spec_segment_start(contents, i) + contents[i].len() <= spec_data(contents).len(),
        spec_data(contents).subrange(
            spec_segment_start(contents, i),
            spec_segment_start(contents, i) + contents[i].len(),
        ) == contents[i],
{
    let start = spec_segment_start(contents, i);
    let upto = spec_data(contents.take(i + 1));
    lemma_data_step(contents, i);
    lemma_data_prefix(contents, i + 1);
    assert(upto.subrange(start, start + contents[i].len()) =~= contents[i]);
    assert(spec_data(contents).subrange(start, start + contents[i].len()) =~= upto.subrange(
        start,
        start + contents[i].len(),
    ));
}

/// Decoding a segment list undoes encoding it.
pub proof fn lemma_decode_encode_list(segments: Seq<SegmentHeader>)
    ensures
        spec_encode_list(segments).len() == 16 * segments.len(),
        spec_decode_list(spec_encode_list(segments)) == segments,
{
    let raw = spec_encode_list(segments);
    let back = spec_decode_list(raw);
    assert(back.len() == segments.len());
    assert forall|i: int| 0 <= i < segments.len() implies back[i] == segments[i] by {
        segments[i].lemma_decode_encode();
        let entry = raw.subrange(16 * i, 16 * i + 16);
        assert forall|k: int| 0 <= k < 16 implies entry[k] == segments[i].spec_encode()[k] by {
            assert((16 * i + k) / 16 == i);
            assert((16 * i + k) % 16 == k);
        }
        assert(entry =~= segments[i].spec_encode());
    }
    assert(back =~= segments);
}

/// Where the four parts of a file lie in it.
proof fn lemma_file_parts(head: Seq<u8>, list: Seq<u8>, data: Seq<u8>, ticket: Seq<u8>)
    requires
        head.len() == 48,
    ensures
        ({
            let file = head + list + data + ticket;
            &&& file.len() == 48 + list.len() + data.len() + ticket.len()
            &&& file.subrange(32, 40) == head.subrange(32, 40)
            &&& forall|at: int| 0 <= at <= 44 ==> #[trigger] spec_u32_at(file, at) == spec_u32_at(
                head,
                at,
            )
            &&& file.subrange(48, 48 + list.len() as int) == list
            &&& file.skip(48 + list.len() as int) == data + ticket
        }),
{
    let file = head + list + data + ticket;
    assert(file.subrange(32, 40) =~= head.subrange(32, 40));
    assert forall|at: int| 0 <= at <= 44 implies #[trigger] spec_u32_at(file, at) == spec_u32_at(
        head,
        at,
    ) by {
        assert(file.subrange(at, at + 4) =~= head.subrange(at, at + 4));
    }
    assert(file.subrange(48, 48 + list.len() as int) =~= list);
    assert(file.skip(48 + list.len() as int) =~= data + ticket);
}

/// The file of a builder holds its header fields at their offsets, then
/// its segment list, then its data region and its ticket.
proof fn lemma_file_layout(built: BuilderView)
    requires
        built.fits(),
    ensures
        ({
            let file = built.spec_file();
            let list_end = built.data_offset();
            &&& file.len() == list_end + built.data.len() + built.ticket_bytes().len()
            &&& file.subrange(32, 40) == MAGIC@
            &&& spec_u32_at(file, 0) == built.unk_0
            &&& spec_u32_at(file, 4) == built.unk_1
            &&& spec_u32_at(file, 8) == built.unk_2
            &&& spec_u32_at(file, 12) == built.unk_3
            &&& spec_u32_at(file, 16) == built.header().ticket_offset
            &&& spec_u32_at(file, 20) == built.header().ticket_len
            &&& spec_u32_at(file, 24) == built.unk_4
            &&& spec_u32_at(file, 28) == built.unk_5
            &&& spec_u32_at(file, 40) == built.segments.len()
            &&& spec_u32_at(file, 44) == built.unk_6
            &&& spec_decode_list(file.subrange(48, list_end)) == built.segments
            &&& file.skip(list_end) == built.data + built.ticket_bytes()
        }),
{
    let header = built.header();
    let list = spec_encode_list(built.segments);
    header.lemma_encode_fields();
    lemma_decode_encode_list(built.segments);
    lemma_file_parts(header.spec_encode(), list, built.data, built.ticket_bytes());
}

/// The parser accepts the file of a builder and finds in it the builder's
/// header fields, ticket and segment list.
pub proof fn lemma_parse_written(built: BuilderView)
    requires
        built.fits(),
    ensures
        spec_parse(built.spec_file()) == Ok::<ParserView, ParseError>(
            ParserView {
                unk_0: built.unk_0,
                unk_1: built.unk_1,
                unk_2: built.unk_2,
                unk_3: built.unk_3,
                unk_4: built.unk_4,
                unk_5: built.unk_5,
                unk_6: built.unk_6,
                ticket: built.ticket,
                segments: built.segments,
                data: built.data + built.ticket_bytes(),
            },
        ),
{
    let data_offset = built.data_offset();
    let region = built.data + built.ticket_bytes();
    lemma_file_layout(built);
    let header = built.header();
    let found = spec_ticket(region, header.ticket_offset, header.ticket_len, data_offset);
    assert(found == Ok::<Option<Seq<u8>>, ParseError>(built.ticket)) by {
        match built.ticket {
            Some(t) => {
                assert(region.subrange(built.data.len() as int, built.data.len() as int + t.len())
                    =~= t);
            },
            None => {},
        }
    }
}

/// Reading back what was written: for every manifest, every list of
/// segment contents of the same length and every ticket that fit the
/// format, the file that the builder writes is accepted by the parser, which
/// reports the seven header fields of the manifest, the same ticket (or
/// none), and for each segment, in order, its tag, its bytes and its field
/// of unknown purpose.
pub proof fn lemma_write_then_parse(
    manifest: Manifest,
    contents: Seq<Seq<u8>>,
    ticket: Option<Seq<u8>>,
)
    requires
        contents.len() == manifest.segments@.len(),
        spec_fits(contents, ticket),
    ensures
        ({
            let file = spec_build(manifest, contents, ticket).spec_file();
            &&& spec_parse(file) matches Ok(p)
            &&& p.unk_0 == manifest.unk_0
            &&& p.unk_1 == manifest.unk_1
            &&& p.unk_2 == manifest.unk_2
            &&& p.unk_3 == manifest.unk_3
            &&& p.unk_4 == manifest.unk_4
            &&& p.unk_5 == manifest.unk_5
            &&& p.unk_6 == manifest.unk_6
            &&& p.ticket == ticket
            &&& p.segments.len() == contents.len()
            &&& forall|i: int|
                0 <= i < contents.len() ==> #[trigger] p.segments_view().segment(i) == Ok::<
                    SegmentView,
                    OobSegmentError,
                >(
                    SegmentView {
                        tag: manifest.segments@[i].tag.0,
                        data: contents[i],
                        unk: manifest.segments@[i].unk,
                    },
                )
        }),
{
    let built = spec_build(manifest, contents, ticket);
    lemma_build_fits(manifest, contents, ticket);
    lemma_parse_written(built);
    let p = spec_parse(built.spec_file())->Ok_0;
    let region = built.data + built.ticket_bytes();
    assert forall|i: int| 0 <= i < contents.len() implies #[trigger] p.segments_view().segment(i)
        == Ok::<SegmentView, OobSegmentError>(
        SegmentView {
            tag: manifest.segments@[i].tag.0,
            data: contents[i],
            unk: manifest.segments@[i].unk,
        },
    ) by {
        let start = spec_segment_start(contents, i);
        lemma_segment_placed(contents, i);
        assert(region.subrange(start, start + contents[i].len()) =~= built.data.subrange(
            start,
            start + contents[i].len(),
        ));
    }
}

} // verus!
