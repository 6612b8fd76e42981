//! How chunks lie in a byte stream, and the laws that tie the split of a
//! stream to the writing of chunks.

use vstd::prelude::*;
use crate::ucfb::{
    chunk_header_bytes, chunk_header_of, chunk_span, consumed, padding, raw_chunks, spec_extract,
    tail, Chunk, RawChunk, UCFBError,
};
use crate::wire::{lemma_bytes_of_le_u32, lemma_le_u32_of_bytes, u32_le_bytes};

verus! {

/// `count` zero bytes.
pub open spec fn zeros(count: nat) -> Seq<u8> {
    Seq::new(count, |i: int| 0u8)
}

/// The payload has the length that the header declares.
pub open spec fn well_formed(chunk: RawChunk) -> bool {
    chunk.header.size == chunk.data.len()
}

/// Every chunk of the sequence is well formed.
pub open spec fn all_well_formed(chunks: Seq<RawChunk>) -> bool {
    forall|i: int| 0 <= i < chunks.len() ==> well_formed(#[trigger] chunks[i])
}

/// The bytes of one chunk: header, payload, and zero bytes up to the next
/// multiple of four.
pub open spec fn chunk_bytes(chunk: RawChunk) -> Seq<u8> {
    chunk_header_bytes(chunk.header) + chunk.data + zeros(padding(chunk.data.len()))
}

/// The bytes of a sequence of chunks, one after the other.
pub open spec fn archive_bytes(chunks: Seq<RawChunk>) -> Seq<u8>
    decreases chunks.len(),
{
    if chunks.len() == 0 {
        Seq::empty()
    } else {
        archive_bytes(chunks.drop_last()) + chunk_bytes(chunks.last())
    }
}

/// Offset in the stream of the chunk with index `index`: the spans of the
/// chunks before it.
pub open spec fn chunk_offset(chunks: Seq<RawChunk>, index: int) -> nat
    decreases index,
{
    if index <= 0 {
        0
    } else {
        chunk_offset(chunks, index - 1) + chunk_span(chunks[index - 1].header.size as nat)
    }
}

/// The stream is made of whole chunks whose padding is present and zero, with
/// nothing behind the last one.
pub open spec fn canonical(bytes: Seq<u8>) -> bool
    decreases bytes.len(),
{
    if bytes.len() < 8 {
        bytes.len() == 0
    } else {
        let size = chunk_header_of(bytes).size as nat;
        &&& chunk_span(size) <= bytes.len()
        &&& bytes.subrange(8 + size as int, chunk_span(size) as int) == zeros(padding(size))
        &&& canonical(tail(bytes, chunk_span(size)))
    }
}

/// A chunk takes its header, its payload and up to three bytes of padding,
/// and the padding brings its span to a multiple of four.
pub proof fn lemma_chunk_span(size: nat)
    ensures
        chunk_span(size) == 8 + size + padding(size),
        padding(size) <= 3,
        (size + padding(size)) % 4 == 0,
        chunk_span(size) % 4 == 0,
{
}

/// The first chunk of a sequence in front of the bytes of the others.
proof fn lemma_archive_bytes_front(chunks: Seq<RawChunk>)
    requires
        chunks.len() > 0,
    ensures
        archive_bytes(chunks) == chunk_bytes(chunks[0]) + archive_bytes(chunks.skip(1)),
    decreases chunks.len(),
{
    if chunks.len() == 1 {
        assert(chunks.drop_last() =~= Seq::<RawChunk>::empty());
        assert(chunks.skip(1) =~= Seq::<RawChunk>::empty());
        assert(archive_bytes(chunks) =~= chunk_bytes(chunks[0]) + archive_bytes(chunks.skip(1)));
    } else {
        lemma_archive_bytes_front(chunks.drop_last());
        assert(chunks.drop_last().skip(1) =~= chunks.skip(1).drop_last());
        assert(chunks.drop_last()[0] == chunks[0]);
        assert(chunks.skip(1).last() == chunks.last());
        assert(archive_bytes(chunks) =~= chunk_bytes(chunks[0]) + archive_bytes(chunks.skip(1)));
    }
}

/// What the bytes of one well-formed chunk, followed by anything, are read as.
proof fn lemma_chunk_bytes_read(chunk: RawChunk, rest: Seq<u8>)
    requires
        well_formed(chunk),
    ensures
        chunk_bytes(chunk).len() == chunk_span(chunk.header.size as nat),
        chunk_header_of(chunk_bytes(chunk) + rest) == chunk.header,
        (chunk_bytes(chunk) + rest).subrange(8, 8 + chunk.header.size) == chunk.data,
        (chunk_bytes(chunk) + rest).subrange(
            8 + chunk.header.size,
            chunk_span(chunk.header.size as nat) as int,
        ) == zeros(padding(chunk.header.size as nat)),
        tail(chunk_bytes(chunk) + rest, chunk_span(chunk.header.size as nat)) == rest,
{
    let bytes = chunk_bytes(chunk) + rest;
    let behind = chunk.data + zeros(padding(chunk.data.len())) + rest;
    assert(chunk.header.name@.len() == 4);
    assert(bytes =~= chunk.header.name@ + u32_le_bytes(chunk.header.size) + behind);
    lemma_le_u32_of_bytes(chunk.header.size, chunk.header.name@, behind);
    assert(chunk_header_of(bytes).name@ =~= chunk.header.name@);
    assert(chunk_header_of(bytes).name == chunk.header.name);
    assert(chunk_header_of(bytes).size == chunk.header.size);
    assert(bytes.subrange(8, 8 + chunk.header.size) =~= chunk.data);
    assert(bytes.subrange(8 + chunk.header.size, chunk_span(chunk.header.size as nat) as int)
        =~= zeros(padding(chunk.header.size as nat)));
    assert(tail(bytes, chunk_span(chunk.header.size as nat)) =~= rest);
}

/// Writing chunks and splitting what was written gives the chunks back, and
/// the split consumes every byte.
pub proof fn lemma_extract_archive_bytes(chunks: Seq<RawChunk>)
    requires
        all_well_formed(chunks),
    ensures
        spec_extract(archive_bytes(chunks)) == Ok::<Seq<RawChunk>, UCFBError>(chunks),
        consumed(archive_bytes(chunks)) == archive_bytes(chunks).len(),
        canonical(archive_bytes(chunks)),
    decreases chunks.len(),
{
    if chunks.len() == 0 {
        assert(chunks =~= Seq::<RawChunk>::empty());
    } else {
        let first = chunks[0];
        let others = chunks.skip(1);
        lemma_archive_bytes_front(chunks);
        lemma_chunk_bytes_read(first, archive_bytes(others));
        assert(all_well_formed(others)) by {
            assert forall|i: int| 0 <= i < others.len() implies well_formed(
                #[trigger] others[i],
            ) by {
                assert(others[i] == chunks[i + 1]);
            }
        }
        lemma_extract_archive_bytes(others);
        let bytes = archive_bytes(chunks);
        let read = RawChunk { header: first.header, data: bytes.subrange(8, 8 + first.header.size) };
        assert(read == first);
        assert(seq![first] + others =~= chunks);
    }
}

/// The round trip: a canonical stream is split into chunks that are written
/// back as the very same bytes.
pub proof fn lemma_archive_bytes_extract(bytes: Seq<u8>)
    requires
        canonical(bytes),
    ensures
        spec_extract(bytes) is Ok,
        all_well_formed(spec_extract(bytes)->Ok_0),
        archive_bytes(spec_extract(bytes)->Ok_0) == bytes,
    decreases bytes.len(),
{
    if bytes.len() < 8 {
        assert(bytes =~= Seq::<u8>::empty());
    } else {
        let header = chunk_header_of(bytes);
        let size = header.size as nat;
        let span = chunk_span(size);
        let rest = tail(bytes, span);
        lemma_archive_bytes_extract(rest);
        let first = RawChunk { header, data: bytes.subrange(8, 8 + header.size) };
        let others = spec_extract(rest)->Ok_0;
        let chunks = seq![first] + others;
        assert(spec_extract(bytes) == Ok::<Seq<RawChunk>, UCFBError>(chunks));
        assert(all_well_formed(chunks)) by {
            assert forall|i: int| 0 <= i < chunks.len() implies well_formed(
                #[trigger] chunks[i],
            ) by {
                if i > 0 {
                    assert(chunks[i] == others[i - 1]);
                }
            }
        }
        lemma_archive_bytes_front(chunks);
        assert(chunks.skip(1) =~= others);
        lemma_bytes_of_le_u32(bytes, 4);
        assert(chunk_header_bytes(header) =~= bytes.subrange(0, 8));
        assert(chunk_bytes(first) =~= bytes.subrange(0, span as int));
        assert(bytes =~= bytes.subrange(0, span as int) + rest);
    }
}

/// The offset of a chunk behind a first one is that first chunk's span
/// further on.
proof fn lemma_chunk_offset_shift(first: RawChunk, others: Seq<RawChunk>, index: int)
    requires
        0 <= index <= others.len(),
    ensures
        chunk_offset(seq![first] + others, index + 1) == chunk_span(first.header.size as nat)
            + chunk_offset(others, index),
    decreases index,
{
    let chunks = seq![first] + others;
    if index == 0 {
        assert(chunk_offset(chunks, 0) == 0);
        assert(chunks[0] == first);
    } else {
        lemma_chunk_offset_shift(first, others, index - 1);
        assert(chunks[index] == others[index - 1]);
    }
}

/// A stream that splits into at least one chunk: its first chunk, and the
/// split of what lies behind it.
proof fn lemma_extract_first(bytes: Seq<u8>)
    requires
        spec_extract(bytes) is Ok,
        spec_extract(bytes)->Ok_0.len() > 0,
    ensures
        ({
            let header = chunk_header_of(bytes);
            let rest = tail(bytes, chunk_span(header.size as nat));
            let chunks = spec_extract(bytes)->Ok_0;
            &&& bytes.len() >= 8 + header.size
            &&& spec_extract(rest) is Ok
            &&& chunks[0] == (RawChunk { header, data: bytes.subrange(8, 8 + header.size) })
            &&& chunks.skip(1) == spec_extract(rest)->Ok_0
            &&& chunks.len() > 1 ==> rest == bytes.skip(chunk_span(header.size as nat) as int)
        }),
{
    let header = chunk_header_of(bytes);
    let rest = tail(bytes, chunk_span(header.size as nat));
    let first = RawChunk { header, data: bytes.subrange(8, 8 + header.size) };
    let others = spec_extract(rest)->Ok_0;
    assert(spec_extract(bytes)->Ok_0 == seq![first] + others);
    assert((seq![first] + others).skip(1) =~= others);
}

/// A range behind a skipped front is a range of the whole.
proof fn lemma_skip_shift(bytes: Seq<u8>, span: int, inner: int, size: int)
    requires
        0 <= span,
        0 <= inner,
        0 <= size,
        span + inner + 8 + size <= bytes.len(),
    ensures
        bytes.skip(span).skip(inner) == bytes.skip(span + inner),
        bytes.skip(span).subrange(inner + 8, inner + 8 + size) == bytes.subrange(
            span + inner + 8,
            span + inner + 8 + size,
        ),
{
    assert(bytes.skip(span).skip(inner) =~= bytes.skip(span + inner));
    assert(bytes.skip(span).subrange(inner + 8, inner + 8 + size) =~= bytes.subrange(
        span + inner + 8,
        span + inner + 8 + size,
    ));
}

/// Whether the chunk with index `index` of `chunks` lies in `bytes` where its
/// offset says: at a multiple of four, with its header and payload there, and
/// the next chunk one span further on.
pub open spec fn lies_at_offset(bytes: Seq<u8>, chunks: Seq<RawChunk>, index: int) -> bool {
    let at = chunk_offset(chunks, index) as int;
    let size = chunks[index].header.size as int;
    &&& at % 4 == 0
    &&& chunk_offset(chunks, index + 1) == at + 8 + size + padding(size as nat)
    &&& at + 8 + size <= bytes.len()
    &&& chunks[index].header == chunk_header_of(bytes.skip(at))
    &&& chunks[index].data == bytes.subrange(at + 8, at + 8 + size)
}

/// Where the chunks of a split stream lie: each starts at a multiple of four,
/// one span behind the chunk before it, and holds the header and the payload
/// that stand there.
pub proof fn lemma_extract_layout(bytes: Seq<u8>, index: int)
    requires
        spec_extract(bytes) is Ok,
        0 <= index < spec_extract(bytes)->Ok_0.len(),
    ensures
        lies_at_offset(bytes, spec_extract(bytes)->Ok_0, index),
    decreases bytes.len(),
{
    let chunks = spec_extract(bytes)->Ok_0;
    lemma_extract_first(bytes);
    let first = chunks[0];
    let size0 = first.header.size as nat;
    let span = chunk_span(size0) as int;
    lemma_chunk_span(size0);
    if index == 0 {
        assert(chunk_offset(chunks, 0) == 0);
        assert(chunk_offset(chunks, 1) == span);
        assert(bytes.skip(0) =~= bytes);
    } else {
        let rest = bytes.skip(span);
        let others = chunks.skip(1);
        assert(chunks =~= seq![first] + others);
        assert(chunks[index] == others[index - 1]);
        lemma_chunk_offset_shift(first, others, index - 1);
        lemma_chunk_offset_shift(first, others, index);
        assert(lies_at_offset(rest, others, index - 1)) by {
            lemma_extract_layout(rest, index - 1);
        }
        let inner = chunk_offset(others, index - 1) as int;
        let size = chunks[index].header.size as int;
        assert(chunk_offset(chunks, index) == span + inner);
        lemma_skip_shift(bytes, span, inner, size);
    }
}

/// Every chunk of a split stream is well formed: its payload has the length
/// that its header declares.
pub proof fn lemma_extract_well_formed(bytes: Seq<u8>)
    requires
        spec_extract(bytes) is Ok,
    ensures
        all_well_formed(spec_extract(bytes)->Ok_0),
{
    let chunks = spec_extract(bytes)->Ok_0;
    assert forall|i: int| 0 <= i < chunks.len() implies well_formed(#[trigger] chunks[i]) by {
        lemma_extract_layout(bytes, i);
    }
}

/// What a split consumes is the spans of its chunks, each of them header,
/// payload and padding, cut at the end of the stream where the padding of the
/// last chunk is missing.
pub proof fn lemma_consumed_spans(bytes: Seq<u8>)
    requires
        spec_extract(bytes) is Ok,
    ensures
        ({
            let chunks = spec_extract(bytes)->Ok_0;
            let spans = chunk_offset(chunks, chunks.len() as int);
            &&& spans < bytes.len() ==> consumed(bytes) == spans
            &&& spans >= bytes.len() ==> consumed(bytes) == bytes.len() && spans <= bytes.len()
                + 3
            &&& bytes.len() - consumed(bytes) < 8
        }),
    decreases bytes.len(),
{
    let chunks = spec_extract(bytes)->Ok_0;
    if bytes.len() >= 8 {
        lemma_extract_first(bytes);
        let first = chunks[0];
        let size = first.header.size as nat;
        let span = chunk_span(size);
        lemma_chunk_span(size);
        let others = chunks.skip(1);
        assert(chunks =~= seq![first] + others);
        lemma_chunk_offset_shift(first, others, others.len() as int);
        if span >= bytes.len() {
            assert(others.len() == 0);
            assert(chunk_offset(others, 0) == 0);
        } else {
            lemma_consumed_spans(tail(bytes, span));
        }
    } else {
        assert(chunk_offset(chunks, 0) == 0);
    }
}

/// A split fails only on a truncated chunk, and what it has consumed ends at
/// the header of that chunk: no part of the chunk is consumed.
pub proof fn lemma_extract_failure(bytes: Seq<u8>)
    requires
        spec_extract(bytes) is Err,
    ensures
        spec_extract(bytes) == Err::<Seq<RawChunk>, UCFBError>(UCFBError::Truncated),
        consumed(bytes) % 4 == 0,
        consumed(bytes) + 8 <= bytes.len(),
        consumed(bytes) + 8 + chunk_header_of(bytes.skip(consumed(bytes) as int)).size
            > bytes.len(),
    decreases bytes.len(),
{
    let header = chunk_header_of(bytes);
    let span = chunk_span(header.size as nat);
    if 8 + header.size > bytes.len() {
        assert(bytes.skip(0) =~= bytes);
    } else {
        let rest = tail(bytes, span);
        lemma_extract_failure(rest);
        assert(rest.skip(consumed(rest) as int) =~= bytes.skip((span + consumed(rest)) as int));
    }
}

/// A chunk that declares more payload than there are bytes left makes the
/// split fail with `Truncated`, whatever whole chunks stand before it, and the
/// split consumes those whole chunks and no more.
pub proof fn lemma_truncated_chunk(chunks: Seq<RawChunk>, cut: Seq<u8>)
    requires
        all_well_formed(chunks),
        cut.len() >= 8,
        8 + chunk_header_of(cut).size > cut.len(),
    ensures
        spec_extract(archive_bytes(chunks) + cut) == Err::<Seq<RawChunk>, UCFBError>(
            UCFBError::Truncated,
        ),
        consumed(archive_bytes(chunks) + cut) == archive_bytes(chunks).len(),
    decreases chunks.len(),
{
    if chunks.len() == 0 {
        assert(archive_bytes(chunks) + cut =~= cut);
    } else {
        let first = chunks[0];
        let others = chunks.skip(1);
        lemma_archive_bytes_front(chunks);
        lemma_chunk_bytes_read(first, archive_bytes(others) + cut);
        assert(archive_bytes(chunks) + cut =~= chunk_bytes(first) + (archive_bytes(others) + cut));
        assert(all_well_formed(others)) by {
            assert forall|i: int| 0 <= i < others.len() implies well_formed(
                #[trigger] others[i],
            ) by {
                assert(others[i] == chunks[i + 1]);
            }
        }
        lemma_truncated_chunk(others, cut);
    }
}

/// Appends the bytes of `chunks` to `out`: each header, its payload, and zero
/// bytes up to the next multiple of four.
pub fn write_chunks(chunks: &Vec<Chunk>, out: &mut Vec<u8>)
    ensures
        final(out)@ == old(out)@ + archive_bytes(raw_chunks(chunks@)),
{
    let ghost all = raw_chunks(chunks@);
    let mut i: usize = 0;
    assert(all.take(0) =~= Seq::<RawChunk>::empty());
    assert(out@ =~= old(out)@ + archive_bytes(all.take(0)));
    while i < chunks.len()
        invariant
            i <= chunks.len(),
            all == raw_chunks(chunks@),
            out@ == old(out)@ + archive_bytes(all.take(i as int)),
        decreases chunks.len() - i,
    {
        let ghost before = out@;
        let chunk = &chunks[i];
        chunk.header.write_to(out);
        out.extend_from_slice(chunk.data.as_slice());
        let pad: usize = (4 - chunk.data.len() % 4) % 4;
        let mut written: usize = 0;
        while written < pad
            invariant
                written <= pad,
                out@ == before + chunk_header_bytes(chunk.header) + chunk.data@ + zeros(
                    written as nat,
                ),
            decreases pad - written,
        {
            out.push(0);
            written += 1;
            assert(zeros(written as nat) =~= zeros((written - 1) as nat).push(0u8));
        }
        proof {
            assert(all.take(i + 1).drop_last() =~= all.take(i as int));
            assert(all.take(i + 1).last() == chunk.raw());
            assert(out@ =~= old(out)@ + archive_bytes(all.take(i + 1)));
        }
        i += 1;
    }
    assert(all.take(chunks.len() as int) =~= all);
}

} // verus!
