//! The archive container: its headers, the split of a byte buffer into raw
//! chunks, and the dispatch of each chunk to the decoder of its payload.

use vstd::prelude::*;
use vstd::slice::{slice_subrange, slice_to_vec};
use crate::lvl::{Level, LevelError};
use crate::mvs::{Movie, MovieError};
use crate::prop::{PropertyContainer, PropertyError};
use crate::script::{Script, ScriptError};
use crate::tex::{TextureContainer, TextureError};
use crate::wire::{le_u32, read_le_u32, u32_le_bytes, write_le_u32};

pub use crate::visit::visit_chunks_from_vec;

verus! {

/// Header of an archive: the total size that follows the magic.
#[derive(Debug, Clone, Copy)]
pub struct UCFBHeader {
    /// Declared size of the archive's chunk data.
    pub size: u32,
}

/// Header of one chunk.
#[derive(Debug, Clone, Copy)]
pub struct ChunkHeader {
    /// The four raw bytes that tag the chunk. They need not be text.
    pub name: [u8; 4],
    /// Length in bytes of the payload that follows the header.
    pub size: u32,
}

/// What can go wrong when the container structure is read.
#[derive(Debug, Clone, Copy, PartialEq, Eq, Structural)]
pub enum UCFBError {
    /// The archive header is cut short, or declares a size below eight.
    FileTooSmall,
    /// The size declared in the archive header is not that of the data.
    WrongHeaderSize,
    /// The data does not start with the archive magic.
    NotAUCFBFile,
    /// A chunk declares more payload than there are bytes left, or a chunk
    /// header is asked of fewer than eight bytes.
    Truncated,
}

/// A chunk as it lies in the byte stream: header and payload, nothing decoded.
pub struct RawChunk {
    pub header: ChunkHeader,
    pub data: Seq<u8>,
}

/// An archive: its header and its chunks in stream order.
#[derive(Debug)]
pub struct UCFBFile {
    /// The archive header.
    pub header: UCFBHeader,
    /// The chunks, in the order in which they lie in the stream.
    pub chunks: Vec<Chunk>,
}

/// The decoded payload of a chunk.
#[derive(Debug)]
pub enum DecipheredChunk {
    /// A script.
    Script(Script),
    /// The clips of a cutscene.
    Movie(Movie),
    /// An archive nested in the payload.
    UCFB(UCFBFile),
    /// A level.
    Level(Level),
    /// A texture.
    Texture(TextureContainer),
    /// An object definition.
    PropertyContainer(PropertyContainer),
}

/// Why a visit of chunks stopped: the error of the decoder that failed, and
/// around it one layer for each container that the failing chunk lies in.
#[derive(Debug)]
pub enum VisitError {
    /// A script chunk could not be decoded.
    ScriptError(ScriptError),
    /// A cutscene chunk could not be decoded.
    MovieError(MovieError),
    /// The payload of a nested archive does not split into chunks.
    UCFBError(UCFBError),
    /// A chunk inside a nested archive could not be decoded.
    UCFBSubchunkVisitationError(Box<VisitError>),
    /// The payload of a level does not split into chunks.
    LevelError(LevelError),
    /// A chunk inside a level could not be decoded.
    LevelSubchunkVisitationError(Box<VisitError>),
    /// A texture chunk could not be decoded.
    TextureVisitationError(TextureError),
    /// An object definition could not be decoded.
    PropertyContainerVisitError(PropertyError),
}

/// One chunk: its header, its payload, and the payload decoded where the tag
/// is known.
#[derive(Debug)]
pub struct Chunk {
    /// The chunk header.
    pub header: ChunkHeader,
    /// The payload, `header.size` bytes.
    pub data: Vec<u8>,
    /// The decoded payload; `None` until the chunk is visited, and for tags
    /// that have no decoder.
    pub deciphered_chunk: Option<DecipheredChunk>,
}

impl Chunk {
    /// Header and payload of this chunk, without what was decoded from them.
    pub open spec fn raw(&self) -> RawChunk {
        RawChunk { header: self.header, data: self.data@ }
    }
}

/// Header and payload of each chunk of a sequence.
pub open spec fn raw_chunks(chunks: Seq<Chunk>) -> Seq<RawChunk> {
    chunks.map_values(|c: Chunk| c.raw())
}

/// No chunk of the sequence holds a decoded payload.
pub open spec fn undeciphered(chunks: Seq<Chunk>) -> bool {
    forall|i: int| 0 <= i < chunks.len() ==> (#[trigger] chunks[i]).deciphered_chunk is None
}

/// Whether two decoded payloads are of the same kind and hold the same: the
/// same script, clips, texture or object definition, or chunks that hold the
/// same, one by one.
pub open spec fn same_payload(payload: DecipheredChunk, other: DecipheredChunk) -> bool
    decreases payload, 0nat,
{
    match (payload, other) {
        (DecipheredChunk::Script(a), DecipheredChunk::Script(b)) => a@ == b@,
        (DecipheredChunk::Movie(a), DecipheredChunk::Movie(b)) => a@ == b@,
        (DecipheredChunk::UCFB(a), DecipheredChunk::UCFB(b)) => a.header == b.header
            && same_chunks(a.chunks@, b.chunks@),
        (DecipheredChunk::Level(a), DecipheredChunk::Level(b)) => same_chunks(
            a.chunks@,
            b.chunks@,
        ),
        (DecipheredChunk::Texture(a), DecipheredChunk::Texture(b)) => a@ == b@,
        (DecipheredChunk::PropertyContainer(a), DecipheredChunk::PropertyContainer(b)) => a@
            == b@,
        _ => false,
    }
}

/// Whether two chunks have the same header and payload, and are decoded
/// alike: both not at all, or both to payloads that hold the same.
pub open spec fn same_chunk(chunk: Chunk, other: Chunk) -> bool
    decreases chunk, 1nat,
{
    &&& chunk.raw() == other.raw()
    &&& match (chunk.deciphered_chunk, other.deciphered_chunk) {
        (None, None) => true,
        (Some(a), Some(b)) => same_payload(a, b),
        _ => false,
    }
}

/// Whether two sequences of chunks are as long as each other and hold the
/// same chunks, place by place.
pub open spec fn same_chunks(chunks: Seq<Chunk>, others: Seq<Chunk>) -> bool
    decreases chunks, 2nat,
{
    &&& chunks.len() == others.len()
    &&& forall|i: int| 0 <= i < chunks.len() ==> same_chunk(#[trigger] chunks[i], others[i])
}

/// A copy of a sequence of chunks: the same headers and payloads, and copies
/// of what was decoded.
fn copy_chunks(chunks: &Vec<Chunk>) -> (copy: Vec<Chunk>)
    ensures
        same_chunks(chunks@, copy@),
        raw_chunks(copy@) == raw_chunks(chunks@),
    decreases chunks, 2nat,
{
    let mut copy: Vec<Chunk> = Vec::new();
    let mut i: usize = 0;
    while i < chunks.len()
        invariant
            i <= chunks@.len(),
            copy@.len() == i,
            forall|j: int| 0 <= j < i ==> same_chunk(#[trigger] chunks@[j], copy@[j]),
        decreases chunks@.len() - i,
    {
        copy.push(copy_chunk(&chunks[i]));
        i += 1;
    }
    assert(raw_chunks(copy@) =~= raw_chunks(chunks@)) by {
        assert forall|j: int| 0 <= j < chunks@.len() implies raw_chunks(copy@)[j] == raw_chunks(
            chunks@,
        )[j] by {
            assert(same_chunk(chunks@[j], copy@[j]));
        }
    }
    copy
}

/// A copy of one chunk.
fn copy_chunk(chunk: &Chunk) -> (copy: Chunk)
    ensures
        same_chunk(*chunk, copy),
        copy.raw() == chunk.raw(),
    decreases chunk, 1nat,
{
    let deciphered_chunk = match &chunk.deciphered_chunk {
        Some(payload) => Some(copy_payload(payload)),
        None => None,
    };
    Chunk { header: chunk.header, data: chunk.data.clone(), deciphered_chunk }
}

/// A copy of a decoded payload.
fn copy_payload(payload: &DecipheredChunk) -> (copy: DecipheredChunk)
    ensures
        same_payload(*payload, copy),
    decreases payload, 0nat,
{
    match payload {
        DecipheredChunk::Script(script) => DecipheredChunk::Script(script.clone()),
        DecipheredChunk::Movie(movie) => DecipheredChunk::Movie(movie.clone()),
        DecipheredChunk::UCFB(file) => DecipheredChunk::UCFB(
            UCFBFile { header: file.header, chunks: copy_chunks(&file.chunks) },
        ),
        DecipheredChunk::Level(level) => DecipheredChunk::Level(
            Level { chunks: copy_chunks(&level.chunks) },
        ),
        DecipheredChunk::Texture(texture) => DecipheredChunk::Texture(texture.clone()),
        DecipheredChunk::PropertyContainer(definition) => DecipheredChunk::PropertyContainer(
            definition.clone(),
        ),
    }
}

impl Clone for Chunk {
    fn clone(&self) -> (copy: Self)
        ensures
            same_chunk(*self, copy),
            copy.raw() == self.raw(),
    {
        copy_chunk(self)
    }
}

impl Clone for DecipheredChunk {
    fn clone(&self) -> (copy: Self)
        ensures
            same_payload(*self, copy),
    {
        copy_payload(self)
    }
}

impl Clone for UCFBFile {
    fn clone(&self) -> (copy: Self)
        ensures
            copy.header == self.header,
            same_chunks(self.chunks@, copy.chunks@),
            raw_chunks(copy.chunks@) == raw_chunks(self.chunks@),
    {
        UCFBFile { header: self.header, chunks: copy_chunks(&self.chunks) }
    }
}

impl Clone for Level {
    fn clone(&self) -> (copy: Self)
        ensures
            same_chunks(self.chunks@, copy.chunks@),
            raw_chunks(copy.chunks@) == raw_chunks(self.chunks@),
    {
        Level { chunks: copy_chunks(&self.chunks) }
    }
}

/// Whether two tags are the same four bytes.
pub fn tag_is(tag: &[u8; 4], expected: &[u8; 4]) -> (same: bool)
    ensures
        same == (*tag == *expected),
{
    let same = tag[0] == expected[0] && tag[1] == expected[1] && tag[2] == expected[2] && tag[3]
        == expected[3];
    assert(same == (*tag =~= *expected));
    same
}

/// Whether `bytes` starts with the archive magic, the ASCII letters `ucfb`.
pub open spec fn has_magic(bytes: Seq<u8>) -> bool {
    &&& bytes.len() >= 4
    &&& bytes[0] == 0x75
    &&& bytes[1] == 0x63
    &&& bytes[2] == 0x66
    &&& bytes[3] == 0x62
}

/// The archive header that `bytes` starts with, or why there is none.
pub open spec fn spec_parse_header(bytes: Seq<u8>) -> Result<UCFBHeader, UCFBError> {
    if !has_magic(bytes) {
        Err(UCFBError::NotAUCFBFile)
    } else if bytes.len() < 8 {
        Err(UCFBError::FileTooSmall)
    } else {
        Ok(UCFBHeader { size: le_u32(bytes, 4) })
    }
}

/// The chunk header held by the first eight bytes of `bytes`.
pub open spec fn chunk_header_of(bytes: Seq<u8>) -> ChunkHeader
    recommends
        bytes.len() >= 8,
{
    ChunkHeader { name: [bytes[0], bytes[1], bytes[2], bytes[3]], size: le_u32(bytes, 4) }
}

/// The chunk header that `bytes` starts with, or `Truncated`.
pub open spec fn spec_parse_chunk_header(bytes: Seq<u8>) -> Result<ChunkHeader, UCFBError> {
    if bytes.len() < 8 {
        Err(UCFBError::Truncated)
    } else {
        Ok(chunk_header_of(bytes))
    }
}

/// The eight bytes of a chunk header.
pub open spec fn chunk_header_bytes(header: ChunkHeader) -> Seq<u8> {
    header.name@ + u32_le_bytes(header.size)
}

/// The eight bytes of an archive header.
pub open spec fn header_bytes(header: UCFBHeader) -> Seq<u8> {
    seq![0x75u8, 0x63u8, 0x66u8, 0x62u8] + u32_le_bytes(header.size)
}

/// Reads the archive header: the magic and the declared size.
pub fn parse_header(input: &[u8]) -> (result: Result<UCFBHeader, UCFBError>)
    ensures
        result == spec_parse_header(input@),
{
    if input.len() < 4 || input[0] != 0x75 || input[1] != 0x63 || input[2] != 0x66 || input[3]
        != 0x62 {
        return Err(UCFBError::NotAUCFBFile);
    }
    if input.len() < 8 {
        return Err(UCFBError::FileTooSmall);
    }
    Ok(UCFBHeader { size: read_le_u32(input, 4) })
}

/// Reads a chunk header: the tag and the payload length.
pub fn parse_chunk_header(input: &[u8]) -> (result: Result<ChunkHeader, UCFBError>)
    ensures
        result == spec_parse_chunk_header(input@),
{
    if input.len() < 8 {
        return Err(UCFBError::Truncated);
    }
    let header = ChunkHeader {
        name: [input[0], input[1], input[2], input[3]],
        size: read_le_u32(input, 4),
    };
    Ok(header)
}

impl UCFBHeader {
    /// Appends the eight bytes of this header to `out`.
    pub fn write_to(&self, out: &mut Vec<u8>)
        ensures
            final(out)@ == old(out)@ + header_bytes(*self),
    {
        out.push(0x75);
        out.push(0x63);
        out.push(0x66);
        out.push(0x62);
        write_le_u32(out, self.size);
        assert(out@ =~= old(out)@ + header_bytes(*self));
    }
}

impl ChunkHeader {
    /// Appends the eight bytes of this header to `out`.
    pub fn write_to(&self, out: &mut Vec<u8>)
        ensures
            final(out)@ == old(out)@ + chunk_header_bytes(*self),
    {
        out.push(self.name[0]);
        out.push(self.name[1]);
        out.push(self.name[2]);
        out.push(self.name[3]);
        write_le_u32(out, self.size);
        assert(out@ =~= old(out)@ + chunk_header_bytes(*self));
    }
}

/// Number of padding bytes after a payload of `size` bytes: what brings the
/// next chunk to a multiple of four.
pub open spec fn padding(size: nat) -> nat {
    ((4 - size % 4) % 4) as nat
}

/// Bytes that a chunk with a payload of `size` bytes takes in the stream:
/// header, payload and padding.
pub open spec fn chunk_span(size: nat) -> nat {
    8 + size + padding(size)
}

/// The bytes from `at` on; none when `at` is at or past the end.
pub open spec fn tail(bytes: Seq<u8>, at: nat) -> Seq<u8> {
    if at >= bytes.len() {
        Seq::empty()
    } else {
        bytes.skip(at as int)
    }
}

/// `prefix` put in front of an outcome: the chunks that were read before it.
pub open spec fn prepend(prefix: Seq<RawChunk>, outcome: Result<Seq<RawChunk>, UCFBError>) -> Result<
    Seq<RawChunk>,
    UCFBError,
> {
    match outcome {
        Ok(rest) => Ok(prefix + rest),
        Err(e) => Err(e),
    }
}

/// The chunks that `bytes` splits into.
///
/// Fewer than eight bytes end the sequence. A chunk whose declared size
/// exceeds the bytes that follow its header makes the whole split fail with
/// `Truncated`. After each payload the padding is skipped unread.
pub open spec fn spec_extract(bytes: Seq<u8>) -> Result<Seq<RawChunk>, UCFBError>
    decreases bytes.len(),
{
    if bytes.len() < 8 {
        Ok(Seq::empty())
    } else {
        let header = chunk_header_of(bytes);
        if 8 + header.size > bytes.len() {
            Err(UCFBError::Truncated)
        } else {
            let first = RawChunk { header, data: bytes.subrange(8, 8 + header.size) };
            prepend(seq![first], spec_extract(tail(bytes, chunk_span(header.size as nat))))
        }
    }
}

/// Number of bytes that the split of `bytes` consumes: the spans of the
/// complete chunks in front, cut at the end of the buffer. A truncated chunk
/// is not consumed, not even its header.
pub open spec fn consumed(bytes: Seq<u8>) -> nat
    decreases bytes.len(),
{
    if bytes.len() < 8 {
        0
    } else {
        let header = chunk_header_of(bytes);
        let span = chunk_span(header.size as nat);
        if 8 + header.size > bytes.len() {
            0
        } else if span >= bytes.len() {
            bytes.len()
        } else {
            span + consumed(tail(bytes, span))
        }
    }
}

proof fn lemma_tail_of_tail(bytes: Seq<u8>, a: nat, b: nat)
    ensures
        tail(tail(bytes, a), b) == tail(bytes, a + b),
{
    assert(tail(tail(bytes, a), b) =~= tail(bytes, a + b));
}

proof fn lemma_prepend_push(prefix: Seq<RawChunk>, first: RawChunk, outcome: Result<Seq<RawChunk>, UCFBError>)
    ensures
        prepend(prefix, prepend(seq![first], outcome)) == prepend(prefix.push(first), outcome),
{
    match outcome {
        Ok(rest) => {
            assert(prefix + (seq![first] + rest) =~= prefix.push(first) + rest);
        },
        Err(_) => {},
    }
}

/// Splits the bytes of `stream` from `cursor` on into chunks, and moves the
/// cursor behind what was read.
///
/// The alignment of the chunks counts from the cursor's first position. On
/// success the cursor stands behind the last chunk and its padding, at the end
/// of the stream at most. On `Truncated` it stands at the header of the chunk
/// that is cut short.
pub fn extract_chunks(stream: &[u8], cursor: &mut usize) -> (result: Result<Vec<Chunk>, UCFBError>)
    ensures
        match result {
            Ok(chunks) => spec_extract(tail(stream@, *old(cursor) as nat)) == Ok::<
                Seq<RawChunk>,
                UCFBError,
            >(raw_chunks(chunks@)) && undeciphered(chunks@),
            Err(e) => spec_extract(tail(stream@, *old(cursor) as nat)) == Err::<
                Seq<RawChunk>,
                UCFBError,
            >(e),
        },
        *final(cursor) == *old(cursor) + consumed(tail(stream@, *old(cursor) as nat)),
{
    let mut chunks: Vec<Chunk> = Vec::new();
    let len: usize = stream.len();
    let start: usize = *cursor;
    let ghost bytes = tail(stream@, start as nat);
    assert(raw_chunks(chunks@) =~= Seq::<RawChunk>::empty());
    if start >= len {
        return Ok(chunks);
    }
    let mut pos: usize = start;
    assert(tail(bytes, 0) =~= bytes);
    assert(prepend(Seq::<RawChunk>::empty(), spec_extract(bytes)) == spec_extract(bytes)) by {
        match spec_extract(bytes) {
            Ok(rest) => {
                assert(Seq::<RawChunk>::empty() + rest =~= rest);
            },
            Err(_) => {},
        }
    }
    while len - pos >= 8
        invariant
            start <= pos <= len,
            len == stream@.len(),
            start < len,
            start == *old(cursor),
            bytes == tail(stream@, start as nat),
            spec_extract(bytes) == prepend(
                raw_chunks(chunks@),
                spec_extract(tail(bytes, (pos - start) as nat)),
            ),
            consumed(bytes) == (pos - start) + consumed(tail(bytes, (pos - start) as nat)),
            undeciphered(chunks@),
        decreases len - pos,
    {
        let ghost rem = tail(bytes, (pos - start) as nat);
        assert(rem =~= stream@.subrange(pos as int, len as int));
        let header = ChunkHeader {
            name: [stream[pos], stream[pos + 1], stream[pos + 2], stream[pos + 3]],
            size: read_le_u32(stream, pos + 4),
        };
        assert(header.name@ =~= chunk_header_of(rem).name@);
        assert(header == chunk_header_of(rem));
        let avail: usize = len - pos - 8;
        if header.size as u64 > avail as u64 {
            *cursor = pos;
            return Err(UCFBError::Truncated);
        }
        let size: usize = header.size as usize;
        let data = slice_to_vec(slice_subrange(stream, pos + 8, pos + 8 + size));
        assert(data@ =~= rem.subrange(8, 8 + header.size));
        let ghost first = RawChunk { header, data: data@ };
        let ghost before = chunks@;
        chunks.push(Chunk { header, data, deciphered_chunk: None });
        assert(raw_chunks(chunks@) =~= raw_chunks(before).push(first));
        let pad: usize = (4 - size % 4) % 4;
        let after: usize = pos + 8 + size;
        proof {
            let span = chunk_span(header.size as nat);
            lemma_tail_of_tail(bytes, (pos - start) as nat, span);
            lemma_prepend_push(raw_chunks(before), first, spec_extract(tail(rem, span)));
            if span >= rem.len() {
                assert(tail(bytes, (len - start) as nat) =~= tail(rem, span));
            }
        }
        pos = if len - after >= pad {
            after + pad
        } else {
            len
        };
    }
    *cursor = pos;
    Ok(chunks)
}

/// Splits a whole payload into chunks.
pub fn split_payload(data: &[u8]) -> (result: Result<Vec<Chunk>, UCFBError>)
    ensures
        match result {
            Ok(chunks) => spec_extract(data@) == Ok::<Seq<RawChunk>, UCFBError>(
                raw_chunks(chunks@),
            ) && undeciphered(chunks@),
            Err(e) => spec_extract(data@) == Err::<Seq<RawChunk>, UCFBError>(e),
        },
{
    let mut cursor: usize = 0;
    assert(tail(data@, 0) =~= data@);
    extract_chunks(data, &mut cursor)
}

/// Splits `buffer` into chunks and removes from it what was read.
///
/// On success fewer than eight bytes are left in the buffer. On `Truncated`
/// the buffer starts at the header of the chunk that is cut short.
pub fn extract_chunks_bytearray(buffer: &mut Vec<u8>) -> (result: Result<Vec<Chunk>, UCFBError>)
    ensures
        match result {
            Ok(chunks) => spec_extract(old(buffer)@) == Ok::<Seq<RawChunk>, UCFBError>(
                raw_chunks(chunks@),
            ) && undeciphered(chunks@),
            Err(e) => spec_extract(old(buffer)@) == Err::<Seq<RawChunk>, UCFBError>(e),
        },
        final(buffer)@ == tail(old(buffer)@, consumed(old(buffer)@)),
{
    let mut cursor: usize = 0;
    assert(tail(buffer@, 0) =~= buffer@);
    let result = extract_chunks(buffer.as_slice(), &mut cursor);
    proof {
        lemma_consumed_bound(buffer@);
    }
    let rest = slice_to_vec(slice_subrange(buffer.as_slice(), cursor, buffer.len()));
    assert(rest@ =~= tail(buffer@, consumed(buffer@)));
    *buffer = rest;
    result
}

/// What the bytes of an archive file hold: the header and the chunks.
///
/// The bytes must start with the magic and the declared size. A declared size
/// below eight is an error; a declared size of exactly eight is an archive
/// without chunks, whatever follows; any other declared size must be the
/// length of what follows the header.
pub open spec fn spec_open(bytes: Seq<u8>) -> Result<(UCFBHeader, Seq<RawChunk>), UCFBError> {
    match spec_parse_header(bytes) {
        Err(e) => Err(e),
        Ok(header) => if header.size < 8 {
            Err(UCFBError::FileTooSmall)
        } else if header.size == 8 {
            Ok((header, Seq::empty()))
        } else if bytes.len() - 8 != header.size {
            Err(UCFBError::WrongHeaderSize)
        } else {
            match spec_extract(bytes.skip(8)) {
                Ok(chunks) => Ok((header, chunks)),
                Err(e) => Err(e),
            }
        },
    }
}

impl UCFBFile {
    /// Reads an archive from the bytes of its file. No chunk is decoded yet.
    pub fn new(bytes: &[u8]) -> (result: Result<UCFBFile, UCFBError>)
        ensures
            match result {
                Ok(file) => spec_open(bytes@) == Ok::<(UCFBHeader, Seq<RawChunk>), UCFBError>(
                    (file.header, raw_chunks(file.chunks@)),
                ) && undeciphered(file.chunks@),
                Err(e) => spec_open(bytes@) == Err::<(UCFBHeader, Seq<RawChunk>), UCFBError>(e),
            },
    {
        let header = parse_header(bytes)?;
        if header.size < 8 {
            return Err(UCFBError::FileTooSmall);
        }
        if header.size == 8 {
            let chunks: Vec<Chunk> = Vec::new();
            assert(raw_chunks(chunks@) =~= Seq::<RawChunk>::empty());
            return Ok(UCFBFile { header, chunks });
        }
        if (bytes.len() - 8) as u64 != header.size as u64 {
            return Err(UCFBError::WrongHeaderSize);
        }
        let mut cursor: usize = 8;
        assert(tail(bytes@, 8) =~= bytes@.skip(8));
        let chunks = extract_chunks(bytes, &mut cursor)?;
        Ok(UCFBFile { header, chunks })
    }
}

/// The split never consumes more than there is.
pub proof fn lemma_consumed_bound(bytes: Seq<u8>)
    ensures
        consumed(bytes) <= bytes.len(),
    decreases bytes.len(),
{
    if bytes.len() >= 8 {
        let span = chunk_span(chunk_header_of(bytes).size as nat);
        if 8 + chunk_header_of(bytes).size <= bytes.len() && span < bytes.len() {
            lemma_consumed_bound(tail(bytes, span));
        }
    }
}

} // verus!
