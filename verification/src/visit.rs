//! The visit of chunks: each chunk whose tag is known has its payload
//! decoded, and the chunks of nested archives and levels are visited in turn,
//! depth first.

use vstd::prelude::*;
use crate::lvl::{spec_level, Level, LEVEL_TAG};
use crate::mvs::{spec_movie, Movie, MOVIE_TAG};
use crate::prop::{
    kind_of_tag, spec_property, PropertyContainer, PropertyModel, EXPLOSION_TAG, GAME_OBJECT_TAG,
    ORDNANCE_TAG, WEAPON_TAG,
};
use crate::script::{spec_script, Script, ScriptModel, SCRIPT_TAG};
use crate::tex::{spec_texture, TextureContainer, TextureContainerModel, TEXTURE_TAG};
use crate::ucfb::{
    chunk_header_of, chunk_span, raw_chunks, spec_extract, split_payload, tag_is, tail, Chunk,
    DecipheredChunk, RawChunk, UCFBError, UCFBFile, UCFBHeader, VisitError,
};

verus! {

/// Tag of a nested archive, the ASCII letters `ucfb`.
pub const ARCHIVE_TAG: [u8; 4] = [0x75, 0x63, 0x66, 0x62];

/// A decoded payload, as mathematical values.
pub enum PayloadModel {
    Script(ScriptModel),
    Movie(Seq<Seq<u8>>),
    UCFB(UCFBHeader, Seq<ChunkModel>),
    Level(Seq<ChunkModel>),
    Texture(TextureContainerModel),
    PropertyContainer(PropertyModel),
}

/// A visited chunk, as mathematical values: the chunk as it lies in the
/// stream, and what its payload decodes to.
pub struct ChunkModel {
    pub raw: RawChunk,
    pub decoded: Option<PayloadModel>,
}

/// What a sequence of chunks weighs: the bytes of the payloads, and one for
/// each chunk.
pub open spec fn payload_weight(chunks: Seq<RawChunk>) -> nat
    decreases chunks.len(),
{
    if chunks.len() == 0 {
        0
    } else {
        payload_weight(chunks.drop_last()) + chunks.last().data.len() + 1
    }
}

/// The first chunk of a sequence weighs in like the others.
proof fn lemma_payload_weight_front(chunks: Seq<RawChunk>)
    requires
        chunks.len() > 0,
    ensures
        payload_weight(chunks) == chunks[0].data.len() + 1 + payload_weight(chunks.skip(1)),
    decreases chunks.len(),
{
    if chunks.len() == 1 {
        assert(chunks.drop_last() =~= chunks.skip(1));
    } else {
        lemma_payload_weight_front(chunks.drop_last());
        assert(chunks.drop_last().skip(1) =~= chunks.skip(1).drop_last());
    }
}

/// The chunks that a payload splits into weigh less than the payload is long:
/// each of them takes a header of eight bytes that does not count.
pub proof fn lemma_payloads_fit(bytes: Seq<u8>)
    requires
        spec_extract(bytes) is Ok,
    ensures
        payload_weight(spec_extract(bytes)->Ok_0) + 7 * spec_extract(bytes)->Ok_0.len()
            <= bytes.len(),
    decreases bytes.len(),
{
    if bytes.len() >= 8 {
        let header = chunk_header_of(bytes);
        let rest = tail(bytes, chunk_span(header.size as nat));
        let first = RawChunk { header, data: bytes.subrange(8, 8 + header.size) };
        let others = spec_extract(rest)->Ok_0;
        let chunks = seq![first] + others;
        assert(spec_extract(bytes)->Ok_0 == chunks);
        lemma_payloads_fit(rest);
        lemma_payload_weight_front(chunks);
        assert(chunks.skip(1) =~= others);
    }
}

/// The visit of a sequence of chunks: the chunks with what they decode to,
/// or the error of the first chunk that does not decode.
pub open spec fn spec_visit(chunks: Seq<RawChunk>) -> Result<Seq<ChunkModel>, VisitError>
    decreases payload_weight(chunks), 1nat,
{
    if chunks.len() == 0 {
        Ok(Seq::empty())
    } else {
        match spec_visit(chunks.drop_last()) {
            Err(e) => Err(e),
            Ok(front) => match spec_decipher(chunks.last()) {
                Err(e) => Err(e),
                Ok(decoded) => Ok(front.push(ChunkModel { raw: chunks.last(), decoded })),
            },
        }
    }
}

/// What the payload of a chunk that holds no further chunks decodes to: the
/// tag picks the decoder, and the error of a decoder is handed on inside the
/// variant of its kind. A tag that has no decoder leaves the chunk undecoded,
/// which is no error.
#[verifier::opaque]
pub open spec fn spec_decipher_leaf(chunk: RawChunk) -> Result<Option<PayloadModel>, VisitError> {
    let tag = chunk.header.name;
    if tag == SCRIPT_TAG {
        match spec_script(tag, chunk.data) {
            Ok(script) => Ok(Some(PayloadModel::Script(script))),
            Err(e) => Err(VisitError::ScriptError(e)),
        }
    } else if tag == MOVIE_TAG {
        match spec_movie(tag, chunk.data) {
            Ok(clips) => Ok(Some(PayloadModel::Movie(clips))),
            Err(e) => Err(VisitError::MovieError(e)),
        }
    } else if tag == TEXTURE_TAG {
        match spec_texture(tag, chunk.data) {
            Ok(texture) => Ok(Some(PayloadModel::Texture(texture))),
            Err(e) => Err(VisitError::TextureVisitationError(e)),
        }
    } else if kind_of_tag(tag) is Some {
        match spec_property(tag, chunk.data) {
            Ok(definition) => Ok(Some(PayloadModel::PropertyContainer(definition))),
            Err(e) => Err(VisitError::PropertyContainerVisitError(e)),
        }
    } else {
        Ok(None)
    }
}

/// What the payload of a chunk decodes to.
///
/// The chunks of a nested archive and of a level are visited in turn, and an
/// error from inside them is wrapped once more, so that the depth of the
/// failing chunk can be read off the error. Every other chunk is decoded by
/// the decoder of its tag.
pub open spec fn spec_decipher(chunk: RawChunk) -> Result<Option<PayloadModel>, VisitError>
    decreases chunk.data.len(), 0nat,
{
    let tag = chunk.header.name;
    if tag == ARCHIVE_TAG {
        match spec_extract(chunk.data) {
            Err(e) => Err(VisitError::UCFBError(e)),
            Ok(chunks) => {
                proof {
                    lemma_payloads_fit(chunk.data);
                }
                let header = UCFBHeader { size: chunk.header.size };
                if chunks.len() == 0 {
                    Ok(Some(PayloadModel::UCFB(header, Seq::empty())))
                } else {
                    match spec_visit(chunks) {
                        Ok(visited) => Ok(Some(PayloadModel::UCFB(header, visited))),
                        Err(e) => Err(VisitError::UCFBSubchunkVisitationError(Box::new(e))),
                    }
                }
            },
        }
    } else if tag == LEVEL_TAG {
        match spec_level(tag, chunk.data) {
            Err(e) => Err(VisitError::LevelError(e)),
            Ok(chunks) => {
                proof {
                    lemma_payloads_fit(chunk.data);
                }
                if chunks.len() == 0 {
                    Ok(Some(PayloadModel::Level(Seq::empty())))
                } else {
                    match spec_visit(chunks) {
                        Ok(visited) => Ok(Some(PayloadModel::Level(visited))),
                        Err(e) => Err(VisitError::LevelSubchunkVisitationError(Box::new(e))),
                    }
                }
            },
        }
    } else {
        spec_decipher_leaf(chunk)
    }
}

/// Whether `chunk` holds what `model` describes: the same header and payload,
/// and a decoded payload of the same content.
pub open spec fn chunk_holds(chunk: Chunk, model: ChunkModel) -> bool
    decreases chunk, 1nat,
{
    &&& chunk.raw() == model.raw
    &&& match (chunk.deciphered_chunk, model.decoded) {
        (None, None) => true,
        (Some(payload), Some(described)) => payload_holds(payload, described),
        _ => false,
    }
}

/// Whether a decoded payload holds what `model` describes.
pub open spec fn payload_holds(payload: DecipheredChunk, model: PayloadModel) -> bool
    decreases payload, 0nat,
{
    match (payload, model) {
        (DecipheredChunk::Script(script), PayloadModel::Script(described)) => script@
            == described,
        (DecipheredChunk::Movie(movie), PayloadModel::Movie(described)) => movie@ == described,
        (DecipheredChunk::UCFB(file), PayloadModel::UCFB(header, described)) => file.header
            == header && chunks_hold(file.chunks@, described),
        (DecipheredChunk::Level(level), PayloadModel::Level(described)) => chunks_hold(
            level.chunks@,
            described,
        ),
        (DecipheredChunk::Texture(texture), PayloadModel::Texture(described)) => texture@
            == described,
        (
            DecipheredChunk::PropertyContainer(definition),
            PayloadModel::PropertyContainer(described),
        ) => definition@ == described,
        _ => false,
    }
}

/// Whether each chunk of a sequence holds what the model at its place
/// describes.
pub open spec fn chunks_hold(chunks: Seq<Chunk>, models: Seq<ChunkModel>) -> bool
    decreases chunks, 2nat,
{
    &&& chunks.len() == models.len()
    &&& forall|i: int| 0 <= i < chunks.len() ==> chunk_holds(#[trigger] chunks[i], models[i])
}

/// Whether an optional decoded payload holds what `model` describes.
pub open spec fn decoded_holds(payload: Option<DecipheredChunk>, model: Option<PayloadModel>) -> bool {
    match (payload, model) {
        (None, None) => true,
        (Some(p), Some(m)) => payload_holds(p, m),
        _ => false,
    }
}

/// Whether a visit that failed with `error` stopped at the chunk with index
/// `at`: that chunk is the first that does not decode, the chunks before it
/// hold what they decode to, and the chunks from it on are as they were.
pub open spec fn stopped_at(before: Seq<Chunk>, after: Seq<Chunk>, at: int, error: VisitError) -> bool {
    &&& 0 <= at < before.len()
    &&& before.len() == after.len()
    &&& spec_decipher(before[at].raw()) == Err::<Option<PayloadModel>, VisitError>(error)
    &&& forall|j: int| 0 <= j < at ==> (#[trigger] spec_decipher(before[j].raw())) is Ok
    &&& forall|j: int|
        0 <= j < at ==> chunk_holds(
            #[trigger] after[j],
            ChunkModel { raw: before[j].raw(), decoded: spec_decipher(before[j].raw())->Ok_0 },
        )
    &&& forall|j: int| at <= j < before.len() ==> #[trigger] after[j] == before[j]
}

/// A visit that succeeds decodes each chunk by itself.
pub proof fn lemma_visit_each(chunks: Seq<RawChunk>)
    requires
        spec_visit(chunks) is Ok,
    ensures
        spec_visit(chunks)->Ok_0.len() == chunks.len(),
        forall|j: int|
            0 <= j < chunks.len() ==> {
                &&& (#[trigger] spec_visit(chunks)->Ok_0[j]).raw == chunks[j]
                &&& spec_decipher(chunks[j]) == Ok::<Option<PayloadModel>, VisitError>(
                    spec_visit(chunks)->Ok_0[j].decoded,
                )
            },
    decreases chunks.len(),
{
    if chunks.len() > 0 {
        lemma_visit_each(chunks.drop_last());
        let front = spec_visit(chunks.drop_last())->Ok_0;
        assert forall|j: int| 0 <= j < chunks.len() implies {
            &&& (#[trigger] spec_visit(chunks)->Ok_0[j]).raw == chunks[j]
            &&& spec_decipher(chunks[j]) == Ok::<Option<PayloadModel>, VisitError>(
                spec_visit(chunks)->Ok_0[j].decoded,
            )
        } by {
            if j < chunks.len() - 1 {
                assert(spec_visit(chunks)->Ok_0[j] == front[j]);
                assert(chunks.drop_last()[j] == chunks[j]);
            }
        }
    }
}

/// The error of a visit is the error of its first chunks: more chunks behind
/// them do not change it.
pub proof fn lemma_visit_error_stays(chunks: Seq<RawChunk>, upto: int)
    requires
        0 <= upto <= chunks.len(),
        spec_visit(chunks.take(upto)) is Err,
    ensures
        spec_visit(chunks) == spec_visit(chunks.take(upto)),
    decreases chunks.len(),
{
    if upto == chunks.len() {
        assert(chunks.take(upto) =~= chunks);
    } else {
        assert(chunks.drop_last().take(upto) =~= chunks.take(upto));
        lemma_visit_error_stays(chunks.drop_last(), upto);
    }
}

/// Each chunk weighs less than the sequence it stands in.
proof fn lemma_payload_weight_bounds(chunks: Seq<RawChunk>, index: int)
    requires
        0 <= index < chunks.len(),
    ensures
        chunks[index].data.len() < payload_weight(chunks),
    decreases chunks.len(),
{
    if index < chunks.len() - 1 {
        lemma_payload_weight_bounds(chunks.drop_last(), index);
    }
}

/// Whether a tag marks an object definition.
fn is_definition_tag(tag: &[u8; 4]) -> (marks: bool)
    ensures
        marks == (kind_of_tag(*tag) is Some),
{
    tag_is(tag, &GAME_OBJECT_TAG) || tag_is(tag, &EXPLOSION_TAG) || tag_is(tag, &ORDNANCE_TAG)
        || tag_is(tag, &WEAPON_TAG)
}

/// Decodes the payload of one chunk, and visits the chunks nested in it.
fn decipher(chunk: &Chunk) -> (result: Result<Option<DecipheredChunk>, VisitError>)
    ensures
        match result {
            Ok(payload) => spec_decipher(chunk.raw()) is Ok && decoded_holds(
                payload,
                spec_decipher(chunk.raw())->Ok_0,
            ),
            Err(e) => spec_decipher(chunk.raw()) == Err::<Option<PayloadModel>, VisitError>(e),
        },
    decreases chunk.data@.len(), 0nat,
{
    reveal(spec_decipher_leaf);
    let tag = &chunk.header.name;
    if tag_is(tag, &SCRIPT_TAG) {
        match Script::from_chunk(chunk.clone()) {
            Ok(script) => Ok(Some(DecipheredChunk::Script(script))),
            Err(e) => Err(VisitError::ScriptError(e)),
        }
    } else if tag_is(tag, &MOVIE_TAG) {
        match Movie::from_chunk(chunk.clone()) {
            Ok(movie) => Ok(Some(DecipheredChunk::Movie(movie))),
            Err(e) => Err(VisitError::MovieError(e)),
        }
    } else if tag_is(tag, &ARCHIVE_TAG) {
        let mut chunks = match split_payload(chunk.data.as_slice()) {
            Ok(chunks) => chunks,
            Err(e) => {
                return Err(VisitError::UCFBError(e));
            },
        };
        let header = UCFBHeader { size: chunk.header.size };
        if chunks.len() == 0 {
            assert(raw_chunks(chunks@) =~= Seq::<RawChunk>::empty());
            return Ok(Some(DecipheredChunk::UCFB(UCFBFile { header, chunks })));
        }
        proof {
            lemma_payloads_fit(chunk.data@);
        }
        match visit_chunks_from_vec(&mut chunks) {
            Ok(()) => Ok(Some(DecipheredChunk::UCFB(UCFBFile { header, chunks }))),
            Err(e) => Err(VisitError::UCFBSubchunkVisitationError(Box::new(e))),
        }
    } else if tag_is(tag, &LEVEL_TAG) {
        let mut level = match Level::from_chunk(chunk.clone()) {
            Ok(level) => level,
            Err(e) => {
                return Err(VisitError::LevelError(e));
            },
        };
        if level.chunks.len() == 0 {
            assert(raw_chunks(level.chunks@) =~= Seq::<RawChunk>::empty());
            return Ok(Some(DecipheredChunk::Level(level)));
        }
        proof {
            lemma_payloads_fit(chunk.data@);
        }
        match visit_chunks_from_vec(&mut level.chunks) {
            Ok(()) => Ok(Some(DecipheredChunk::Level(level))),
            Err(e) => Err(VisitError::LevelSubchunkVisitationError(Box::new(e))),
        }
    } else if tag_is(tag, &TEXTURE_TAG) {
        match TextureContainer::from_chunk(chunk.clone()) {
            Ok(texture) => Ok(Some(DecipheredChunk::Texture(texture))),
            Err(e) => Err(VisitError::TextureVisitationError(e)),
        }
    } else if is_definition_tag(tag) {
        match PropertyContainer::from_chunk(chunk.clone()) {
            Ok(definition) => Ok(Some(DecipheredChunk::PropertyContainer(definition))),
            Err(e) => Err(VisitError::PropertyContainerVisitError(e)),
        }
    } else {
        Ok(None)
    }
}

/// One more chunk decoded: the visit of the chunks up to it succeeds, and the
/// chunks up to it hold what the visit describes.
proof fn lemma_visit_step(
    raw: Seq<RawChunk>,
    before: Seq<Chunk>,
    now: Seq<Chunk>,
    at: int,
)
    requires
        0 <= at < before.len(),
        raw == raw_chunks(before),
        now.len() == before.len(),
        forall|j: int| 0 <= j < before.len() && j != at ==> #[trigger] now[j] == before[j],
        now[at].raw() == before[at].raw(),
        spec_visit(raw.take(at)) is Ok,
        chunks_hold(before.take(at), spec_visit(raw.take(at))->Ok_0),
        spec_decipher(raw[at]) is Ok,
        decoded_holds(now[at].deciphered_chunk, spec_decipher(raw[at])->Ok_0),
    ensures
        raw_chunks(now) == raw,
        spec_visit(raw.take(at + 1)) is Ok,
        chunks_hold(now.take(at + 1), spec_visit(raw.take(at + 1))->Ok_0),
{
    let front = spec_visit(raw.take(at))->Ok_0;
    assert(raw.take(at + 1).drop_last() =~= raw.take(at));
    assert(raw.take(at + 1).last() == raw[at]);
    let models = spec_visit(raw.take(at + 1))->Ok_0;
    assert(models == front.push(
        ChunkModel { raw: raw[at], decoded: spec_decipher(raw[at])->Ok_0 },
    ));
    assert(raw_chunks(now) =~= raw) by {
        assert forall|j: int| 0 <= j < now.len() implies raw_chunks(now)[j] == raw[j] by {
            assert(raw[j] == before[j].raw());
            if j != at {
                assert(now[j] == before[j]);
            }
        }
    }
    assert forall|j: int| 0 <= j < at + 1 implies chunk_holds(
        #[trigger] now.take(at + 1)[j],
        models[j],
    ) by {
        if j < at {
            assert(now.take(at + 1)[j] == now[j]);
            assert(now[j] == before[j]);
            assert(before.take(at)[j] == before[j]);
            assert(models[j] == front[j]);
            assert(chunk_holds(before.take(at)[j], front[j]));
        } else {
            assert(now.take(at + 1)[j] == now[at]);
            assert(raw[at] == before[at].raw());
        }
    }
}

/// A chunk that does not decode: the visit fails with its error, and stops at
/// it.
proof fn lemma_visit_stop(
    raw: Seq<RawChunk>,
    before: Seq<Chunk>,
    now: Seq<Chunk>,
    at: int,
    error: VisitError,
)
    requires
        0 <= at < before.len(),
        raw == raw_chunks(before),
        now.len() == before.len(),
        forall|j: int| at <= j < before.len() ==> #[trigger] now[j] == before[j],
        spec_visit(raw.take(at)) is Ok,
        chunks_hold(now.take(at), spec_visit(raw.take(at))->Ok_0),
        spec_decipher(raw[at]) == Err::<Option<PayloadModel>, VisitError>(error),
    ensures
        spec_visit(raw) == Err::<Seq<ChunkModel>, VisitError>(error),
        stopped_at(before, now, at, error),
{
    let front = spec_visit(raw.take(at))->Ok_0;
    assert(raw.take(at + 1).drop_last() =~= raw.take(at));
    assert(raw.take(at + 1).last() == raw[at]);
    assert(spec_visit(raw.take(at + 1)) == Err::<Seq<ChunkModel>, VisitError>(error));
    lemma_visit_error_stays(raw, at + 1);
    lemma_visit_each(raw.take(at));
    assert(raw[at] == before[at].raw());
    assert forall|j: int| 0 <= j < at implies (#[trigger] spec_decipher(before[j].raw())) is Ok by {
        assert(raw.take(at)[j] == raw[j]);
        assert(raw[j] == before[j].raw());
        assert(front[j].raw == raw[j]);
    }
    assert forall|j: int| 0 <= j < at implies chunk_holds(
        #[trigger] now[j],
        ChunkModel { raw: before[j].raw(), decoded: spec_decipher(before[j].raw())->Ok_0 },
    ) by {
        assert(raw.take(at)[j] == raw[j]);
        assert(raw[j] == before[j].raw());
        assert(now.take(at)[j] == now[j]);
        assert(front[j].raw == raw[j]);
        assert(chunk_holds(now.take(at)[j], front[j]));
    }
}

/// Decodes the payload of each chunk whose tag is known, in place and in
/// stream order, and visits the chunks of nested archives and levels in turn.
///
/// Headers and payloads stay as they are. A chunk with an unknown tag stays
/// undecoded. The visit stops at the first chunk that does not decode and
/// returns its error; the chunks before it are decoded then, and the chunks
/// from it on are untouched.
pub fn visit_chunks_from_vec(chunks: &mut Vec<Chunk>) -> (result: Result<(), VisitError>)
    ensures
        final(chunks)@.len() == old(chunks)@.len(),
        raw_chunks(final(chunks)@) == raw_chunks(old(chunks)@),
        match result {
            Ok(()) => spec_visit(raw_chunks(old(chunks)@)) is Ok && chunks_hold(
                final(chunks)@,
                spec_visit(raw_chunks(old(chunks)@))->Ok_0,
            ),
            Err(e) => spec_visit(raw_chunks(old(chunks)@)) == Err::<Seq<ChunkModel>, VisitError>(
                e,
            ) && exists|at: int| stopped_at(old(chunks)@, final(chunks)@, at, e),
        },
    decreases payload_weight(raw_chunks(old(chunks)@)), 1nat,
{
    let ghost raw = raw_chunks(chunks@);
    let count: usize = chunks.len();
    let mut i: usize = 0;
    assert(raw.take(0) =~= Seq::<RawChunk>::empty());
    assert(chunks@.take(0) =~= Seq::<Chunk>::empty());
    while i < count
        invariant
            i <= count,
            count == chunks@.len(),
            count == old(chunks)@.len(),
            raw == raw_chunks(old(chunks)@),
            raw_chunks(chunks@) == raw,
            forall|j: int| i <= j < count ==> #[trigger] chunks@[j] == old(chunks)@[j],
            spec_visit(raw.take(i as int)) is Ok,
            chunks_hold(chunks@.take(i as int), spec_visit(raw.take(i as int))->Ok_0),
        decreases count - i,
    {
        let ghost before = chunks@;
        proof {
            assert(raw[i as int] == chunks@[i as int].raw());
            lemma_payload_weight_bounds(raw, i as int);
        }
        match decipher(&chunks[i]) {
            Ok(payload) => {
                chunks[i].deciphered_chunk = payload;
                proof {
                    lemma_visit_step(raw, before, chunks@, i as int);
                }
            },
            Err(e) => {
                proof {
                    lemma_visit_stop(raw, old(chunks)@, chunks@, i as int, e);
                }
                return Err(e);
            },
        }
        i += 1;
    }
    assert(raw.take(count as int) =~= raw);
    assert(chunks@.take(count as int) =~= chunks@);
    Ok(())
}

impl UCFBFile {
    /// Decodes the chunks of this archive, as `visit_chunks_from_vec` does.
    pub fn visit_chunks(&mut self) -> (result: Result<(), VisitError>)
        ensures
            final(self).header == old(self).header,
            final(self).chunks@.len() == old(self).chunks@.len(),
            raw_chunks(final(self).chunks@) == raw_chunks(old(self).chunks@),
            match result {
                Ok(()) => spec_visit(raw_chunks(old(self).chunks@)) is Ok && chunks_hold(
                    final(self).chunks@,
                    spec_visit(raw_chunks(old(self).chunks@))->Ok_0,
                ),
                Err(e) => spec_visit(raw_chunks(old(self).chunks@)) == Err::<
                    Seq<ChunkModel>,
                    VisitError,
                >(e) && exists|at: int|
                    stopped_at(old(self).chunks@, final(self).chunks@, at, e),
            },
    {
        visit_chunks_from_vec(&mut self.chunks)
    }
}

} // verus!
