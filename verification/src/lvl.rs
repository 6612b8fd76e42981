//! Level chunks: a sequence of chunks, decoded as a nested archive is.

use vstd::prelude::*;
use crate::ucfb::{
    raw_chunks, spec_extract, split_payload, tag_is, undeciphered, Chunk, RawChunk, UCFBError,
};

verus! {

/// A level: the chunks that its payload holds.
#[derive(Debug)]
pub struct Level {
    /// The chunks of the level, in stream order.
    pub chunks: Vec<Chunk>,
}

/// What can go wrong when a level chunk is decoded.
#[derive(Debug, Clone, Copy, PartialEq, Eq, Structural)]
pub enum LevelError {
    /// The chunk does not carry the level tag.
    NotALevel,
    /// The payload does not split into chunks.
    ChunkError(UCFBError),
}

/// Tag of a level chunk, the ASCII letters `lvl_`.
pub const LEVEL_TAG: [u8; 4] = [0x6C, 0x76, 0x6C, 0x5F];

/// The chunks of the level held by a chunk with tag `tag` and payload `data`:
/// the chunks that the whole payload splits into, as for a nested archive.
pub open spec fn spec_level(tag: [u8; 4], data: Seq<u8>) -> Result<Seq<RawChunk>, LevelError> {
    if tag != LEVEL_TAG {
        Err(LevelError::NotALevel)
    } else {
        match spec_extract(data) {
            Ok(chunks) => Ok(chunks),
            Err(e) => Err(LevelError::ChunkError(e)),
        }
    }
}

impl Level {
    /// Splits the payload of a level chunk into the chunks of the level. None
    /// of them is decoded yet.
    pub fn from_chunk(chunk: Chunk) -> (result: Result<Level, LevelError>)
        ensures
            match result {
                Ok(level) => spec_level(chunk.header.name, chunk.data@) == Ok::<
                    Seq<RawChunk>,
                    LevelError,
                >(raw_chunks(level.chunks@)) && undeciphered(level.chunks@),
                Err(e) => spec_level(chunk.header.name, chunk.data@) == Err::<
                    Seq<RawChunk>,
                    LevelError,
                >(e),
            },
    {
        if !tag_is(&chunk.header.name, &LEVEL_TAG) {
            return Err(LevelError::NotALevel);
        }
        match split_payload(chunk.data.as_slice()) {
            Ok(chunks) => Ok(Level { chunks }),
            Err(e) => Err(LevelError::ChunkError(e)),
        }
    }
}

} // verus!
