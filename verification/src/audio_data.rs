//! Audio chunks. Only the tag is known; nothing of the payload is decoded.

use vstd::prelude::*;
use crate::ucfb::{tag_is, Chunk};

verus! {

/// A chunk of audio data. It holds nothing yet: the layout of the payload is
/// not known.
#[derive(Debug, Clone, Copy)]
pub struct AudioData {}

/// What can go wrong when an audio chunk is decoded.
#[derive(Debug, Clone, Copy, PartialEq, Eq, Structural)]
pub enum AudioDataError {
    /// The chunk does not carry the audio tag.
    NotAAudioDataChunk,
}

/// Tag of an audio chunk.
pub const AUDIO_TAG: [u8; 4] = [0x5C, 0xD9, 0xA0, 0x23];

impl AudioData {
    /// Accepts a chunk that carries the audio tag.
    pub fn from_chunk(chunk: Chunk) -> (result: Result<AudioData, AudioDataError>)
        ensures
            result is Ok <==> chunk.header.name == AUDIO_TAG,
            result matches Err(e) ==> e == AudioDataError::NotAAudioDataChunk,
    {
        if !tag_is(&chunk.header.name, &AUDIO_TAG) {
            return Err(AudioDataError::NotAAudioDataChunk);
        }
        Ok(AudioData {  })
    }
}

} // verus!
