//! Decoder for the chunked binary archives ("ucfb" files) of the ZeroEngine.
//!
//! An archive is a flat sequence of tagged, length-prefixed chunks. Some
//! chunks hold further archives, others scripts, cutscene clips, textures or
//! object definitions. Every decoder in this crate is a total function on
//! bytes whose result is fixed by a specification function on `Seq<u8>`.

pub mod audio_data;
pub mod layout;
pub mod lvl;
pub mod mvs;
pub mod prop;
pub mod script;
pub mod tex;
pub mod text;
pub mod ucfb;
pub mod visit;
pub mod wire;
