//! Texture chunks: a name, a count of pixel formats, and for each format a
//! nest of chunks that holds a fixed-layout header record and the pixels.

use vstd::prelude::*;
use ddsfile::{D3DFormat, Dds, Header, Header10};
use crate::text::{latin1_text, latin1_without_nuls};
use crate::ucfb::{raw_chunks, spec_extract, split_payload, tag_is, Chunk, RawChunk, UCFBError};
use crate::wire::{le_u16, le_u32, read_le_u32};

verus! {

/// `ddsfile::D3DFormat`, the pixel formats of Direct3D 9: an enum without
/// fields, taken with the variants that its crate lists.
#[verifier::external_type_specification]
pub struct ExD3DFormat(D3DFormat);

/// `ddsfile::Header`, the header of a DirectDraw surface file. Nothing of
/// its content is known here.
#[verifier::external_type_specification]
#[verifier::external_body]
pub struct ExHeader(Header);

/// `ddsfile::Header10`, the extension header of a DirectDraw surface file.
/// Nothing of its content is known here.
#[verifier::external_type_specification]
#[verifier::external_body]
pub struct ExHeader10(Header10);

/// `ddsfile::Dds`, a DirectDraw surface file, taken with its three public
/// fields: the header, the optional extension header and the pixel data.
#[verifier::external_type_specification]
pub struct ExDds(Dds);

/// `ddsfile::Error`. Nothing of its content is known here.
#[verifier::external_type_specification]
#[verifier::external_body]
pub struct ExDdsError(ddsfile::Error);

/// The header record of one pixel format, as the texture chunk stores it:
/// sixteen bytes, the fields in this order, little-endian, without padding.
#[derive(Debug, Clone, Copy)]
pub struct TextureHeader {
    /// The engine's code of the pixel format.
    pub format: u32,
    /// Width in pixels.
    pub width: u16,
    /// Height in pixels.
    pub height: u16,
    /// Depth in pixels.
    pub depth: u16,
    /// Number of mipmap levels.
    pub mipmap_count: u16,
    /// Reserved.
    pub detail_bias: u32,
}

/// One pixel format of a texture: the reconstructed surface header and the
/// pixels.
#[derive(Debug)]
pub struct Texture {
    /// The pixel format.
    pub format: D3DFormat,
    /// The header record that the format was read from.
    pub info: TextureHeader,
    /// The surface header built for `format` and the sizes of `info`.
    pub header: Header,
    /// The raw pixel data.
    pub data: Vec<u8>,
}

/// A texture: its name and the pixel formats that could be recovered.
#[derive(Debug)]
pub struct TextureContainer {
    /// The name of the texture.
    pub name: String,
    /// The recovered pixel formats, in stream order.
    pub formats: Vec<Texture>,
}

/// Why no surface header can be had for a header record.
#[derive(Debug)]
pub enum HeaderError {
    /// The format code is not in the table.
    InvalidFourCC(u32),
    /// The byte sizes that the header must state do not fit in 32 bits.
    TooLarge,
    /// The header was refused when it was built.
    OtherError(ddsfile::Error),
}

/// What can go wrong when a texture chunk is decoded.
#[derive(Debug, Clone, Copy, PartialEq, Eq, Structural)]
pub enum TextureError {
    /// The chunk does not carry the texture tag.
    NotATexture,
    /// A payload does not split into chunks.
    ChunkParseError(UCFBError),
    /// A positional chunk is missing or too short.
    TextureParseError,
}

/// One recovered pixel format, as mathematical values.
pub struct TextureModel {
    pub format: D3DFormat,
    pub info: TextureHeader,
    pub header: Header,
    pub data: Seq<u8>,
}

/// A texture, as mathematical values.
pub struct TextureContainerModel {
    pub name: Seq<char>,
    pub formats: Seq<TextureModel>,
}

/// Tag of a texture chunk, the ASCII letters `tex_`.
pub const TEXTURE_TAG: [u8; 4] = [0x74, 0x65, 0x78, 0x5F];

/// Position of the chunk that holds the name.
pub const NAME_INDEX: usize = 0;

/// Position of the chunk that holds the number of pixel formats.
pub const COUNT_INDEX: usize = 1;

/// Position of the chunk of the first pixel format.
pub const FIRST_FORMAT_INDEX: usize = 2;

/// In the chunk of a pixel format: position of the header record.
pub const INFO_INDEX: usize = 0;

/// In the chunk of a pixel format: position of the face container.
pub const FACE_INDEX: usize = 1;

/// In a face container: position of the level container.
pub const LEVEL_INDEX: usize = 0;

/// In a level container: position of the pixel data.
pub const BODY_INDEX: usize = 1;

/// Length of a header record.
pub const HEADER_RECORD_LEN: usize = 16;

/// The pixel format that the engine's code `code` stands for, if the table
/// holds the code.
pub open spec fn spec_find_format(code: u32) -> Option<D3DFormat> {
    if code == 0x31545844 {
        Some(D3DFormat::DXT1)
    } else if code == 20 {
        Some(D3DFormat::R8G8B8)
    } else if code == 21 {
        Some(D3DFormat::A8R8G8B8)
    } else if code == 22 {
        Some(D3DFormat::X8R8G8B8)
    } else if code == 23 {
        Some(D3DFormat::R5G6B5)
    } else if code == 24 {
        Some(D3DFormat::X1R5G5B5)
    } else if code == 25 {
        Some(D3DFormat::A1R5G5B5)
    } else if code == 26 {
        Some(D3DFormat::A4R4G4B4)
    } else if code == 0x32545844 {
        Some(D3DFormat::DXT2)
    } else if code == 0x33545844 {
        Some(D3DFormat::DXT3)
    } else if code == 0x34545844 {
        Some(D3DFormat::DXT4)
    } else if code == 0x35545844 {
        Some(D3DFormat::DXT5)
    } else if code == 0x47424752 {
        Some(D3DFormat::R8G8_B8G8)
    } else if code == 0x42475247 {
        Some(D3DFormat::G8R8_G8B8)
    } else if code == 36 {
        Some(D3DFormat::A16B16G16R16)
    } else if code == 110 {
        Some(D3DFormat::Q16W16V16U16)
    } else if code == 111 {
        Some(D3DFormat::R16F)
    } else if code == 112 {
        Some(D3DFormat::G16R16F)
    } else if code == 113 {
        Some(D3DFormat::A16B16G16R16F)
    } else if code == 114 {
        Some(D3DFormat::R32F)
    } else if code == 115 {
        Some(D3DFormat::G32R32F)
    } else if code == 116 {
        Some(D3DFormat::A32B32G32R32F)
    } else if code == 0x59565955 {
        Some(D3DFormat::UYVY)
    } else if code == 0x32595559 {
        Some(D3DFormat::YUY2)
    } else if code == 117 {
        Some(D3DFormat::CXV8U8)
    } else {
        None
    }
}

/// Bytes of one block of a block-compressed format; `None` for the formats
/// that are not block-compressed.
pub open spec fn block_size(format: D3DFormat) -> Option<nat> {
    match format {
        D3DFormat::DXT1 => Some(8),
        D3DFormat::DXT2 | D3DFormat::DXT3 | D3DFormat::DXT4 | D3DFormat::DXT5 => Some(16),
        _ => None,
    }
}

/// Bytes of one layer of a block-compressed surface: blocks of four by four
/// pixels, one row of blocks at least in width.
pub open spec fn layer_size(width: u16, height: u16, block: nat) -> nat {
    (if width == 0 {
        1
    } else {
        (width + 3) / 4
    }) as nat * block * ((height + 3) / 4) as nat
}

/// Whether the byte sizes that a surface header states fit in 32 bits. Only a
/// block-compressed surface can be too large.
pub open spec fn header_fits(width: u16, height: u16, depth: u16, format: D3DFormat) -> bool {
    match block_size(format) {
        Some(block) => layer_size(width, height, block) <= u32::MAX && layer_size(
            width,
            height,
            block,
        ) * depth <= u32::MAX,
        None => true,
    }
}

/// The header record that `bytes` start with; `None` where there are fewer
/// than sixteen bytes. Bytes behind the record do not count.
pub open spec fn spec_header_record(bytes: Seq<u8>) -> Option<TextureHeader> {
    if bytes.len() < HEADER_RECORD_LEN {
        None
    } else {
        Some(
            TextureHeader {
                format: le_u32(bytes, 0),
                width: le_u16(bytes, 4),
                height: le_u16(bytes, 6),
                depth: le_u16(bytes, 8),
                mipmap_count: le_u16(bytes, 10),
                detail_bias: le_u32(bytes, 12),
            },
        )
    }
}

/// What the chunk of one pixel format, with payload `data`, gives.
///
/// The payload splits into the header record and a face container; the face
/// container holds a level container, and the level container holds the
/// pixels as its second chunk. A payload that does not split, or a missing
/// chunk, is an error. A header record that is cut short, a format code that
/// the table does not hold, and sizes that fit no surface header only drop
/// this one format: the result is `Ok(None)`.
pub open spec fn spec_format(data: Seq<u8>) -> Result<Option<TextureModel>, TextureError> {
    match spec_extract(data) {
        Err(e) => Err(TextureError::ChunkParseError(e)),
        Ok(parts) => if parts.len() <= FACE_INDEX {
            Err(TextureError::TextureParseError)
        } else {
            match spec_extract(parts[FACE_INDEX as int].data) {
                Err(e) => Err(TextureError::ChunkParseError(e)),
                Ok(faces) => if faces.len() <= LEVEL_INDEX {
                    Err(TextureError::TextureParseError)
                } else {
                    match spec_extract(faces[LEVEL_INDEX as int].data) {
                        Err(e) => Err(TextureError::ChunkParseError(e)),
                        Ok(levels) => match spec_header_record(parts[INFO_INDEX as int].data) {
                            None => Ok(None),
                            Some(info) => if levels.len() <= BODY_INDEX {
                                Err(TextureError::TextureParseError)
                            } else {
                                Ok(recovered(info, levels[BODY_INDEX as int].data))
                            },
                        },
                    }
                },
            }
        },
    }
}

/// The surface header that belongs to a header record and a pixel format:
/// the one built from the record's height, width, depth and mipmap count.
pub open spec fn surface_header(info: TextureHeader, format: D3DFormat) -> Header {
    d3d_header(info.height, info.width, info.depth, format, info.mipmap_count)
}

/// The pixel format that a header record and its pixels give, if the format
/// code is known and the sizes fit a surface header.
pub open spec fn recovered(info: TextureHeader, pixels: Seq<u8>) -> Option<TextureModel> {
    match spec_find_format(info.format) {
        Some(format) => if header_fits(info.width, info.height, info.depth, format) {
            Some(TextureModel { format, info, header: surface_header(info, format), data: pixels })
        } else {
            None
        },
        None => None,
    }
}

/// The pixel formats of the format chunks `index`, `index + 1`, ... of a
/// texture that declares `count` formats, behind those already in `found`.
/// A declared format whose chunk is missing is an error.
pub open spec fn spec_formats(
    chunks: Seq<RawChunk>,
    index: nat,
    count: nat,
    found: Seq<TextureModel>,
) -> Result<Seq<TextureModel>, TextureError>
    decreases count - index,
{
    if index >= count {
        Ok(found)
    } else if FIRST_FORMAT_INDEX + index >= chunks.len() {
        Err(TextureError::TextureParseError)
    } else {
        match spec_format(chunks[FIRST_FORMAT_INDEX + index].data) {
            Err(e) => Err(e),
            Ok(None) => spec_formats(chunks, index + 1, count, found),
            Ok(Some(format)) => spec_formats(chunks, index + 1, count, found.push(format)),
        }
    }
}

/// The texture held by a chunk with tag `tag` and payload `data`.
pub open spec fn spec_texture(tag: [u8; 4], data: Seq<u8>) -> Result<TextureContainerModel, TextureError> {
    if tag != TEXTURE_TAG {
        Err(TextureError::NotATexture)
    } else {
        match spec_extract(data) {
            Err(e) => Err(TextureError::ChunkParseError(e)),
            Ok(chunks) => if chunks.len() <= COUNT_INDEX || chunks[COUNT_INDEX as int].data.len()
                < 4 {
                Err(TextureError::TextureParseError)
            } else {
                match spec_formats(
                    chunks,
                    0,
                    le_u32(chunks[COUNT_INDEX as int].data, 0) as nat,
                    Seq::empty(),
                ) {
                    Err(e) => Err(e),
                    Ok(formats) => Ok(
                        TextureContainerModel {
                            name: latin1_without_nuls(chunks[NAME_INDEX as int].data),
                            formats,
                        },
                    ),
                }
            },
        }
    }
}

impl View for Texture {
    type V = TextureModel;

    open spec fn view(&self) -> TextureModel {
        TextureModel {
            format: self.format,
            info: self.info,
            header: self.header,
            data: self.data@,
        }
    }
}

/// The pixel formats of a list, as mathematical values.
pub open spec fn formats_of(formats: Seq<Texture>) -> Seq<TextureModel> {
    formats.map_values(|t: Texture| t@)
}

impl View for TextureContainer {
    type V = TextureContainerModel;

    open spec fn view(&self) -> TextureContainerModel {
        TextureContainerModel { name: self.name@, formats: formats_of(self.formats@) }
    }
}

/// `bincode::deserialize` at the six fields of a header record: fixed-width
/// little-endian integers one after the other, an error where the bytes run
/// out, and no complaint about bytes that are left over.
#[verifier::external_body]
fn deserialize_header(bytes: &[u8]) -> (record: Option<TextureHeader>)
    ensures
        record == spec_header_record(bytes@),
{
    let fields: (u32, u16, u16, u16, u16, u32) = bincode::deserialize(bytes).ok()?;
    Some(
        TextureHeader {
            format: fields.0,
            width: fields.1,
            height: fields.2,
            depth: fields.3,
            mipmap_count: fields.4,
            detail_bias: fields.5,
        },
    )
}

/// The header that `ddsfile::Header::new_d3d` returns for these sizes, this
/// format and this mipmap count, with the depth and the mipmap count given
/// and no extra capabilities.
pub uninterp spec fn d3d_header(
    height: u16,
    width: u16,
    depth: u16,
    format: D3DFormat,
    mipmap_count: u16,
) -> Header;

/// `ddsfile::Header::new_d3d` with a depth, a mipmap count and no extra
/// capabilities. What it builds depends on its arguments alone and goes by
/// the name `d3d_header`. It fails only for a format without a row pitch, and
/// every Direct3D 9 format has one; the sizes that it multiplies are kept
/// within 32 bits by the precondition.
#[verifier::external_body]
fn new_d3d_header(height: u16, width: u16, depth: u16, format: D3DFormat, mipmap_count: u16) -> (header:
    Result<Header, ddsfile::Error>)
    requires
        header_fits(width, height, depth, format),
    ensures
        header is Ok,
        header matches Ok(built) ==> built == d3d_header(
            height,
            width,
            depth,
            format,
            mipmap_count,
        ),
{
    Header::new_d3d(
        height as u32,
        width as u32,
        Some(depth as u32),
        format,
        Some(mipmap_count as u32),
        None,
    )
}

/// `Clone::clone` of `ddsfile::Header`, which copies every field.
pub assume_specification[ <Header as Clone>::clone ](header: &Header) -> (copy: Header)
    ensures
        copy == *header,
;

impl Clone for Texture {
    /// A copy of the same format, with the same header record, surface
    /// header and pixels.
    fn clone(&self) -> (copy: Self)
        ensures
            copy@ == self@,
    {
        Texture {
            format: self.format,
            info: self.info,
            header: self.header.clone(),
            data: self.data.clone(),
        }
    }
}

impl Clone for TextureContainer {
    /// A copy with the same name and the same pixel formats in the same
    /// order.
    fn clone(&self) -> (copy: Self)
        ensures
            copy@ == self@,
    {
        let mut formats: Vec<Texture> = Vec::new();
        let mut i: usize = 0;
        while i < self.formats.len()
            invariant
                i <= self.formats@.len(),
                formats@.len() == i,
                forall|j: int| 0 <= j < i ==> (#[trigger] formats@[j])@ == self.formats@[j]@,
            decreases self.formats@.len() - i,
        {
            formats.push(self.formats[i].clone());
            i += 1;
        }
        assert(formats_of(formats@) =~= formats_of(self.formats@));
        TextureContainer { name: self.name.clone(), formats }
    }
}

/// Bytes of one block of a block-compressed format.
fn block_bytes(format: D3DFormat) -> (block: Option<u64>)
    ensures
        match block {
            Some(b) => block_size(format) == Some(b as nat),
            None => block_size(format) is None,
        },
{
    match format {
        D3DFormat::DXT1 => Some(8),
        D3DFormat::DXT2 | D3DFormat::DXT3 | D3DFormat::DXT4 | D3DFormat::DXT5 => Some(16),
        _ => None,
    }
}

/// Whether the byte sizes of a surface header fit in 32 bits.
fn fits(width: u16, height: u16, depth: u16, format: D3DFormat) -> (ok: bool)
    ensures
        ok == header_fits(width, height, depth, format),
{
    match block_bytes(format) {
        None => true,
        Some(block) => {
            let across: u64 = if width == 0 {
                1
            } else {
                (width as u64 + 3) / 4
            };
            let rows: u64 = (height as u64 + 3) / 4;
            assert(across * block <= 16384 * 16) by (nonlinear_arith)
                requires
                    across <= 16384,
                    block <= 16,
            ;
            let pitch: u64 = across * block;
            assert(pitch * rows <= 262144 * 16384) by (nonlinear_arith)
                requires
                    pitch <= 262144,
                    rows <= 16384,
            ;
            let layer: u64 = pitch * rows;
            assert(layer == layer_size(width, height, block as nat));
            assert(layer * (depth as u64) <= 4294967296 * 65535) by (nonlinear_arith)
                requires
                    layer <= 4294967296,
                    depth <= 65535,
            ;
            layer <= 0xFFFF_FFFF && layer * (depth as u64) <= 0xFFFF_FFFF
        },
    }
}

impl TextureHeader {
    /// Maps the engine's code of a pixel format to the format.
    pub fn find_format(format: u32) -> (result: Result<D3DFormat, HeaderError>)
        ensures
            match result {
                Ok(f) => spec_find_format(format) == Some(f),
                Err(e) => spec_find_format(format) is None && e == HeaderError::InvalidFourCC(
                    format,
                ),
            },
    {
        Ok(
            match format {
                0x31545844 => D3DFormat::DXT1,
                20 => D3DFormat::R8G8B8,
                21 => D3DFormat::A8R8G8B8,
                22 => D3DFormat::X8R8G8B8,
                23 => D3DFormat::R5G6B5,
                24 => D3DFormat::X1R5G5B5,
                25 => D3DFormat::A1R5G5B5,
                26 => D3DFormat::A4R4G4B4,
                0x32545844 => D3DFormat::DXT2,
                0x33545844 => D3DFormat::DXT3,
                0x34545844 => D3DFormat::DXT4,
                0x35545844 => D3DFormat::DXT5,
                0x47424752 => D3DFormat::R8G8_B8G8,
                0x42475247 => D3DFormat::G8R8_G8B8,
                36 => D3DFormat::A16B16G16R16,
                110 => D3DFormat::Q16W16V16U16,
                111 => D3DFormat::R16F,
                112 => D3DFormat::G16R16F,
                113 => D3DFormat::A16B16G16R16F,
                114 => D3DFormat::R32F,
                115 => D3DFormat::G32R32F,
                116 => D3DFormat::A32B32G32R32F,
                0x59565955 => D3DFormat::UYVY,
                0x32595559 => D3DFormat::YUY2,
                117 => D3DFormat::CXV8U8,
                _ => {
                    return Err(HeaderError::InvalidFourCC(format));
                },
            },
        )
    }

    /// Builds the surface header for this record and `format`.
    pub fn to_dds_header(&self, format: D3DFormat) -> (result: Result<Header, HeaderError>)
        ensures
            result is Ok <==> header_fits(self.width, self.height, self.depth, format),
            result matches Ok(header) ==> header == surface_header(*self, format),
            result matches Err(e) ==> e == HeaderError::TooLarge,
    {
        if !fits(self.width, self.height, self.depth, format) {
            return Err(HeaderError::TooLarge);
        }
        match new_d3d_header(self.height, self.width, self.depth, format, self.mipmap_count) {
            Ok(header) => Ok(header),
            Err(e) => Err(HeaderError::OtherError(e)),
        }
    }
}

/// Decodes the chunk of one pixel format.
fn read_format(data: &[u8]) -> (result: Result<Option<Texture>, TextureError>)
    ensures
        match result {
            Ok(Some(texture)) => spec_format(data@) == Ok::<Option<TextureModel>, TextureError>(
                Some(texture@),
            ),
            Ok(None) => spec_format(data@) == Ok::<Option<TextureModel>, TextureError>(None),
            Err(e) => spec_format(data@) == Err::<Option<TextureModel>, TextureError>(e),
        },
{
    let parts = match split_payload(data) {
        Ok(parts) => parts,
        Err(e) => {
            return Err(TextureError::ChunkParseError(e));
        },
    };
    if parts.len() <= FACE_INDEX {
        return Err(TextureError::TextureParseError);
    }
    assert(raw_chunks(parts@)[0] == parts@[0].raw());
    assert(raw_chunks(parts@)[1] == parts@[1].raw());
    let faces = match split_payload(parts[FACE_INDEX].data.as_slice()) {
        Ok(faces) => faces,
        Err(e) => {
            return Err(TextureError::ChunkParseError(e));
        },
    };
    if faces.len() <= LEVEL_INDEX {
        return Err(TextureError::TextureParseError);
    }
    assert(raw_chunks(faces@)[0] == faces@[0].raw());
    let levels = match split_payload(faces[LEVEL_INDEX].data.as_slice()) {
        Ok(levels) => levels,
        Err(e) => {
            return Err(TextureError::ChunkParseError(e));
        },
    };
    let info = match deserialize_header(parts[INFO_INDEX].data.as_slice()) {
        Some(info) => info,
        None => {
            return Ok(None);
        },
    };
    if levels.len() <= BODY_INDEX {
        return Err(TextureError::TextureParseError);
    }
    assert(raw_chunks(levels@)[1] == levels@[1].raw());
    let format = match TextureHeader::find_format(info.format) {
        Ok(format) => format,
        Err(_) => {
            return Ok(None);
        },
    };
    let header = match info.to_dds_header(format) {
        Ok(header) => header,
        Err(_) => {
            return Ok(None);
        },
    };
    let pixels = levels[BODY_INDEX].data.clone();
    Ok(Some(Texture { format, info, header, data: pixels }))
}

impl TextureContainer {
    /// Decodes the texture held by a chunk.
    pub fn from_chunk(chunk: Chunk) -> (result: Result<TextureContainer, TextureError>)
        ensures
            match result {
                Ok(texture) => spec_texture(chunk.header.name, chunk.data@) == Ok::<
                    TextureContainerModel,
                    TextureError,
                >(texture@),
                Err(e) => spec_texture(chunk.header.name, chunk.data@) == Err::<
                    TextureContainerModel,
                    TextureError,
                >(e),
            },
    {
        if !tag_is(&chunk.header.name, &TEXTURE_TAG) {
            return Err(TextureError::NotATexture);
        }
        let chunks = match split_payload(chunk.data.as_slice()) {
            Ok(chunks) => chunks,
            Err(e) => {
                return Err(TextureError::ChunkParseError(e));
            },
        };
        if chunks.len() <= COUNT_INDEX {
            return Err(TextureError::TextureParseError);
        }
        assert(raw_chunks(chunks@)[0] == chunks@[0].raw());
        assert(raw_chunks(chunks@)[1] == chunks@[1].raw());
        let name = latin1_text(chunks[NAME_INDEX].data.as_slice());
        let counter = chunks[COUNT_INDEX].data.as_slice();
        if counter.len() < 4 {
            return Err(TextureError::TextureParseError);
        }
        let count: u32 = read_le_u32(counter, 0);
        let formats = read_formats(&chunks, count)?;
        Ok(TextureContainer { name, formats })
    }

    /// The recovered pixel formats as surface files, each made of its header
    /// and a copy of its pixels.
    pub fn get_formats_dds_vec(&self) -> (files: Vec<Dds>)
        ensures
            files@.len() == self.formats@.len(),
            forall|i: int|
                0 <= i < files@.len() ==> {
                    &&& (#[trigger] files@[i]).header == self.formats@[i].header
                    &&& files@[i].header10 is None
                    &&& files@[i].data@ == self.formats@[i].data@
                },
    {
        let mut files: Vec<Dds> = Vec::new();
        let mut i: usize = 0;
        while i < self.formats.len()
            invariant
                i <= self.formats@.len(),
                files@.len() == i,
                forall|j: int|
                    0 <= j < i ==> {
                        &&& (#[trigger] files@[j]).header == self.formats@[j].header
                        &&& files@[j].header10 is None
                        &&& files@[j].data@ == self.formats@[j].data@
                    },
            decreases self.formats@.len() - i,
        {
            let format = &self.formats[i];
            files.push(Dds { header: format.header.clone(), header10: None, data: format.data.clone() });
            i += 1;
        }
        files
    }
}

/// Decodes the chunks of the `count` pixel formats that a texture declares.
fn read_formats(chunks: &Vec<Chunk>, count: u32) -> (result: Result<Vec<Texture>, TextureError>)
    requires
        chunks@.len() >= 2,
    ensures
        match result {
            Ok(formats) => spec_formats(raw_chunks(chunks@), 0, count as nat, Seq::empty()) == Ok::<
                Seq<TextureModel>,
                TextureError,
            >(formats_of(formats@)),
            Err(e) => spec_formats(raw_chunks(chunks@), 0, count as nat, Seq::empty()) == Err::<
                Seq<TextureModel>,
                TextureError,
            >(e),
        },
{
    let ghost raw = raw_chunks(chunks@);
    let mut formats: Vec<Texture> = Vec::new();
    let mut index: u32 = 0;
    assert(formats_of(formats@) =~= Seq::<TextureModel>::empty());
    while index < count
        invariant
            index <= count,
            chunks@.len() >= 2,
            raw == raw_chunks(chunks@),
            spec_formats(raw, 0, count as nat, Seq::empty()) == spec_formats(
                raw,
                index as nat,
                count as nat,
                formats_of(formats@),
            ),
        decreases count - index,
    {
        if index as u64 >= (chunks.len() - FIRST_FORMAT_INDEX) as u64 {
            return Err(TextureError::TextureParseError);
        }
        let at: usize = FIRST_FORMAT_INDEX + index as usize;
        assert(raw[at as int] == chunks@[at as int].raw());
        let ghost before = formats_of(formats@);
        match read_format(chunks[at].data.as_slice())? {
            Some(texture) => {
                formats.push(texture);
                assert(formats_of(formats@) =~= before.push(texture@));
            },
            None => {},
        }
        index += 1;
    }
    Ok(formats)
}

/// A format chunk whose nest of chunks is whole, but whose header record is
/// cut short or names a format that the table does not hold, is dropped.
pub proof fn lemma_unrecognizable_format(data: Seq<u8>)
    requires
        spec_format(data) is Ok,
        match spec_header_record(spec_extract(data)->Ok_0[INFO_INDEX as int].data) {
            Some(info) => spec_find_format(info.format) is None,
            None => true,
        },
    ensures
        spec_format(data) == Ok::<Option<TextureModel>, TextureError>(None),
{
}

/// Format chunks that are all dropped add nothing to what was found.
proof fn lemma_formats_all_dropped(
    chunks: Seq<RawChunk>,
    index: nat,
    count: nat,
    found: Seq<TextureModel>,
)
    requires
        FIRST_FORMAT_INDEX + count <= chunks.len(),
        forall|i: int|
            index <= i < count ==> spec_format(
                (#[trigger] chunks[FIRST_FORMAT_INDEX + i]).data,
            ) == Ok::<Option<TextureModel>, TextureError>(None),
    ensures
        spec_formats(chunks, index, count, found) == Ok::<Seq<TextureModel>, TextureError>(found),
    decreases count - index,
{
    if index < count {
        assert(spec_format(chunks[FIRST_FORMAT_INDEX + index].data) == Ok::<
            Option<TextureModel>,
            TextureError,
        >(None));
        lemma_formats_all_dropped(chunks, index + 1, count, found);
    }
}

/// A texture none of whose declared formats can be recognized decodes to its
/// name and an empty list of formats: that is no failure. A texture that
/// declares no format at all is the plainest case.
pub proof fn lemma_no_recognizable_format(tag: [u8; 4], data: Seq<u8>)
    requires
        tag == TEXTURE_TAG,
        spec_extract(data) is Ok,
        spec_extract(data)->Ok_0.len() > COUNT_INDEX,
        spec_extract(data)->Ok_0[COUNT_INDEX as int].data.len() >= 4,
        ({
            let chunks = spec_extract(data)->Ok_0;
            let count = le_u32(chunks[COUNT_INDEX as int].data, 0);
            &&& FIRST_FORMAT_INDEX + count <= chunks.len()
            &&& forall|i: int|
                0 <= i < count ==> spec_format(
                    (#[trigger] chunks[FIRST_FORMAT_INDEX + i]).data,
                ) == Ok::<Option<TextureModel>, TextureError>(None)
        }),
    ensures
        spec_texture(tag, data) == Ok::<TextureContainerModel, TextureError>(
            TextureContainerModel {
                name: latin1_without_nuls(spec_extract(data)->Ok_0[NAME_INDEX as int].data),
                formats: Seq::empty(),
            },
        ),
{
    let chunks = spec_extract(data)->Ok_0;
    let count = le_u32(chunks[COUNT_INDEX as int].data, 0);
    lemma_formats_all_dropped(chunks, 0, count as nat, Seq::empty());
}

/// Whether the format of `texture` is the one that the table gives for the
/// code in its header record, with sizes that fit a surface header.
pub open spec fn is_recognized(texture: TextureModel) -> bool {
    &&& spec_find_format(texture.info.format) == Some(texture.format)
    &&& header_fits(texture.info.width, texture.info.height, texture.info.depth, texture.format)
}

/// Reading format chunks adds recognized formats only.
proof fn lemma_formats_recognized(
    chunks: Seq<RawChunk>,
    index: nat,
    count: nat,
    found: Seq<TextureModel>,
)
    requires
        forall|i: int| 0 <= i < found.len() ==> is_recognized(#[trigger] found[i]),
        spec_formats(chunks, index, count, found) is Ok,
    ensures
        forall|i: int|
            0 <= i < spec_formats(chunks, index, count, found)->Ok_0.len() ==> is_recognized(
                #[trigger] spec_formats(chunks, index, count, found)->Ok_0[i],
            ),
    decreases count - index,
{
    if index < count {
        match spec_format(chunks[FIRST_FORMAT_INDEX + index].data) {
            Ok(Some(format)) => {
                let more = found.push(format);
                assert forall|i: int| 0 <= i < more.len() implies is_recognized(
                    #[trigger] more[i],
                ) by {
                    if i < found.len() {
                        assert(more[i] == found[i]);
                    }
                }
                lemma_formats_recognized(chunks, index + 1, count, more);
            },
            Ok(None) => {
                lemma_formats_recognized(chunks, index + 1, count, found);
            },
            Err(_) => {},
        }
    }
}

/// Every format of a decoded texture is a recognized one: what cannot be
/// recognized is never stored.
pub proof fn lemma_texture_formats_recognized(tag: [u8; 4], data: Seq<u8>)
    requires
        spec_texture(tag, data) is Ok,
    ensures
        forall|i: int|
            0 <= i < spec_texture(tag, data)->Ok_0.formats.len() ==> is_recognized(
                #[trigger] spec_texture(tag, data)->Ok_0.formats[i],
            ),
{
    let chunks = spec_extract(data)->Ok_0;
    let count = le_u32(chunks[COUNT_INDEX as int].data, 0);
    lemma_formats_recognized(chunks, 0, count as nat, Seq::empty());
}

} // verus!
