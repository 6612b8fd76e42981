//! Script chunks: a name, a format byte and compiled Lua 5.0 bytecode, and
//! what a translator to Lua 5.1 needs beside the bytecode: the dialect that
//! the bytecode is in, and the format that the translation is to have.

use vstd::prelude::*;
use vstd::slice::{slice_subrange, slice_to_vec};
use vstd::utf8::{decode_utf8, valid_utf8};
use crate::text::{string_from_utf8, strip_nuls, without_nuls};
use crate::ucfb::{raw_chunks, spec_extract, split_payload, tag_is, Chunk, UCFBError};

verus! {

/// A script: its name, its format byte and its bytecode.
#[derive(Debug)]
pub struct Script {
    /// The name of the script.
    pub name: String,
    /// A byte that tells formats apart; its values are not known.
    pub info: u8,
    /// The Lua 5.0 bytecode, without the terminator that follows it in the
    /// chunk.
    pub body: Vec<u8>,
}

/// What can go wrong when a script chunk is decoded.
#[derive(Debug, Clone, Copy, PartialEq, Eq, Structural)]
pub enum ScriptError {
    /// The payload does not split into chunks.
    ChunkParseError(UCFBError),
    /// The chunk does not carry the script tag.
    NotAScript,
    /// A positional chunk is missing, the name is no UTF-8, or the format
    /// byte is missing.
    CorruptScript,
}

/// A script, as mathematical values.
pub struct ScriptModel {
    pub name: Seq<char>,
    pub info: u8,
    pub body: Seq<u8>,
}

/// The operand fields of a bytecode instruction.
#[derive(Debug, Clone, Copy, PartialEq, Eq, Structural)]
pub enum OperandField {
    /// The operation code.
    Opcode,
    /// Operand A.
    A,
    /// Operand B.
    B,
    /// Operand C.
    C,
}

/// One field of the instruction layout: which operand, and how many bits.
#[derive(Debug, Clone, Copy, PartialEq, Eq, Structural)]
pub struct OperandLayout {
    /// The operand that the field holds.
    pub field: OperandField,
    /// Width of the field in bits.
    pub bits: u64,
}

/// The dialect of the bytecode that the engine's scripts are compiled to: the
/// constants that its Lua 5.0 compiler was built with. A translator to Lua 5.1
/// takes the bytecode together with this description.
#[derive(Debug, Clone, Copy)]
pub struct BytecodeDialect {
    /// The most values that the stack of a function can hold.
    pub stack_limit: u64,
    /// Number of table fields that are set in one flush.
    pub fields_per_flush: u64,
    /// The four bytes that bytecode starts with.
    pub binary_signature: [u8; 4],
    /// The fields of an instruction, from the lowest bits up.
    pub layout: [OperandLayout; 4],
}

/// The order in which the bytes of a number are stored.
#[derive(Debug, Clone, Copy, PartialEq, Eq, Structural)]
pub enum ByteOrder {
    /// The highest byte first.
    Big,
    /// The lowest byte first.
    Little,
}

/// The width of a number in bytecode.
#[derive(Debug, Clone, Copy, PartialEq, Eq, Structural)]
pub enum NumberWidth {
    /// Four bytes.
    Bit32,
    /// Eight bytes.
    Bit64,
}

/// The format of bytecode: how the machine that is to run it stores numbers.
#[derive(Debug, Clone, Copy, PartialEq, Eq, Structural)]
pub struct BytecodeFormat {
    /// The format number of the compiler; the standard compiler has 0.
    pub format: u8,
    /// The byte order.
    pub endianness: ByteOrder,
    /// The width of an integer.
    pub integer_width: NumberWidth,
    /// The width of a size and of a pointer.
    pub size_t_width: NumberWidth,
    /// The width of an instruction.
    pub instruction_width: NumberWidth,
    /// The width of a Lua number.
    pub number_width: NumberWidth,
    /// Whether Lua numbers are integers and not floating-point numbers.
    pub is_number_integral: bool,
}

/// Tag of a script chunk, the ASCII letters `scr_`.
pub const SCRIPT_TAG: [u8; 4] = [0x73, 0x63, 0x72, 0x5F];

/// Position of the chunk that holds the name.
pub const NAME_INDEX: usize = 0;

/// Position of the chunk that holds the format byte.
pub const INFO_INDEX: usize = 1;

/// Position of the chunk that holds the bytecode.
pub const BODY_INDEX: usize = 2;

/// `bytes` without the last one, if there is one.
pub open spec fn without_terminator(bytes: Seq<u8>) -> Seq<u8> {
    if bytes.len() == 0 {
        bytes
    } else {
        bytes.drop_last()
    }
}

/// The script held by a chunk with tag `tag` and payload `data`: the name is
/// the UTF-8 text of the first chunk without its NULs, the format byte is the
/// first byte of the second chunk, and the bytecode is the third chunk
/// without its last byte.
pub open spec fn spec_script(tag: [u8; 4], data: Seq<u8>) -> Result<ScriptModel, ScriptError> {
    if tag != SCRIPT_TAG {
        Err(ScriptError::NotAScript)
    } else {
        match spec_extract(data) {
            Err(e) => Err(ScriptError::ChunkParseError(e)),
            Ok(chunks) => if chunks.len() <= BODY_INDEX || !valid_utf8(
                chunks[NAME_INDEX as int].data,
            ) || chunks[INFO_INDEX as int].data.len() == 0 {
                Err(ScriptError::CorruptScript)
            } else {
                Ok(
                    ScriptModel {
                        name: without_nuls(decode_utf8(chunks[NAME_INDEX as int].data)),
                        info: chunks[INFO_INDEX as int].data[0],
                        body: without_terminator(chunks[BODY_INDEX as int].data),
                    },
                )
            },
        }
    }
}

/// The dialect of the engine's scripts: a stack of 128 values, 32 fields per
/// flush, the signature `ESC L u a`, and instructions made of an operation
/// code of 6 bits, then C and B of 9 bits each, then A of 8 bits.
pub open spec fn spec_lua50_dialect() -> BytecodeDialect {
    BytecodeDialect {
        stack_limit: 128,
        fields_per_flush: 32,
        binary_signature: [0x1B, 0x4C, 0x75, 0x61],
        layout: [
            OperandLayout { field: OperandField::Opcode, bits: 6 },
            OperandLayout { field: OperandField::C, bits: 9 },
            OperandLayout { field: OperandField::B, bits: 9 },
            OperandLayout { field: OperandField::A, bits: 8 },
        ],
    }
}

/// The format of the translated bytecode: that of the standard compiler on a
/// little-endian machine of 64 bits, with integers and instructions of 32
/// bits and Lua numbers as floating-point numbers of 64 bits.
pub open spec fn spec_lua51_format() -> BytecodeFormat {
    BytecodeFormat {
        format: 0,
        endianness: ByteOrder::Little,
        integer_width: NumberWidth::Bit32,
        size_t_width: NumberWidth::Bit64,
        instruction_width: NumberWidth::Bit32,
        number_width: NumberWidth::Bit64,
        is_number_integral: false,
    }
}

impl View for Script {
    type V = ScriptModel;

    open spec fn view(&self) -> ScriptModel {
        ScriptModel { name: self.name@, info: self.info, body: self.body@ }
    }
}

impl Clone for Script {
    /// A copy with the same name, format byte and bytecode.
    fn clone(&self) -> (copy: Self)
        ensures
            copy@ == self@,
    {
        Script { name: self.name.clone(), info: self.info, body: self.body.clone() }
    }
}

impl Script {
    /// Decodes the script held by a chunk.
    pub fn from_chunk(chunk: Chunk) -> (result: Result<Script, ScriptError>)
        ensures
            match result {
                Ok(script) => spec_script(chunk.header.name, chunk.data@) == Ok::<
                    ScriptModel,
                    ScriptError,
                >(script@),
                Err(e) => spec_script(chunk.header.name, chunk.data@) == Err::<
                    ScriptModel,
                    ScriptError,
                >(e),
            },
    {
        if !tag_is(&chunk.header.name, &SCRIPT_TAG) {
            return Err(ScriptError::NotAScript);
        }
        let chunks = match split_payload(chunk.data.as_slice()) {
            Ok(chunks) => chunks,
            Err(e) => {
                return Err(ScriptError::ChunkParseError(e));
            },
        };
        if chunks.len() <= BODY_INDEX {
            return Err(ScriptError::CorruptScript);
        }
        assert(raw_chunks(chunks@)[0] == chunks@[0].raw());
        assert(raw_chunks(chunks@)[1] == chunks@[1].raw());
        assert(raw_chunks(chunks@)[2] == chunks@[2].raw());
        let name = match string_from_utf8(chunks[NAME_INDEX].data.clone()) {
            Some(text) => strip_nuls(text.as_str()),
            None => {
                return Err(ScriptError::CorruptScript);
            },
        };
        if chunks[INFO_INDEX].data.len() == 0 {
            return Err(ScriptError::CorruptScript);
        }
        let info: u8 = chunks[INFO_INDEX].data[0];
        let code = chunks[BODY_INDEX].data.as_slice();
        let body = if code.len() == 0 {
            Vec::new()
        } else {
            slice_to_vec(slice_subrange(code, 0, code.len() - 1))
        };
        assert(body@ =~= without_terminator(code@));
        Ok(Script { name, info, body })
    }

    /// The dialect of the bytecode in `body`, for a translator to Lua 5.1.
    pub fn lua50_dialect() -> (dialect: BytecodeDialect)
        ensures
            dialect == spec_lua50_dialect(),
    {
        BytecodeDialect {
            stack_limit: 128,
            fields_per_flush: 32,
            binary_signature: [0x1B, 0x4C, 0x75, 0x61],
            layout: [
                OperandLayout { field: OperandField::Opcode, bits: 6 },
                OperandLayout { field: OperandField::C, bits: 9 },
                OperandLayout { field: OperandField::B, bits: 9 },
                OperandLayout { field: OperandField::A, bits: 8 },
            ],
        }
    }

    /// The format that the bytecode is to have once it is translated to Lua
    /// 5.1.
    pub fn lua51_format() -> (format: BytecodeFormat)
        ensures
            format == spec_lua51_format(),
    {
        BytecodeFormat {
            format: 0,
            endianness: ByteOrder::Little,
            integer_width: NumberWidth::Bit32,
            size_t_width: NumberWidth::Bit64,
            instruction_width: NumberWidth::Bit32,
            number_width: NumberWidth::Bit64,
            is_number_integral: false,
        }
    }
}

} // verus!
