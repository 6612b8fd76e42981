use libzeroengine::script::{ByteOrder, NumberWidth, OperandField, Script, ScriptError};
use libzeroengine::ucfb::{Chunk, ChunkHeader, UCFBError};

fn script_sub_chunk(tag: &[u8; 4], payload: &[u8]) -> Vec<u8> {
    let mut bytes = tag.to_vec();
    bytes.extend_from_slice(&(payload.len() as u32).to_le_bytes());
    bytes.extend_from_slice(payload);
    while bytes.len() % 4 != 0 {
        bytes.push(0);
    }
    bytes
}

fn script_chunk(tag: &[u8; 4], parts: &[Vec<u8>]) -> Chunk {
    let data = parts.concat();
    Chunk {
        header: ChunkHeader { name: *tag, size: data.len() as u32 },
        data,
        deciphered_chunk: None,
    }
}

#[test]
fn script_with_name_info_and_body() {
    let chunk = script_chunk(
        b"scr_",
        &[
            script_sub_chunk(b"NAME", b"addme\0"),
            script_sub_chunk(b"INFO", &[1, 9, 9]),
            script_sub_chunk(b"BODY", b"\x1bLua\x50code\0"),
            script_sub_chunk(b"MORE", b"ignored"),
        ],
    );
    let script = Script::from_chunk(chunk).unwrap();
    assert_eq!(script.name, "addme");
    assert_eq!(script.info, 1);
    assert_eq!(script.body, b"\x1bLua\x50code".to_vec());
}

#[test]
fn only_the_last_byte_of_the_body_is_dropped() {
    let parts = |body: &[u8]| {
        [
            script_sub_chunk(b"NAME", b"s"),
            script_sub_chunk(b"INFO", &[0xFE]),
            script_sub_chunk(b"BODY", body),
        ]
    };
    let script = Script::from_chunk(script_chunk(b"scr_", &parts(b"ab\0\0"))).unwrap();
    assert_eq!(script.body, b"ab\0".to_vec());
    assert_eq!(script.info, 0xFE);
    let script = Script::from_chunk(script_chunk(b"scr_", &parts(b"abc"))).unwrap();
    assert_eq!(script.body, b"ab".to_vec());
    let script = Script::from_chunk(script_chunk(b"scr_", &parts(b"x"))).unwrap();
    assert!(script.body.is_empty());
    let script = Script::from_chunk(script_chunk(b"scr_", &parts(b""))).unwrap();
    assert!(script.body.is_empty());
}

#[test]
fn script_name_loses_its_nuls() {
    let chunk = script_chunk(
        b"scr_",
        &[
            script_sub_chunk(b"NAME", "\0ga\0me_\u{e9}\0\0".as_bytes()),
            script_sub_chunk(b"INFO", &[0]),
            script_sub_chunk(b"BODY", b""),
        ],
    );
    assert_eq!(Script::from_chunk(chunk).unwrap().name, "game_\u{e9}");
}

#[test]
fn script_with_fewer_than_three_chunks_is_corrupt() {
    let result = Script::from_chunk(script_chunk(b"scr_", &[]));
    assert_eq!(result.unwrap_err(), ScriptError::CorruptScript);
    let result = Script::from_chunk(script_chunk(
        b"scr_",
        &[script_sub_chunk(b"NAME", b"a"), script_sub_chunk(b"INFO", &[1])],
    ));
    assert_eq!(result.unwrap_err(), ScriptError::CorruptScript);
}

#[test]
fn script_name_that_is_no_utf8_is_corrupt() {
    let result = Script::from_chunk(script_chunk(
        b"scr_",
        &[
            script_sub_chunk(b"NAME", b"a\xFFb"),
            script_sub_chunk(b"INFO", &[1]),
            script_sub_chunk(b"BODY", b"x\0"),
        ],
    ));
    assert_eq!(result.unwrap_err(), ScriptError::CorruptScript);
}

#[test]
fn script_without_its_info_byte_is_corrupt() {
    let result = Script::from_chunk(script_chunk(
        b"scr_",
        &[
            script_sub_chunk(b"NAME", b"a"),
            script_sub_chunk(b"INFO", &[]),
            script_sub_chunk(b"BODY", b"x\0"),
        ],
    ));
    assert_eq!(result.unwrap_err(), ScriptError::CorruptScript);
}

#[test]
fn other_tags_are_no_script() {
    let parts = [
        script_sub_chunk(b"NAME", b"a"),
        script_sub_chunk(b"INFO", &[1]),
        script_sub_chunk(b"BODY", b"x\0"),
    ];
    assert_eq!(
        Script::from_chunk(script_chunk(b"scr!", &parts)).unwrap_err(),
        ScriptError::NotAScript
    );
    assert_eq!(
        Script::from_chunk(script_chunk(b"SCR_", &parts)).unwrap_err(),
        ScriptError::NotAScript
    );
    assert!(Script::from_chunk(script_chunk(b"scr_", &parts)).is_ok());
}

#[test]
fn payload_that_does_not_split_is_a_script_chunk_error() {
    let mut chunk = script_chunk(b"scr_", &[script_sub_chunk(b"NAME", b"a")]);
    chunk.data.extend_from_slice(b"INFO\x02\x00\x00\x00\x01");
    assert_eq!(
        Script::from_chunk(chunk).unwrap_err(),
        ScriptError::ChunkParseError(UCFBError::Truncated)
    );
}

#[test]
fn dialect_of_the_scripts() {
    let dialect = Script::lua50_dialect();
    assert_eq!(dialect.stack_limit, 128);
    assert_eq!(dialect.fields_per_flush, 32);
    assert_eq!(dialect.binary_signature, *b"\x1bLua");
    let fields: Vec<(OperandField, u64)> = dialect.layout.iter().map(|l| (l.field, l.bits)).collect();
    assert_eq!(
        fields,
        vec![
            (OperandField::Opcode, 6),
            (OperandField::C, 9),
            (OperandField::B, 9),
            (OperandField::A, 8),
        ]
    );
    assert_eq!(dialect.layout.iter().map(|l| l.bits).sum::<u64>(), 32);
}

#[test]
fn format_of_the_translated_scripts() {
    let format = Script::lua51_format();
    assert_eq!(format.format, 0);
    assert_eq!(format.endianness, ByteOrder::Little);
    assert_eq!(format.integer_width, NumberWidth::Bit32);
    assert_eq!(format.size_t_width, NumberWidth::Bit64);
    assert_eq!(format.instruction_width, NumberWidth::Bit32);
    assert_eq!(format.number_width, NumberWidth::Bit64);
    assert!(!format.is_number_integral);
}
