use libzeroengine::audio_data::{AudioData, AudioDataError};
use libzeroengine::lvl::{Level, LevelError};
use libzeroengine::mvs::MovieError;
use libzeroengine::prop::{ClassRelation, PropertyError};
use libzeroengine::script::ScriptError;
use libzeroengine::tex::TextureError;
use libzeroengine::ucfb::{
    split_payload, visit_chunks_from_vec, Chunk, ChunkHeader, DecipheredChunk, UCFBError, UCFBFile,
    VisitError,
};

fn visiting_chunk(tag: &[u8; 4], payload: &[u8]) -> Vec<u8> {
    let mut bytes = tag.to_vec();
    bytes.extend_from_slice(&(payload.len() as u32).to_le_bytes());
    bytes.extend_from_slice(payload);
    while bytes.len() % 4 != 0 {
        bytes.push(0);
    }
    bytes
}

fn visiting_script(name: &[u8]) -> Vec<u8> {
    let mut payload = visiting_chunk(b"NAME", name);
    payload.extend(visiting_chunk(b"INFO", &[1]));
    payload.extend(visiting_chunk(b"BODY", b"code\0"));
    visiting_chunk(b"scr_", &payload)
}

fn visiting_broken_script() -> Vec<u8> {
    visiting_chunk(b"scr_", &visiting_chunk(b"NAME", b"alone"))
}

fn visiting_definition(base: &[u8], name: &[u8]) -> Vec<u8> {
    let mut payload = visiting_chunk(b"BASE", base);
    payload.extend(visiting_chunk(b"TYPE", name));
    visiting_chunk(b"entc", &payload)
}

fn visiting_texture(name: &[u8]) -> Vec<u8> {
    let mut payload = visiting_chunk(b"NAME", name);
    payload.extend(visiting_chunk(b"INFO", &0u32.to_le_bytes()));
    visiting_chunk(b"tex_", &payload)
}

fn visiting_movie() -> Vec<u8> {
    let mut payload = vec![0u8; 0x7F0];
    payload.extend_from_slice(b"BIKi\x01\x00\x00\x00........");
    visiting_chunk(&[0x60, 0x70, 0x1F, 0x2F], &payload)
}

fn visiting_level(chunks: &[u8]) -> Vec<u8> {
    visiting_chunk(b"lvl_", chunks)
}

fn visiting_file(chunks: &[u8]) -> Vec<u8> {
    let mut bytes = b"ucfb".to_vec();
    bytes.extend_from_slice(&(chunks.len() as u32).to_le_bytes());
    bytes.extend_from_slice(chunks);
    bytes
}

#[test]
fn each_known_tag_is_decoded_by_its_decoder() {
    let mut data = visiting_script(b"addme\0");
    data.extend(visiting_movie());
    data.extend(visiting_texture(b"sky\0"));
    data.extend(visiting_definition(b"prop\0", b"crate\0"));
    data.extend(visiting_chunk(b"ucfb", &visiting_script(b"inner\0")));
    data.extend(visiting_level(&visiting_texture(b"ground\0")));
    let mut chunks = split_payload(&data).unwrap();
    assert_eq!(chunks.len(), 6);
    visit_chunks_from_vec(&mut chunks).unwrap();
    match &chunks[0].deciphered_chunk {
        Some(DecipheredChunk::Script(script)) => assert_eq!(script.name, "addme"),
        other => panic!("{:?}", other),
    }
    match &chunks[1].deciphered_chunk {
        Some(DecipheredChunk::Movie(movie)) => {
            assert_eq!(movie.bink_files, vec![b"BIKi\x01\x00\x00\x00........".to_vec()])
        }
        other => panic!("{:?}", other),
    }
    match &chunks[2].deciphered_chunk {
        Some(DecipheredChunk::Texture(texture)) => assert_eq!(texture.name, "sky"),
        other => panic!("{:?}", other),
    }
    match &chunks[3].deciphered_chunk {
        Some(DecipheredChunk::PropertyContainer(definition)) => {
            assert_eq!(definition.name, "crate");
            assert!(matches!(&definition.relation, ClassRelation::ClassLabel(l) if l == "prop"));
        }
        other => panic!("{:?}", other),
    }
    match &chunks[4].deciphered_chunk {
        Some(DecipheredChunk::UCFB(file)) => {
            assert_eq!(file.header.size, chunks[4].header.size);
            assert_eq!(file.chunks.len(), 1);
            match &file.chunks[0].deciphered_chunk {
                Some(DecipheredChunk::Script(script)) => assert_eq!(script.name, "inner"),
                other => panic!("{:?}", other),
            }
        }
        other => panic!("{:?}", other),
    }
    match &chunks[5].deciphered_chunk {
        Some(DecipheredChunk::Level(level)) => {
            assert_eq!(level.chunks.len(), 1);
            match &level.chunks[0].deciphered_chunk {
                Some(DecipheredChunk::Texture(texture)) => assert_eq!(texture.name, "ground"),
                other => panic!("{:?}", other),
            }
        }
        other => panic!("{:?}", other),
    }
}

#[test]
fn visit_keeps_headers_and_payloads() {
    let mut data = visiting_script(b"addme\0");
    data.extend(visiting_chunk(b"ucfb", &visiting_script(b"inner\0")));
    data.extend(visiting_chunk(b"what", b"ever"));
    let mut chunks = split_payload(&data).unwrap();
    let before: Vec<([u8; 4], u32, Vec<u8>)> =
        chunks.iter().map(|c| (c.header.name, c.header.size, c.data.clone())).collect();
    visit_chunks_from_vec(&mut chunks).unwrap();
    let after: Vec<([u8; 4], u32, Vec<u8>)> =
        chunks.iter().map(|c| (c.header.name, c.header.size, c.data.clone())).collect();
    assert_eq!(before, after);
    assert!(!chunks[1].data.is_empty());
}

#[test]
fn unknown_tags_stay_undecoded_and_are_no_error() {
    let mut data = visiting_chunk(b"what", b"ever");
    data.extend(visiting_chunk(b"SCR_", b""));
    data.extend(visiting_chunk(&[0x5C, 0xD9, 0xA0, 0x23], b"audio"));
    data.extend(visiting_chunk(b"\0\0\0\0", b"\0\0"));
    data.extend(visiting_chunk(b"PROP", b"x"));
    let mut chunks = split_payload(&data).unwrap();
    visit_chunks_from_vec(&mut chunks).unwrap();
    assert_eq!(chunks.len(), 5);
    assert!(chunks.iter().all(|c| c.deciphered_chunk.is_none()));
}

#[test]
fn visit_of_no_chunks_does_nothing() {
    let mut chunks: Vec<Chunk> = Vec::new();
    visit_chunks_from_vec(&mut chunks).unwrap();
    assert!(chunks.is_empty());
}

#[test]
fn nested_archive_without_chunks_is_decoded_as_empty() {
    let mut data = visiting_chunk(b"ucfb", b"");
    data.extend(visiting_chunk(b"ucfb", b"1234567"));
    data.extend(visiting_level(b""));
    let mut chunks = split_payload(&data).unwrap();
    visit_chunks_from_vec(&mut chunks).unwrap();
    match &chunks[0].deciphered_chunk {
        Some(DecipheredChunk::UCFB(file)) => {
            assert_eq!(file.header.size, 0);
            assert!(file.chunks.is_empty());
        }
        other => panic!("{:?}", other),
    }
    match &chunks[1].deciphered_chunk {
        Some(DecipheredChunk::UCFB(file)) => {
            assert_eq!(file.header.size, 7);
            assert!(file.chunks.is_empty());
        }
        other => panic!("{:?}", other),
    }
    match &chunks[2].deciphered_chunk {
        Some(DecipheredChunk::Level(level)) => assert!(level.chunks.is_empty()),
        other => panic!("{:?}", other),
    }
}

#[test]
fn archives_nest_to_any_depth() {
    let mut data = visiting_script(b"deep\0");
    for _ in 0..40 {
        data = visiting_chunk(b"ucfb", &data);
    }
    let mut chunks = split_payload(&data).unwrap();
    visit_chunks_from_vec(&mut chunks).unwrap();
    let mut depth = 0;
    let mut here = &chunks[0];
    loop {
        match &here.deciphered_chunk {
            Some(DecipheredChunk::UCFB(file)) => {
                depth += 1;
                here = &file.chunks[0];
            }
            Some(DecipheredChunk::Script(script)) => {
                assert_eq!(script.name, "deep");
                break;
            }
            other => panic!("{:?}", other),
        }
    }
    assert_eq!(depth, 40);
}

#[test]
fn visit_stops_at_the_first_chunk_that_does_not_decode() {
    let mut data = visiting_script(b"first\0");
    data.extend(visiting_chunk(b"what", b"ever"));
    data.extend(visiting_broken_script());
    data.extend(visiting_script(b"last\0"));
    data.extend(visiting_chunk(b"tex_", b""));
    let mut chunks = split_payload(&data).unwrap();
    match visit_chunks_from_vec(&mut chunks) {
        Err(VisitError::ScriptError(ScriptError::CorruptScript)) => {}
        other => panic!("{:?}", other),
    }
    assert_eq!(chunks.len(), 5);
    assert!(matches!(&chunks[0].deciphered_chunk, Some(DecipheredChunk::Script(s)) if s.name == "first"));
    assert!(chunks[1].deciphered_chunk.is_none());
    assert!(chunks[2].deciphered_chunk.is_none());
    assert!(chunks[3].deciphered_chunk.is_none());
    assert!(chunks[4].deciphered_chunk.is_none());
    assert_eq!(chunks[3].data, split_payload(&visiting_script(b"last\0")).unwrap()[0].data);
}

#[test]
fn each_decoder_has_its_error_variant() {
    let mut chunks = split_payload(&visiting_broken_script()).unwrap();
    assert!(matches!(
        visit_chunks_from_vec(&mut chunks),
        Err(VisitError::ScriptError(ScriptError::CorruptScript))
    ));
    let mut chunks = split_payload(&visiting_chunk(&[0x60, 0x70, 0x1F, 0x2F], b"short")).unwrap();
    assert!(matches!(
        visit_chunks_from_vec(&mut chunks),
        Err(VisitError::MovieError(MovieError::CorruptedMovie))
    ));
    let mut chunks = split_payload(&visiting_chunk(b"ucfb", b"AAAA\x09\x00\x00\x00")).unwrap();
    assert!(matches!(
        visit_chunks_from_vec(&mut chunks),
        Err(VisitError::UCFBError(UCFBError::Truncated))
    ));
    let mut chunks = split_payload(&visiting_level(b"AAAA\x09\x00\x00\x00")).unwrap();
    assert!(matches!(
        visit_chunks_from_vec(&mut chunks),
        Err(VisitError::LevelError(LevelError::ChunkError(UCFBError::Truncated)))
    ));
    let mut chunks = split_payload(&visiting_chunk(b"tex_", b"")).unwrap();
    assert!(matches!(
        visit_chunks_from_vec(&mut chunks),
        Err(VisitError::TextureVisitationError(TextureError::TextureParseError))
    ));
    for tag in [b"entc", b"expc", b"ordc", b"wpnc"] {
        let mut chunks = split_payload(&visiting_chunk(tag, b"")).unwrap();
        assert!(matches!(
            visit_chunks_from_vec(&mut chunks),
            Err(VisitError::PropertyContainerVisitError(PropertyError::CorruptedProperty))
        ));
    }
}

#[test]
fn error_from_inside_a_container_is_wrapped_once_for_each_layer() {
    let mut inner = visiting_script(b"fine\0");
    inner.extend(visiting_broken_script());
    let data = visiting_chunk(b"ucfb", &visiting_level(&visiting_chunk(b"ucfb", &inner)));
    let mut chunks = split_payload(&data).unwrap();
    let error = visit_chunks_from_vec(&mut chunks).unwrap_err();
    match error {
        VisitError::UCFBSubchunkVisitationError(first) => match *first {
            VisitError::LevelSubchunkVisitationError(second) => match *second {
                VisitError::UCFBSubchunkVisitationError(third) => {
                    assert!(matches!(*third, VisitError::ScriptError(ScriptError::CorruptScript)))
                }
                other => panic!("{:?}", other),
            },
            other => panic!("{:?}", other),
        },
        other => panic!("{:?}", other),
    }
    assert!(chunks[0].deciphered_chunk.is_none());
}

#[test]
fn level_is_split_as_a_nested_archive_is() {
    let mut payload = visiting_chunk(b"what", b"ever");
    payload.extend(visiting_chunk(b"more", b""));
    let chunks = split_payload(&visiting_chunk(b"lvl_", &payload)).unwrap();
    let level = Level::from_chunk(chunks[0].clone()).unwrap();
    let plain = split_payload(&payload).unwrap();
    assert_eq!(level.chunks.len(), 2);
    assert_eq!(plain.len(), 2);
    for (inside, beside) in level.chunks.iter().zip(plain.iter()) {
        assert_eq!(inside.header.name, beside.header.name);
        assert_eq!(inside.header.size, beside.header.size);
        assert_eq!(inside.data, beside.data);
    }
    assert_eq!(level.chunks[0].header.name, *b"what");
    assert_eq!(level.chunks[0].data, b"ever".to_vec());
    assert_eq!(level.chunks[1].header.name, *b"more");
    assert!(level.chunks.iter().all(|c| c.deciphered_chunk.is_none()));
    let copy = level.clone();
    assert_eq!(copy.chunks.len(), 2);
    assert_eq!(copy.chunks[0].data, b"ever".to_vec());
}

#[test]
fn level_of_one_whole_chunk_holds_that_chunk() {
    let payload = b"AAAA\x04\x00\x00\x00abcd".to_vec();
    assert_eq!(payload.len(), 12);
    let chunks = split_payload(&visiting_chunk(b"lvl_", &payload)).unwrap();
    let level = Level::from_chunk(chunks[0].clone()).unwrap();
    assert_eq!(level.chunks.len(), 1);
    assert_eq!(level.chunks[0].header.name, *b"AAAA");
    assert_eq!(level.chunks[0].data, b"abcd".to_vec());
}

#[test]
fn level_without_chunks_is_empty() {
    let chunk = |data: &[u8]| Chunk {
        header: ChunkHeader { name: *b"lvl_", size: data.len() as u32 },
        data: data.to_vec(),
        deciphered_chunk: None,
    };
    assert!(Level::from_chunk(chunk(b"")).unwrap().chunks.is_empty());
    assert!(Level::from_chunk(chunk(&[0; 7])).unwrap().chunks.is_empty());
    let level = Level::from_chunk(chunk(&[0; 8])).unwrap();
    assert_eq!(level.chunks.len(), 1);
    assert_eq!(level.chunks[0].header.name, [0, 0, 0, 0]);
    assert!(level.chunks[0].data.is_empty());
}

#[test]
fn level_errors() {
    let chunk = |tag: &[u8; 4], data: &[u8]| Chunk {
        header: ChunkHeader { name: *tag, size: data.len() as u32 },
        data: data.to_vec(),
        deciphered_chunk: None,
    };
    assert_eq!(Level::from_chunk(chunk(b"lvl!", &[0; 8])).unwrap_err(), LevelError::NotALevel);
    assert_eq!(Level::from_chunk(chunk(b"ucfb", b"")).unwrap_err(), LevelError::NotALevel);
    assert_eq!(
        Level::from_chunk(chunk(b"lvl_", b"AAAA\x01\x00\x00\x00")).unwrap_err(),
        LevelError::ChunkError(UCFBError::Truncated)
    );
    let mut payload = visiting_chunk(b"what", b"ever");
    payload.extend_from_slice(b"AAAA\x05\x00\x00\x00abcd");
    assert_eq!(
        Level::from_chunk(chunk(b"lvl_", &payload)).unwrap_err(),
        LevelError::ChunkError(UCFBError::Truncated)
    );
}

#[test]
fn audio_chunks_are_known_by_their_tag() {
    let chunk = |tag: [u8; 4]| Chunk {
        header: ChunkHeader { name: tag, size: 0 },
        data: Vec::new(),
        deciphered_chunk: None,
    };
    assert!(AudioData::from_chunk(chunk([0x5C, 0xD9, 0xA0, 0x23])).is_ok());
    assert_eq!(
        AudioData::from_chunk(chunk([0x5C, 0xD9, 0xA0, 0x24])).unwrap_err(),
        AudioDataError::NotAAudioDataChunk
    );
    assert_eq!(
        AudioData::from_chunk(chunk(*b"scr_")).unwrap_err(),
        AudioDataError::NotAAudioDataChunk
    );
}

#[test]
fn file_is_opened_and_visited() {
    let mut data = visiting_script(b"addme\0");
    data.extend(visiting_chunk(b"ucfb", &visiting_definition(b"walker\0", b"atte\0")));
    let mut file = UCFBFile::new(&visiting_file(&data)).unwrap();
    assert_eq!(file.header.size as usize, data.len());
    assert_eq!(file.chunks.len(), 2);
    file.visit_chunks().unwrap();
    assert_eq!(file.header.size as usize, data.len());
    assert!(matches!(&file.chunks[0].deciphered_chunk, Some(DecipheredChunk::Script(_))));
    match &file.chunks[1].deciphered_chunk {
        Some(DecipheredChunk::UCFB(inner)) => match &inner.chunks[0].deciphered_chunk {
            Some(DecipheredChunk::PropertyContainer(definition)) => {
                assert_eq!(definition.name, "atte");
                assert_eq!(
                    definition.get_odf(),
                    "[GameObjectClass]\n\nClassLabel = walker\n\n[Properties]\n\n"
                );
            }
            other => panic!("{:?}", other),
        },
        other => panic!("{:?}", other),
    }
    let copy = file.clone();
    assert!(matches!(&copy.chunks[0].deciphered_chunk, Some(DecipheredChunk::Script(s)) if s.name == "addme"));
    assert!(matches!(&copy.chunks[1].deciphered_chunk, Some(DecipheredChunk::UCFB(f)) if f.chunks.len() == 1));
}

#[test]
fn file_visit_stops_at_a_broken_chunk() {
    let mut data = visiting_texture(b"sky\0");
    data.extend(visiting_chunk(b"wpnc", &visiting_chunk(b"BASE", b"no nul")));
    let mut file = UCFBFile::new(&visiting_file(&data)).unwrap();
    match file.visit_chunks() {
        Err(VisitError::PropertyContainerVisitError(PropertyError::CorruptedProperty)) => {}
        other => panic!("{:?}", other),
    }
    assert!(matches!(&file.chunks[0].deciphered_chunk, Some(DecipheredChunk::Texture(_))));
    assert!(file.chunks[1].deciphered_chunk.is_none());
}

#[test]
fn copies_hold_what_was_decoded() {
    let mut data = visiting_script(b"addme\0");
    data.extend(visiting_movie());
    data.extend(visiting_texture(b"sky\0"));
    data.extend(visiting_definition(b"prop\0", b"crate\0"));
    data.extend(visiting_level(&visiting_chunk(b"ucfb", &visiting_script(b"inner\0"))));
    data.extend(visiting_chunk(b"what", b"ever"));
    let mut chunks = split_payload(&data).unwrap();
    visit_chunks_from_vec(&mut chunks).unwrap();
    let copies: Vec<Chunk> = chunks.iter().map(|c| c.clone()).collect();
    assert_eq!(copies.len(), 6);
    for (copy, chunk) in copies.iter().zip(chunks.iter()) {
        assert_eq!(copy.header.name, chunk.header.name);
        assert_eq!(copy.header.size, chunk.header.size);
        assert_eq!(copy.data, chunk.data);
    }
    match &copies[0].deciphered_chunk {
        Some(DecipheredChunk::Script(script)) => {
            assert_eq!(script.name, "addme");
            assert_eq!(script.info, 1);
            assert_eq!(script.body, b"code".to_vec());
        }
        other => panic!("{:?}", other),
    }
    match &copies[1].deciphered_chunk {
        Some(DecipheredChunk::Movie(movie)) => {
            assert_eq!(movie.bink_files, vec![b"BIKi\x01\x00\x00\x00........".to_vec()])
        }
        other => panic!("{:?}", other),
    }
    match &copies[2].deciphered_chunk {
        Some(DecipheredChunk::Texture(texture)) => {
            assert_eq!(texture.name, "sky");
            assert!(texture.formats.is_empty());
        }
        other => panic!("{:?}", other),
    }
    match &copies[3].deciphered_chunk {
        Some(DecipheredChunk::PropertyContainer(definition)) => {
            assert_eq!(definition.name, "crate");
            assert!(definition.properties.is_empty());
            assert!(matches!(&definition.relation, ClassRelation::ClassLabel(l) if l == "prop"));
        }
        other => panic!("{:?}", other),
    }
    match copies[4].deciphered_chunk.clone() {
        Some(DecipheredChunk::Level(level)) => match &level.chunks[0].deciphered_chunk {
            Some(DecipheredChunk::UCFB(file)) => {
                assert_eq!(file.header.size, level.chunks[0].header.size);
                assert!(matches!(
                    &file.chunks[0].deciphered_chunk,
                    Some(DecipheredChunk::Script(s)) if s.name == "inner"
                ));
            }
            other => panic!("{:?}", other),
        },
        other => panic!("{:?}", other),
    }
    assert!(copies[5].deciphered_chunk.is_none());
}
