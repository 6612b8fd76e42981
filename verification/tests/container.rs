use libzeroengine::layout::write_chunks;
use libzeroengine::ucfb::{
    extract_chunks, extract_chunks_bytearray, parse_chunk_header, parse_header, split_payload,
    tag_is, Chunk, ChunkHeader, UCFBError, UCFBFile, UCFBHeader,
};

fn container_chunk(tag: &[u8; 4], payload: &[u8]) -> Vec<u8> {
    let mut bytes = tag.to_vec();
    bytes.extend_from_slice(&(payload.len() as u32).to_le_bytes());
    bytes.extend_from_slice(payload);
    while bytes.len() % 4 != 0 {
        bytes.push(0);
    }
    bytes
}

fn container_archive(chunk_data: &[u8]) -> Vec<u8> {
    let mut bytes = b"ucfb".to_vec();
    bytes.extend_from_slice(&(chunk_data.len() as u32).to_le_bytes());
    bytes.extend_from_slice(chunk_data);
    bytes
}

#[test]
fn archive_header_gives_the_declared_size() {
    let header = parse_header(&[0x75, 0x63, 0x66, 0x62, 0x78, 0x56, 0x34, 0x12]).unwrap();
    assert_eq!(header.size, 0x1234_5678);
}

#[test]
fn archive_header_ignores_what_follows() {
    let header = parse_header(b"ucfb\x10\x00\x00\x00trailing").unwrap();
    assert_eq!(header.size, 16);
}

#[test]
fn archive_header_wants_the_magic() {
    assert_eq!(parse_header(b"ucfx\x08\x00\x00\x00").unwrap_err(), UCFBError::NotAUCFBFile);
    assert_eq!(parse_header(b"UCFB\x08\x00\x00\x00").unwrap_err(), UCFBError::NotAUCFBFile);
    assert_eq!(parse_header(b"ucf").unwrap_err(), UCFBError::NotAUCFBFile);
    assert_eq!(parse_header(b"").unwrap_err(), UCFBError::NotAUCFBFile);
}

#[test]
fn archive_header_cut_behind_the_magic_is_too_small() {
    assert_eq!(parse_header(b"ucfb").unwrap_err(), UCFBError::FileTooSmall);
    assert_eq!(parse_header(b"ucfb\x08\x00\x00").unwrap_err(), UCFBError::FileTooSmall);
}

#[test]
fn chunk_header_gives_tag_and_size() {
    let header = parse_chunk_header(&[0x60, 0x70, 0x1F, 0x2F, 0x01, 0x02, 0x00, 0x00, 0xAA]).unwrap();
    assert_eq!(header.name, [0x60, 0x70, 0x1F, 0x2F]);
    assert_eq!(header.size, 0x0201);
}

#[test]
fn chunk_header_needs_eight_bytes() {
    assert_eq!(parse_chunk_header(b"scr_\x00\x00\x00").unwrap_err(), UCFBError::Truncated);
    assert_eq!(parse_chunk_header(b"").unwrap_err(), UCFBError::Truncated);
    assert!(parse_chunk_header(b"scr_\x00\x00\x00\x00").is_ok());
}

#[test]
fn headers_are_written_as_they_are_read() {
    let mut out = vec![0xEE];
    UCFBHeader { size: 0x0A0B_0C0D }.write_to(&mut out);
    assert_eq!(out, vec![0xEE, 0x75, 0x63, 0x66, 0x62, 0x0D, 0x0C, 0x0B, 0x0A]);
    assert_eq!(parse_header(&out[1..]).unwrap().size, 0x0A0B_0C0D);

    let mut out = Vec::new();
    ChunkHeader { name: *b"tex_", size: 258 }.write_to(&mut out);
    assert_eq!(out, b"tex_\x02\x01\x00\x00".to_vec());
    let back = parse_chunk_header(&out).unwrap();
    assert_eq!(back.name, *b"tex_");
    assert_eq!(back.size, 258);
}

#[test]
fn tags_compare_byte_by_byte() {
    assert!(tag_is(b"scr_", b"scr_"));
    assert!(!tag_is(b"scr_", b"scr!"));
    assert!(!tag_is(b"scr_", b"Scr_"));
    assert!(tag_is(&[0x5C, 0xD9, 0xA0, 0x23], &[0x5C, 0xD9, 0xA0, 0x23]));
}

#[test]
fn extraction_splits_chunks_and_skips_padding() {
    let mut bytes = Vec::new();
    bytes.extend_from_slice(b"AAAA\x05\x00\x00\x00hello\xFF\xFE\xFD");
    bytes.extend_from_slice(b"BBBB\x00\x00\x00\x00");
    bytes.extend_from_slice(b"CCCC\x04\x00\x00\x00wxyz");
    let mut cursor = 0;
    let chunks = extract_chunks(&bytes, &mut cursor).unwrap();
    assert_eq!(cursor, bytes.len());
    assert_eq!(chunks.len(), 3);
    assert_eq!(chunks[0].header.name, *b"AAAA");
    assert_eq!(chunks[0].header.size, 5);
    assert_eq!(chunks[0].data, b"hello".to_vec());
    assert_eq!(chunks[1].header.name, *b"BBBB");
    assert_eq!(chunks[1].header.size, 0);
    assert!(chunks[1].data.is_empty());
    assert_eq!(chunks[2].header.name, *b"CCCC");
    assert_eq!(chunks[2].data, b"wxyz".to_vec());
    assert!(chunks.iter().all(|c| c.deciphered_chunk.is_none()));
}

#[test]
fn each_chunk_takes_header_payload_and_padding() {
    for size in 0usize..9 {
        let payload = vec![7u8; size];
        let mut bytes = container_chunk(b"SIZE", &payload);
        let span = bytes.len();
        assert_eq!(span % 4, 0);
        assert!(span >= 8 + size && span <= 8 + size + 3);
        bytes.extend_from_slice(b"NEXT\x00\x00\x00\x00");
        let mut cursor = 0;
        let chunks = extract_chunks(&bytes, &mut cursor).unwrap();
        assert_eq!(chunks.len(), 2);
        assert_eq!(chunks[0].data, payload);
        assert_eq!(chunks[1].header.name, *b"NEXT");
        assert_eq!(cursor, span + 8);
    }
}

#[test]
fn extraction_counts_alignment_from_the_cursor() {
    let mut stream = vec![0xEE, 0xEE, 0xEE];
    stream.extend_from_slice(b"AAAA\x01\x00\x00\x00a\x00\x00\x00");
    stream.extend_from_slice(b"BBBB\x02\x00\x00\x00bb\x00\x00");
    let mut cursor = 3;
    let chunks = extract_chunks(&stream, &mut cursor).unwrap();
    assert_eq!(chunks.len(), 2);
    assert_eq!(chunks[1].data, b"bb".to_vec());
    assert_eq!(cursor, stream.len());
}

#[test]
fn extraction_from_a_cursor_at_or_past_the_end_finds_nothing() {
    let stream = b"AAAA\x00\x00\x00\x00".to_vec();
    let mut cursor = 8;
    assert!(extract_chunks(&stream, &mut cursor).unwrap().is_empty());
    assert_eq!(cursor, 8);
    let mut cursor = 20;
    assert!(extract_chunks(&stream, &mut cursor).unwrap().is_empty());
    assert_eq!(cursor, 20);
}

#[test]
fn fewer_than_eight_bytes_end_the_chunks() {
    let mut buffer = b"AAAA\x01\x00\x00\x00a\x00\x00\x00\x01\x02\x03\x04\x05\x06\x07".to_vec();
    let chunks = extract_chunks_bytearray(&mut buffer).unwrap();
    assert_eq!(chunks.len(), 1);
    assert_eq!(buffer, vec![1, 2, 3, 4, 5, 6, 7]);

    let mut empty: Vec<u8> = Vec::new();
    assert!(extract_chunks_bytearray(&mut empty).unwrap().is_empty());
    assert!(empty.is_empty());
}

#[test]
fn last_chunk_may_lack_its_padding() {
    let mut buffer = b"AAAA\x05\x00\x00\x00hello".to_vec();
    let chunks = extract_chunks_bytearray(&mut buffer).unwrap();
    assert_eq!(chunks.len(), 1);
    assert_eq!(chunks[0].data, b"hello".to_vec());
    assert!(buffer.is_empty());

    let mut buffer = b"AAAA\x05\x00\x00\x00hello\x00".to_vec();
    let chunks = extract_chunks_bytearray(&mut buffer).unwrap();
    assert_eq!(chunks.len(), 1);
    assert!(buffer.is_empty());
}

#[test]
fn bytearray_extraction_consumes_the_buffer() {
    let mut buffer = container_chunk(b"AAAA", b"abc");
    buffer.extend(container_chunk(b"BBBB", b"defgh"));
    let chunks = extract_chunks_bytearray(&mut buffer).unwrap();
    assert_eq!(chunks.len(), 2);
    assert!(buffer.is_empty());
}

#[test]
fn declared_size_beyond_the_buffer_is_truncated() {
    let mut buffer = b"AAAA\x0A\x00\x00\x00abcd".to_vec();
    let before = buffer.clone();
    assert_eq!(extract_chunks_bytearray(&mut buffer).unwrap_err(), UCFBError::Truncated);
    assert_eq!(buffer, before);
    assert_eq!(split_payload(&before).unwrap_err(), UCFBError::Truncated);
}

#[test]
fn truncated_chunk_is_not_consumed_in_part() {
    let good = container_chunk(b"GOOD", b"abcde");
    let bad = b"BAD_\x09\x00\x00\x00abcdefgh".to_vec();
    let mut buffer = good.clone();
    buffer.extend_from_slice(&bad);
    assert_eq!(extract_chunks_bytearray(&mut buffer).unwrap_err(), UCFBError::Truncated);
    assert_eq!(buffer, bad);

    let mut stream = good.clone();
    stream.extend_from_slice(&bad);
    let mut cursor = 0;
    assert_eq!(extract_chunks(&stream, &mut cursor).unwrap_err(), UCFBError::Truncated);
    assert_eq!(cursor, good.len());
}

#[test]
fn declared_size_that_just_fits_is_accepted() {
    let mut buffer = b"AAAA\x04\x00\x00\x00abcd".to_vec();
    let chunks = extract_chunks_bytearray(&mut buffer).unwrap();
    assert_eq!(chunks[0].data, b"abcd".to_vec());
    let mut buffer = b"AAAA\x05\x00\x00\x00abcd".to_vec();
    assert_eq!(extract_chunks_bytearray(&mut buffer).unwrap_err(), UCFBError::Truncated);
    let mut buffer = b"AAAA\xFF\xFF\xFF\xFFabcd".to_vec();
    assert_eq!(extract_chunks_bytearray(&mut buffer).unwrap_err(), UCFBError::Truncated);
}

#[test]
fn writing_what_was_extracted_gives_the_stream_back() {
    let mut stream = container_chunk(b"scr_", b"three");
    stream.extend(container_chunk(b"\x60\x70\x1F\x2F", b""));
    stream.extend(container_chunk(b"tex_", b"1234567"));
    stream.extend(container_chunk(b"lvl_", &container_chunk(b"what", b"ever")));
    let chunks = split_payload(&stream).unwrap();
    assert_eq!(chunks.len(), 4);
    let mut out = Vec::new();
    write_chunks(&chunks, &mut out);
    assert_eq!(out, stream);
}

#[test]
fn extracting_what_was_written_gives_the_chunks_back() {
    let chunks = vec![
        Chunk {
            header: ChunkHeader { name: *b"ONE_", size: 1 },
            data: vec![0x11],
            deciphered_chunk: None,
        },
        Chunk {
            header: ChunkHeader { name: *b"SIX_", size: 6 },
            data: vec![1, 2, 3, 4, 5, 6],
            deciphered_chunk: None,
        },
    ];
    let mut out = vec![0xAB];
    write_chunks(&chunks, &mut out);
    assert_eq!(out.len(), 1 + 12 + 16);
    assert_eq!(out[0], 0xAB);
    assert_eq!(&out[1..13], b"ONE_\x01\x00\x00\x00\x11\x00\x00\x00");
    let back = split_payload(&out[1..]).unwrap();
    assert_eq!(back.len(), 2);
    assert_eq!(back[0].header.name, *b"ONE_");
    assert_eq!(back[0].data, vec![0x11]);
    assert_eq!(back[1].header.size, 6);
    assert_eq!(back[1].data, vec![1, 2, 3, 4, 5, 6]);
}

#[test]
fn padding_that_is_not_zero_is_read_over_and_written_as_zero() {
    let stream = b"AAAA\x01\x00\x00\x00a\xFF\xFF\xFFBBBB\x00\x00\x00\x00".to_vec();
    let chunks = split_payload(&stream).unwrap();
    assert_eq!(chunks.len(), 2);
    let mut out = Vec::new();
    write_chunks(&chunks, &mut out);
    assert_eq!(out, b"AAAA\x01\x00\x00\x00a\x00\x00\x00BBBB\x00\x00\x00\x00".to_vec());
}

#[test]
fn archive_of_size_eight_is_empty() {
    let file = UCFBFile::new(b"ucfb\x08\x00\x00\x00").unwrap();
    assert_eq!(file.header.size, 8);
    assert!(file.chunks.is_empty());
}

#[test]
fn archive_of_size_eight_ignores_what_follows() {
    let mut bytes = b"ucfb\x08\x00\x00\x00".to_vec();
    bytes.extend_from_slice(b"AAAA\x00\x00\x00\x00");
    let file = UCFBFile::new(&bytes).unwrap();
    assert!(file.chunks.is_empty());
}

#[test]
fn archive_with_a_size_below_eight_is_too_small() {
    assert_eq!(UCFBFile::new(b"ucfb\x07\x00\x00\x00").unwrap_err(), UCFBError::FileTooSmall);
    assert_eq!(UCFBFile::new(b"ucfb\x00\x00\x00\x00").unwrap_err(), UCFBError::FileTooSmall);
    assert_eq!(UCFBFile::new(b"ucfb").unwrap_err(), UCFBError::FileTooSmall);
}

#[test]
fn archive_without_the_magic_is_refused() {
    assert_eq!(UCFBFile::new(b"bfcu\x08\x00\x00\x00").unwrap_err(), UCFBError::NotAUCFBFile);
    assert_eq!(UCFBFile::new(b"").unwrap_err(), UCFBError::NotAUCFBFile);
}

#[test]
fn archive_whose_size_is_not_that_of_its_data_is_refused() {
    let mut bytes = container_archive(&container_chunk(b"AAAA", b"abcd"));
    bytes.push(0);
    assert_eq!(UCFBFile::new(&bytes).unwrap_err(), UCFBError::WrongHeaderSize);
    let bytes = b"ucfb\x09\x00\x00\x00".to_vec();
    assert_eq!(UCFBFile::new(&bytes).unwrap_err(), UCFBError::WrongHeaderSize);
}

#[test]
fn archive_is_split_behind_its_header() {
    let mut data = container_chunk(b"AAAA", b"abcde");
    data.extend(container_chunk(b"BBBB", b"fg"));
    let file = UCFBFile::new(&container_archive(&data)).unwrap();
    assert_eq!(file.header.size as usize, data.len());
    assert_eq!(file.chunks.len(), 2);
    assert_eq!(file.chunks[0].data, b"abcde".to_vec());
    assert_eq!(file.chunks[1].header.name, *b"BBBB");
    assert!(file.chunks[1].deciphered_chunk.is_none());
}

#[test]
fn archive_with_a_truncated_chunk_is_refused() {
    let data = b"AAAA\x08\x00\x00\x00abcd\x00\x00\x00\x00".to_vec();
    assert!(UCFBFile::new(&container_archive(&data)).is_ok());
    let data = b"AAAA\x09\x00\x00\x00abcd\x00\x00\x00\x00".to_vec();
    assert_eq!(UCFBFile::new(&container_archive(&data)).unwrap_err(), UCFBError::Truncated);
}

#[test]
fn copies_keep_headers_and_payloads() {
    let data = container_chunk(b"AAAA", b"abcde");
    let file = UCFBFile::new(&container_archive(&data)).unwrap();
    let copy = file.clone();
    assert_eq!(copy.header.size, file.header.size);
    assert_eq!(copy.chunks.len(), 1);
    assert_eq!(copy.chunks[0].header.name, *b"AAAA");
    assert_eq!(copy.chunks[0].data, b"abcde".to_vec());
    let chunk = file.chunks[0].clone();
    assert_eq!(chunk.header.size, 5);
    assert_eq!(chunk.data, b"abcde".to_vec());
}
