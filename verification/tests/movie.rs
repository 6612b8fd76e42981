use libzeroengine::mvs::{Movie, MovieError, CLIP_OVERHEAD, LEAD_LEN, MOVIE_TAG};
use libzeroengine::ucfb::{Chunk, ChunkHeader};

fn movie_chunk(tag: [u8; 4], payload: Vec<u8>) -> Chunk {
    Chunk {
        header: ChunkHeader { name: tag, size: payload.len() as u32 },
        data: payload,
        deciphered_chunk: None,
    }
}

fn movie_clip(declared: u32, fill: u8) -> Vec<u8> {
    let mut clip = b"BIKi".to_vec();
    clip.extend_from_slice(&declared.to_le_bytes());
    while clip.len() < declared as usize + 15 {
        clip.push(fill);
    }
    clip
}

fn movie_payload(behind_lead: &[u8]) -> Vec<u8> {
    let mut payload = vec![0u8; 0x7F0];
    payload.extend_from_slice(behind_lead);
    payload
}

#[test]
fn movie_constants() {
    assert_eq!(MOVIE_TAG, [0x60, 0x70, 0x1F, 0x2F]);
    assert_eq!(LEAD_LEN, 2032);
    assert_eq!(CLIP_OVERHEAD, 15);
}

#[test]
fn three_clips_with_padding_between_them() {
    let clips = [movie_clip(1, 0xA1), movie_clip(9, 0xB2), movie_clip(20, 0xC3)];
    assert_eq!(clips[0].len(), 16);
    assert_eq!(clips[1].len(), 24);
    assert_eq!(clips[2].len(), 35);
    let mut data = Vec::new();
    data.extend_from_slice(&[0x00, 0x01, 0x02, 0x03]);
    data.extend_from_slice(&clips[0]);
    data.extend_from_slice(&[0xFF; 8]);
    data.extend_from_slice(&clips[1]);
    data.extend_from_slice(&clips[2]);
    data.extend_from_slice(&[0x00; 5]);
    let movie = Movie::from_chunk(movie_chunk(MOVIE_TAG, movie_payload(&data))).unwrap();
    assert_eq!(movie.bink_files.len(), 3);
    assert_eq!(movie.bink_files[0], clips[0]);
    assert_eq!(movie.bink_files[1], clips[1]);
    assert_eq!(movie.bink_files[2], clips[2]);
    assert_eq!(movie.bink_files[0].len(), 1 + 15);
    assert_eq!(movie.bink_files[1].len(), 9 + 15);
    assert_eq!(movie.bink_files[2].len(), 20 + 15);
}

#[test]
fn scan_resumes_at_the_next_multiple_of_four() {
    let first = movie_clip(2, 0x11);
    assert_eq!(first.len(), 17);
    let second = movie_clip(0, 0x22);
    let mut data = first.clone();
    data.extend_from_slice(&[0x00; 3]);
    data.extend_from_slice(&second);
    let movie = Movie::from_chunk(movie_chunk(MOVIE_TAG, movie_payload(&data))).unwrap();
    assert_eq!(movie.bink_files, vec![first.clone(), second.clone()]);

    let mut data = first.clone();
    data.extend_from_slice(&second);
    let movie = Movie::from_chunk(movie_chunk(MOVIE_TAG, movie_payload(&data))).unwrap();
    assert_eq!(movie.bink_files.len(), 1);
    assert_eq!(movie.bink_files[0], data[..17].to_vec());
}

#[test]
fn bytes_of_a_clip_are_not_scanned_again() {
    let mut clip = movie_clip(17, 0x00);
    clip[8..11].copy_from_slice(b"BIK");
    clip[12..16].copy_from_slice(&[0xFF, 0xFF, 0xFF, 0x7F]);
    let movie = Movie::from_chunk(movie_chunk(MOVIE_TAG, movie_payload(&clip))).unwrap();
    assert_eq!(movie.bink_files, vec![clip]);
}

#[test]
fn signature_off_the_grid_is_not_seen() {
    let mut data = vec![0u8; 2];
    data.extend_from_slice(&movie_clip(0, 0x33));
    data.extend_from_slice(&[0u8; 2]);
    let movie = Movie::from_chunk(movie_chunk(MOVIE_TAG, movie_payload(&data))).unwrap();
    assert!(movie.bink_files.is_empty());
}

#[test]
fn clip_that_ends_with_the_payload_is_whole() {
    let clip = movie_clip(5, 0x44);
    assert_eq!(clip.len(), 20);
    let movie = Movie::from_chunk(movie_chunk(MOVIE_TAG, movie_payload(&clip))).unwrap();
    assert_eq!(movie.bink_files, vec![clip.clone()]);

    let short = &clip[..19];
    let result = Movie::from_chunk(movie_chunk(MOVIE_TAG, movie_payload(short)));
    assert_eq!(result.unwrap_err(), MovieError::CorruptedMovie);
}

#[test]
fn clip_with_a_cut_size_field_is_corrupted() {
    for len in 3usize..8 {
        let clip = movie_clip(0, 0x55);
        let result = Movie::from_chunk(movie_chunk(MOVIE_TAG, movie_payload(&clip[..len])));
        assert_eq!(result.unwrap_err(), MovieError::CorruptedMovie);
    }
}

#[test]
fn clip_that_declares_the_largest_size_is_corrupted() {
    let mut data = b"BIKi".to_vec();
    data.extend_from_slice(&[0xFF, 0xFF, 0xFF, 0xFF]);
    data.extend_from_slice(&[0u8; 64]);
    let result = Movie::from_chunk(movie_chunk(MOVIE_TAG, movie_payload(&data)));
    assert_eq!(result.unwrap_err(), MovieError::CorruptedMovie);
}

#[test]
fn movie_without_clips_is_empty() {
    let movie = Movie::from_chunk(movie_chunk(MOVIE_TAG, movie_payload(&[]))).unwrap();
    assert!(movie.bink_files.is_empty());
    let movie = Movie::from_chunk(movie_chunk(MOVIE_TAG, movie_payload(b"BI"))).unwrap();
    assert!(movie.bink_files.is_empty());
    let movie = Movie::from_chunk(movie_chunk(MOVIE_TAG, movie_payload(&[7u8; 41]))).unwrap();
    assert!(movie.bink_files.is_empty());
}

#[test]
fn lead_is_not_scanned() {
    let mut payload = vec![0u8; 0x7F0];
    payload[0..3].copy_from_slice(b"BIK");
    payload[4..8].copy_from_slice(&[0xFF, 0xFF, 0xFF, 0xFF]);
    let movie = Movie::from_chunk(movie_chunk(MOVIE_TAG, payload)).unwrap();
    assert!(movie.bink_files.is_empty());
}

#[test]
fn movie_shorter_than_its_lead_is_corrupted() {
    let result = Movie::from_chunk(movie_chunk(MOVIE_TAG, vec![0u8; 0x7EF]));
    assert_eq!(result.unwrap_err(), MovieError::CorruptedMovie);
    let result = Movie::from_chunk(movie_chunk(MOVIE_TAG, Vec::new()));
    assert_eq!(result.unwrap_err(), MovieError::CorruptedMovie);
}

#[test]
fn other_tags_are_no_movie() {
    let result = Movie::from_chunk(movie_chunk(*b"scr_", movie_payload(&[])));
    assert_eq!(result.unwrap_err(), MovieError::NotAMovie);
    let result = Movie::from_chunk(movie_chunk([0x60, 0x70, 0x1F, 0x2E], Vec::new()));
    assert_eq!(result.unwrap_err(), MovieError::NotAMovie);
}
