use pmsg::{Chunk, ChunkType, PMSGError, Png};

const SIGNATURE: [u8; 8] = [0x89, 0x50, 0x4e, 0x47, 0x0d, 0x0a, 0x1a, 0x0a];

fn chunk_record(type_text: &str, data: &[u8]) -> Vec<u8> {
    let ct = ChunkType::from_str(type_text).unwrap();
    Chunk::new(ct, data.to_vec()).unwrap().as_bytes()
}

fn sample_png_bytes() -> Vec<u8> {
    let mut out = SIGNATURE.to_vec();
    out.extend(chunk_record("IHDR", b"header payload"));
    out.extend(chunk_record("miDl", b"middle payload"));
    out.extend(chunk_record("IEND", b""));
    out
}

#[test]
fn test_png_parse_and_serialize_roundtrip() {
    let bytes = sample_png_bytes();
    let png = Png::try_from(bytes.as_ref()).unwrap();
    assert_eq!(png.chunk_count(), 3);
    assert_eq!(png.as_bytes(), bytes);
}

#[test]
fn test_png_parse_reads_chunks_in_order() {
    let bytes = sample_png_bytes();
    let png = Png::try_from(bytes.as_ref()).unwrap();
    let chunks = png.chunks();
    assert_eq!(chunks[0].chunk_type().bytes(), *b"IHDR");
    assert_eq!(chunks[1].chunk_type().bytes(), *b"miDl");
    assert_eq!(chunks[2].chunk_type().bytes(), *b"IEND");
    assert_eq!(chunks[1].data(), b"middle payload");
}

#[test]
fn test_png_rejects_bad_signature() {
    let mut bytes = sample_png_bytes();
    bytes[0] = 0x88;
    let r = Png::try_from(bytes.as_ref());
    assert!(matches!(r, Err(PMSGError::InvalidPNGFileHeader)));
}

#[test]
fn test_png_rejects_short_input() {
    let bytes = &SIGNATURE[..5];
    let r = Png::try_from(bytes);
    assert!(matches!(r, Err(PMSGError::TruncatedInput)));
}

#[test]
fn test_png_rejects_non_ihdr_leading_chunk() {
    // Every chunk is well formed, but the first one is not IHDR.
    let mut bytes = SIGNATURE.to_vec();
    bytes.extend(chunk_record("miDl", b"middle payload"));
    bytes.extend(chunk_record("IEND", b""));
    let r = Png::try_from(bytes.as_ref());
    assert!(matches!(r, Err(PMSGError::InvalidStartingChunk)));
}

#[test]
fn test_png_rejects_empty_chunk_list() {
    let r = Png::try_from(&SIGNATURE[..]);
    assert!(matches!(r, Err(PMSGError::InvalidStartingChunk)));
}

#[test]
fn test_png_propagates_chunk_error() {
    let mut bytes = sample_png_bytes();
    let last = bytes.len() - 1;
    bytes[last] ^= 0x01;
    let r = Png::try_from(bytes.as_ref());
    assert!(matches!(r, Err(PMSGError::InvalidCRC)));
}

#[test]
fn test_append_then_remove_restores_serialization() {
    let bytes = sample_png_bytes();
    let mut png = Png::try_from(bytes.as_ref()).unwrap();
    let before = png.as_bytes();

    let ct = ChunkType::from_str("TeSt").unwrap();
    let chunk = Chunk::new(ct, b"hidden".to_vec()).unwrap();
    let expected_crc = chunk.crc();
    png.append_chunk(chunk);
    assert_eq!(png.chunk_count(), 4);

    let removed = png.remove_chunk("TeSt").unwrap();
    assert_eq!(removed.chunk_type().bytes(), *b"TeSt");
    assert_eq!(removed.data(), b"hidden");
    assert_eq!(removed.crc(), expected_crc);
    assert_eq!(png.as_bytes(), before);
}

#[test]
fn test_remove_chunk_takes_first_match() {
    let mut bytes = sample_png_bytes();
    bytes.extend(chunk_record("TeSt", b"first"));
    bytes.extend(chunk_record("TeSt", b"second"));
    let mut png = Png::try_from(bytes.as_ref()).unwrap();

    let removed = png.remove_chunk("TeSt").unwrap();
    assert_eq!(removed.data(), b"first");
    assert_eq!(png.chunk_count(), 4);

    let removed = png.remove_chunk("TeSt").unwrap();
    assert_eq!(removed.data(), b"second");

    let r = png.remove_chunk("TeSt");
    assert!(matches!(r, Err(PMSGError::ChunkTypeNotFound)));
}

#[test]
fn test_remove_chunk_not_found_leaves_png_unchanged() {
    let bytes = sample_png_bytes();
    let mut png = Png::try_from(bytes.as_ref()).unwrap();
    let before = png.as_bytes();

    let r = png.remove_chunk("AbSt");
    assert!(matches!(r, Err(PMSGError::ChunkTypeNotFound)));
    assert_eq!(png.chunk_count(), 3);
    assert_eq!(png.as_bytes(), before);
}

#[test]
fn test_remove_chunk_invalid_key() {
    let bytes = sample_png_bytes();
    let mut png = Png::try_from(bytes.as_ref()).unwrap();

    let r = png.remove_chunk("Ru1t");
    assert!(matches!(r, Err(PMSGError::InvalidChunkType)));
    let r = png.remove_chunk("toolong");
    assert!(matches!(r, Err(PMSGError::InvalidChunkType)));
    assert_eq!(png.chunk_count(), 3);
}

#[test]
fn test_insert_before_keeps_terminal_chunk_last() {
    let bytes = sample_png_bytes();
    let mut png = Png::try_from(bytes.as_ref()).unwrap();

    let ct = ChunkType::from_str("TeSt").unwrap();
    let chunk = Chunk::new(ct, b"hidden".to_vec()).unwrap();
    png.insert_before(chunk, "IEND").unwrap();

    let chunks = png.chunks();
    assert_eq!(chunks.len(), 4);
    assert_eq!(chunks[2].chunk_type().bytes(), *b"TeSt");
    assert_eq!(chunks[3].chunk_type().bytes(), *b"IEND");
}

#[test]
fn test_insert_before_fails_without_terminal() {
    let mut bytes = SIGNATURE.to_vec();
    bytes.extend(chunk_record("IHDR", b"header payload"));
    let mut png = Png::try_from(bytes.as_ref()).unwrap();
    let before = png.as_bytes();

    let ct = ChunkType::from_str("TeSt").unwrap();
    let chunk = Chunk::new(ct, b"hidden".to_vec()).unwrap();
    let r = png.insert_before(chunk, "IEND");
    assert!(matches!(r, Err(PMSGError::ChunkTypeNotFound)));
    assert_eq!(png.as_bytes(), before);
}

#[test]
fn test_find_chunks_lists_every_match_in_order() {
    let mut bytes = sample_png_bytes();
    bytes.extend(chunk_record("TeSt", b"first"));
    bytes.extend(chunk_record("TeSt", b"second"));
    let png = Png::try_from(bytes.as_ref()).unwrap();

    let ct = ChunkType::from_str("TeSt").unwrap();
    let found = png.find_chunks(&ct);
    assert_eq!(found, vec![3, 4]);
    assert_eq!(png.chunk_at(3).data(), b"first");
    assert_eq!(png.chunk_at(4).data(), b"second");

    let ct = ChunkType::from_str("NoNe").unwrap();
    let found = png.find_chunks(&ct);
    assert!(found.is_empty());
}

#[test]
fn test_png_to_text() {
    let mut bytes = SIGNATURE.to_vec();
    bytes.extend(chunk_record("IHDR", b"hd"));
    bytes.extend(chunk_record("IEND", b""));
    let png = Png::try_from(bytes.as_ref()).unwrap();
    assert_eq!(png.to_text(), "PNG signature OK\nIHDR\"hd\"\nIEND\"\"\n");
}

#[test]
fn test_error_messages() {
    assert_eq!(PMSGError::InvalidCRC.message(), "invalid CRC");
    assert_eq!(PMSGError::InvalidChunkType.message(), "invalid chunk type");
    assert_eq!(
        PMSGError::ChunkTypeNotFound.message(),
        "chunk type not found"
    );
}
