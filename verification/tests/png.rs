use pngme::chunk::Chunk;
use pngme::chunk_type::ChunkType;
use pngme::error::PngError;
use pngme::png::Png;

const SIGNATURE: [u8; 8] = [0x89, 0x50, 0x4e, 0x47, 0x0d, 0x0a, 0x1a, 0x0a];

fn chunk_from(type_code: &str, message: &str) -> Chunk {
    let chunk_type = ChunkType::from_str(type_code).unwrap();
    Chunk::new(chunk_type, message.as_bytes().to_vec())
}

fn testing_png_bytes() -> Vec<u8> {
    let mut bytes: Vec<u8> = Vec::new();
    bytes.extend_from_slice(&SIGNATURE);
    bytes.extend_from_slice(&chunk_from("FrSt", "I am the first chunk").as_bytes());
    bytes.extend_from_slice(&chunk_from("miDl", "I am another chunk").as_bytes());
    bytes.extend_from_slice(&chunk_from("LASt", "I am the last chunk").as_bytes());
    bytes
}

#[test]
fn test_png_parse_valid_buffer() {
    let bytes = testing_png_bytes();
    let png = Png::parse(bytes.as_ref()).unwrap();
    assert_eq!(png.chunks().len(), 3);
    assert_eq!(png.chunks()[1].chunk_type().to_text(), "miDl");
}

#[test]
fn test_png_document_round_trip() {
    let bytes = testing_png_bytes();
    let png = Png::parse(bytes.as_ref()).unwrap();
    assert_eq!(png.to_bytes(), bytes);
}

#[test]
fn test_png_empty_document_round_trip() {
    let bytes = SIGNATURE.to_vec();
    let png = Png::parse(bytes.as_ref()).unwrap();
    assert_eq!(png.chunks().len(), 0);
    assert_eq!(png.to_bytes(), bytes);
}

#[test]
fn test_png_parse_bad_signature() {
    let mut bytes = testing_png_bytes();
    bytes[0] = 0x88;
    assert!(matches!(Png::parse(bytes.as_ref()), Err(PngError::BadSignature)));
}

#[test]
fn test_png_parse_short_buffer_is_bad_signature() {
    let bytes: Vec<u8> = vec![0x89, 0x50, 0x4e];
    assert!(matches!(Png::parse(bytes.as_ref()), Err(PngError::BadSignature)));
}

#[test]
fn test_png_parse_truncated_tail() {
    let mut bytes = testing_png_bytes();
    bytes.truncate(bytes.len() - 3);
    assert!(matches!(Png::parse(bytes.as_ref()), Err(PngError::TruncatedChunk)));
}

#[test]
fn test_png_parse_corrupted_chunk() {
    let mut bytes = testing_png_bytes();
    bytes[20] ^= 0x40;
    assert!(matches!(Png::parse(bytes.as_ref()), Err(PngError::CrcMismatch)));
}

#[test]
fn test_png_append_chunk() {
    let bytes = testing_png_bytes();
    let mut png = Png::parse(bytes.as_ref()).unwrap();
    png.append_chunk(chunk_from("RuSt", "Message"));
    assert_eq!(png.chunks().len(), 4);
    let chunk = png.chunk_by_type("RuSt").unwrap();
    assert_eq!(chunk.chunk_type().to_text(), "RuSt");
    assert_eq!(chunk.data_as_string().unwrap(), "Message");
}

#[test]
fn test_png_append_then_remove_restores_document() {
    let bytes = testing_png_bytes();
    let mut png = Png::parse(bytes.as_ref()).unwrap();
    let before = png.chunks().len();
    png.append_chunk(chunk_from("RuSt", "Message"));
    let removed = png.remove_chunk_by_type("RuSt").unwrap();
    let expected = chunk_from("RuSt", "Message");
    assert_eq!(removed.length(), expected.length());
    assert_eq!(removed.chunk_type(), expected.chunk_type());
    assert_eq!(removed.data(), expected.data());
    assert_eq!(removed.crc(), expected.crc());
    assert_eq!(png.chunks().len(), before);
    assert_eq!(png.to_bytes(), bytes);
}

#[test]
fn test_png_chunk_by_type_finds_first_occurrence() {
    let mut bytes = SIGNATURE.to_vec();
    bytes.extend_from_slice(&chunk_from("RuSt", "first").as_bytes());
    bytes.extend_from_slice(&chunk_from("RuSt", "second").as_bytes());
    let png = Png::parse(bytes.as_ref()).unwrap();
    let chunk = png.chunk_by_type("RuSt").unwrap();
    assert_eq!(chunk.data_as_string().unwrap(), "first");
}

#[test]
fn test_png_remove_removes_first_occurrence_only() {
    let mut bytes = SIGNATURE.to_vec();
    bytes.extend_from_slice(&chunk_from("RuSt", "first").as_bytes());
    bytes.extend_from_slice(&chunk_from("RuSt", "second").as_bytes());
    let mut png = Png::parse(bytes.as_ref()).unwrap();
    let removed = png.remove_chunk_by_type("RuSt").unwrap();
    assert_eq!(removed.data_as_string().unwrap(), "first");
    assert_eq!(png.chunks().len(), 1);
    assert_eq!(png.chunk_by_type("RuSt").unwrap().data_as_string().unwrap(), "second");
}

#[test]
fn test_png_chunk_by_type_absent_is_none() {
    let bytes = testing_png_bytes();
    let png = Png::parse(bytes.as_ref()).unwrap();
    assert!(png.chunk_by_type("NoNe").is_none());
    assert!(png.chunk_by_type("xy").is_none());
}

#[test]
fn test_png_remove_absent_is_chunk_not_found() {
    let bytes = testing_png_bytes();
    let mut png = Png::parse(bytes.as_ref()).unwrap();
    assert!(matches!(png.remove_chunk_by_type("NoNe"), Err(PngError::ChunkNotFound)));
    assert_eq!(png.chunks().len(), 3);
}
