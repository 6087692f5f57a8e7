use pngme::chunk::Chunk;
use pngme::chunk_type::ChunkType;
use pngme::error::PngError;

fn testing_chunk() -> Chunk {
    let data_length: u32 = 42;
    let chunk_type = "RuSt".as_bytes();
    let message_bytes = "This is where your secret message will be!".as_bytes();
    let crc: u32 = 2882656334;

    let chunk_data: Vec<u8> = data_length
        .to_be_bytes()
        .iter()
        .chain(chunk_type.iter())
        .chain(message_bytes.iter())
        .chain(crc.to_be_bytes().iter())
        .copied()
        .collect();

    Chunk::parse(chunk_data.as_ref()).unwrap()
}

#[test]
fn test_new_chunk() {
    let chunk_type = ChunkType::from_str("RuSt").unwrap();
    let data = "This is where your secret message will be!"
        .as_bytes()
        .to_vec();
    let chunk = Chunk::new(chunk_type, data);
    assert_eq!(chunk.length(), 42);
    assert_eq!(chunk.crc(), 2882656334);
}

#[test]
fn test_chunk_length() {
    let chunk = testing_chunk();
    assert_eq!(chunk.length(), 42);
}

#[test]
fn test_chunk_type() {
    let chunk = testing_chunk();
    assert_eq!(chunk.chunk_type().to_text(), String::from("RuSt"));
}

#[test]
fn test_chunk_string() {
    let chunk = testing_chunk();
    let chunk_string = chunk.data_as_string().unwrap();
    let expected_chunk_string = String::from("This is where your secret message will be!");
    assert_eq!(chunk_string, expected_chunk_string);
}

#[test]
fn test_chunk_crc() {
    let chunk = testing_chunk();
    assert_eq!(chunk.crc(), 2882656334);
}

#[test]
fn test_valid_chunk_from_bytes() {
    let data_length: u32 = 42;
    let chunk_type = "RuSt".as_bytes();
    let message_bytes = "This is where your secret message will be!".as_bytes();
    let crc: u32 = 2882656334;

    let chunk_data: Vec<u8> = data_length
        .to_be_bytes()
        .iter()
        .chain(chunk_type.iter())
        .chain(message_bytes.iter())
        .chain(crc.to_be_bytes().iter())
        .copied()
        .collect();

    let chunk = Chunk::parse(chunk_data.as_ref()).unwrap();

    let chunk_string = chunk.data_as_string().unwrap();
    let expected_chunk_string = String::from("This is where your secret message will be!");

    assert_eq!(chunk.length(), 42);
    assert_eq!(chunk.chunk_type().to_text(), String::from("RuSt"));
    assert_eq!(chunk_string, expected_chunk_string);
    assert_eq!(chunk.crc(), 2882656334);
}

#[test]
fn test_invalid_chunk_from_bytes() {
    let data_length: u32 = 42;
    let chunk_type = "RuSt".as_bytes();
    let message_bytes = "This is where your secret message will be!".as_bytes();
    let crc: u32 = 2882656333;

    let chunk_data: Vec<u8> = data_length
        .to_be_bytes()
        .iter()
        .chain(chunk_type.iter())
        .chain(message_bytes.iter())
        .chain(crc.to_be_bytes().iter())
        .copied()
        .collect();

    let chunk = Chunk::parse(chunk_data.as_ref());

    assert!(chunk.is_err());
}

#[test]
pub fn test_chunk_trait_impls() {
    let data_length: u32 = 42;
    let chunk_type = "RuSt".as_bytes();
    let message_bytes = "This is where your secret message will be!".as_bytes();
    let crc: u32 = 2882656334;

    let chunk_data: Vec<u8> = data_length
        .to_be_bytes()
        .iter()
        .chain(chunk_type.iter())
        .chain(message_bytes.iter())
        .chain(crc.to_be_bytes().iter())
        .copied()
        .collect();

    let chunk: Chunk = Chunk::parse(chunk_data.as_ref()).unwrap();

    let _chunk_string = format!("{:?}", chunk);
}

#[test]
fn test_chunk_serialize_parse_round_trip() {
    let chunk_type = ChunkType::from_str("teXt").unwrap();
    let data: Vec<u8> = vec![0, 1, 2, 255, 254, 128];
    let chunk = Chunk::new(chunk_type, data.clone());
    let wire = chunk.as_bytes();
    let back = Chunk::parse(wire.as_ref()).unwrap();
    assert_eq!(back.length(), chunk.length());
    assert_eq!(back.chunk_type(), chunk.chunk_type());
    assert_eq!(back.data(), chunk.data());
    assert_eq!(back.crc(), chunk.crc());
}

#[test]
fn test_chunk_parse_too_short() {
    let bytes: Vec<u8> = vec![0, 0, 0, 0, 82, 117, 83, 116, 0, 0, 0];
    assert!(matches!(Chunk::parse(bytes.as_ref()), Err(PngError::TruncatedChunk)));
}

#[test]
fn test_chunk_parse_declared_length_exceeds_input() {
    let chunk = testing_chunk();
    let mut wire = chunk.as_bytes();
    wire.truncate(20);
    assert!(matches!(Chunk::parse(wire.as_ref()), Err(PngError::TruncatedChunk)));
}

#[test]
fn test_chunk_parse_oversized_length() {
    let mut bytes: Vec<u8> = Vec::new();
    bytes.extend_from_slice(&0x8000_0001u32.to_be_bytes());
    bytes.extend_from_slice("RuSt".as_bytes());
    bytes.extend_from_slice(&[0, 0, 0, 0]);
    assert!(matches!(Chunk::parse(bytes.as_ref()), Err(PngError::OversizedChunk)));
}

#[test]
fn test_chunk_parse_invalid_type_code() {
    let mut bytes: Vec<u8> = Vec::new();
    bytes.extend_from_slice(&0u32.to_be_bytes());
    bytes.extend_from_slice("Ru1t".as_bytes());
    bytes.extend_from_slice(&[0, 0, 0, 0]);
    assert!(matches!(Chunk::parse(bytes.as_ref()), Err(PngError::InvalidTypeCode)));
}

#[test]
fn test_chunk_parse_data_bit_flip_is_crc_mismatch() {
    let chunk = testing_chunk();
    let mut wire = chunk.as_bytes();
    wire[10] ^= 0x01;
    assert!(matches!(Chunk::parse(wire.as_ref()), Err(PngError::CrcMismatch)));
}

#[test]
fn test_chunk_parse_type_case_flip_is_crc_mismatch() {
    let chunk = testing_chunk();
    let mut wire = chunk.as_bytes();
    wire[4] ^= 0x20;
    assert!(matches!(Chunk::parse(wire.as_ref()), Err(PngError::CrcMismatch)));
}

#[test]
fn test_chunk_parse_crc_bit_flip_is_crc_mismatch() {
    let chunk = testing_chunk();
    let mut wire = chunk.as_bytes();
    let last = wire.len() - 1;
    wire[last] ^= 0x80;
    assert!(matches!(Chunk::parse(wire.as_ref()), Err(PngError::CrcMismatch)));
}

#[test]
fn test_chunk_data_not_utf8() {
    let chunk_type = ChunkType::from_str("RuSt").unwrap();
    let data: Vec<u8> = vec![0xff, 0xfe, 0x00];
    let chunk = Chunk::new(chunk_type, data);
    assert_eq!(chunk.data_as_string(), Err(PngError::NotUtf8));
}

#[test]
fn test_chunk_empty_data() {
    let chunk_type = ChunkType::from_str("RuSt").unwrap();
    let chunk = Chunk::new(chunk_type, Vec::new());
    assert_eq!(chunk.length(), 0);
    assert_eq!(chunk.data_as_string().unwrap(), String::new());
    let wire = chunk.as_bytes();
    assert_eq!(wire.len(), 12);
    let back = Chunk::parse(wire.as_ref()).unwrap();
    assert_eq!(back.crc(), chunk.crc());
}
