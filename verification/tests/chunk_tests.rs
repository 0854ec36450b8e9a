use pngme::chunk::{Chunk, ChunkParseError, EncodingError};
use pngme::chunk_type::{ChunkType, InvalidChunkType};

fn assemble(length: u32, chunk_type: &[u8], data: &[u8], crc: u32) -> Vec<u8> {
    length
        .to_be_bytes()
        .iter()
        .chain(chunk_type.iter())
        .chain(data.iter())
        .chain(crc.to_be_bytes().iter())
        .copied()
        .collect()
}

fn testing_chunk() -> Chunk {
    let data_length: u32 = 42;
    let chunk_type = "RuSt".as_bytes();
    let message_bytes = "This is where your secret message will be!".as_bytes();
    let crc: u32 = 2882656334;

    let chunk_data: Vec<u8> = data_length
        .to_be_bytes()
        .iter()
        .chain(chunk_type.iter())
        .chain(message_bytes.iter())
        .chain(crc.to_be_bytes().iter())
        .copied()
        .collect();

    Chunk::try_from(chunk_data.as_ref()).unwrap()
}

#[test]
fn test_new_chunk() {
    let chunk_type = ChunkType::from_str("RuSt").unwrap();
    let data = "This is where your secret message will be!".as_bytes().to_vec();
    let chunk = Chunk::new(chunk_type, data);
    assert_eq!(chunk.length(), 42);
    assert_eq!(chunk.crc(), 2882656334);
}

#[test]
fn test_chunk_length() {
    let chunk = testing_chunk();
    assert_eq!(chunk.length(), 42);
}

#[test]
fn test_chunk_type() {
    let chunk = testing_chunk();
    assert_eq!(chunk.chunk_type().to_string(), String::from("RuSt"));
}

#[test]
fn test_chunk_string() {
    let chunk = testing_chunk();
    let chunk_string = chunk.data_as_string().unwrap();
    let expected_chunk_string = String::from("This is where your secret message will be!");
    assert_eq!(chunk_string, expected_chunk_string);
}

#[test]
fn test_chunk_crc() {
    let chunk = testing_chunk();
    assert_eq!(chunk.crc(), 2882656334);
}

#[test]
fn test_valid_chunk_from_bytes() {
    let data_length: u32 = 42;
    let chunk_type = "RuSt".as_bytes();
    let message_bytes = "This is where your secret message will be!".as_bytes();
    let crc: u32 = 2882656334;

    let chunk_data: Vec<u8> = data_length
        .to_be_bytes()
        .iter()
        .chain(chunk_type.iter())
        .chain(message_bytes.iter())
        .chain(crc.to_be_bytes().iter())
        .copied()
        .collect();

    let chunk = Chunk::try_from(chunk_data.as_ref()).unwrap();

    let chunk_string = chunk.data_as_string().unwrap();
    let expected_chunk_string = String::from("This is where your secret message will be!");

    assert_eq!(chunk.length(), 42);
    assert_eq!(chunk.chunk_type().to_string(), String::from("RuSt"));
    assert_eq!(chunk_string, expected_chunk_string);
    assert_eq!(chunk.crc(), 2882656334);
}

#[test]
fn test_invalid_chunk_from_bytes() {
    let data_length: u32 = 42;
    let chunk_type = "RuSt".as_bytes();
    let message_bytes = "This is where your secret message will be!".as_bytes();
    let crc: u32 = 2882656333;

    let chunk_data: Vec<u8> = data_length
        .to_be_bytes()
        .iter()
        .chain(chunk_type.iter())
        .chain(message_bytes.iter())
        .chain(crc.to_be_bytes().iter())
        .copied()
        .collect();

    let chunk = Chunk::try_from(chunk_data.as_ref());

    assert!(chunk.is_err());
}

#[test]
pub fn test_chunk_trait_impls() {
    let data_length: u32 = 42;
    let chunk_type = "RuSt".as_bytes();
    let message_bytes = "This is where your secret message will be!".as_bytes();
    let crc: u32 = 2882656334;

    let chunk_data: Vec<u8> = data_length
        .to_be_bytes()
        .iter()
        .chain(chunk_type.iter())
        .chain(message_bytes.iter())
        .chain(crc.to_be_bytes().iter())
        .copied()
        .collect();

    let chunk: Chunk = TryFrom::try_from(chunk_data.as_ref()).unwrap();

    let _chunk_string = chunk.to_string();
}

#[test]
fn wrong_checksum_is_a_checksum_error() {
    let bytes = assemble(
        42,
        b"RuSt",
        b"This is where your secret message will be!",
        2882656333,
    );
    assert_eq!(
        Chunk::try_from(bytes.as_slice()).unwrap_err(),
        ChunkParseError::ChecksumMismatch
    );
}

#[test]
fn parsed_chunk_exposes_the_four_fields() {
    let chunk = testing_chunk();
    assert_eq!(chunk.length(), 42);
    assert_eq!(chunk.chunk_type().bytes(), *b"RuSt");
    assert_eq!(chunk.data(), b"This is where your secret message will be!");
    assert_eq!(chunk.crc(), 2882656334);
}

#[test]
fn checksum_of_an_empty_end_chunk() {
    let chunk = Chunk::new(ChunkType::from_str("IEND").unwrap(), Vec::new());
    assert_eq!(chunk.length(), 0);
    assert_eq!(chunk.crc(), 0xAE42_6082);
    assert_eq!(
        chunk.as_bytes(),
        vec![0, 0, 0, 0, 73, 69, 78, 68, 0xAE, 0x42, 0x60, 0x82]
    );
}

#[test]
fn checksum_covers_type_then_data() {
    // CRC-32 of the nine letters "abCdefghi", four as type and five as data
    let chunk = Chunk::new(ChunkType::from_str("abCd").unwrap(), b"efghi".to_vec());
    assert_eq!(chunk.crc(), 0x4214B133);
    let other = Chunk::new(ChunkType::from_str("abCd").unwrap(), b"efghj".to_vec());
    assert_ne!(other.crc(), chunk.crc());
}

#[test]
fn bytes_are_length_type_data_checksum() {
    let chunk = Chunk::new(
        ChunkType::from_str("RuSt").unwrap(),
        b"This is where your secret message will be!".to_vec(),
    );
    let expected = assemble(
        42,
        b"RuSt",
        b"This is where your secret message will be!",
        2882656334,
    );
    assert_eq!(chunk.as_bytes(), expected);
    assert_eq!(chunk.as_bytes().len(), 12 + 42);
}

#[test]
fn written_chunk_reads_back_the_same() {
    for (code, data) in [
        ("RuSt", b"This is where your secret message will be!".to_vec()),
        ("IEND", Vec::new()),
        ("teXt", vec![0u8, 255, 128, 7]),
        ("ZZZZ", vec![9u8; 300]),
    ] {
        let chunk = Chunk::new(ChunkType::from_str(code).unwrap(), data.clone());
        let bytes = chunk.as_bytes();
        let back = Chunk::try_from(bytes.as_slice()).unwrap();
        assert_eq!(back.length(), chunk.length());
        assert_eq!(back.chunk_type(), chunk.chunk_type());
        assert_eq!(back.data(), chunk.data());
        assert_eq!(back.crc(), chunk.crc());
        assert_eq!(back.length() as usize, data.len());
        assert_eq!(back.data(), data.as_slice());
        assert_eq!(back.as_bytes(), bytes);
    }
}

#[test]
fn every_chunk_has_a_valid_type() {
    let made = Chunk::new(ChunkType::from_str("teSt").unwrap(), b"x".to_vec());
    assert!(made.chunk_type().is_valid());
    let read = Chunk::try_from(made.as_bytes().as_slice()).unwrap();
    assert!(read.chunk_type().is_valid());
    assert!(testing_chunk().chunk_type().is_valid());
}

#[test]
fn every_flipped_bit_of_type_or_data_is_caught() {
    let bytes = testing_chunk().as_bytes();
    for i in 4..bytes.len() - 4 {
        for bit in 0..8 {
            let mut changed = bytes.clone();
            changed[i] ^= 1 << bit;
            let result = Chunk::try_from(changed.as_slice());
            let code: &[u8] = &changed[4..8];
            match ChunkType::try_from(code) {
                Ok(_) => assert_eq!(result.unwrap_err(), ChunkParseError::ChecksumMismatch),
                Err(e) => assert_eq!(result.unwrap_err(), ChunkParseError::InvalidType(e)),
            }
        }
    }
}

#[test]
fn too_short() {
    let whole = testing_chunk().as_bytes();
    for n in 0..12 {
        assert_eq!(
            Chunk::try_from(&whole[..n]).unwrap_err(),
            ChunkParseError::TooShort
        );
    }
}

#[test]
fn twelve_bytes_are_enough() {
    let bytes = assemble(0, b"IEND", b"", 0xAE42_6082);
    assert_eq!(bytes.len(), 12);
    let chunk = Chunk::try_from(bytes.as_slice()).unwrap();
    assert_eq!(chunk.length(), 0);
    assert_eq!(chunk.data(), b"");
}

#[test]
fn length_field_must_match_the_data() {
    let whole = testing_chunk().as_bytes();
    // one byte missing at the end
    assert_eq!(
        Chunk::try_from(&whole[..whole.len() - 1]).unwrap_err(),
        ChunkParseError::LengthMismatch
    );
    // one byte too many
    let mut longer = whole.clone();
    longer.push(0);
    assert_eq!(
        Chunk::try_from(longer.as_slice()).unwrap_err(),
        ChunkParseError::LengthMismatch
    );
    // a length far beyond the buffer
    let huge = assemble(u32::MAX, b"RuSt", b"abc", 0);
    assert_eq!(
        Chunk::try_from(huge.as_slice()).unwrap_err(),
        ChunkParseError::LengthMismatch
    );
}

#[test]
fn type_is_checked_before_length_and_checksum() {
    let bytes = assemble(7, b"Ru1t", b"abc", 0);
    assert_eq!(
        Chunk::try_from(bytes.as_slice()).unwrap_err(),
        ChunkParseError::InvalidType(InvalidChunkType::NotAlphabetic)
    );
    let bytes = assemble(7, b"Rust", b"abc", 0);
    assert_eq!(
        Chunk::try_from(bytes.as_slice()).unwrap_err(),
        ChunkParseError::InvalidType(InvalidChunkType::ReservedBitSet)
    );
}

#[test]
fn length_is_read_big_endian() {
    let data = vec![7u8; 258];
    let chunk = Chunk::new(ChunkType::from_str("teSt").unwrap(), data);
    let bytes = chunk.as_bytes();
    assert_eq!(&bytes[..4], &[0, 0, 1, 2]);
    assert_eq!(Chunk::try_from(bytes.as_slice()).unwrap().length(), 258);
}

#[test]
fn data_that_is_no_text() {
    let chunk = Chunk::new(ChunkType::from_str("teSt").unwrap(), vec![0xFF, 0xFE]);
    assert_eq!(chunk.data_as_string(), Err(EncodingError));
    assert_eq!(chunk.data(), &[0xFF, 0xFE]);
    let cut = Chunk::new(ChunkType::from_str("teSt").unwrap(), vec![0xC3]);
    assert_eq!(cut.data_as_string(), Err(EncodingError));
}

#[test]
fn data_that_is_text_beyond_ascii() {
    let chunk = Chunk::new(
        ChunkType::from_str("teSt").unwrap(),
        "caf\u{e9} \u{1F600}".as_bytes().to_vec(),
    );
    assert_eq!(chunk.data_as_string().unwrap(), "caf\u{e9} \u{1F600}");
    let empty = Chunk::new(ChunkType::from_str("teSt").unwrap(), Vec::new());
    assert_eq!(empty.data_as_string().unwrap(), "");
}

#[test]
fn chunk_as_text() {
    let chunk = Chunk::new(ChunkType::from_str("RuSt").unwrap(), b"Hi!".to_vec());
    assert_eq!(
        chunk.to_string(),
        format!(
            "length:3\ndType:RuSt\n,Data[72, 105, 33]\n,CRC:{}\n",
            chunk.crc()
        )
    );
    let empty = Chunk::new(ChunkType::from_str("IEND").unwrap(), Vec::new());
    assert_eq!(
        empty.to_string(),
        "length:0\ndType:IEND\n,Data[]\n,CRC:2923585666\n"
    );
}

fn shift(v: u32) -> u32 {
    if v & 1 == 1 {
        (v >> 1) ^ 0xEDB8_8320
    } else {
        v >> 1
    }
}

fn feed(register: u32, byte: u8) -> u32 {
    let mut entry = (register ^ byte as u32) & 0xFF;
    for _ in 0..8 {
        entry = shift(entry);
    }
    entry ^ (register >> 8)
}

fn crc32_by_definition(bytes: &[u8]) -> u32 {
    let mut register = 0xFFFF_FFFFu32;
    for byte in bytes {
        register = feed(register, *byte);
    }
    register ^ 0xFFFF_FFFF
}

#[test]
fn definition_gives_the_catalogue_check_value() {
    assert_eq!(crc32_by_definition(b"123456789"), 0xCBF4_3926);
    assert_eq!(crc32_by_definition(b""), 0);
}

#[test]
fn checksum_agrees_with_its_definition() {
    let mut seed: u32 = 0x1234_5678;
    for len in 0..300usize {
        let mut data = Vec::with_capacity(len);
        for _ in 0..len {
            seed = seed.wrapping_mul(1664525).wrapping_add(1013904223);
            data.push((seed >> 24) as u8);
        }
        for code in ["teSt", "IDAT", "zzZz"] {
            let mut message = code.as_bytes().to_vec();
            message.extend(&data);
            let chunk = Chunk::new(ChunkType::from_str(code).unwrap(), data.clone());
            assert_eq!(chunk.crc(), crc32_by_definition(&message));
        }
    }
}
