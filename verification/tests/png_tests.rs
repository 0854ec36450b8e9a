use pngme::chunk::{Chunk, ChunkParseError};
use pngme::chunk_type::{ChunkType, InvalidChunkType};
use pngme::png::{NotFound, Png, PngParseError};

const SIGNATURE: [u8; 8] = [137, 80, 78, 71, 13, 10, 26, 10];

fn chunk(code: &str, data: &str) -> Chunk {
    Chunk::new(ChunkType::from_str(code).unwrap(), data.as_bytes().to_vec())
}

fn file_of(chunks: &[(&str, &str)]) -> Vec<u8> {
    let mut bytes = SIGNATURE.to_vec();
    for (code, data) in chunks {
        bytes.extend(chunk(code, data).as_bytes());
    }
    bytes
}

fn testing_png() -> Png {
    let bytes = file_of(&[
        ("FrSt", "I am the first chunk"),
        ("miDl", "I am another chunk"),
        ("LASt", "I am the last chunk"),
    ]);
    Png::try_from(bytes.as_slice()).unwrap()
}

fn types(png: &Png) -> Vec<String> {
    png.chunks().iter().map(|c| c.chunk_type().to_string()).collect()
}

#[test]
fn header_is_the_png_signature() {
    assert_eq!(Png::STANDARD_HEADER, SIGNATURE);
    assert_eq!(testing_png().header(), &SIGNATURE);
}

#[test]
fn parses_chunks_in_file_order() {
    let png = testing_png();
    assert_eq!(png.chunks().len(), 3);
    assert_eq!(types(&png), ["FrSt", "miDl", "LASt"]);
    assert_eq!(png.chunks()[1].data_as_string().unwrap(), "I am another chunk");
}

#[test]
fn parsed_file_writes_back_byte_for_byte() {
    for bytes in [
        file_of(&[]),
        file_of(&[("IEND", "")]),
        file_of(&[("FrSt", "one"), ("miDl", ""), ("miDl", "two"), ("LASt", "three")]),
    ] {
        let png = Png::try_from(bytes.as_slice()).unwrap();
        assert_eq!(png.as_bytes(), bytes);
    }
}

#[test]
fn signature_alone_is_an_empty_file() {
    let png = Png::try_from(SIGNATURE.as_slice()).unwrap();
    assert_eq!(png.chunks().len(), 0);
    assert_eq!(png.as_bytes(), SIGNATURE);
}

#[test]
fn bad_signature() {
    let mut bytes = file_of(&[("FrSt", "one")]);
    bytes[0] = 13;
    assert_eq!(
        Png::try_from(bytes.as_slice()).unwrap_err(),
        PngParseError::BadSignature
    );
    let mut bytes = file_of(&[("FrSt", "one")]);
    bytes[7] = 11;
    assert_eq!(
        Png::try_from(bytes.as_slice()).unwrap_err(),
        PngParseError::BadSignature
    );
}

#[test]
fn buffer_shorter_than_the_signature() {
    for n in 0..8 {
        assert_eq!(
            Png::try_from(&SIGNATURE[..n]).unwrap_err(),
            PngParseError::BadSignature
        );
    }
}

#[test]
fn first_refused_chunk_refuses_the_file() {
    let good = file_of(&[("FrSt", "one"), ("miDl", "two")]);

    // the last chunk loses its last byte
    assert_eq!(
        Png::try_from(&good[..good.len() - 1]).unwrap_err(),
        PngParseError::ChunkError(ChunkParseError::LengthMismatch)
    );
    // fewer than twelve bytes are left after the first chunk
    assert_eq!(
        Png::try_from(&good[..8 + 15 + 5]).unwrap_err(),
        PngParseError::ChunkError(ChunkParseError::TooShort)
    );
    // a data byte of the first chunk is changed
    let mut changed = good.clone();
    changed[8 + 8] ^= 1;
    assert_eq!(
        Png::try_from(changed.as_slice()).unwrap_err(),
        PngParseError::ChunkError(ChunkParseError::ChecksumMismatch)
    );
    // the second chunk's type gets a digit
    let mut changed = good.clone();
    changed[8 + 15 + 4] = b'1';
    assert_eq!(
        Png::try_from(changed.as_slice()).unwrap_err(),
        PngParseError::ChunkError(ChunkParseError::InvalidType(InvalidChunkType::NotAlphabetic))
    );
    // both chunks are bad: the first decides
    let mut changed = good.clone();
    changed[8 + 8] ^= 1;
    changed[8 + 15 + 4] = b'1';
    assert_eq!(
        Png::try_from(changed.as_slice()).unwrap_err(),
        PngParseError::ChunkError(ChunkParseError::ChecksumMismatch)
    );
}

#[test]
fn chunk_with_reserved_bit_set_refuses_the_file() {
    let mut bytes = file_of(&[("FrSt", "one")]);
    bytes.extend([0, 0, 0, 1]);
    bytes.extend(b"Rust");
    bytes.extend(b"x");
    bytes.extend([0, 0, 0, 0]);
    assert_eq!(
        Png::try_from(bytes.as_slice()).unwrap_err(),
        PngParseError::ChunkError(ChunkParseError::InvalidType(InvalidChunkType::ReservedBitSet))
    );
}

#[test]
fn append_then_find() {
    for mut png in [
        Png::try_from(SIGNATURE.as_slice()).unwrap(),
        testing_png(),
    ] {
        let before = png.chunks().len();
        png.append_chunk(chunk("ruST", "hello"));
        assert_eq!(png.chunks().len(), before + 1);
        let found = png.chunk_by_type("ruST").unwrap();
        assert_eq!(found.data_as_string().unwrap(), "hello");
        assert_eq!(png.chunks()[before].data_as_string().unwrap(), "hello");
    }
}

#[test]
fn append_keeps_what_was_there() {
    let mut png = testing_png();
    let before = png.as_bytes();
    let added = chunk("ruST", "hello");
    let added_bytes = added.as_bytes();
    png.append_chunk(added);
    let mut expected = before;
    expected.extend(added_bytes);
    assert_eq!(png.as_bytes(), expected);
    assert_eq!(types(&png), ["FrSt", "miDl", "LASt", "ruST"]);
}

#[test]
fn first_match_wins() {
    let mut png = testing_png();
    png.append_chunk(chunk("miDl", "a later one"));
    assert_eq!(
        png.chunk_by_type("miDl").unwrap().data_as_string().unwrap(),
        "I am another chunk"
    );
    let removed = png.remove_chunk("miDl").unwrap();
    assert_eq!(removed.data_as_string().unwrap(), "I am another chunk");
    assert_eq!(
        png.chunk_by_type("miDl").unwrap().data_as_string().unwrap(),
        "a later one"
    );
}

#[test]
fn find_misses() {
    let png = testing_png();
    assert!(png.chunk_by_type("frSt").is_none());
    assert!(png.chunk_by_type("IEND").is_none());
    // strings that spell no chunk type
    assert!(png.chunk_by_type("").is_none());
    assert!(png.chunk_by_type("FrS").is_none());
    assert!(png.chunk_by_type("FrSt ").is_none());
    assert!(png.chunk_by_type("Fr5t").is_none());
}

#[test]
fn remove_then_miss() {
    let mut png = testing_png();
    png.append_chunk(chunk("teST", "only one of these"));
    let removed = png.remove_chunk("teST").unwrap();
    assert_eq!(removed.chunk_type().to_string(), "teST");
    assert_eq!(removed.data_as_string().unwrap(), "only one of these");
    assert_eq!(png.remove_chunk("teST").unwrap_err(), NotFound);
    assert!(png.chunk_by_type("teST").is_none());
}

#[test]
fn remove_keeps_the_order_of_the_rest() {
    let mut png = testing_png();
    let removed = png.remove_chunk("miDl").unwrap();
    assert_eq!(removed.data_as_string().unwrap(), "I am another chunk");
    assert_eq!(types(&png), ["FrSt", "LASt"]);
    assert_eq!(
        png.as_bytes(),
        file_of(&[("FrSt", "I am the first chunk"), ("LASt", "I am the last chunk")])
    );
}

#[test]
fn failed_remove_changes_nothing() {
    let mut png = testing_png();
    let before = png.as_bytes();
    assert_eq!(png.remove_chunk("IEND").unwrap_err(), NotFound);
    assert_eq!(png.remove_chunk("Fr5t").unwrap_err(), NotFound);
    assert_eq!(png.remove_chunk("toolong").unwrap_err(), NotFound);
    assert_eq!(png.as_bytes(), before);
}

#[test]
fn no_chunk_has_the_reserved_bit_set() {
    let mut png = testing_png();
    png.append_chunk(chunk("ruST", "hello"));
    assert!(png.chunks().iter().all(|c| c.chunk_type().is_valid()));
    assert!(png.chunk_by_type("Rust").is_none());
    assert!(png.chunk_by_type("rust").is_none());
    assert_eq!(png.remove_chunk("Frst").unwrap_err(), NotFound);
}

#[test]
fn written_file_is_read_back_after_every_change() {
    let mut png = testing_png();
    png.append_chunk(chunk("ruST", "hello"));
    let again = Png::try_from(png.as_bytes().as_slice()).unwrap();
    assert_eq!(types(&again), ["FrSt", "miDl", "LASt", "ruST"]);
    assert_eq!(
        again.chunk_by_type("ruST").unwrap().data_as_string().unwrap(),
        "hello"
    );
    assert_eq!(again.as_bytes(), png.as_bytes());

    png.remove_chunk("miDl").unwrap();
    let again = Png::try_from(png.as_bytes().as_slice()).unwrap();
    assert_eq!(types(&again), ["FrSt", "LASt", "ruST"]);
    assert_eq!(again.as_bytes(), png.as_bytes());
}

#[test]
fn same_type_may_stand_twice() {
    let mut png = Png::try_from(SIGNATURE.as_slice()).unwrap();
    png.append_chunk(chunk("teST", "a"));
    png.append_chunk(chunk("teST", "b"));
    assert_eq!(types(&png), ["teST", "teST"]);
    let again = Png::try_from(png.as_bytes().as_slice()).unwrap();
    assert_eq!(again.chunks().len(), 2);
    assert_eq!(again.chunks()[1].data_as_string().unwrap(), "b");
}

#[test]
fn file_as_text() {
    let mut png = Png::try_from(SIGNATURE.as_slice()).unwrap();
    assert_eq!(
        png.to_string(),
        "header:[137, 80, 78, 71, 13, 10, 26, 10]\nchunks:0\n"
    );
    png.append_chunk(chunk("IEND", ""));
    png.append_chunk(chunk("RuSt", "Hi!"));
    let second = png.chunks()[1].to_string();
    assert_eq!(
        png.to_string(),
        format!(
            "header:[137, 80, 78, 71, 13, 10, 26, 10]\nchunks:2\nlength:0\ndType:IEND\n,Data[]\n,CRC:2923585666\n{}",
            second
        )
    );
}
