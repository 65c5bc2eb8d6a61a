use pngme::chunk::{Chunk, ChunkError};
use pngme::chunk_type::{ChunkType, ChunkTypeError};
use pngme::png::{Png, PngErr};
use std::str::FromStr;

const SIGNATURE: [u8; 8] = [137, 80, 78, 71, 13, 10, 26, 10];

fn chunk_from_strings(chunk_type: &str, data: &str) -> Chunk {
    Chunk::new(ChunkType::from_str(chunk_type).unwrap(), data.as_bytes().to_vec())
}

fn testing_chunks() -> Vec<Chunk> {
    vec![
        chunk_from_strings("FrSt", "I am the first chunk"),
        chunk_from_strings("miDl", "I am another chunk"),
        chunk_from_strings("LASt", "I am the last chunk"),
    ]
}

fn testing_png() -> Png {
    Png::from_chunks(testing_chunks())
}

fn file_of(chunks: &[Chunk]) -> Vec<u8> {
    let mut bytes: Vec<u8> = SIGNATURE.to_vec();
    for chunk in chunks {
        bytes.extend_from_slice(&chunk.as_bytes());
    }
    bytes
}

fn types_of(png: &Png) -> Vec<[u8; 4]> {
    png.chunks().iter().map(|chunk| chunk.chunk_type().bytes()).collect()
}

#[test]
fn standard_header_is_the_png_signature() {
    assert_eq!(Png::STANDARD_HEADER, SIGNATURE);
    assert_eq!(testing_png().header(), &SIGNATURE);
}

#[test]
fn png_from_chunks_keeps_the_order() {
    let png = testing_png();
    assert_eq!(png.chunks().len(), 3);
    assert_eq!(types_of(&png), vec![*b"FrSt", *b"miDl", *b"LASt"]);
}

#[test]
fn file_without_chunks_is_the_signature_alone() {
    let png = Png::from_chunks(Vec::new());
    assert_eq!(png.as_bytes(), SIGNATURE.to_vec());
    let parsed = Png::try_from(&SIGNATURE[..]).unwrap();
    assert_eq!(parsed.chunks().len(), 0);
    assert_eq!(parsed.header(), &SIGNATURE);
}

#[test]
fn png_as_bytes_is_signature_then_frames() {
    let png = testing_png();
    assert_eq!(png.as_bytes(), file_of(&testing_chunks()));
    let mut expected: Vec<u8> = SIGNATURE.to_vec();
    expected.extend_from_slice(&[
        0, 0, 0, 18, 109, 105, 68, 108, 73, 32, 97, 109, 32, 97, 110, 111, 116, 104, 101, 114, 32,
        99, 104, 117, 110, 107, 199, 116, 207, 18,
    ]);
    expected.extend_from_slice(&[
        0, 0, 0, 19, 76, 65, 83, 116, 73, 32, 97, 109, 32, 116, 104, 101, 32, 108, 97, 115, 116,
        32, 99, 104, 117, 110, 107, 18, 176, 96, 100,
    ]);
    let two = Png::from_chunks(vec![
        chunk_from_strings("miDl", "I am another chunk"),
        chunk_from_strings("LASt", "I am the last chunk"),
    ]);
    assert_eq!(two.as_bytes(), expected);
}

#[test]
fn png_round_trip() {
    let bytes = testing_png().as_bytes();
    let parsed = Png::try_from(bytes.as_slice()).unwrap();
    assert_eq!(parsed.chunks().len(), 3);
    assert_eq!(types_of(&parsed), vec![*b"FrSt", *b"miDl", *b"LASt"]);
    assert_eq!(parsed.chunks()[1].data_as_string().unwrap(), "I am another chunk");
    assert_eq!(parsed.chunks()[2].crc(), 313548900);
    assert_eq!(parsed.as_bytes(), bytes);
}

#[test]
fn png_with_empty_chunks_round_trips() {
    let png = Png::from_chunks(vec![
        chunk_from_strings("IHDR", ""),
        chunk_from_strings("IEND", ""),
    ]);
    let bytes = png.as_bytes();
    assert_eq!(bytes.len(), 8 + 12 + 12);
    let parsed = Png::try_from(bytes.as_slice()).unwrap();
    assert_eq!(types_of(&parsed), vec![*b"IHDR", *b"IEND"]);
}

#[test]
fn buffer_without_the_signature_is_refused() {
    let good = testing_png().as_bytes();
    for at in 0..8 {
        let mut bad = good.clone();
        bad[at] ^= 1;
        assert_eq!(Png::try_from(bad.as_slice()).err(), Some(PngErr::IllegalSignature));
    }
    let rest_is_rubbish = [13u8, 80, 78, 71, 13, 10, 26, 10, 1, 2, 3];
    assert_eq!(Png::try_from(&rest_is_rubbish[..]).err(), Some(PngErr::IllegalSignature));
}

#[test]
fn buffer_shorter_than_the_signature() {
    for len in 0..8 {
        assert_eq!(Png::try_from(&SIGNATURE[..len]).err(), Some(PngErr::IllegalSignature));
    }
}

#[test]
fn bytes_behind_the_last_chunk_are_an_illegal_length() {
    let good = testing_png().as_bytes();
    for extra in 1..12 {
        let mut bad = good.clone();
        bad.extend(std::iter::repeat(0u8).take(extra));
        assert_eq!(
            Png::try_from(bad.as_slice()).err(),
            Some(PngErr::InvalidChunk(ChunkError::IllegalLength))
        );
    }
    for extra in 1..12 {
        let mut bad = SIGNATURE.to_vec();
        bad.extend(std::iter::repeat(9u8).take(extra));
        assert_eq!(
            Png::try_from(bad.as_slice()).err(),
            Some(PngErr::InvalidChunk(ChunkError::IllegalLength))
        );
    }
}

#[test]
fn chunk_that_runs_past_the_end_is_an_illegal_length() {
    let good = testing_png().as_bytes();
    for cut in 1..20 {
        let bad = &good[..good.len() - cut];
        assert_eq!(
            Png::try_from(bad).err(),
            Some(PngErr::InvalidChunk(ChunkError::IllegalLength))
        );
    }
    let mut huge = SIGNATURE.to_vec();
    huge.extend_from_slice(&[255, 255, 255, 255, 73, 69, 78, 68, 0, 0, 0, 0]);
    assert_eq!(
        Png::try_from(huge.as_slice()).err(),
        Some(PngErr::InvalidChunk(ChunkError::IllegalLength))
    );
}

#[test]
fn broken_chunk_fails_the_whole_file() {
    let good = testing_png().as_bytes();
    let mut bad_crc = good.clone();
    let last = bad_crc.len() - 1;
    bad_crc[last] ^= 0x10;
    assert_eq!(
        Png::try_from(bad_crc.as_slice()).err(),
        Some(PngErr::InvalidChunk(ChunkError::IncorrectChecksum))
    );
    let mut bad_payload = good.clone();
    bad_payload[8 + 8] ^= 0x01;
    assert_eq!(
        Png::try_from(bad_payload.as_slice()).err(),
        Some(PngErr::InvalidChunk(ChunkError::IncorrectChecksum))
    );
    let mut bad_type = good.clone();
    bad_type[12..16].copy_from_slice(b"1234");
    assert_eq!(
        Png::try_from(bad_type.as_slice()).err(),
        Some(PngErr::InvalidChunk(ChunkError::IllegalChunkType(ChunkTypeError::IllegalByte)))
    );
}

#[test]
fn first_broken_chunk_decides_the_error() {
    let mut bytes = SIGNATURE.to_vec();
    bytes.extend_from_slice(&[0, 0, 0, 0, 49, 50, 51, 52, 0, 0, 0, 0]);
    bytes.extend_from_slice(&[0, 0, 0, 0, 73, 69, 78, 68, 0, 0, 0, 0]);
    assert_eq!(
        Png::try_from(bytes.as_slice()).err(),
        Some(PngErr::InvalidChunk(ChunkError::IllegalChunkType(ChunkTypeError::IllegalByte)))
    );
    let mut bytes = SIGNATURE.to_vec();
    bytes.extend_from_slice(&[0, 0, 0, 0, 73, 69, 78, 68, 0, 0, 0, 0]);
    bytes.extend_from_slice(&[0, 0, 0, 0, 49, 50, 51, 52, 0, 0, 0, 0]);
    assert_eq!(
        Png::try_from(bytes.as_slice()).err(),
        Some(PngErr::InvalidChunk(ChunkError::IncorrectChecksum))
    );
}

#[test]
fn append_chunk_puts_it_last() {
    let mut png = testing_png();
    png.append_chunk(chunk_from_strings("TeSt", "Message"));
    assert_eq!(types_of(&png), vec![*b"FrSt", *b"miDl", *b"LASt", *b"TeSt"]);
    assert_eq!(png.chunks()[3].data_as_string().unwrap(), "Message");
    png.append_chunk(chunk_from_strings("FrSt", "again"));
    assert_eq!(png.chunks().len(), 5);
    assert_eq!(png.chunks()[4].data(), b"again");
}

#[test]
fn remove_first_chunk_takes_the_first_of_its_type() {
    let mut png = testing_png();
    png.append_chunk(chunk_from_strings("miDl", "the second of its type"));
    let removed = png.remove_first_chunk("miDl").unwrap();
    assert_eq!(removed.data_as_string().unwrap(), "I am another chunk");
    assert_eq!(types_of(&png), vec![*b"FrSt", *b"LASt", *b"miDl"]);
    let removed = png.remove_first_chunk("miDl").unwrap();
    assert_eq!(removed.data_as_string().unwrap(), "the second of its type");
    assert_eq!(types_of(&png), vec![*b"FrSt", *b"LASt"]);
    assert!(png.remove_first_chunk("miDl").is_none());
    let removed = png.remove_first_chunk("FrSt").unwrap();
    assert_eq!(removed.chunk_type().bytes(), *b"FrSt");
    assert_eq!(types_of(&png), vec![*b"LASt"]);
}

#[test]
fn remove_without_a_match_changes_nothing() {
    let mut png = testing_png();
    let before = png.as_bytes();
    assert!(png.remove_first_chunk("zzzz").is_none());
    assert_eq!(png.as_bytes(), before);
    assert_eq!(types_of(&png), vec![*b"FrSt", *b"miDl", *b"LASt"]);
    assert!(png.remove_first_chunk("frst").is_none());
    assert_eq!(png.as_bytes(), before);
}

#[test]
fn remove_with_a_malformed_query_finds_nothing() {
    let mut png = testing_png();
    let before = png.as_bytes();
    assert!(png.remove_first_chunk("12").is_none());
    assert!(png.remove_first_chunk("").is_none());
    assert!(png.remove_first_chunk("FrSt ").is_none());
    assert!(png.remove_first_chunk("Fr5t").is_none());
    assert_eq!(png.as_bytes(), before);
}

#[test]
fn malformed_query_finds_nothing_rather_than_an_empty_list() {
    let png = testing_png();
    assert!(png.chunk_by_type("12").is_none());
    let found = png.chunk_by_type("zzzz").unwrap();
    assert!(found.is_empty());
    let empty = Png::from_chunks(Vec::new());
    assert!(empty.chunk_by_type("12").is_none());
    assert!(empty.chunk_by_type("zzzz").unwrap().is_empty());
}

#[test]
fn chunk_by_type_finds_all_in_order() {
    let mut png = testing_png();
    png.append_chunk(chunk_from_strings("miDl", "two"));
    png.append_chunk(chunk_from_strings("MiDl", "other case"));
    png.append_chunk(chunk_from_strings("miDl", "three"));
    let found = png.chunk_by_type("miDl").unwrap();
    let texts: Vec<String> = found.iter().map(|chunk| chunk.data_as_string().unwrap()).collect();
    assert_eq!(texts, vec!["I am another chunk", "two", "three"]);
    let found = png.chunk_by_type("MiDl").unwrap();
    assert_eq!(found.len(), 1);
    assert_eq!(found[0].data(), b"other case");
    assert_eq!(png.chunk_by_type("LASt").unwrap().len(), 1);
}

#[test]
fn chunks_with_a_type_that_is_not_all_letters_are_not_found_by_a_query() {
    let odd = Chunk::new(ChunkType::try_from(*b"R2-3").unwrap(), b"odd".to_vec());
    let png = Png::from_chunks(vec![odd]);
    assert!(png.chunk_by_type("R2-3").is_none());
    let parsed = Png::try_from(png.as_bytes().as_slice()).unwrap();
    assert_eq!(types_of(&parsed), vec![*b"R2-3"]);
}

#[test]
fn png_error_messages() {
    assert_eq!(
        PngErr::IllegalSignature.to_string(),
        "Illegal file signature: is this a png file?"
    );
    assert_eq!(
        PngErr::InvalidChunk(ChunkError::IncorrectChecksum).to_string(),
        "Incorrect checksum: is your png broken?"
    );
    assert_eq!(
        PngErr::InvalidChunk(ChunkError::IllegalChunkType(ChunkTypeError::IllegalByte)).to_string(),
        "Invalid chunk type: bytes must in alphabetic"
    );
}
