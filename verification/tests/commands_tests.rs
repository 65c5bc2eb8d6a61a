use pngme::chunk::{Chunk, ChunkError};
use pngme::chunk_type::{ChunkType, ChunkTypeError};
use pngme::commands::{decode, encode, remove, CommandProcessError};
use pngme::png::{Png, PngErr};
use std::str::FromStr;

fn sample_file() -> Vec<u8> {
    Png::from_chunks(vec![
        Chunk::new(ChunkType::from_str("IHDR").unwrap(), vec![1, 2, 3]),
        Chunk::new(ChunkType::from_str("ruSt").unwrap(), b"first secret".to_vec()),
        Chunk::new(ChunkType::from_str("IEND").unwrap(), Vec::new()),
    ])
    .as_bytes()
}

#[test]
fn encode_puts_a_chunk_behind_the_others() {
    let file = sample_file();
    let out = encode(&file, "ruSt", b"second secret".to_vec()).unwrap();
    let mut expected = file.clone();
    expected.extend_from_slice(
        &Chunk::new(ChunkType::from_str("ruSt").unwrap(), b"second secret".to_vec()).as_bytes(),
    );
    assert_eq!(out, expected);
    let png = Png::try_from(out.as_slice()).unwrap();
    assert_eq!(png.chunks().len(), 4);
    assert_eq!(png.chunks()[3].data_as_string().unwrap(), "second secret");
}

#[test]
fn encode_into_the_empty_file() {
    let out = encode(&Png::STANDARD_HEADER, "IEND", Vec::new()).unwrap();
    let mut expected = Png::STANDARD_HEADER.to_vec();
    expected.extend_from_slice(&[0, 0, 0, 0, 73, 69, 78, 68, 0xae, 0x42, 0x60, 0x82]);
    assert_eq!(out, expected);
}

#[test]
fn encode_reports_the_file_before_the_type() {
    assert_eq!(
        encode(b"not a png", "12", Vec::new()),
        Err(CommandProcessError::PngParseError(PngErr::IllegalSignature))
    );
    let mut cut = sample_file();
    cut.pop();
    assert_eq!(
        encode(&cut, "ruSt", Vec::new()),
        Err(CommandProcessError::PngParseError(PngErr::InvalidChunk(ChunkError::IllegalLength)))
    );
}

#[test]
fn encode_with_a_malformed_type() {
    let file = sample_file();
    assert_eq!(
        encode(&file, "12", b"x".to_vec()),
        Err(CommandProcessError::IllegalChunkType(ChunkTypeError::UnexpectedLength))
    );
    assert_eq!(
        encode(&file, "ru5t", b"x".to_vec()),
        Err(CommandProcessError::IllegalChunkType(ChunkTypeError::IllegalByte))
    );
}

#[test]
fn decode_shows_each_chunk_of_the_type() {
    let file = encode(&sample_file(), "ruSt", b"second secret".to_vec()).unwrap();
    assert_eq!(
        decode(&file, "ruSt"),
        Ok(vec!["first secret".to_string(), "second secret".to_string()])
    );
    assert_eq!(decode(&file, "IEND"), Ok(vec![String::new()]));
}

#[test]
fn decode_shows_a_notice_for_a_payload_that_is_no_text() {
    let file = encode(&sample_file(), "ruSt", vec![255, 0, 255]).unwrap();
    assert_eq!(
        decode(&file, "ruSt"),
        Ok(vec!["first secret".to_string(), "/// Invalid UTF-8 String ///".to_string()])
    );
}

#[test]
fn decode_finds_nothing() {
    let file = sample_file();
    assert_eq!(decode(&file, "zzzz"), Ok(Vec::new()));
    assert_eq!(decode(&file, "12"), Ok(Vec::new()));
    assert_eq!(
        decode(&file[..7], "ruSt"),
        Err(CommandProcessError::PngParseError(PngErr::IllegalSignature))
    );
}

#[test]
fn remove_takes_the_first_chunk_out_of_the_file() {
    let file = encode(&sample_file(), "ruSt", b"second secret".to_vec()).unwrap();
    let (removed, out) = remove(&file, "ruSt").unwrap();
    assert_eq!(removed.unwrap().data_as_string().unwrap(), "first secret");
    assert_eq!(decode(&out, "ruSt"), Ok(vec!["second secret".to_string()]));
    let png = Png::try_from(out.as_slice()).unwrap();
    assert_eq!(png.chunks().len(), 3);
    assert_eq!(png.chunks()[0].chunk_type().bytes(), *b"IHDR");
    assert_eq!(png.chunks()[1].chunk_type().bytes(), *b"IEND");
    assert_eq!(png.chunks()[2].chunk_type().bytes(), *b"ruSt");
}

#[test]
fn remove_without_a_match_gives_the_file_back() {
    let file = sample_file();
    let (removed, out) = remove(&file, "zzzz").unwrap();
    assert!(removed.is_none());
    assert_eq!(out, file);
    let (removed, out) = remove(&file, "12").unwrap();
    assert!(removed.is_none());
    assert_eq!(out, file);
}

#[test]
fn remove_from_what_is_no_png() {
    let mut file = sample_file();
    file[3] = 0;
    assert_eq!(
        remove(&file, "ruSt").err(),
        Some(CommandProcessError::PngParseError(PngErr::IllegalSignature))
    );
}

#[test]
fn command_error_messages() {
    assert_eq!(
        CommandProcessError::IllegalChunkType(ChunkTypeError::UnexpectedLength).to_string(),
        "Error while converting from str: length must be 4"
    );
    assert_eq!(
        CommandProcessError::PngParseError(PngErr::IllegalSignature).to_string(),
        "Illegal file signature: is this a png file?"
    );
    assert_eq!(
        CommandProcessError::PngParseError(PngErr::InvalidChunk(ChunkError::IllegalLength))
            .to_string(),
        "Error while constructing: field 'length' must greater than 12 and fits data"
    );
}
