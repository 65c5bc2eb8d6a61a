use pngme::chunk::Chunk;
use pngme::chunk_type::ChunkType;
use pngme::text::push_decimal;
use std::str::FromStr;

fn decimal_of(n: u32) -> String {
    let mut out = String::new();
    push_decimal(&mut out, n);
    out
}

#[test]
fn push_decimal_writes_the_numeral() {
    assert_eq!(decimal_of(0), "0");
    assert_eq!(decimal_of(7), "7");
    assert_eq!(decimal_of(9), "9");
    assert_eq!(decimal_of(10), "10");
    assert_eq!(decimal_of(11), "11");
    assert_eq!(decimal_of(100), "100");
    assert_eq!(decimal_of(1234567890), "1234567890");
    assert_eq!(decimal_of(2882656334), "2882656334");
    assert_eq!(decimal_of(u32::MAX), "4294967295");
}

#[test]
fn push_decimal_writes_behind_what_is_there() {
    let mut out = String::from("length: ");
    push_decimal(&mut out, 42);
    assert_eq!(out, "length: 42");
    push_decimal(&mut out, 0);
    assert_eq!(out, "length: 420");
}

#[test]
fn push_decimal_agrees_with_std() {
    for n in [0u32, 1, 9, 10, 99, 100, 101, 999, 1000, 65535, 65536, 999_999_999, 1_000_000_000] {
        assert_eq!(decimal_of(n), n.to_string());
    }
}

#[test]
fn chunk_type_to_string_is_its_letters() {
    assert_eq!(ChunkType::from_str("RuSt").unwrap().to_string(), "RuSt");
    assert_eq!(ChunkType::try_from([82, 117, 83, 116]).unwrap().to_string(), "RuSt");
    assert_eq!(ChunkType::try_from(*b"R2-3").unwrap().to_string(), "R2-3");
}

#[test]
fn chunk_to_string_names_the_fields() {
    let chunk = Chunk::new(ChunkType::from_str("FrEd").unwrap(), b"I am a frog".to_vec());
    assert_eq!(
        chunk.to_string(),
        "Chunk information:\n\tlength: 11,\n\ttype: FrEd,\n\tdata: I am a frog,\n\tcrc: 3906271085"
    );
}

#[test]
fn chunk_to_string_with_a_payload_that_is_no_text() {
    let chunk = Chunk::new(ChunkType::from_str("RuSt").unwrap(), vec![255, 254]);
    assert_eq!(
        chunk.to_string(),
        "Chunk information:\n\tlength: 2,\n\ttype: RuSt,\n\tdata: ,\n\tcrc: 2195137865"
    );
}

#[test]
fn chunk_to_string_with_an_empty_payload() {
    let chunk = Chunk::new(ChunkType::from_str("IEND").unwrap(), Vec::new());
    assert_eq!(
        chunk.to_string(),
        "Chunk information:\n\tlength: 0,\n\ttype: IEND,\n\tdata: ,\n\tcrc: 2923585666"
    );
}
