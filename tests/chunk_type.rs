use pngc::{ChunkType, ChunkTypeError};
use std::convert::TryFrom;
use std::str::FromStr;

#[test]
pub fn test_chunk_type_from_bytes() {
    let expected = [82, 117, 83, 116];
    let actual = ChunkType::try_from([82, 117, 83, 116]).unwrap();

    assert_eq!(expected, actual.bytes());
}

#[test]
pub fn test_chunk_type_from_str() {
    let expected = ChunkType::try_from([82, 117, 83, 116]).unwrap();
    let actual = ChunkType::from_str("RuSt").unwrap();
    assert_eq!(expected, actual);
}

#[test]
pub fn test_chunk_type_is_critical() {
    let chunk = ChunkType::from_str("RuSt").unwrap();
    assert!(chunk.is_critical());
}

#[test]
pub fn test_chunk_type_is_not_critical() {
    let chunk = ChunkType::from_str("ruSt").unwrap();
    assert!(!chunk.is_critical());
}

#[test]
pub fn test_chunk_type_is_public() {
    let chunk = ChunkType::from_str("RUSt").unwrap();
    assert!(chunk.is_public());
}

#[test]
pub fn test_chunk_type_is_not_public() {
    let chunk = ChunkType::from_str("RuSt").unwrap();
    assert!(!chunk.is_public());
}

#[test]
pub fn test_chunk_type_is_reserved_bit_valid() {
    let chunk = ChunkType::from_str("RuSt").unwrap();
    assert!(chunk.is_reserved_bit_valid());
}

#[test]
pub fn test_chunk_type_is_reserved_bit_invalid() {
    let chunk = ChunkType::from_str("Rust").unwrap();
    assert!(!chunk.is_reserved_bit_valid());
}

#[test]
pub fn test_chunk_type_is_safe_to_copy() {
    let chunk = ChunkType::from_str("RuSt").unwrap();
    assert!(chunk.is_safe_to_copy());
}

#[test]
pub fn test_chunk_type_is_unsafe_to_copy() {
    let chunk = ChunkType::from_str("RuST").unwrap();
    assert!(!chunk.is_safe_to_copy());
}

#[test]
pub fn test_valid_chunk_is_valid() {
    let chunk = ChunkType::from_str("RuSt").unwrap();
    assert!(chunk.is_valid());
}

#[test]
pub fn test_invalid_chunk_is_valid() {
    let chunk = ChunkType::from_str("Rust").unwrap();
    assert!(!chunk.is_valid());

    let chunk = ChunkType::from_str("Ru1t");
    assert!(chunk.is_err());
}

#[test]
pub fn test_chunk_type_string() {
    let chunk = ChunkType::from_str("RuSt").unwrap();
    assert_eq!(&chunk.to_string(), "RuSt");
}

#[test]
pub fn test_chunk_type_trait_impls() {
    let chunk_type_1: ChunkType = TryFrom::try_from([82, 117, 83, 116]).unwrap();
    let chunk_type_2: ChunkType = FromStr::from_str("RuSt").unwrap();
    let _chunk_string = chunk_type_1.to_string();
    let _are_chunks_equal = chunk_type_1 == chunk_type_2;
}

#[test]
fn parse_str_then_to_string_gives_the_text_back() {
    for text in ["RuSt", "IHDR", "tEXt", "abcd", "ZZZZ", "Rust", "aaAA"] {
        assert_eq!(ChunkType::parse_str(text).unwrap().to_string(), text);
    }
}

#[test]
fn parse_str_refuses_wrong_lengths() {
    assert_eq!(ChunkType::parse_str("abc"), Err(ChunkTypeError::InvalidLength(3)));
    assert_eq!(ChunkType::parse_str("abcde"), Err(ChunkTypeError::InvalidLength(5)));
    assert_eq!(ChunkType::parse_str(""), Err(ChunkTypeError::InvalidLength(0)));
    // four characters but five bytes
    assert_eq!(ChunkType::parse_str("Ru\u{e9}t"), Err(ChunkTypeError::InvalidLength(5)));
}

#[test]
fn parse_str_refuses_non_letters() {
    assert_eq!(ChunkType::parse_str("Ru1t"), Err(ChunkTypeError::InvalidCharacter));
    assert_eq!(ChunkType::parse_str("Ru t"), Err(ChunkTypeError::InvalidCharacter));
    assert_eq!(ChunkType::parse_str("@[`{"), Err(ChunkTypeError::InvalidCharacter));
}

#[test]
fn parse_keeps_any_bytes_but_they_are_not_valid() {
    let t = ChunkType::parse([0, 255, 83, 116]);
    assert_eq!(t.bytes(), [0, 255, 83, 116]);
    assert!(!t.is_valid());
    let u = ChunkType::parse([82, 117, 83, 116]);
    assert!(u.is_valid());
    assert!(u.matches_bytes(b"RuSt"));
    assert!(!u.matches_bytes(b"RuST"));
    assert!(!u.matches_bytes(b"RuStx"));
}

#[test]
fn flags_follow_letter_case() {
    let t = ChunkType::parse_str("aBcD").unwrap();
    assert!(!t.is_critical());
    assert!(t.is_public());
    assert!(!t.is_reserved_bit_valid());
    assert!(!t.is_safe_to_copy());
    assert!(!t.is_valid());
}
