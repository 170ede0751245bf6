use pngc::{Chunk, ChunkError, ChunkType, ChunkTypeError, Png, PngError};

const SIGNATURE: [u8; 8] = [137, 80, 78, 71, 13, 10, 26, 10];

fn chunk(t: &str, data: &[u8]) -> Chunk {
    Chunk::new(ChunkType::parse_str(t).unwrap(), data.to_vec())
}

fn sample() -> Png {
    Png::from_chunks(vec![
        chunk("FrSt", b"I am the first chunk"),
        chunk("miDl", b"I am another chunk"),
        chunk("LASt", b"I am the last chunk"),
    ])
}

fn types(p: &Png) -> Vec<String> {
    p.chunks().iter().map(|c| c.chunk_type().to_string()).collect()
}

#[test]
fn serialize_starts_with_signature_then_records() {
    let p = sample();
    let bytes = p.as_bytes();
    assert_eq!(&bytes[..8], &SIGNATURE);
    let mut expected = SIGNATURE.to_vec();
    for c in p.chunks() {
        expected.extend_from_slice(&c.as_bytes());
    }
    assert_eq!(bytes, expected);
}

#[test]
fn parse_then_serialize_gives_the_same_bytes() {
    let bytes = sample().as_bytes();
    let parsed = Png::parse(&bytes).unwrap();
    assert_eq!(parsed.as_bytes(), bytes);
    assert_eq!(types(&parsed), vec!["FrSt", "miDl", "LASt"]);
}

#[test]
fn empty_container_round_trips() {
    let parsed = Png::try_from(&SIGNATURE[..]).unwrap();
    assert!(parsed.chunks().is_empty());
    assert_eq!(parsed.as_bytes(), SIGNATURE.to_vec());
}

#[test]
fn signature_is_checked() {
    let mut bytes = sample().as_bytes();
    assert!(Png::parse(&bytes).is_ok());
    for i in 0..8 {
        let mut other = bytes.clone();
        other[i] ^= 0x01;
        assert_eq!(Png::parse(&other).unwrap_err(), PngError::InvalidSignature);
    }
    bytes.truncate(7);
    assert_eq!(Png::parse(&bytes).unwrap_err(), PngError::InvalidSignature);
    assert_eq!(Png::parse(&[]).unwrap_err(), PngError::InvalidSignature);
}

#[test]
fn a_bad_record_fails_the_whole_container() {
    let mut bytes = sample().as_bytes();
    let last = bytes.len() - 1;
    bytes[last] ^= 0xff;
    assert!(matches!(
        Png::parse(&bytes).unwrap_err(),
        PngError::Chunk(ChunkError::CrcMismatch(_, _))
    ));
    let mut bytes = sample().as_bytes();
    bytes.push(0);
    assert_eq!(
        Png::parse(&bytes).unwrap_err(),
        PngError::Chunk(ChunkError::InvalidChunkLength(1))
    );
}

#[test]
fn append_goes_to_the_end() {
    let mut p = sample();
    p.append_chunk(chunk("TeSt", b"new"));
    assert_eq!(types(&p), vec!["FrSt", "miDl", "LASt", "TeSt"]);
    assert_eq!(p.chunk_by_type("TeSt").unwrap().data(), b"new");
}

#[test]
fn append_then_remove_restores_the_chunks() {
    let mut p = sample();
    let before = p.as_bytes();
    p.append_chunk(chunk("TeSt", b"new"));
    let removed = p.remove_chunk("TeSt").unwrap();
    assert_eq!(removed.data(), b"new");
    assert_eq!(p.as_bytes(), before);
    assert_eq!(types(&p), vec!["FrSt", "miDl", "LASt"]);
}

#[test]
fn remove_takes_only_the_first_match() {
    let mut p = Png::from_chunks(vec![
        chunk("RuSt", b"one"),
        chunk("OtHr", b"x"),
        chunk("RuSt", b"two"),
    ]);
    let removed = p.remove_chunk("RuSt").unwrap();
    assert_eq!(removed.data(), b"one");
    assert_eq!(types(&p), vec!["OtHr", "RuSt"]);
    assert_eq!(p.chunk_by_type("RuSt").unwrap().data(), b"two");
}

#[test]
fn removing_an_absent_type_changes_nothing() {
    let mut p = sample();
    let before = p.as_bytes();
    assert_eq!(p.remove_chunk("NoNe").unwrap_err(), PngError::ChunkNotFound);
    assert_eq!(p.as_bytes(), before);
}

#[test]
fn removing_a_malformed_type_fails() {
    let mut p = sample();
    let before = p.as_bytes();
    assert_eq!(
        p.remove_chunk("Ru1t").unwrap_err(),
        PngError::ChunkType(ChunkTypeError::InvalidCharacter)
    );
    assert_eq!(
        p.remove_chunk("toolong").unwrap_err(),
        PngError::ChunkType(ChunkTypeError::InvalidLength(7))
    );
    assert_eq!(p.as_bytes(), before);
}

#[test]
fn chunk_by_type_finds_the_first() {
    let p = sample();
    assert_eq!(p.chunk_by_type("miDl").unwrap().data(), b"I am another chunk");
    assert!(p.chunk_by_type("NoNe").is_none());
    assert!(p.chunk_by_type("mid").is_none());
}
