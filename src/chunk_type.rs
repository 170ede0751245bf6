//! The four-byte tag that says what a chunk holds.

use vstd::prelude::*;
use vstd::string::StringSliceAdditionalSpecFns;
use vstd::utf8::*;

use crate::encoding::utf8_to_string;

verus! {

broadcast use {vstd::string::group_string_axioms};

pub open spec fn is_upper(b: u8) -> bool {
    65 <= b <= 90
}

pub open spec fn is_lower(b: u8) -> bool {
    97 <= b <= 122
}

pub open spec fn is_ascii_letter(b: u8) -> bool {
    is_upper(b) || is_lower(b)
}

pub open spec fn all_letters(b: Seq<u8>) -> bool {
    forall|i: int| 0 <= i < b.len() ==> is_ascii_letter(#[trigger] b[i])
}

/// Four letters, the third of them upper case.
pub open spec fn type_is_valid(b: Seq<u8>) -> bool {
    b.len() == 4 && all_letters(b) && is_upper(b[2])
}

/// What reading a type from the bytes of a string gives: four ASCII letters,
/// taken as they are.
pub open spec fn parse_type_text(b: Seq<u8>) -> Result<Seq<u8>, ChunkTypeError> {
    if b.len() != 4 {
        Err(ChunkTypeError::InvalidLength(b.len() as usize))
    } else if !all_letters(b) {
        Err(ChunkTypeError::InvalidCharacter)
    } else {
        Ok(b)
    }
}

/// Why a string is not a chunk type.
#[derive(Debug, Clone, Copy, PartialEq, Eq, Structural)]
pub enum ChunkTypeError {
    /// The string is not four bytes long; the length it has.
    InvalidLength(usize),
    /// A byte is not an ASCII letter.
    InvalidCharacter,
}

/// A chunk's type: four bytes, kept as given. Whether they make a valid type
/// is a separate question (`is_valid`), so that unknown types round-trip.
#[derive(Debug, Clone, Copy, PartialEq, Eq)]
pub struct ChunkType {
    bytes: [u8; 4],
}

impl View for ChunkType {
    type V = Seq<u8>;

    closed spec fn view(&self) -> Seq<u8> {
        self.bytes@
    }
}

/// Every chunk type is four bytes.
pub broadcast proof fn lemma_type_len(t: ChunkType)
    ensures
        (#[trigger] t@).len() == 4,
{
}

/// Text made of ASCII letters is UTF-8 that decodes to the same letters.
pub proof fn lemma_letters_decode(b: Seq<u8>)
    requires
        all_letters(b),
    ensures
        valid_utf8(b),
        decode_utf8(b) == Seq::new(b.len(), |i: int| b[i] as char),
{
    let chars = Seq::new(b.len(), |i: int| b[i] as char);
    assert(is_ascii_chars(chars)) by {
        assert forall|i: int| 0 <= i < chars.len() implies '\0' <= #[trigger] chars[i] <= '\u{7f}' by {
            assert(is_ascii_letter(b[i]));
        }
    }
    is_ascii_chars_encode_utf8(chars);
    assert(encode_utf8(chars) =~= b);
    encode_utf8_valid_utf8(chars);
    encode_utf8_decode_utf8(chars);
}

fn byte_is_letter(b: u8) -> (r: bool)
    ensures
        r == is_ascii_letter(b),
{
    (65 <= b && b <= 90) || (97 <= b && b <= 122)
}

impl ChunkType {
    /// Takes the four bytes as they are; never fails.
    pub fn parse(bytes: [u8; 4]) -> (r: ChunkType)
        ensures
            r@ == bytes@,
    {
        ChunkType { bytes }
    }

    /// Reads a type from a string of exactly four ASCII letters.
    pub fn parse_str(s: &str) -> (r: Result<ChunkType, ChunkTypeError>)
        ensures
            match r {
                Ok(t) => parse_type_text(s.spec_bytes()) == Ok::<Seq<u8>, ChunkTypeError>(t@),
                Err(e) => parse_type_text(s.spec_bytes()) == Err::<Seq<u8>, ChunkTypeError>(e),
            },
    {
        let b = s.as_bytes();
        if b.len() != 4 {
            return Err(ChunkTypeError::InvalidLength(b.len()));
        }
        let mut i: usize = 0;
        while i < 4
            invariant
                b@ == s.spec_bytes(),
                b@.len() == 4,
                0 <= i <= 4,
                forall|j: int| 0 <= j < i ==> is_ascii_letter(#[trigger] b@[j]),
            decreases 4 - i,
        {
            if !byte_is_letter(b[i]) {
                assert(!is_ascii_letter(b@[i as int]));
                return Err(ChunkTypeError::InvalidCharacter);
            }
            i += 1;
        }
        let bytes: [u8; 4] = [b[0], b[1], b[2], b[3]];
        assert(bytes@ =~= b@);
        Ok(ChunkType { bytes })
    }

    /// The four bytes.
    pub fn bytes(&self) -> (r: [u8; 4])
        ensures
            r@ == self@,
    {
        self.bytes
    }

    /// All four bytes are ASCII letters and the reserved bit is valid.
    pub fn is_valid(&self) -> (r: bool)
        ensures
            r == type_is_valid(self@),
    {
        let mut i: usize = 0;
        while i < 4
            invariant
                0 <= i <= 4,
                forall|j: int| 0 <= j < i ==> is_ascii_letter(#[trigger] self@[j]),
            decreases 4 - i,
        {
            if !byte_is_letter(self.bytes[i]) {
                return false;
            }
            i += 1;
        }
        self.is_reserved_bit_valid()
    }

    /// The first byte is upper case.
    pub fn is_critical(&self) -> (r: bool)
        ensures
            r == is_upper(self@[0]),
    {
        65 <= self.bytes[0] && self.bytes[0] <= 90
    }

    /// The second byte is upper case.
    pub fn is_public(&self) -> (r: bool)
        ensures
            r == is_upper(self@[1]),
    {
        65 <= self.bytes[1] && self.bytes[1] <= 90
    }

    /// The third byte is upper case.
    pub fn is_reserved_bit_valid(&self) -> (r: bool)
        ensures
            r == is_upper(self@[2]),
    {
        65 <= self.bytes[2] && self.bytes[2] <= 90
    }

    /// The fourth byte is lower case.
    pub fn is_safe_to_copy(&self) -> (r: bool)
        ensures
            r == is_lower(self@[3]),
    {
        97 <= self.bytes[3] && self.bytes[3] <= 122
    }

    /// The type as text, one character per byte.
    pub fn to_string(&self) -> (r: String)
        requires
            valid_utf8(self@),
        ensures
            r@ == decode_utf8(self@),
    {
        match utf8_to_string(self.bytes.as_slice()) {
            Some(s) => s,
            None => String::new(),
        }
    }

    /// Whether the type's bytes are exactly `text`.
    pub fn matches_bytes(&self, text: &[u8]) -> (r: bool)
        ensures
            r == (self@ == text@),
    {
        if text.len() != 4 {
            return false;
        }
        let r = self.bytes[0] == text[0] && self.bytes[1] == text[1] && self.bytes[2] == text[2]
            && self.bytes[3] == text[3];
        if r {
            assert(self@ =~= text@);
        }
        r
    }
}

impl std::str::FromStr for ChunkType {
    type Err = ChunkTypeError;

    fn from_str(s: &str) -> Result<ChunkType, ChunkTypeError> {
        ChunkType::parse_str(s)
    }
}

impl TryFrom<[u8; 4]> for ChunkType {
    type Error = ChunkTypeError;

    fn try_from(bytes: [u8; 4]) -> Result<ChunkType, ChunkTypeError> {
        Ok(ChunkType { bytes })
    }
}

impl vstd::std_specs::convert::TryFromSpecImpl<[u8; 4]> for ChunkType {
    open spec fn obeys_try_from_spec() -> bool {
        true
    }

    closed spec fn try_from_spec(bytes: [u8; 4]) -> Result<ChunkType, ChunkTypeError> {
        Ok(ChunkType { bytes })
    }
}

/// A string of four ASCII letters read as a type and written back as text
/// gives the same string.
pub proof fn lemma_parse_str_to_string(s: Seq<char>)
    requires
        encode_utf8(s).len() == 4,
        all_letters(encode_utf8(s)),
    ensures
        parse_type_text(encode_utf8(s)) == Ok::<Seq<u8>, ChunkTypeError>(encode_utf8(s)),
        valid_utf8(encode_utf8(s)),
        decode_utf8(encode_utf8(s)) == s,
{
    encode_utf8_valid_utf8(s);
    encode_utf8_decode_utf8(s);
}

} // verus!
