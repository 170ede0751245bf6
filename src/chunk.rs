//! One record of the container: a typed payload with its length and checksum.

use vstd::prelude::*;
use vstd::utf8::*;

use crate::chunk_type::{lemma_type_len, type_is_valid, ChunkType};
use crate::encoding::{
    be_bytes, be_value, crc32, crc32_of, lemma_be_round_trip, push_all, push_be_u32, read_be_u32,
    utf8_to_string,
};
use crate::MAX_CHUNK_LEN;

verus! {

broadcast use lemma_type_len;

/// A chunk as a value: its type bytes and its payload.
pub struct ChunkView {
    pub chunk_type: Seq<u8>,
    pub data: Seq<u8>,
}

/// The checksum stored with a chunk: over the type bytes, then the payload.
pub open spec fn chunk_crc(c: ChunkView) -> u32 {
    crc32_of(c.chunk_type + c.data)
}

/// The record written for a chunk: length, type, payload, checksum.
#[verifier::opaque]
pub open spec fn chunk_bytes(c: ChunkView) -> Seq<u8> {
    be_bytes(c.data.len() as u32) + c.chunk_type + c.data + be_bytes(chunk_crc(c))
}

/// A chunk that can be written and read back: a valid type and a payload
/// within the size limit.
pub open spec fn chunk_is_storable(c: ChunkView) -> bool {
    type_is_valid(c.chunk_type) && c.data.len() <= MAX_CHUNK_LEN
}

/// The payload length declared by the record that starts `s`.
pub open spec fn declared_len(s: Seq<u8>) -> int {
    be_value(s.subrange(0, 4)) as int
}

/// What reading one chunk from the front of `s` gives. Bytes after the
/// record are not looked at.
#[verifier::opaque]
pub open spec fn chunk_from_bytes(s: Seq<u8>) -> Result<ChunkView, ChunkError> {
    if s.len() < 12 {
        Err(ChunkError::InvalidChunkLength(s.len() as usize))
    } else {
        let len = declared_len(s);
        let t = s.subrange(4, 8);
        if !type_is_valid(t) {
            Err(ChunkError::InvalidChunkType)
        } else if len > MAX_CHUNK_LEN || s.len() < 12 + len {
            Err(ChunkError::InvalidChunkLength(s.len() as usize))
        } else {
            let c = ChunkView { chunk_type: t, data: s.subrange(8, 8 + len) };
            let stored = be_value(s.subrange(8 + len, 12 + len));
            if stored != chunk_crc(c) {
                Err(ChunkError::CrcMismatch(stored, chunk_crc(c)))
            } else {
                Ok(c)
            }
        }
    }
}

/// Why bytes do not hold a chunk, or a payload is not text.
#[derive(Debug, Clone, Copy, PartialEq, Eq, Structural)]
pub enum ChunkError {
    /// The bytes are too short for the record; how many there are.
    InvalidChunkLength(usize),
    /// The type bytes are not a valid chunk type.
    InvalidChunkType,
    /// The stored checksum, then the one computed from the content.
    CrcMismatch(u32, u32),
    /// The payload is not UTF-8.
    Utf8DecodeError,
}

/// A chunk: a type and a payload of at most `MAX_CHUNK_LEN` bytes. Its
/// checksum is computed when asked for, never stored.
#[derive(Debug)]
pub struct Chunk {
    chunk_type: ChunkType,
    data: Vec<u8>,
}

impl View for Chunk {
    type V = ChunkView;

    closed spec fn view(&self) -> ChunkView {
        ChunkView { chunk_type: self.chunk_type@, data: self.data@ }
    }
}

impl Chunk {
    #[verifier::type_invariant]
    spec fn payload_fits(self) -> bool {
        self.data@.len() <= MAX_CHUNK_LEN
    }

    /// A chunk with the given type and payload.
    pub fn new(chunk_type: ChunkType, data: Vec<u8>) -> (r: Chunk)
        requires
            data@.len() <= MAX_CHUNK_LEN,
        ensures
            r@ == (ChunkView { chunk_type: chunk_type@, data: data@ }),
    {
        Chunk { chunk_type, data }
    }

    /// The payload length.
    pub fn length(&self) -> (r: u32)
        ensures
            r as int == self@.data.len(),
            r <= MAX_CHUNK_LEN,
    {
        proof {
            use_type_invariant(self);
        }
        self.data.len() as u32
    }

    pub fn chunk_type(&self) -> (r: &ChunkType)
        ensures
            r@ == self@.chunk_type,
    {
        &self.chunk_type
    }

    pub fn data(&self) -> (r: &[u8])
        ensures
            r@ == self@.data,
    {
        self.data.as_slice()
    }

    /// The CRC-32 of the type bytes followed by the payload.
    pub fn crc(&self) -> (r: u32)
        ensures
            r == chunk_crc(self@),
    {
        let mut content: Vec<u8> = Vec::new();
        let t = self.chunk_type.bytes();
        push_all(&mut content, t.as_slice());
        push_all(&mut content, self.data.as_slice());
        crc32(content.as_slice())
    }

    /// The payload as text.
    pub fn data_as_string(&self) -> (r: Result<String, ChunkError>)
        ensures
            r is Ok <==> valid_utf8(self@.data),
            r matches Ok(s) ==> s@ == decode_utf8(self@.data),
            r matches Err(e) ==> e == ChunkError::Utf8DecodeError,
    {
        match utf8_to_string(self.data.as_slice()) {
            Some(s) => Ok(s),
            None => Err(ChunkError::Utf8DecodeError),
        }
    }

    /// The record for this chunk: length, type, payload and checksum.
    pub fn as_bytes(&self) -> (r: Vec<u8>)
        ensures
            r@ == chunk_bytes(self@),
    {
        let mut out: Vec<u8> = Vec::new();
        push_be_u32(&mut out, self.length());
        let t = self.chunk_type.bytes();
        push_all(&mut out, t.as_slice());
        push_all(&mut out, self.data.as_slice());
        push_be_u32(&mut out, self.crc());
        proof {
            reveal(chunk_bytes);
        }
        out
    }

    /// Reads the chunk whose record starts `bytes`, checking its type and
    /// its checksum.
    pub fn parse(bytes: &[u8]) -> (r: Result<Chunk, ChunkError>)
        ensures
            match r {
                Ok(c) => chunk_from_bytes(bytes@) == Ok::<ChunkView, ChunkError>(c@),
                Err(e) => chunk_from_bytes(bytes@) == Err::<ChunkView, ChunkError>(e),
            },
    {
        proof {
            reveal(chunk_from_bytes);
        }
        if bytes.len() < 12 {
            return Err(ChunkError::InvalidChunkLength(bytes.len()));
        }
        let len = read_be_u32(bytes, 0);
        let chunk_type = ChunkType::parse([bytes[4], bytes[5], bytes[6], bytes[7]]);
        assert(chunk_type@ =~= bytes@.subrange(4, 8));
        if !chunk_type.is_valid() {
            return Err(ChunkError::InvalidChunkType);
        }
        if len > MAX_CHUNK_LEN || bytes.len() - 12 < len as usize {
            return Err(ChunkError::InvalidChunkLength(bytes.len()));
        }
        let end = 8 + len as usize;
        let mut data: Vec<u8> = Vec::new();
        push_all(&mut data, &bytes[8..end]);
        let chunk = Chunk::new(chunk_type, data);
        let stored = read_be_u32(bytes, end);
        let computed = chunk.crc();
        if stored != computed {
            return Err(ChunkError::CrcMismatch(stored, computed));
        }
        Ok(chunk)
    }
}

impl<'a> TryFrom<&'a [u8]> for Chunk {
    type Error = ChunkError;

    fn try_from(bytes: &'a [u8]) -> Result<Chunk, ChunkError> {
        Chunk::parse(bytes)
    }
}

/// What `try_from` returns is stated by `Chunk::parse`, which it calls.
impl<'a> vstd::std_specs::convert::TryFromSpecImpl<&'a [u8]> for Chunk {
    open spec fn obeys_try_from_spec() -> bool {
        false
    }

    closed spec fn try_from_spec(bytes: &'a [u8]) -> Result<Chunk, ChunkError> {
        arbitrary()
    }
}

/// A chunk read from `s` is storable and its record lies within `s`.
pub proof fn lemma_read_chunk_fits(s: Seq<u8>)
    ensures
        chunk_from_bytes(s) matches Ok(c) ==> chunk_is_storable(c) && 12 + c.data.len() <= s.len(),
{
    reveal(chunk_from_bytes);
}

/// Reading the record written for a storable chunk gives the chunk back,
/// whatever follows the record.
pub proof fn lemma_chunk_round_trip(c: ChunkView, rest: Seq<u8>)
    requires
        chunk_is_storable(c),
    ensures
        chunk_from_bytes(chunk_bytes(c) + rest) == Ok::<ChunkView, ChunkError>(c),
        chunk_bytes(c).len() == 12 + c.data.len(),
{
    reveal(chunk_bytes);
    reveal(chunk_from_bytes);
    let s = chunk_bytes(c) + rest;
    let len = c.data.len() as int;
    lemma_be_round_trip(len as u32);
    lemma_be_round_trip(chunk_crc(c));
    assert(s.subrange(0, 4) =~= be_bytes(len as u32));
    assert(s.subrange(4, 8) =~= c.chunk_type);
    assert(s.subrange(8, 8 + len) =~= c.data);
    assert(s.subrange(8 + len, 12 + len) =~= be_bytes(chunk_crc(c)));
    let v = ChunkView { chunk_type: s.subrange(4, 8), data: s.subrange(8, 8 + len) };
    assert(v == c);
}

/// A record whose content was altered so that its stored checksum no longer
/// matches, while its length and a valid type were kept, is refused with a
/// checksum mismatch that reports both values.
proof fn lemma_altered_content_refused(c: ChunkView, altered: ChunkView)
    requires
        chunk_is_storable(c),
        type_is_valid(altered.chunk_type),
        altered.data.len() == c.data.len(),
        chunk_crc(altered) != chunk_crc(c),
    ensures
        chunk_from_bytes(
            be_bytes(c.data.len() as u32) + altered.chunk_type + altered.data + be_bytes(chunk_crc(c)),
        ) == Err::<ChunkView, ChunkError>(ChunkError::CrcMismatch(chunk_crc(c), chunk_crc(altered))),
{
    reveal(chunk_from_bytes);
    let s = be_bytes(c.data.len() as u32) + altered.chunk_type + altered.data + be_bytes(chunk_crc(c));
    let len = c.data.len() as int;
    lemma_be_round_trip(len as u32);
    lemma_be_round_trip(chunk_crc(c));
    assert(s.subrange(0, 4) =~= be_bytes(len as u32));
    assert(s.subrange(4, 8) =~= altered.chunk_type);
    assert(s.subrange(8, 8 + len) =~= altered.data);
    assert(s.subrange(8 + len, 12 + len) =~= be_bytes(chunk_crc(c)));
    let v = ChunkView { chunk_type: s.subrange(4, 8), data: s.subrange(8, 8 + len) };
    assert(v == altered);
}

/// Flipping bit `k` of byte `i` of a chunk's content (its type bytes, then
/// its payload) in the written record, without updating the stored checksum,
/// makes reading the record fail with a checksum mismatch, provided that the
/// type stays valid and the checksum of the content changes.
pub proof fn lemma_bit_flip_refused(c: ChunkView, i: int, k: u8)
    requires
        chunk_is_storable(c),
        0 <= i < 4 + c.data.len(),
        k < 8,
        type_is_valid(flip_bit(c.chunk_type + c.data, i, k).take(4)),
        crc32_of(flip_bit(c.chunk_type + c.data, i, k)) != chunk_crc(c),
    ensures
        chunk_from_bytes(flip_bit(chunk_bytes(c), 4 + i, k)) == Err::<ChunkView, ChunkError>(
            ChunkError::CrcMismatch(chunk_crc(c), crc32_of(flip_bit(c.chunk_type + c.data, i, k))),
        ),
{
    reveal(chunk_bytes);
    let content = flip_bit(c.chunk_type + c.data, i, k);
    let altered = ChunkView { chunk_type: content.take(4), data: content.skip(4) };
    assert(altered.chunk_type + altered.data =~= content);
    lemma_be_round_trip(c.data.len() as u32);
    assert(flip_bit(chunk_bytes(c), 4 + i, k) =~= be_bytes(c.data.len() as u32)
        + altered.chunk_type + altered.data + be_bytes(chunk_crc(c)));
    lemma_altered_content_refused(c, altered);
}

/// `s` with bit `k` of byte `i` inverted.
pub open spec fn flip_bit(s: Seq<u8>, i: int, k: u8) -> Seq<u8> {
    s.update(i, s[i] ^ (1u8 << k))
}

} // verus!
