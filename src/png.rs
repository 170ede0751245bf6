//! The container: a fixed signature followed by an ordered list of chunks.

use vstd::prelude::*;
use vstd::string::StringSliceAdditionalSpecFns;

use crate::chunk::{
    chunk_bytes, chunk_from_bytes, chunk_is_storable, lemma_chunk_round_trip, lemma_read_chunk_fits, Chunk, ChunkError,
    ChunkView,
};
use crate::chunk_type::{parse_type_text, ChunkType, ChunkTypeError};

verus! {

/// The eight bytes every container starts with.
pub open spec fn signature() -> Seq<u8> {
    seq![137u8, 80u8, 78u8, 71u8, 13u8, 10u8, 26u8, 10u8]
}

/// The records of `cs`, one after the other.
pub open spec fn chunks_bytes(cs: Seq<ChunkView>) -> Seq<u8>
    decreases cs.len(),
{
    if cs.len() == 0 {
        Seq::empty()
    } else {
        chunk_bytes(cs[0]) + chunks_bytes(cs.subrange(1, cs.len() as int))
    }
}

/// The bytes written for a container holding `cs`.
pub open spec fn png_bytes(cs: Seq<ChunkView>) -> Seq<u8> {
    signature() + chunks_bytes(cs)
}

/// What reading records until `s` is used up gives; the first failure wins.
pub open spec fn chunks_from_bytes(s: Seq<u8>) -> Result<Seq<ChunkView>, ChunkError>
    decreases s.len(),
{
    if s.len() == 0 {
        Ok(Seq::empty())
    } else {
        match chunk_from_bytes(s) {
            Err(e) => Err(e),
            Ok(c) => {
                let used = 12 + c.data.len();
                // A record that was read always lies within `s`.
                if used <= s.len() {
                    match chunks_from_bytes(s.subrange(used as int, s.len() as int)) {
                        Err(e) => Err(e),
                        Ok(rest) => Ok(seq![c] + rest),
                    }
                } else {
                    Err(ChunkError::InvalidChunkLength(s.len() as usize))
                }
            },
        }
    }
}

/// What reading a container from `s` gives.
pub open spec fn png_from_bytes(s: Seq<u8>) -> Result<Seq<ChunkView>, PngError> {
    if s.len() < 8 || s.subrange(0, 8) != signature() {
        Err(PngError::InvalidSignature)
    } else {
        match chunks_from_bytes(s.subrange(8, s.len() as int)) {
            Ok(cs) => Ok(cs),
            Err(e) => Err(PngError::Chunk(e)),
        }
    }
}

/// The index of the first chunk of `cs` whose type bytes are `t`.
pub open spec fn position_of(cs: Seq<ChunkView>, t: Seq<u8>) -> Option<int>
    decreases cs.len(),
{
    if cs.len() == 0 {
        None
    } else {
        match position_of(cs.drop_last(), t) {
            Some(i) => Some(i),
            None => if cs.last().chunk_type == t {
                Some(cs.len() - 1)
            } else {
                None
            },
        }
    }
}

/// What removing the first chunk whose type is spelled `text` from `cs` gives:
/// the chunk taken out and the chunks left.
pub open spec fn removal(cs: Seq<ChunkView>, text: Seq<u8>) -> Result<
    (ChunkView, Seq<ChunkView>),
    PngError,
> {
    match parse_type_text(text) {
        Err(e) => Err(PngError::ChunkType(e)),
        Ok(t) => match position_of(cs, t) {
            None => Err(PngError::ChunkNotFound),
            Some(i) => Ok((cs[i], cs.remove(i))),
        },
    }
}

/// Why a container could not be read or changed.
#[derive(Debug, Clone, Copy, PartialEq, Eq, Structural)]
pub enum PngError {
    /// The bytes do not start with the signature.
    InvalidSignature,
    /// No chunk has the type asked for.
    ChunkNotFound,
    /// The type asked for is not a chunk type.
    ChunkType(ChunkTypeError),
    /// A chunk could not be read.
    Chunk(ChunkError),
}

/// A container: the signature, then its chunks in order.
#[derive(Debug)]
pub struct Png {
    chunks: Vec<Chunk>,
}

impl View for Png {
    type V = Seq<ChunkView>;

    closed spec fn view(&self) -> Seq<ChunkView> {
        self.chunks@.map_values(|c: Chunk| c@)
    }
}

proof fn lemma_position_step(cs: Seq<ChunkView>, t: Seq<u8>, i: int)
    requires
        0 <= i < cs.len(),
        position_of(cs.take(i), t) is None,
    ensures
        position_of(cs.take(i + 1), t) == if cs[i].chunk_type == t {
            Some(i)
        } else {
            None::<int>
        },
{
    assert(cs.take(i + 1).drop_last() =~= cs.take(i));
}

proof fn lemma_position_prefix(cs: Seq<ChunkView>, t: Seq<u8>, k: int)
    requires
        0 <= k <= cs.len(),
        position_of(cs.take(k), t) is Some,
    ensures
        position_of(cs, t) == position_of(cs.take(k), t),
    decreases cs.len(),
{
    if k == cs.len() {
        assert(cs.take(k) =~= cs);
    } else {
        assert(cs.drop_last().take(k) =~= cs.take(k));
        lemma_position_prefix(cs.drop_last(), t, k);
    }
}

proof fn lemma_position_in_range(cs: Seq<ChunkView>, t: Seq<u8>)
    ensures
        position_of(cs, t) matches Some(i) ==> 0 <= i < cs.len() && cs[i].chunk_type == t,
    decreases cs.len(),
{
    if cs.len() > 0 {
        lemma_position_in_range(cs.drop_last(), t);
    }
}

proof fn lemma_chunks_bytes_push(cs: Seq<ChunkView>, c: ChunkView)
    ensures
        chunks_bytes(cs.push(c)) == chunks_bytes(cs) + chunk_bytes(c),
    decreases cs.len(),
{
    if cs.len() == 0 {
        assert(cs.push(c).subrange(1, 1) =~= Seq::<ChunkView>::empty());
        assert(chunks_bytes(Seq::<ChunkView>::empty()) == Seq::<u8>::empty());
        assert(chunks_bytes(cs.push(c)) =~= chunks_bytes(cs) + chunk_bytes(c));
    } else {
        let tail = cs.subrange(1, cs.len() as int);
        lemma_chunks_bytes_push(tail, c);
        assert(cs.push(c).subrange(1, cs.len() + 1 as int) =~= tail.push(c));
        assert(chunks_bytes(cs.push(c)) =~= chunks_bytes(cs) + chunk_bytes(c));
    }
}

fn starts_with_signature(bytes: &[u8]) -> (r: bool)
    ensures
        r == (bytes@.len() >= 8 && bytes@.subrange(0, 8) == signature()),
{
    if bytes.len() < 8 {
        return false;
    }
    let r = bytes[0] == 137 && bytes[1] == 80 && bytes[2] == 78 && bytes[3] == 71 && bytes[4] == 13
        && bytes[5] == 10 && bytes[6] == 26 && bytes[7] == 10;
    if r {
        assert(bytes@.subrange(0, 8) =~= signature());
    } else {
        assert(bytes@.subrange(0, 8) != signature()) by {
            if bytes@.subrange(0, 8) == signature() {
                assert(bytes@.subrange(0, 8)[0] == 137);
            }
        }
    }
    r
}

impl Png {
    /// A container holding `chunks`, in that order.
    pub fn from_chunks(chunks: Vec<Chunk>) -> (r: Png)
        ensures
            r@ == chunks@.map_values(|c: Chunk| c@),
    {
        Png { chunks }
    }

    /// Reads a container: the signature, then records until the bytes are
    /// used up. The first record that cannot be read fails the whole.
    pub fn parse(bytes: &[u8]) -> (r: Result<Png, PngError>)
        ensures
            match r {
                Ok(p) => png_from_bytes(bytes@) == Ok::<Seq<ChunkView>, PngError>(p@),
                Err(e) => png_from_bytes(bytes@) == Err::<Seq<ChunkView>, PngError>(e),
            },
    {
        if !starts_with_signature(bytes) {
            return Err(PngError::InvalidSignature);
        }
        let ghost all = bytes@.subrange(8, bytes@.len() as int);
        let mut chunks: Vec<Chunk> = Vec::new();
        let mut pos: usize = 8;
        while pos < bytes.len()
            invariant
                8 <= pos <= bytes@.len(),
                bytes@.subrange(0, 8) == signature(),
                all == bytes@.subrange(8, bytes@.len() as int),
                chunks_from_bytes(all) == match chunks_from_bytes(
                    bytes@.subrange(pos as int, bytes@.len() as int),
                ) {
                    Ok(rest) => Ok(chunks@.map_values(|c: Chunk| c@) + rest),
                    Err(e) => Err(e),
                },
            decreases bytes@.len() - pos,
        {
            let ghost s = bytes@.subrange(pos as int, bytes@.len() as int);
            let rest = &bytes[pos..bytes.len()];
            proof {
                lemma_read_chunk_fits(s);
            }
            match Chunk::parse(rest) {
                Err(e) => {
                    assert(chunks_from_bytes(s) == Err::<Seq<ChunkView>, ChunkError>(e));
                    return Err(PngError::Chunk(e));
                },
                Ok(c) => {
                    let used = 12 + c.length() as usize;
                    proof {
                        assert(s.subrange(used as int, s.len() as int) =~= bytes@.subrange(
                            pos + used,
                            bytes@.len() as int,
                        ));
                        assert(chunks@.push(c).map_values(|c: Chunk| c@) =~= chunks@.map_values(
                            |c: Chunk| c@,
                        ).push(c@));
                        match chunks_from_bytes(s.subrange(used as int, s.len() as int)) {
                            Ok(tail) => {
                                assert(chunks@.map_values(|c: Chunk| c@) + (seq![c@] + tail)
                                    =~= chunks@.map_values(|c: Chunk| c@).push(c@) + tail);
                            },
                            Err(_) => {},
                        }
                    }
                    pos = pos + used;
                    chunks.push(c);
                },
            }
        }
        assert(bytes@.subrange(pos as int, bytes@.len() as int) =~= Seq::<u8>::empty());
        assert(chunks@.map_values(|c: Chunk| c@) + Seq::<ChunkView>::empty() =~= chunks@.map_values(
            |c: Chunk| c@,
        ));
        Ok(Png { chunks })
    }

    /// Adds `chunk` at the end.
    pub fn append_chunk(&mut self, chunk: Chunk)
        ensures
            final(self)@ == old(self)@.push(chunk@),
    {
        self.chunks.push(chunk);
        assert(self.chunks@.map_values(|c: Chunk| c@) =~= old(self)@.push(chunk@));
    }

    /// The index of the first chunk whose type bytes are `text`.
    fn find(&self, text: &[u8]) -> (r: Option<usize>)
        ensures
            match position_of(self@, text@) {
                Some(i) => r matches Some(j) && j == i && j < self@.len(),
                None => r is None,
            },
    {
        proof {
            lemma_position_in_range(self@, text@);
        }
        let mut i: usize = 0;
        while i < self.chunks.len()
            invariant
                0 <= i <= self.chunks@.len(),
                position_of(self@.take(i as int), text@) is None,
            decreases self.chunks@.len() - i,
        {
            proof {
                lemma_position_step(self@, text@, i as int);
            }
            assert(self@[i as int] == self.chunks@[i as int]@);
            if self.chunks[i].chunk_type().matches_bytes(text) {
                proof {
                    lemma_position_prefix(self@, text@, i + 1);
                }
                return Some(i);
            }
            i += 1;
        }
        assert(self@.take(i as int) =~= self@);
        None
    }

    /// Takes out the first chunk whose type is `chunk_type` and returns it.
    /// On failure the container is left as it was.
    pub fn remove_chunk(&mut self, chunk_type: &str) -> (r: Result<Chunk, PngError>)
        ensures
            match removal(old(self)@, chunk_type.spec_bytes()) {
                Ok((c, rest)) => r matches Ok(x) && x@ == c && final(self)@ == rest,
                Err(e) => r == Err::<Chunk, PngError>(e) && final(self)@ == old(self)@,
            },
    {
        match ChunkType::parse_str(chunk_type) {
            Err(e) => Err(PngError::ChunkType(e)),
            Ok(_) => {
                let text = chunk_type.as_bytes();
                match self.find(text) {
                    None => Err(PngError::ChunkNotFound),
                    Some(i) => {
                        let c = self.chunks.remove(i);
                        assert(self.chunks@.map_values(|c: Chunk| c@) =~= old(self)@.remove(
                            i as int,
                        ));
                        Ok(c)
                    },
                }
            },
        }
    }

    /// The first chunk whose type is spelled `chunk_type`.
    pub fn chunk_by_type(&self, chunk_type: &str) -> (r: Option<&Chunk>)
        ensures
            match position_of(self@, chunk_type.spec_bytes()) {
                Some(i) => r matches Some(c) && c@ == self@[i],
                None => r is None,
            },
    {
        match self.find(chunk_type.as_bytes()) {
            Some(i) => {
                assert(self@[i as int] == self.chunks@[i as int]@);
                Some(&self.chunks[i])
            },
            None => None,
        }
    }

    /// The chunks, in order.
    pub fn chunks(&self) -> (r: &[Chunk])
        ensures
            r@.map_values(|c: Chunk| c@) == self@,
    {
        self.chunks.as_slice()
    }

    /// The signature followed by every chunk's record, in order.
    pub fn as_bytes(&self) -> (r: Vec<u8>)
        ensures
            r@ == png_bytes(self@),
    {
        let mut out: Vec<u8> = Vec::new();
        out.push(137);
        out.push(80);
        out.push(78);
        out.push(71);
        out.push(13);
        out.push(10);
        out.push(26);
        out.push(10);
        assert(out@ =~= signature() + chunks_bytes(self@.take(0)));
        let mut i: usize = 0;
        while i < self.chunks.len()
            invariant
                0 <= i <= self.chunks@.len(),
                out@ == signature() + chunks_bytes(self@.take(i as int)),
            decreases self.chunks@.len() - i,
        {
            let record = self.chunks[i].as_bytes();
            proof {
                assert(self@.take(i + 1) =~= self@.take(i as int).push(self@[i as int]));
                lemma_chunks_bytes_push(self@.take(i as int), self@[i as int]);
            }
            crate::encoding::push_all(&mut out, record.as_slice());
            i += 1;
        }
        assert(self@.take(i as int) =~= self@);
        out
    }
}

impl<'a> TryFrom<&'a [u8]> for Png {
    type Error = PngError;

    fn try_from(bytes: &'a [u8]) -> Result<Png, PngError> {
        Png::parse(bytes)
    }
}

/// What `try_from` returns is stated by `Png::parse`, which it calls.
impl<'a> vstd::std_specs::convert::TryFromSpecImpl<&'a [u8]> for Png {
    open spec fn obeys_try_from_spec() -> bool {
        false
    }

    closed spec fn try_from_spec(bytes: &'a [u8]) -> Result<Png, PngError> {
        arbitrary()
    }
}

/// Reading records written for storable chunks gives those chunks back.
proof fn lemma_chunks_round_trip(cs: Seq<ChunkView>)
    requires
        forall|i: int| 0 <= i < cs.len() ==> chunk_is_storable(#[trigger] cs[i]),
    ensures
        chunks_from_bytes(chunks_bytes(cs)) == Ok::<Seq<ChunkView>, ChunkError>(cs),
    decreases cs.len(),
{
    if cs.len() > 0 {
        let tail = cs.subrange(1, cs.len() as int);
        assert forall|i: int| 0 <= i < tail.len() implies chunk_is_storable(#[trigger] tail[i]) by {
            assert(tail[i] == cs[i + 1]);
        }
        lemma_chunks_round_trip(tail);
        assert(chunk_is_storable(cs[0]));
        lemma_chunk_round_trip(cs[0], chunks_bytes(tail));
        let s = chunks_bytes(cs);
        assert(s == chunk_bytes(cs[0]) + chunks_bytes(tail));
        let used = 12 + cs[0].data.len();
        assert(s.subrange(used as int, s.len() as int) =~= chunks_bytes(tail));
        assert(seq![cs[0]] + tail =~= cs);
    } else {
        assert(cs =~= Seq::<ChunkView>::empty());
    }
}

/// Bytes written for a container of storable chunks read back as the same
/// chunks, and writing those chunks again gives the same bytes.
pub proof fn lemma_png_round_trip(cs: Seq<ChunkView>)
    requires
        forall|i: int| 0 <= i < cs.len() ==> chunk_is_storable(#[trigger] cs[i]),
    ensures
        png_from_bytes(png_bytes(cs)) == Ok::<Seq<ChunkView>, PngError>(cs),
        png_from_bytes(png_bytes(cs)) matches Ok(read) && png_bytes(read) == png_bytes(cs),
{
    lemma_chunks_round_trip(cs);
    let s = png_bytes(cs);
    assert(s.subrange(0, 8) =~= signature());
    assert(s.subrange(8, s.len() as int) =~= chunks_bytes(cs));
}

/// Appending a chunk whose type no chunk of the container has yet, then
/// removing that type, takes out the appended chunk and leaves the chunks
/// that were there before, in their order.
pub proof fn lemma_append_then_remove(cs: Seq<ChunkView>, c: ChunkView)
    requires
        parse_type_text(c.chunk_type) is Ok,
        position_of(cs, c.chunk_type) is None,
    ensures
        removal(cs.push(c), c.chunk_type) == Ok::<(ChunkView, Seq<ChunkView>), PngError>((c, cs)),
{
    assert(cs.push(c).drop_last() =~= cs);
    assert(cs.push(c).remove(cs.len() as int) =~= cs);
}

/// Removing a type that no chunk has fails with `ChunkNotFound`.
pub proof fn lemma_remove_absent(cs: Seq<ChunkView>, text: Seq<u8>)
    requires
        parse_type_text(text) is Ok,
        position_of(cs, text) is None,
    ensures
        removal(cs, text) == Err::<(ChunkView, Seq<ChunkView>), PngError>(PngError::ChunkNotFound),
{
}

} // verus!
