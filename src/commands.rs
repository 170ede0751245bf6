//! The operations a front end offers on a container held as bytes: add a
//! message, read one back, take one out.

use vstd::prelude::*;
use vstd::string::StringSliceAdditionalSpecFns;
use vstd::utf8::*;

use crate::chunk::{Chunk, ChunkError, ChunkView};
use crate::chunk_type::{parse_type_text, ChunkType};
use crate::encoding::push_all;
use crate::png::{png_bytes, png_from_bytes, position_of, removal, Png, PngError};
use crate::MAX_CHUNK_LEN;

verus! {

/// The container bytes after a chunk of type `type_text` carrying `message`
/// was added at the end of the container read from `png`.
pub open spec fn encode_result(png: Seq<u8>, type_text: Seq<u8>, message: Seq<u8>) -> Result<
    Seq<u8>,
    PngError,
> {
    match png_from_bytes(png) {
        Err(e) => Err(e),
        Ok(cs) => match parse_type_text(type_text) {
            Err(e) => Err(PngError::ChunkType(e)),
            Ok(t) => Ok(png_bytes(cs.push(ChunkView { chunk_type: t, data: message }))),
        },
    }
}

/// The text carried by the first chunk of type `type_text` in the container
/// read from `png`.
pub open spec fn decode_result(png: Seq<u8>, type_text: Seq<u8>) -> Result<Seq<char>, PngError> {
    match png_from_bytes(png) {
        Err(e) => Err(e),
        Ok(cs) => match position_of(cs, type_text) {
            None => Err(PngError::ChunkNotFound),
            Some(i) => if valid_utf8(cs[i].data) {
                Ok(decode_utf8(cs[i].data))
            } else {
                Err(PngError::Chunk(ChunkError::Utf8DecodeError))
            },
        },
    }
}

/// The container bytes after the first chunk of type `type_text` was taken
/// out of the container read from `png`.
pub open spec fn remove_result(png: Seq<u8>, type_text: Seq<u8>) -> Result<Seq<u8>, PngError> {
    match png_from_bytes(png) {
        Err(e) => Err(e),
        Ok(cs) => match removal(cs, type_text) {
            Err(e) => Err(e),
            Ok((_, rest)) => Ok(png_bytes(rest)),
        },
    }
}

/// The commands, on containers held in memory.
pub struct Handler {}

impl Handler {
    /// Adds a chunk of type `chunk_type` carrying `message` at the end of the
    /// container in `png` and returns the container's new bytes.
    pub fn encode(png: &[u8], chunk_type: &str, message: &str) -> (r: Result<Vec<u8>, PngError>)
        requires
            message.spec_bytes().len() <= MAX_CHUNK_LEN,
        ensures
            match encode_result(png@, chunk_type.spec_bytes(), message.spec_bytes()) {
                Ok(b) => r matches Ok(v) && v@ == b,
                Err(e) => r == Err::<Vec<u8>, PngError>(e),
            },
    {
        let mut container = match Png::parse(png) {
            Ok(p) => p,
            Err(e) => {
                return Err(e);
            },
        };
        let t = match ChunkType::parse_str(chunk_type) {
            Ok(t) => t,
            Err(e) => {
                return Err(PngError::ChunkType(e));
            },
        };
        let mut data: Vec<u8> = Vec::new();
        push_all(&mut data, message.as_bytes());
        assert(data@ =~= message.spec_bytes());
        container.append_chunk(Chunk::new(t, data));
        Ok(container.as_bytes())
    }

    /// The text of the first chunk of type `chunk_type` in the container in
    /// `png`.
    pub fn decode(png: &[u8], chunk_type: &str) -> (r: Result<String, PngError>)
        ensures
            match decode_result(png@, chunk_type.spec_bytes()) {
                Ok(text) => r matches Ok(s) && s@ == text,
                Err(e) => r == Err::<String, PngError>(e),
            },
    {
        let container = match Png::parse(png) {
            Ok(p) => p,
            Err(e) => {
                return Err(e);
            },
        };
        match container.chunk_by_type(chunk_type) {
            None => Err(PngError::ChunkNotFound),
            Some(c) => match c.data_as_string() {
                Ok(s) => Ok(s),
                Err(e) => Err(PngError::Chunk(e)),
            },
        }
    }

    /// Takes the first chunk of type `chunk_type` out of the container in
    /// `png` and returns the container's new bytes.
    pub fn remove(png: &[u8], chunk_type: &str) -> (r: Result<Vec<u8>, PngError>)
        ensures
            match remove_result(png@, chunk_type.spec_bytes()) {
                Ok(b) => r matches Ok(v) && v@ == b,
                Err(e) => r == Err::<Vec<u8>, PngError>(e),
            },
    {
        let mut container = match Png::parse(png) {
            Ok(p) => p,
            Err(e) => {
                return Err(e);
            },
        };
        match container.remove_chunk(chunk_type) {
            Ok(_) => Ok(container.as_bytes()),
            Err(e) => Err(e),
        }
    }
}

} // verus!
