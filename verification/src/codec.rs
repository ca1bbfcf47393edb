//! Persistence codec: a chunk's voxel array to bytes and back. The array is
//! serialised with `bitcode` and the result compressed as a DEFLATE stream
//! with `flate2`.

use crate::grid::{checked_volume, volume};
use crate::voxel_world::BlockType;
use std::io::Read;
use std::io::Write;
use vstd::prelude::*;

verus! {

/// The error that `bitcode::decode` returns.
#[verifier::external_type_specification]
#[verifier::external_body]
pub struct ExBitcodeError(bitcode::Error);

/// The error of the readers and writers that `flate2` builds on.
#[verifier::external_type_specification]
#[verifier::external_body]
pub struct ExIoError(std::io::Error);

/// The bytes that `bitcode::encode` makes of a vector of ids.
pub uninterp spec fn bitcode_encoding(ids: Seq<usize>) -> Seq<u8>;

/// The vector of ids that `bitcode::decode` reads from `bytes`; `None`
/// where it rejects them.
pub uninterp spec fn bitcode_decoding(bytes: Seq<u8>) -> Option<Seq<usize>>;

/// The DEFLATE stream that `flate2` writes for `data` at its fast level;
/// `None` where its compressor reports an error.
pub uninterp spec fn deflate_fast(data: Seq<u8>) -> Option<Seq<u8>>;

/// The data that `flate2` reads out of the DEFLATE stream `stream`; `None`
/// where reading it fails.
pub uninterp spec fn inflate(stream: Seq<u8>) -> Option<Seq<u8>>;

/// `bitcode::encode` on a vector of ids. It cannot fail, and `bitcode`
/// documents that decoding what it returns gives the vector back.
#[verifier::external_body]
fn bitcode_encode(ids: &Vec<usize>) -> (bytes: Vec<u8>)
    ensures
        bytes@ == bitcode_encoding(ids@),
        bitcode_decoding(bytes@) == Some(ids@),
{
    bitcode::encode(ids)
}

/// `bitcode::decode` to a vector of ids: the vector that `bitcode_decoding`
/// names, or the crate's error where there is none.
#[verifier::external_body]
fn bitcode_decode(bytes: &[u8]) -> (r: Result<Vec<usize>, bitcode::Error>)
    ensures
        r is Ok <==> bitcode_decoding(bytes@) is Some,
        r matches Ok(ids) ==> bitcode_decoding(bytes@) == Some(ids@),
{
    bitcode::decode(bytes)
}

/// `flate2::write::DeflateEncoder` at `Compression::fast()`, writing to a
/// vector, fed all of `data` and finished. Whether it succeeds depends on
/// `data` alone: it gives the stream that `deflate_fast` names, or the
/// writer's error where there is none. Reading a stream that it gave
/// gives `data` back.
#[verifier::external_body]
fn deflate_compress(data: &[u8]) -> (r: Result<Vec<u8>, std::io::Error>)
    ensures
        r is Ok <==> deflate_fast(data@) is Some,
        r matches Ok(stream) ==> deflate_fast(data@) == Some(stream@),
        r matches Ok(stream) ==> inflate(stream@) == Some(data@),
{
    let mut encoder = flate2::write::DeflateEncoder::new(Vec::new(), flate2::Compression::fast());
    encoder.write_all(data)?;
    encoder.finish()
}

/// `flate2::read::DeflateDecoder` over `stream`, read to its end: the data
/// that `inflate` names, or the reader's error where there is none.
#[verifier::external_body]
fn deflate_decompress(stream: &[u8]) -> (r: Result<Vec<u8>, std::io::Error>)
    ensures
        r is Ok <==> inflate(stream@) is Some,
        r matches Ok(data) ==> inflate(stream@) == Some(data@),
{
    let mut data = Vec::new();
    flate2::read::DeflateDecoder::new(stream).read_to_end(&mut data)?;
    Ok(data)
}

/// Why encoding or decoding a chunk failed.
#[derive(Clone, Copy, Debug, PartialEq, Eq, Structural)]
pub enum CodecError {
    /// The compressor reported an error.
    Compress,
    /// The bytes are not a complete DEFLATE stream.
    Decompress,
    /// The decompressed bytes are not a serialised vector of ids.
    Decode,
    /// The vector read does not have one id per voxel of a chunk.
    Length,
}

/// The bytes that stand for a voxel array; `None` where the compressor
/// gives none for the array's serialised form.
pub open spec fn encoded(voxels: Seq<BlockType>) -> Option<Seq<u8>> {
    deflate_fast(bitcode_encoding(voxels))
}

/// What a serialised vector is worth as the array of a chunk of
/// `voxel_count` voxels.
pub open spec fn checked(ids: Option<Seq<usize>>, voxel_count: int) -> Result<
    Seq<BlockType>,
    CodecError,
> {
    match ids {
        None => Err(CodecError::Decode),
        Some(v) => if v.len() == voxel_count {
            Ok(v)
        } else {
            Err(CodecError::Length)
        },
    }
}

/// The voxel array that `bytes` stand for in a world whose chunks hold
/// `voxel_count` voxels, or the reason why they stand for none.
pub open spec fn decoded(bytes: Seq<u8>, voxel_count: int) -> Result<Seq<BlockType>, CodecError> {
    match inflate(bytes) {
        None => Err(CodecError::Decompress),
        Some(raw) => checked(bitcode_decoding(raw), voxel_count),
    }
}

/// The outcome of encoding, given what the compressor returned.
pub fn compressed_or_error(stream: Result<Vec<u8>, std::io::Error>) -> (r: Result<
    Vec<u8>,
    CodecError,
>)
    ensures
        stream matches Ok(s) ==> r == Ok::<Vec<u8>, CodecError>(s),
        stream is Err ==> r == Err::<Vec<u8>, CodecError>(CodecError::Compress),
{
    match stream {
        Ok(s) => Ok(s),
        Err(_) => Err(CodecError::Compress),
    }
}

/// The outcome of decoding, given what the deserialiser returned: its
/// vector where it has `voxel_count` ids.
pub fn checked_ids(ids: Result<Vec<usize>, bitcode::Error>, voxel_count: Option<usize>) -> (r:
    Result<Vec<BlockType>, CodecError>)
    ensures
        ids is Err ==> r == Err::<Vec<BlockType>, CodecError>(CodecError::Decode),
        ids matches Ok(v) ==> r == if voxel_count == Some(v.len()) {
            Ok::<Vec<BlockType>, CodecError>(v)
        } else {
            Err(CodecError::Length)
        },
{
    match ids {
        Err(_) => Err(CodecError::Decode),
        Ok(v) => {
            match voxel_count {
                Some(n) => if v.len() == n {
                    Ok(v)
                } else {
                    Err(CodecError::Length)
                },
                None => Err(CodecError::Length),
            }
        },
    }
}

/// Serialises and compresses a voxel array. The bytes are owed wherever
/// the compressor gives a stream for the serialised array; they are then
/// `encoded(voxels)` and decode to `voxels` again.
pub fn encode(voxels: &Vec<BlockType>) -> (r: Result<Vec<u8>, CodecError>)
    ensures
        r is Ok <==> encoded(voxels@) is Some,
        r matches Ok(bytes) ==> encoded(voxels@) == Some(bytes@),
        r matches Ok(bytes) ==> decoded(bytes@, voxels@.len() as int) == Ok::<
            Seq<BlockType>,
            CodecError,
        >(voxels@),
        r matches Err(e) ==> e == CodecError::Compress,
{
    let raw = bitcode_encode(voxels);
    compressed_or_error(deflate_compress(raw.as_slice()))
}

/// Decompresses and deserialises the voxel array of a chunk of side
/// `chunk_len`.
pub fn decode(bytes: &[u8], chunk_len: usize) -> (r: Result<Vec<BlockType>, CodecError>)
    ensures
        r matches Ok(voxels) ==> decoded(bytes@, volume(chunk_len as int)) == Ok::<
            Seq<BlockType>,
            CodecError,
        >(voxels@),
        r matches Err(e) ==> decoded(bytes@, volume(chunk_len as int)) == Err::<
            Seq<BlockType>,
            CodecError,
        >(e),
{
    match deflate_decompress(bytes) {
        Err(_) => Err(CodecError::Decompress),
        Ok(raw) => {
            checked_ids(bitcode_decode(raw.as_slice()), checked_volume(chunk_len))
        },
    }
}

} // verus!
