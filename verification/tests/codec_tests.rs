use bevy_voxels::codec::{checked_ids, compressed_or_error, decode, encode, CodecError};
use bevy_voxels::grid::checked_volume;
use std::io::{Read, Write};

fn sample_chunk(side: usize) -> Vec<usize> {
    (0..side * side * side).map(|i| (i * 7 + i / 5) % 5).collect()
}

fn deflate(data: &[u8]) -> Vec<u8> {
    let mut encoder =
        flate2::write::DeflateEncoder::new(Vec::new(), flate2::Compression::fast());
    encoder.write_all(data).unwrap();
    encoder.finish().unwrap()
}

#[test]
fn encode_then_decode_gives_the_array_back() {
    let voxels = sample_chunk(32);
    let bytes = encode(&voxels).unwrap();
    assert_eq!(decode(&bytes, 32), Ok(voxels));
}

#[test]
fn round_trip_of_small_and_empty_arrays() {
    assert_eq!(decode(&encode(&vec![]).unwrap(), 0), Ok(vec![]));
    assert_eq!(decode(&encode(&vec![42]).unwrap(), 1), Ok(vec![42]));
    let big = vec![usize::MAX, 0, 1, 2, 3, 4, 5, 6];
    assert_eq!(decode(&encode(&big).unwrap(), 2), Ok(big));
}

#[test]
fn encoded_bytes_are_deflated_bitcode() {
    let voxels = sample_chunk(4);
    let bytes = encode(&voxels).unwrap();
    let raw = bitcode::encode(&voxels);
    assert_eq!(bytes, deflate(&raw));
    assert_ne!(bytes, raw);

    let mut inflated = Vec::new();
    flate2::read::DeflateDecoder::new(&bytes[..]).read_to_end(&mut inflated).unwrap();
    assert_eq!(inflated, raw);
    let ids: Vec<usize> = bitcode::decode(&inflated).unwrap();
    assert_eq!(ids, voxels);
}

#[test]
fn uniform_chunk_compresses() {
    let voxels = vec![3usize; 32768];
    let bytes = encode(&voxels).unwrap();
    assert!(bytes.len() < 1024);
    assert_eq!(decode(&bytes, 32), Ok(voxels));
}

#[test]
fn decode_rejects_a_broken_stream() {
    assert_eq!(decode(&[0xFF, 0xFF, 0xFF, 0xFF], 2), Err(CodecError::Decompress));
    let bytes = encode(&sample_chunk(4)).unwrap();
    assert_eq!(decode(&bytes[..bytes.len() / 2], 4), Err(CodecError::Decompress));
}

#[test]
fn decode_rejects_what_is_no_vector_of_ids() {
    let stream = deflate(&[1, 2, 3, 4, 5, 6, 7, 8, 9]);
    assert_eq!(decode(&stream, 2), Err(CodecError::Decode));
}

#[test]
fn decode_rejects_a_wrong_length() {
    let bytes = encode(&sample_chunk(2)).unwrap();
    assert_eq!(decode(&bytes, 3), Err(CodecError::Length));
    assert_eq!(decode(&bytes, 1), Err(CodecError::Length));
    assert_eq!(decode(&bytes, usize::MAX), Err(CodecError::Length));
    assert!(decode(&bytes, 2).is_ok());
}

#[test]
fn compressor_outcome_is_passed_on() {
    assert_eq!(compressed_or_error(Ok(vec![1, 2, 3])), Ok(vec![1, 2, 3]));
    let failure = std::io::Error::new(std::io::ErrorKind::Other, "full");
    assert_eq!(compressed_or_error(Err(failure)), Err(CodecError::Compress));
}

#[test]
fn decoded_ids_are_checked_for_their_number() {
    assert_eq!(checked_ids(Ok(vec![1, 2]), Some(2)), Ok(vec![1, 2]));
    assert_eq!(checked_ids(Ok(vec![1, 2]), Some(3)), Err(CodecError::Length));
    assert_eq!(checked_ids(Ok(vec![1, 2]), None), Err(CodecError::Length));
    let failure = bitcode::decode::<Vec<usize>>(&[0xFF]).unwrap_err();
    assert_eq!(checked_ids(Err(failure), Some(2)), Err(CodecError::Decode));
}

#[test]
fn checked_volume_detects_overflow() {
    assert_eq!(checked_volume(0), Some(0));
    assert_eq!(checked_volume(32), Some(32768));
    assert_eq!(checked_volume(usize::MAX), None);
    assert_eq!(checked_volume(1 << (usize::BITS / 2)), None);
}
