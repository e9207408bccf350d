//! Scenarios for the chunk-ordering automaton.

use png_decoder::chunk::{validate_chunk_constraints, Chunk, ChunkType};
use png_decoder::error::PngError;

fn chunk_of(t: ChunkType) -> Chunk {
    Chunk { length: 0, chunk_type: t, data_start: 0, crc: [0; 4] }
}

fn sequence(types: &[ChunkType]) -> Vec<Chunk> {
    types.iter().map(|t| chunk_of(*t)).collect()
}

#[test]
fn accepts_minimal_stream() {
    let chunks = sequence(&[ChunkType::IHDR, ChunkType::IDAT, ChunkType::IEND]);
    assert!(validate_chunk_constraints(&chunks).is_ok());
}

#[test]
fn accepts_consecutive_idats() {
    let chunks = sequence(&[
        ChunkType::IHDR,
        ChunkType::IDAT,
        ChunkType::IDAT,
        ChunkType::IDAT,
        ChunkType::IEND,
    ]);
    assert!(validate_chunk_constraints(&chunks).is_ok());
}

#[test]
fn accepts_ancillary_chunks_in_order() {
    let chunks = sequence(&[
        ChunkType::IHDR,
        ChunkType::gAMA,
        ChunkType::cHRM,
        ChunkType::PLTE,
        ChunkType::tRNS,
        ChunkType::bKGD,
        ChunkType::pHYs,
        ChunkType::IDAT,
        ChunkType::tEXt,
        ChunkType::tIME,
        ChunkType::IEND,
    ]);
    assert!(validate_chunk_constraints(&chunks).is_ok());
}

#[test]
fn rejects_idat_before_ihdr() {
    let chunks = sequence(&[ChunkType::IDAT, ChunkType::IHDR, ChunkType::IEND]);
    assert!(matches!(
        validate_chunk_constraints(&chunks),
        Err(PngError::Ordering(ChunkType::IDAT))
    ));
}

#[test]
fn rejects_two_plte_chunks() {
    let chunks = sequence(&[
        ChunkType::IHDR,
        ChunkType::PLTE,
        ChunkType::PLTE,
        ChunkType::IDAT,
        ChunkType::IEND,
    ]);
    assert!(matches!(
        validate_chunk_constraints(&chunks),
        Err(PngError::Ordering(ChunkType::PLTE))
    ));
}

#[test]
fn rejects_plte_after_idat() {
    let chunks = sequence(&[
        ChunkType::IHDR,
        ChunkType::IDAT,
        ChunkType::PLTE,
        ChunkType::IEND,
    ]);
    assert!(matches!(
        validate_chunk_constraints(&chunks),
        Err(PngError::Ordering(ChunkType::PLTE))
    ));
}

#[test]
fn rejects_any_chunk_after_iend() {
    let chunks = sequence(&[
        ChunkType::IHDR,
        ChunkType::IDAT,
        ChunkType::IEND,
        ChunkType::tEXt,
    ]);
    assert!(matches!(
        validate_chunk_constraints(&chunks),
        Err(PngError::Ordering(ChunkType::tEXt))
    ));
}

#[test]
fn rejects_unknown_chunk_anywhere() {
    let chunks = sequence(&[
        ChunkType::IHDR,
        ChunkType::Unknown(['a', 'b', 'c', 'd']),
        ChunkType::IDAT,
        ChunkType::IEND,
    ]);
    assert!(matches!(
        validate_chunk_constraints(&chunks),
        Err(PngError::Unsupported)
    ));
}

#[test]
fn rejects_text_between_idats() {
    // A text chunk between two IDAT chunks revokes further IDAT
    // authorization, so a non-contiguous IDAT run is rejected.
    let chunks = sequence(&[
        ChunkType::IHDR,
        ChunkType::IDAT,
        ChunkType::tEXt,
        ChunkType::IDAT,
        ChunkType::IEND,
    ]);
    assert!(matches!(
        validate_chunk_constraints(&chunks),
        Err(PngError::Ordering(ChunkType::IDAT))
    ));
}

#[test]
fn rejects_second_ihdr() {
    let chunks = sequence(&[
        ChunkType::IHDR,
        ChunkType::IHDR,
        ChunkType::IDAT,
        ChunkType::IEND,
    ]);
    assert!(matches!(
        validate_chunk_constraints(&chunks),
        Err(PngError::Ordering(ChunkType::IHDR))
    ));
}

#[test]
fn rejects_gama_after_plte() {
    let chunks = sequence(&[
        ChunkType::IHDR,
        ChunkType::PLTE,
        ChunkType::gAMA,
        ChunkType::IDAT,
        ChunkType::IEND,
    ]);
    assert!(matches!(
        validate_chunk_constraints(&chunks),
        Err(PngError::Ordering(ChunkType::gAMA))
    ));
}

#[test]
fn rejects_second_time_chunk() {
    let chunks = sequence(&[
        ChunkType::IHDR,
        ChunkType::tIME,
        ChunkType::tIME,
        ChunkType::IDAT,
        ChunkType::IEND,
    ]);
    assert!(matches!(
        validate_chunk_constraints(&chunks),
        Err(PngError::Ordering(ChunkType::tIME))
    ));
}

#[test]
fn accepts_empty_sequence() {
    // The fold over no chunks never reaches a rejecting transition.
    let chunks: Vec<Chunk> = Vec::new();
    assert!(validate_chunk_constraints(&chunks).is_ok());
}
