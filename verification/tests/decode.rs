//! End-to-end decoding, inflation of one zlib stream split across chunk
//! boundaries, and rejection of malformed streams.

use miniz_oxide::deflate::compress_to_vec_zlib;
use png_decoder::chunk::{Chunk, ChunkType};
use png_decoder::chunk_data::inflate_idats;
use png_decoder::error::PngError;
use png_decoder::png::{decode, decode_no_check, decode_no_check_bis, parse_chunks};

const SIGNATURE: [u8; 8] = [137, 80, 78, 71, 13, 10, 26, 10];

fn chunk_bytes(tag: &[u8; 4], payload: &[u8]) -> Vec<u8> {
    let mut out = Vec::new();
    out.extend_from_slice(&(payload.len() as u32).to_be_bytes());
    out.extend_from_slice(tag);
    out.extend_from_slice(payload);
    out.extend_from_slice(&[0, 0, 0, 0]); // crc is not verified
    out
}

fn ihdr_payload(width: u32, height: u32, bit_depth: u8, color_type: u8) -> Vec<u8> {
    let mut p = Vec::new();
    p.extend_from_slice(&width.to_be_bytes());
    p.extend_from_slice(&height.to_be_bytes());
    p.push(bit_depth);
    p.push(color_type);
    p.push(0); // compression method
    p.push(0); // filter method
    p.push(0); // no interlace
    p
}

/// A 2x2 grayscale image whose decompressed scanline stream is
/// row0 = [None, 10, 20], row1 = [Up, 5, 5].
fn tiny_gray_png() -> Vec<u8> {
    let scanlines: [u8; 6] = [0, 10, 20, 2, 5, 5];
    let compressed = compress_to_vec_zlib(&scanlines, 6);
    let mut png = Vec::new();
    png.extend_from_slice(&SIGNATURE);
    png.extend_from_slice(&chunk_bytes(b"IHDR", &ihdr_payload(2, 2, 8, 0)));
    png.extend_from_slice(&chunk_bytes(b"IDAT", &compressed));
    png.extend_from_slice(&chunk_bytes(b"IEND", &[]));
    png
}

#[test]
fn end_to_end_tiny_gray() {
    let png = decode(&tiny_gray_png()).expect("decode");
    assert_eq!(png.width, 2);
    assert_eq!(png.height, 2);
    assert_eq!(png.bytes_per_pixel, 1);
    // row1 = row0 + row1 mod 256 under the Up filter.
    assert_eq!(png.data, vec![10, 20, 15, 25]);
    assert_eq!(png.get(0, 0), &[10u8][..]);
    assert_eq!(png.get(1, 0), &[20u8][..]);
    assert_eq!(png.get(0, 1), &[15u8][..]);
    assert_eq!(png.get(1, 1), &[25u8][..]);
}

#[test]
fn end_to_end_no_check_paths_agree() {
    let bytes = tiny_gray_png();
    let a = decode_no_check(&bytes).expect("slices path");
    let b = decode_no_check_bis(&bytes).expect("offsets path");
    assert_eq!(a.data, vec![10, 20, 15, 25]);
    assert_eq!(a.data, b.data);
    assert_eq!(a.width, b.width);
    assert_eq!(a.height, b.height);
}

#[test]
fn end_to_end_rgb_with_filters() {
    // 2x2 RGB, row 0 Sub-filtered, row 1 Paeth-filtered.
    let row0: [u8; 6] = [10, 20, 30, 40, 50, 60];
    let row1: [u8; 6] = [11, 21, 31, 41, 51, 61];
    let mut stream = vec![1u8]; // Sub
    for i in 0..6 {
        let left = if i >= 3 { row0[i - 3] } else { 0 };
        stream.push(row0[i].wrapping_sub(left));
    }
    stream.push(2); // Up
    for i in 0..6 {
        stream.push(row1[i].wrapping_sub(row0[i]));
    }
    let compressed = compress_to_vec_zlib(&stream, 6);
    let mut png_bytes = Vec::new();
    png_bytes.extend_from_slice(&SIGNATURE);
    png_bytes.extend_from_slice(&chunk_bytes(b"IHDR", &ihdr_payload(2, 2, 8, 2)));
    png_bytes.extend_from_slice(&chunk_bytes(b"IDAT", &compressed));
    png_bytes.extend_from_slice(&chunk_bytes(b"IEND", &[]));
    let png = decode(&png_bytes).expect("decode");
    assert_eq!(png.bytes_per_pixel, 3);
    let mut expected = row0.to_vec();
    expected.extend_from_slice(&row1);
    assert_eq!(png.data, expected);
    assert_eq!(png.get(1, 1), &[41u8, 51, 61][..]);
}

#[test]
fn split_inflation_matches_unsplit() {
    // One zlib stream split across N > 1 IDAT chunks inflates to the same
    // bytes as the unsplit stream, for every split point.
    let payload: Vec<u8> = (0..200u32).map(|i| (i * 7 % 251) as u8).collect();
    let compressed = compress_to_vec_zlib(&payload, 6);
    let whole_chunks = vec![Chunk {
        length: compressed.len() as u32,
        chunk_type: ChunkType::IDAT,
        data_start: 0,
        crc: [0; 4],
    }];
    let whole = inflate_idats(&whole_chunks, &compressed).expect("unsplit");
    assert_eq!(whole, payload);
    for split in 1..compressed.len() {
        let chunks = vec![
            Chunk {
                length: split as u32,
                chunk_type: ChunkType::IDAT,
                data_start: 0,
                crc: [0; 4],
            },
            Chunk {
                length: (compressed.len() - split) as u32,
                chunk_type: ChunkType::IDAT,
                data_start: split,
                crc: [0; 4],
            },
        ];
        let split_out = inflate_idats(&chunks, &compressed).expect("split");
        assert_eq!(split_out, whole, "split at {}", split);
    }
}

#[test]
fn split_inflation_three_way() {
    let payload: Vec<u8> = (0..5000u32).map(|i| (i % 256) as u8).collect();
    let compressed = compress_to_vec_zlib(&payload, 9);
    let a = compressed.len() / 3;
    let b = 2 * compressed.len() / 3;
    let chunks = vec![
        Chunk { length: a as u32, chunk_type: ChunkType::IDAT, data_start: 0, crc: [0; 4] },
        Chunk {
            length: (b - a) as u32,
            chunk_type: ChunkType::IDAT,
            data_start: a,
            crc: [0; 4],
        },
        Chunk {
            length: (compressed.len() - b) as u32,
            chunk_type: ChunkType::IDAT,
            data_start: b,
            crc: [0; 4],
        },
    ];
    let out = inflate_idats(&chunks, &compressed).expect("three chunks");
    assert_eq!(out, payload);
}

#[test]
fn truncated_idat_stream_is_inflate_error() {
    // Cutting the compressed stream short leaves the decompressor needing
    // more input on the final chunk.
    let payload: Vec<u8> = (0..100u32).map(|i| i as u8).collect();
    let mut compressed = compress_to_vec_zlib(&payload, 6);
    compressed.truncate(compressed.len() - 4);
    let chunks = vec![Chunk {
        length: compressed.len() as u32,
        chunk_type: ChunkType::IDAT,
        data_start: 0,
        crc: [0; 4],
    }];
    assert!(matches!(
        inflate_idats(&chunks, &compressed),
        Err(PngError::Inflate)
    ));
}

#[test]
fn garbage_idat_stream_is_inflate_error() {
    let garbage: Vec<u8> = vec![0xde, 0xad, 0xbe, 0xef, 1, 2, 3];
    let chunks = vec![Chunk {
        length: garbage.len() as u32,
        chunk_type: ChunkType::IDAT,
        data_start: 0,
        crc: [0; 4],
    }];
    assert!(matches!(
        inflate_idats(&chunks, &garbage),
        Err(PngError::Inflate)
    ));
}

#[test]
fn rejects_first_chunk_not_ihdr() {
    let compressed = compress_to_vec_zlib(&[0u8, 1, 2], 6);
    let mut bytes = Vec::new();
    bytes.extend_from_slice(&SIGNATURE);
    bytes.extend_from_slice(&chunk_bytes(b"IDAT", &compressed));
    bytes.extend_from_slice(&chunk_bytes(b"IHDR", &ihdr_payload(2, 1, 8, 0)));
    bytes.extend_from_slice(&chunk_bytes(b"IEND", &[]));
    assert!(matches!(
        decode(&bytes),
        Err(PngError::Ordering(ChunkType::IDAT))
    ));
}

#[test]
fn rejects_declared_length_past_input() {
    let mut bytes = Vec::new();
    bytes.extend_from_slice(&SIGNATURE);
    // Declares a 1000-byte payload but supplies 13.
    bytes.extend_from_slice(&1000u32.to_be_bytes());
    bytes.extend_from_slice(b"IHDR");
    bytes.extend_from_slice(&ihdr_payload(2, 2, 8, 0));
    bytes.extend_from_slice(&[0, 0, 0, 0]);
    assert!(matches!(parse_chunks(&bytes), Err(PngError::Format)));
    assert!(matches!(decode(&bytes), Err(PngError::Format)));
}

#[test]
fn rejects_bad_signature() {
    let mut bytes = tiny_gray_png();
    bytes[0] = 0;
    assert!(matches!(decode(&bytes), Err(PngError::Format)));
    assert!(matches!(decode_no_check(&bytes), Err(PngError::Format)));
}

#[test]
fn rejects_truncated_signature() {
    assert!(matches!(decode(&SIGNATURE[..5]), Err(PngError::Format)));
    assert!(decode(&[]).is_err());
}

#[test]
fn rejects_palette_image_at_reconstruction() {
    let compressed = compress_to_vec_zlib(&[0u8, 1, 1], 6);
    let mut bytes = Vec::new();
    bytes.extend_from_slice(&SIGNATURE);
    bytes.extend_from_slice(&chunk_bytes(b"IHDR", &ihdr_payload(2, 1, 8, 3)));
    bytes.extend_from_slice(&chunk_bytes(b"IDAT", &compressed));
    bytes.extend_from_slice(&chunk_bytes(b"IEND", &[]));
    assert!(matches!(decode(&bytes), Err(PngError::Unsupported)));
}

#[test]
fn rejects_bad_filter_tag() {
    // A scanline stream whose tag byte is 9 names no filter.
    let compressed = compress_to_vec_zlib(&[9u8, 1, 2], 6);
    let mut bytes = Vec::new();
    bytes.extend_from_slice(&SIGNATURE);
    bytes.extend_from_slice(&chunk_bytes(b"IHDR", &ihdr_payload(2, 1, 8, 0)));
    bytes.extend_from_slice(&chunk_bytes(b"IDAT", &compressed));
    bytes.extend_from_slice(&chunk_bytes(b"IEND", &[]));
    assert!(matches!(decode(&bytes), Err(PngError::Format)));
}

#[test]
fn rejects_unknown_chunk_in_stream() {
    let mut bytes = Vec::new();
    let compressed = compress_to_vec_zlib(&[0u8, 1, 2], 6);
    bytes.extend_from_slice(&SIGNATURE);
    bytes.extend_from_slice(&chunk_bytes(b"IHDR", &ihdr_payload(2, 1, 8, 0)));
    bytes.extend_from_slice(&chunk_bytes(b"abcd", &[1, 2, 3]));
    bytes.extend_from_slice(&chunk_bytes(b"IDAT", &compressed));
    bytes.extend_from_slice(&chunk_bytes(b"IEND", &[]));
    assert!(matches!(decode(&bytes), Err(PngError::Unsupported)));
    // The unvalidated path ignores the unknown chunk and still decodes.
    assert!(decode_no_check(&bytes).is_ok());
}

#[test]
fn decodes_image_split_across_idats() {
    // The tiny gray image with its zlib stream split over two IDAT chunks.
    let scanlines: [u8; 6] = [0, 10, 20, 2, 5, 5];
    let compressed = compress_to_vec_zlib(&scanlines, 6);
    let split = compressed.len() / 2;
    let mut bytes = Vec::new();
    bytes.extend_from_slice(&SIGNATURE);
    bytes.extend_from_slice(&chunk_bytes(b"IHDR", &ihdr_payload(2, 2, 8, 0)));
    bytes.extend_from_slice(&chunk_bytes(b"IDAT", &compressed[..split]));
    bytes.extend_from_slice(&chunk_bytes(b"IDAT", &compressed[split..]));
    bytes.extend_from_slice(&chunk_bytes(b"IEND", &[]));
    let png = decode(&bytes).expect("decode split image");
    assert_eq!(png.data, vec![10, 20, 15, 25]);
}

#[test]
fn empty_idat_list_inflates_to_nothing() {
    let chunks: Vec<Chunk> = Vec::new();
    let out = inflate_idats(&chunks, &[]).expect("no chunks");
    assert!(out.is_empty());
}
