//! Chunk framing, header geometry, and the ancillary payload readers.

use miniz_oxide::deflate::compress_to_vec_zlib;
use png_decoder::chunk::{Chunk, ChunkType};
use png_decoder::chunk_data::{
    parse_bkgd_data, parse_chunk_data, parse_ihdr_data, parse_phys_data, parse_sbit_data,
    parse_text_data, parse_time_data, parse_ztxt_data, Background, ChunkData, DimensionUnit,
    SignificantBits,
};
use png_decoder::color::ColorType;
use png_decoder::error::PngError;
use png_decoder::png::parse_chunks;

const SIGNATURE: [u8; 8] = [137, 80, 78, 71, 13, 10, 26, 10];

fn chunk_bytes(tag: &[u8; 4], payload: &[u8]) -> Vec<u8> {
    let mut out = Vec::new();
    out.extend_from_slice(&(payload.len() as u32).to_be_bytes());
    out.extend_from_slice(tag);
    out.extend_from_slice(payload);
    out.extend_from_slice(&[1, 2, 3, 4]);
    out
}

#[test]
fn frames_chunks_with_fields() {
    let mut bytes = Vec::new();
    bytes.extend_from_slice(&SIGNATURE);
    bytes.extend_from_slice(&chunk_bytes(b"IHDR", &[9; 13]));
    bytes.extend_from_slice(&chunk_bytes(b"IDAT", &[7, 7]));
    bytes.extend_from_slice(&chunk_bytes(b"IEND", &[]));
    let chunks = parse_chunks(&bytes).expect("frames");
    assert_eq!(chunks.len(), 3);
    assert!(matches!(chunks[0].chunk_type, ChunkType::IHDR));
    assert_eq!(chunks[0].length, 13);
    assert_eq!(chunks[0].data_start, 16);
    assert_eq!(chunks[0].crc, [1, 2, 3, 4]);
    assert!(matches!(chunks[1].chunk_type, ChunkType::IDAT));
    assert_eq!(chunks[1].length, 2);
    assert_eq!(chunks[1].data(&bytes), &[7u8, 7][..]);
    assert!(matches!(chunks[2].chunk_type, ChunkType::IEND));
    assert_eq!(chunks[2].length, 0);
}

#[test]
fn frames_unrecognized_tags_as_unknown() {
    let mut bytes = Vec::new();
    bytes.extend_from_slice(&SIGNATURE);
    bytes.extend_from_slice(&chunk_bytes(b"fOOb", &[1]));
    let chunks = parse_chunks(&bytes).expect("frames");
    assert!(matches!(
        chunks[0].chunk_type,
        ChunkType::Unknown(['f', 'O', 'O', 'b'])
    ));
}

#[test]
fn rejects_truncated_crc() {
    let mut bytes = Vec::new();
    bytes.extend_from_slice(&SIGNATURE);
    let mut c = chunk_bytes(b"IEND", &[]);
    c.truncate(c.len() - 1); // cut one crc byte
    bytes.extend_from_slice(&c);
    assert!(matches!(parse_chunks(&bytes), Err(PngError::Format)));
}

#[test]
fn scanline_width_formula() {
    let h = parse_ihdr_data(&[
        0, 0, 0, 10, // width 10
        0, 0, 0, 3, // height 3
        8, // bit depth
        6, // RGBA
        0, 0, 0,
    ])
    .expect("header");
    assert_eq!(h.width, 10);
    assert_eq!(h.height, 3);
    assert_eq!(h.bit_depth, 8);
    assert_eq!(h.color_type, ColorType::RGBA);
    // 1 + 10 * 4 * 1 = 41
    assert_eq!(h.scanline_width(), 41);
    assert_eq!(h.bytes_per_pixel(), 4);
}

#[test]
fn scanline_width_sixteen_bit_rgb() {
    let h = parse_ihdr_data(&[0, 0, 0, 5, 0, 0, 0, 1, 16, 2, 0, 0, 0]).expect("header");
    assert_eq!(h.color_type, ColorType::RGB);
    // 1 + 5 * 3 * 2 = 31
    assert_eq!(h.scanline_width(), 31);
    assert_eq!(h.bytes_per_pixel(), 6);
}

#[test]
fn ihdr_rejects_bad_color_code() {
    let r = parse_ihdr_data(&[0, 0, 0, 1, 0, 0, 0, 1, 8, 5, 0, 0, 0]);
    assert!(matches!(r, Err(PngError::Format)));
    let short = parse_ihdr_data(&[0, 0, 0, 1]);
    assert!(matches!(short, Err(PngError::Format)));
}

#[test]
fn color_type_codes() {
    assert_eq!(ColorType::from_code(0), Some(ColorType::Gray));
    assert_eq!(ColorType::from_code(2), Some(ColorType::RGB));
    assert_eq!(ColorType::from_code(3), Some(ColorType::PLTE));
    assert_eq!(ColorType::from_code(4), Some(ColorType::GrayAlpha));
    assert_eq!(ColorType::from_code(6), Some(ColorType::RGBA));
    assert_eq!(ColorType::from_code(1), None);
    assert_eq!(ColorType::from_code(7), None);
}

#[test]
fn sbit_payload_shapes() {
    assert!(matches!(
        parse_sbit_data(&[5], 1),
        Ok(SignificantBits::Gray(5))
    ));
    assert!(matches!(
        parse_sbit_data(&[5, 6], 2),
        Ok(SignificantBits::GrayAlpha([5, 6]))
    ));
    assert!(matches!(
        parse_sbit_data(&[5, 6, 7], 3),
        Ok(SignificantBits::RGB([5, 6, 7]))
    ));
    assert!(matches!(
        parse_sbit_data(&[5, 6, 7, 8], 4),
        Ok(SignificantBits::RGBA([5, 6, 7, 8]))
    ));
    assert!(parse_sbit_data(&[5, 6, 7, 8, 9], 5).is_err());
    assert!(parse_sbit_data(&[], 1).is_err());
}

#[test]
fn bkgd_payload_shapes() {
    assert!(matches!(
        parse_bkgd_data(&[3], 1),
        Ok(Background::Palette(3))
    ));
    assert!(matches!(
        parse_bkgd_data(&[1, 0], 2),
        Ok(Background::Gray(256))
    ));
    assert!(matches!(
        parse_bkgd_data(&[0, 1, 0, 2, 0, 3], 6),
        Ok(Background::RGB([1, 2, 3]))
    ));
    assert!(parse_bkgd_data(&[0, 0, 0], 3).is_err());
    assert!(parse_bkgd_data(&[0], 2).is_err());
}

#[test]
fn phys_payload() {
    let p = parse_phys_data(&[0, 0, 11, 197, 0, 0, 11, 197, 1]).expect("phys");
    assert_eq!(p.x, 3013);
    assert_eq!(p.y, 3013);
    assert_eq!(p.unit, DimensionUnit::Meter);
    let q = parse_phys_data(&[0, 0, 0, 1, 0, 0, 0, 2, 0]).expect("phys");
    assert_eq!(q.unit, DimensionUnit::Unknown);
    assert!(matches!(
        parse_phys_data(&[0, 0, 0, 1, 0, 0, 0, 2, 2]),
        Err(PngError::Format)
    ));
    assert!(parse_phys_data(&[0, 0]).is_err());
}

#[test]
fn time_payload() {
    let t = parse_time_data(&[7, 208, 12, 31, 23, 59, 58]).expect("time");
    assert_eq!(t.year, 2000);
    assert_eq!(t.month, 12);
    assert_eq!(t.day, 31);
    assert_eq!(t.hour, 23);
    assert_eq!(t.minute, 59);
    assert_eq!(t.second, 58);
    assert!(parse_time_data(&[7, 208, 12]).is_err());
}

#[test]
fn text_payload() {
    let mut payload = b"Title".to_vec();
    payload.push(0);
    payload.extend_from_slice(b"A tiny image");
    let t = parse_text_data(&payload).expect("text");
    assert_eq!(t.keyword, "Title");
    assert_eq!(t.text, "A tiny image");
    // Without a keyword terminator the payload is rejected.
    assert!(matches!(
        parse_text_data(b"NoNullHere"),
        Err(PngError::Format)
    ));
    // Invalid UTF-8 in the text is rejected.
    let mut bad = b"K".to_vec();
    bad.push(0);
    bad.extend_from_slice(&[0xff, 0xfe]);
    assert!(matches!(parse_text_data(&bad), Err(PngError::Format)));
}

#[test]
fn ztxt_payload_inflates_text() {
    let mut payload = b"Comment".to_vec();
    payload.push(0);
    payload.push(0); // compression method
    payload.extend_from_slice(&compress_to_vec_zlib(b"hello compressed world", 6));
    let t = parse_ztxt_data(&payload).expect("ztxt");
    assert_eq!(t.keyword, "Comment");
    assert_eq!(t.method, 0);
    assert_eq!(t.text, "hello compressed world");
}

#[test]
fn ztxt_rejects_garbage_stream() {
    let mut payload = b"Comment".to_vec();
    payload.push(0);
    payload.push(0);
    payload.extend_from_slice(&[0xde, 0xad]);
    assert!(matches!(parse_ztxt_data(&payload), Err(PngError::Inflate)));
    // Missing the method byte.
    let short = b"Comment\0".to_vec();
    assert!(matches!(parse_ztxt_data(&short), Err(PngError::Format)));
}

#[test]
fn chunk_data_dispatch() {
    let mut input = Vec::new();
    input.extend_from_slice(&SIGNATURE);
    input.extend_from_slice(&chunk_bytes(b"IHDR", &[0, 0, 0, 2, 0, 0, 0, 2, 8, 0, 0, 0, 0]));
    input.extend_from_slice(&chunk_bytes(b"pHYs", &[0, 0, 0, 9, 0, 0, 0, 9, 0]));
    input.extend_from_slice(&chunk_bytes(b"sPLT", &[1, 2, 3]));
    let chunks = parse_chunks(&input).expect("frames");
    let d0 = parse_chunk_data(&chunks[0], &input).expect("ihdr");
    match d0 {
        ChunkData::IHDR(h) => {
            assert_eq!(h.width, 2);
            assert_eq!(h.color_type, ColorType::Gray);
        }
        other => panic!("expected IHDR data, got {:?}", other),
    }
    let d1 = parse_chunk_data(&chunks[1], &input).expect("phys");
    match d1 {
        ChunkData::pHYs(p) => assert_eq!(p.x, 9),
        other => panic!("expected pHYs data, got {:?}", other),
    }
    let d2 = parse_chunk_data(&chunks[2], &input).expect("splt");
    assert!(matches!(d2, ChunkData::Unknown));
}

#[test]
fn chunk_type_names() {
    let t = ChunkType::from_name(['I', 'H', 'D', 'R']);
    assert!(matches!(t, ChunkType::IHDR));
    assert!(t.is_ihdr());
    assert!(!t.is_idat());
    let d = ChunkType::from_name(['I', 'D', 'A', 'T']);
    assert!(d.is_idat());
    let u = ChunkType::from_name(['I', 'H', 'D', 'r']);
    assert!(matches!(u, ChunkType::Unknown(['I', 'H', 'D', 'r'])));
    assert!(matches!(
        ChunkType::from_name(['t', 'I', 'M', 'E']),
        ChunkType::tIME
    ));
}
