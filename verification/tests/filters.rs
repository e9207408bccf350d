//! Round-trip and predictor behavior of the five scanline filters.

use png_decoder::filter::{
    decode_average, decode_none, decode_paeth, decode_sub, decode_up, paeth_predictor, unfilter,
    Filter,
};

/// The Paeth predictor, recomputed independently for the forward filter.
fn paeth_ref(left: u8, up: u8, up_left: u8) -> u8 {
    let (a, b, c) = (left as i16, up as i16, up_left as i16);
    let p = a + b - c;
    let pa = (p - a).abs();
    let pb = (p - b).abs();
    let pc = (p - c).abs();
    if pa <= pb && pa <= pc {
        left
    } else if pb <= pc {
        up
    } else {
        up_left
    }
}

/// Forward-filters one reconstructed row against the reconstructed previous
/// row, with the row-0 dispatch (`prev == None`): Up degenerates to None,
/// Average and Paeth to Sub.
fn filter_row(f: Filter, orig: &[u8], prev: Option<&[u8]>, bpp: usize) -> Vec<u8> {
    let effective = match (f, prev.is_some()) {
        (Filter::Up, false) => Filter::NoFilter,
        (Filter::Average, false) | (Filter::Paeth, false) => Filter::Sub,
        (g, _) => g,
    };
    (0..orig.len())
        .map(|i| {
            let left = if i >= bpp { orig[i - bpp] } else { 0 };
            let up = prev.map_or(0, |p| p[i]);
            let up_left = if i >= bpp { prev.map_or(0, |p| p[i - bpp]) } else { 0 };
            let predictor = match effective {
                Filter::NoFilter => 0,
                Filter::Sub => left,
                Filter::Up => up,
                Filter::Average => ((up as u16 + left as u16) / 2) as u8,
                Filter::Paeth => paeth_ref(left, up, up_left),
            };
            orig[i].wrapping_sub(predictor)
        })
        .collect()
}

fn roundtrip_first_row(f: Filter, orig: &[u8], bpp: usize) {
    let filtered = filter_row(f, orig, None, bpp);
    let scanlines = vec![(f, filtered.as_slice())];
    let data = unfilter(orig.len() / bpp, 1, bpp, scanlines);
    assert_eq!(&data, orig);
}

fn roundtrip_second_row(f: Filter, row0: &[u8], row1: &[u8], bpp: usize) {
    let filtered0 = filter_row(Filter::NoFilter, row0, None, bpp);
    let filtered1 = filter_row(f, row1, Some(row0), bpp);
    let scanlines = vec![
        (Filter::NoFilter, filtered0.as_slice()),
        (f, filtered1.as_slice()),
    ];
    let data = unfilter(row0.len() / bpp, 2, bpp, scanlines);
    let mut expected = row0.to_vec();
    expected.extend_from_slice(row1);
    assert_eq!(data, expected);
}

const ROW_A: [u8; 6] = [13, 255, 0, 200, 7, 99];
const ROW_B: [u8; 6] = [250, 1, 128, 33, 66, 177];

#[test]
fn roundtrip_none_rows() {
    roundtrip_first_row(Filter::NoFilter, &ROW_A, 3);
    roundtrip_second_row(Filter::NoFilter, &ROW_A, &ROW_B, 3);
}

#[test]
fn roundtrip_sub_rows() {
    roundtrip_first_row(Filter::Sub, &ROW_A, 3);
    roundtrip_second_row(Filter::Sub, &ROW_A, &ROW_B, 3);
}

#[test]
fn roundtrip_up_rows() {
    roundtrip_first_row(Filter::Up, &ROW_A, 3);
    roundtrip_second_row(Filter::Up, &ROW_A, &ROW_B, 3);
}

#[test]
fn roundtrip_average_rows() {
    roundtrip_first_row(Filter::Average, &ROW_A, 3);
    roundtrip_second_row(Filter::Average, &ROW_A, &ROW_B, 3);
}

#[test]
fn roundtrip_paeth_rows() {
    roundtrip_first_row(Filter::Paeth, &ROW_A, 3);
    roundtrip_second_row(Filter::Paeth, &ROW_A, &ROW_B, 3);
}

#[test]
fn roundtrip_single_byte_pixels() {
    for f in [
        Filter::NoFilter,
        Filter::Sub,
        Filter::Up,
        Filter::Average,
        Filter::Paeth,
    ] {
        roundtrip_first_row(f, &ROW_A, 1);
        roundtrip_second_row(f, &ROW_A, &ROW_B, 1);
    }
}

#[test]
fn paeth_all_equal_tie_returns_left() {
    // left == up == up_left makes pa == pb == pc == 0.
    assert_eq!(paeth_predictor(5, 5, 5), 5);
    assert_eq!(paeth_predictor(0, 0, 0), 0);
    assert_eq!(paeth_predictor(255, 255, 255), 255);
}

#[test]
fn paeth_left_up_tie_returns_left() {
    // left == up == 10, up_left == 0: pa == pb == 10 < pc == 20, and the
    // predictor must come from the left argument.
    assert_eq!(paeth_predictor(10, 10, 0), 10);
}

#[test]
fn paeth_prefers_nearest() {
    // p == 1 + 2 - 3 == 0: pa == 1 < pb == 2 < pc == 3.
    assert_eq!(paeth_predictor(1, 2, 3), 1);
    // Nearest is up: left 100, up 2, up_left 100 gives p == 2.
    assert_eq!(paeth_predictor(100, 2, 100), 2);
    // left and up tie at distance 40 from p == 20, so left wins.
    assert_eq!(paeth_predictor(60, 60, 100), 60);
    // Nearest is up_left: p == 0 + 100 - 50 == 50.
    assert_eq!(paeth_predictor(0, 100, 50), 50);
}

#[test]
fn decoders_write_at_line_start() {
    // decode_none copies the row into place and touches nothing else.
    let mut data = vec![9u8; 6];
    decode_none(&[1, 2, 3], 3, &mut data);
    assert_eq!(data, vec![9, 9, 9, 1, 2, 3]);

    // decode_sub adds the reconstructed byte one pixel to the left.
    let mut data = vec![0u8; 4];
    decode_sub(1, &[1, 2, 3, 250], 0, &mut data);
    assert_eq!(data, vec![1, 3, 6, 0]);

    // decode_up on the first row reduces to a plain copy.
    let mut data = vec![0u8; 3];
    let mut prev = vec![0u8; 3];
    decode_up(&[7, 8, 9], 0, &mut data, &mut prev);
    assert_eq!(data, vec![7, 8, 9]);

    // decode_up past the first row adds the byte above.
    let mut data = vec![10, 20, 250, 0, 0, 0];
    let mut prev = vec![0u8; 3];
    decode_up(&[1, 2, 6], 3, &mut data, &mut prev);
    assert_eq!(data, vec![10, 20, 250, 11, 22, 0]);
    assert_eq!(prev, vec![10, 20, 250]);

    // decode_average on the first row dispatches to Sub.
    let mut data = vec![0u8; 3];
    let mut prev = vec![0u8; 3];
    decode_average(1, &[10, 10, 10], 0, &mut data, &mut prev);
    assert_eq!(data, vec![10, 20, 30]);

    // decode_average past the first row averages up and left, truncating.
    let mut data = vec![10, 20, 30, 0, 0, 0];
    let mut prev = vec![0u8; 3];
    decode_average(1, &[5, 0, 0], 3, &mut data, &mut prev);
    // row: 5 + (10 + 0)/2 = 10; 0 + (20 + 10)/2 = 15; 0 + (30 + 15)/2 = 22.
    assert_eq!(data, vec![10, 20, 30, 10, 15, 22]);

    // decode_paeth on the first row dispatches to Sub.
    let mut data = vec![0u8; 3];
    let mut prev = vec![0u8; 3];
    decode_paeth(1, &[1, 1, 1], 0, &mut data, &mut prev);
    assert_eq!(data, vec![1, 2, 3]);
}

#[test]
fn filter_tag_codes() {
    assert!(matches!(Filter::from_byte(0), Ok(Filter::NoFilter)));
    assert!(matches!(Filter::from_byte(1), Ok(Filter::Sub)));
    assert!(matches!(Filter::from_byte(2), Ok(Filter::Up)));
    assert!(matches!(Filter::from_byte(3), Ok(Filter::Average)));
    assert!(matches!(Filter::from_byte(4), Ok(Filter::Paeth)));
    assert!(Filter::from_byte(5).is_err());
    assert!(Filter::from_byte(255).is_err());
    assert_eq!(Filter::Paeth.as_byte(), 4);
    assert_eq!(Filter::NoFilter.as_byte(), 0);
}

#[test]
fn unfilter_pads_missing_rows_with_zeros() {
    let scanlines = vec![(Filter::NoFilter, &[1u8, 2u8][..])];
    let data = unfilter(2, 3, 1, scanlines);
    assert_eq!(data, vec![1, 2, 0, 0, 0, 0]);
}
