//! Per-scanline reconstruction: the five PNG filter types and their
//! inversion ("unfiltering") over the inflated byte stream.
//!
//! Every scanline in the inflated stream is one filter-tag byte followed by
//! `bpp * width` filtered bytes. Reconstruction is sequential: a row may
//! reference only the fully reconstructed previous row and the
//! already-reconstructed bytes of the row itself. All additions are unsigned
//! 8-bit wraparound.

use vstd::prelude::*;

use crate::error::PngError;

verus! {

/// The five per-scanline filter types, tagged 0 to 4 in the stream.
#[derive(Debug, Copy, Clone, PartialEq, Eq, Structural)]
pub enum Filter {
    NoFilter,
    Sub,
    Up,
    Average,
    Paeth,
}

/// The filter a tag byte names, or nothing for a tag above 4.
pub open spec fn spec_filter_of(value: u8) -> Option<Filter> {
    match value {
        0u8 => Some(Filter::NoFilter),
        1u8 => Some(Filter::Sub),
        2u8 => Some(Filter::Up),
        3u8 => Some(Filter::Average),
        4u8 => Some(Filter::Paeth),
        _ => None,
    }
}

impl Filter {
    /// Decodes a filter-tag byte; tags above 4 are a format error.
    pub fn from_byte(value: u8) -> (r: Result<Filter, PngError>)
        ensures
            match spec_filter_of(value) {
                Some(f) => r == Ok::<Filter, PngError>(f),
                None => r matches Err(e) && e is Format,
            },
    {
        match value {
            0 => Ok(Filter::NoFilter),
            1 => Ok(Filter::Sub),
            2 => Ok(Filter::Up),
            3 => Ok(Filter::Average),
            4 => Ok(Filter::Paeth),
            _ => Err(PngError::Format),
        }
    }

    /// The tag byte of this filter.
    pub fn as_byte(self) -> (b: u8)
        ensures
            spec_filter_of(b) == Some(self),
    {
        match self {
            Filter::NoFilter => 0,
            Filter::Sub => 1,
            Filter::Up => 2,
            Filter::Average => 3,
            Filter::Paeth => 4,
        }
    }
}

// THE RECONSTRUCTION MODEL ####################################################
//
// Per-byte reference values at column i of a row (bpp = bytes per pixel):
//   left    = reconstructed(row, i - bpp)      if i >= bpp else 0
//   up      = reconstructed(row - 1, i)        (zero row for the first row)
//   up_left = reconstructed(row - 1, i - bpp)  if i >= bpp else 0
//
//   None:    out(i) = in(i)
//   Sub:     out(i) = in(i) + left
//   Up:      out(i) = in(i) + up
//   Average: out(i) = in(i) + floor((up + left) / 2)
//   Paeth:   out(i) = in(i) + paeth(left, up, up_left)
//
// all modulo 256.

/// Addition modulo 256: the arithmetic of PNG filters.
pub open spec fn wadd(a: u8, b: u8) -> u8 {
    ((a + b) % 256) as u8
}

/// Subtraction modulo 256: what an encoder applies, inverted by `wadd`.
pub open spec fn wsub(a: u8, b: u8) -> u8 {
    (((a - b) + 256) % 256) as u8
}

/// The Paeth predictor: the neighbor nearest to `left + up - up_left`,
/// ties broken in the order left, up, up_left.
pub open spec fn spec_paeth(left: u8, up: u8, up_left: u8) -> u8 {
    let p = left + up - up_left;
    let pa = vstd::math::abs(p - left);
    let pb = vstd::math::abs(p - up);
    let pc = vstd::math::abs(p - up_left);
    if pa <= pb && pa <= pc {
        left
    } else if pb <= pc {
        up
    } else {
        up_left
    }
}

/// Byte `i` of a Sub-filtered row after reconstruction.
pub open spec fn spec_sub_byte(line: Seq<u8>, bpp: int, i: int) -> u8
    recommends
        1 <= bpp,
        0 <= i < line.len(),
    decreases i,
    when 1 <= bpp
{
    if i < bpp {
        line[i]
    } else {
        wadd(line[i], spec_sub_byte(line, bpp, i - bpp))
    }
}

/// Byte `i` of an Average-filtered row after reconstruction, against the
/// reconstructed previous row `prev`.
pub open spec fn spec_avg_byte(line: Seq<u8>, prev: Seq<u8>, bpp: int, i: int) -> u8
    recommends
        1 <= bpp,
        0 <= i < line.len(),
        prev.len() == line.len(),
    decreases i,
    when 1 <= bpp
{
    let left: int = if i < bpp {
        0
    } else {
        spec_avg_byte(line, prev, bpp, i - bpp) as int
    };
    wadd(line[i], ((prev[i] + left) / 2) as u8)
}

/// Byte `i` of a Paeth-filtered row after reconstruction, against the
/// reconstructed previous row `prev`.
pub open spec fn spec_paeth_byte(line: Seq<u8>, prev: Seq<u8>, bpp: int, i: int) -> u8
    recommends
        1 <= bpp,
        0 <= i < line.len(),
        prev.len() == line.len(),
    decreases i,
    when 1 <= bpp
{
    let left = if i < bpp {
        0u8
    } else {
        spec_paeth_byte(line, prev, bpp, i - bpp)
    };
    let up_left = if i < bpp {
        0u8
    } else {
        prev[i - bpp]
    };
    wadd(line[i], spec_paeth(left, prev[i], up_left))
}

/// A reconstructed Sub row.
pub open spec fn spec_sub_row(line: Seq<u8>, bpp: int) -> Seq<u8> {
    Seq::new(line.len(), |i: int| spec_sub_byte(line, bpp, i))
}

/// A reconstructed Up row against the reconstructed previous row.
pub open spec fn spec_up_row(line: Seq<u8>, prev: Seq<u8>) -> Seq<u8> {
    Seq::new(line.len(), |i: int| wadd(line[i], prev[i]))
}

/// A reconstructed Average row against the reconstructed previous row.
pub open spec fn spec_avg_row(line: Seq<u8>, prev: Seq<u8>, bpp: int) -> Seq<u8> {
    Seq::new(line.len(), |i: int| spec_avg_byte(line, prev, bpp, i))
}

/// A reconstructed Paeth row against the reconstructed previous row.
pub open spec fn spec_paeth_row(line: Seq<u8>, prev: Seq<u8>, bpp: int) -> Seq<u8> {
    Seq::new(line.len(), |i: int| spec_paeth_byte(line, prev, bpp, i))
}

/// The reconstruction of one scanline that is not the first, against the
/// reconstructed previous row `prev`.
pub open spec fn spec_recon_row(f: Filter, line: Seq<u8>, prev: Seq<u8>, bpp: int) -> Seq<u8> {
    match f {
        Filter::NoFilter => line,
        Filter::Sub => spec_sub_row(line, bpp),
        Filter::Up => spec_up_row(line, prev),
        Filter::Average => spec_avg_row(line, prev, bpp),
        Filter::Paeth => spec_paeth_row(line, prev, bpp),
    }
}

/// The reconstruction of the first scanline: with `up` and `up_left` both
/// zero, Up reduces to None, and Average and Paeth dispatch to Sub.
pub open spec fn spec_recon_first_row(f: Filter, line: Seq<u8>, bpp: int) -> Seq<u8> {
    match f {
        Filter::NoFilter | Filter::Up => line,
        Filter::Sub | Filter::Average | Filter::Paeth => spec_sub_row(line, bpp),
    }
}

/// The whole reconstructed raster: the concatenation of the reconstructed
/// rows, each row reconstructed against the one before it. Every row is
/// expected to hold exactly `len` filtered bytes.
pub open spec fn spec_unfilter(rows: Seq<(Filter, Seq<u8>)>, bpp: int, len: nat) -> Seq<u8>
    decreases rows.len(),
{
    if rows.len() == 0 {
        Seq::empty()
    } else {
        let prefix = spec_unfilter(rows.drop_last(), bpp, len);
        let f = rows.last().0;
        let line = rows.last().1;
        let row = if rows.len() == 1 {
            spec_recon_first_row(f, line, bpp)
        } else {
            spec_recon_row(
                f,
                line,
                prefix.subrange(prefix.len() - len, prefix.len() as int),
                bpp,
            )
        };
        prefix + row
    }
}

/// `data` with `row` overwriting the bytes from `start` on, the rest kept.
pub open spec fn spec_splice(data: Seq<u8>, start: int, row: Seq<u8>) -> Seq<u8>
    recommends
        0 <= start,
        start + row.len() <= data.len(),
{
    data.subrange(0, start) + row + data.subrange(start + row.len(), data.len() as int)
}

// EXECUTABLE RECONSTRUCTION ###################################################

/// The Paeth predictor over one byte triple.
pub fn paeth_predictor(left: u8, up: u8, up_left: u8) -> (r: u8)
    ensures
        r == spec_paeth(left, up, up_left),
{
    let a = left as i16;
    let b = up as i16;
    let c = up_left as i16;
    let p = a + b - c;
    let pa = if p >= a {
        p - a
    } else {
        a - p
    };
    let pb = if p >= b {
        p - b
    } else {
        b - p
    };
    let pc = if p >= c {
        p - c
    } else {
        c - p
    };
    if pa <= pb && pa <= pc {
        left
    } else if pb <= pc {
        up
    } else {
        up_left
    }
}

/// Reconstructs a None row: copies the filtered bytes into `data` at
/// `line_start` unchanged.
pub fn decode_none(line: &[u8], line_start: usize, data: &mut [u8])
    requires
        line_start + line@.len() <= old(data)@.len(),
    ensures
        final(data)@ == spec_splice(old(data)@, line_start as int, line@),
{
    let ghost data0 = data@;
    let data_len = data.len();
    let len = line.len();
    let mut i: usize = 0;
    while i < len
        invariant
            i <= len,
            len == line@.len(),
            line_start + len <= data_len,
            data@.len() == data_len,
            data@.len() == data0.len(),
            forall|j: int| 0 <= j < line_start ==> data@[j] == data0[j],
            forall|j: int| 0 <= j < i ==> data@[line_start + j] == line@[j],
            forall|j: int| line_start + i <= j < data@.len() ==> data@[j] == data0[j],
        decreases len - i,
    {
        data[line_start + i] = line[i];
        i += 1;
    }
    proof {
        assert(data@ =~= spec_splice(data0, line_start as int, line@));
    }
}

/// Reconstructs a Sub row: each byte is the filtered byte plus the
/// reconstructed byte one pixel to the left, modulo 256.
pub fn decode_sub(bpp: usize, line: &[u8], line_start: usize, data: &mut [u8])
    requires
        1 <= bpp <= line@.len(),
        line_start + line@.len() <= old(data)@.len(),
    ensures
        final(data)@ == spec_splice(old(data)@, line_start as int, spec_sub_row(line@, bpp as int)),
{
    let ghost data0 = data@;
    let data_len = data.len();
    let len = line.len();
    let mut i: usize = 0;
    while i < bpp
        invariant
            i <= bpp,
            1 <= bpp <= len,
            len == line@.len(),
            line_start + len <= data_len,
            data@.len() == data_len,
            data@.len() == data0.len(),
            forall|j: int| 0 <= j < line_start ==> data@[j] == data0[j],
            forall|j: int| 0 <= j < i ==> data@[line_start + j] == spec_sub_byte(
                line@,
                bpp as int,
                j,
            ),
            forall|j: int| line_start + i <= j < data@.len() ==> data@[j] == data0[j],
        decreases bpp - i,
    {
        data[line_start + i] = line[i];
        i += 1;
    }
    while i < len
        invariant
            bpp <= i <= len,
            1 <= bpp <= len,
            len == line@.len(),
            line_start + len <= data_len,
            data@.len() == data_len,
            data@.len() == data0.len(),
            forall|j: int| 0 <= j < line_start ==> data@[j] == data0[j],
            forall|j: int| 0 <= j < i ==> data@[line_start + j] == spec_sub_byte(
                line@,
                bpp as int,
                j,
            ),
            forall|j: int| line_start + i <= j < data@.len() ==> data@[j] == data0[j],
        decreases len - i,
    {
        let left = data[line_start + i - bpp];
        proof {
            assert(left == spec_sub_byte(line@, bpp as int, i - bpp));
            assert(spec_sub_byte(line@, bpp as int, i as int) == wadd(
                line@[i as int],
                spec_sub_byte(line@, bpp as int, i - bpp),
            ));
        }
        data[line_start + i] = line[i].wrapping_add(left);
        i += 1;
    }
    proof {
        assert(data@ =~= spec_splice(data0, line_start as int, spec_sub_row(line@, bpp as int)));
    }
}

/// The reconstructed previous row: the `len` bytes of `data` just before
/// `line_start`.
pub open spec fn spec_prev_row(data: Seq<u8>, line_start: int, len: int) -> Seq<u8>
    recommends
        len <= line_start <= data.len(),
{
    data.subrange(line_start - len, line_start)
}

/// Reconstructs an Up row: each byte is the filtered byte plus the byte
/// directly above it, modulo 256. On the first row (`line_start == 0`) there
/// is no row above, and the filter reduces to None. `previous` is scratch
/// space for the copy of the previous reconstructed row.
pub fn decode_up(line: &[u8], line_start: usize, data: &mut [u8], previous: &mut [u8])
    requires
        old(previous)@.len() == line@.len(),
        line_start == 0 || line_start >= line@.len(),
        line_start + line@.len() <= old(data)@.len(),
    ensures
        final(previous)@.len() == line@.len(),
        line_start == 0 ==> final(data)@ == spec_splice(old(data)@, 0, line@) && final(previous)@
            == old(previous)@,
        line_start != 0 ==> final(data)@ == spec_splice(
            old(data)@,
            line_start as int,
            spec_up_row(
                line@,
                spec_prev_row(old(data)@, line_start as int, line@.len() as int),
            ),
        ) && final(previous)@ == spec_prev_row(old(data)@, line_start as int, line@.len() as int),
{
    if line_start == 0 {
        decode_none(line, line_start, data);
        return ;
    }
    let ghost data0 = data@;
    let data_len = data.len();
    let len = line.len();
    let mut i: usize = 0;
    while i < len
        invariant
            i <= len,
            len == line@.len(),
            len <= line_start,
            line_start + len <= data_len,
            data@ == data0,
            data0.len() == data_len,
            previous@.len() == len,
            forall|j: int| 0 <= j < i ==> previous@[j] == data0[line_start - len + j],
        decreases len - i,
    {
        previous[i] = data[line_start - len + i];
        i += 1;
    }
    proof {
        assert(previous@ =~= spec_prev_row(data0, line_start as int, len as int));
    }
    let ghost prev = previous@;
    let mut i: usize = 0;
    while i < len
        invariant
            i <= len,
            len == line@.len(),
            len <= line_start,
            line_start + len <= data_len,
            data@.len() == data_len,
            data@.len() == data0.len(),
            previous@ == prev,
            prev.len() == len,
            forall|j: int| 0 <= j < line_start ==> data@[j] == data0[j],
            forall|j: int| 0 <= j < i ==> data@[line_start + j] == wadd(line@[j], prev[j]),
            forall|j: int| line_start + i <= j < data@.len() ==> data@[j] == data0[j],
        decreases len - i,
    {
        data[line_start + i] = line[i].wrapping_add(previous[i]);
        i += 1;
    }
    proof {
        assert(data@ =~= spec_splice(data0, line_start as int, spec_up_row(line@, prev)));
    }
}

/// Reconstructs an Average row: each byte is the filtered byte plus the
/// truncated mean of the bytes to its left and above it, modulo 256. On the
/// first row the filter dispatches to Sub.
pub fn decode_average(
    bpp: usize,
    line: &[u8],
    line_start: usize,
    data: &mut [u8],
    previous: &mut [u8],
)
    requires
        1 <= bpp <= line@.len(),
        old(previous)@.len() == line@.len(),
        line_start == 0 || line_start >= line@.len(),
        line_start + line@.len() <= old(data)@.len(),
    ensures
        final(previous)@.len() == line@.len(),
        line_start == 0 ==> final(data)@ == spec_splice(
            old(data)@,
            0,
            spec_sub_row(line@, bpp as int),
        ) && final(previous)@ == old(previous)@,
        line_start != 0 ==> final(data)@ == spec_splice(
            old(data)@,
            line_start as int,
            spec_avg_row(
                line@,
                spec_prev_row(old(data)@, line_start as int, line@.len() as int),
                bpp as int,
            ),
        ) && final(previous)@ == spec_prev_row(old(data)@, line_start as int, line@.len() as int),
{
    if line_start == 0 {
        decode_sub(bpp, line, line_start, data);
        return ;
    }
    let ghost data0 = data@;
    let data_len = data.len();
    let len = line.len();
    let mut i: usize = 0;
    while i < len
        invariant
            i <= len,
            len == line@.len(),
            len <= line_start,
            line_start + len <= data_len,
            data@ == data0,
            data0.len() == data_len,
            previous@.len() == len,
            forall|j: int| 0 <= j < i ==> previous@[j] == data0[line_start - len + j],
        decreases len - i,
    {
        previous[i] = data[line_start - len + i];
        i += 1;
    }
    proof {
        assert(previous@ =~= spec_prev_row(data0, line_start as int, len as int));
    }
    let ghost prev = previous@;
    let mut i: usize = 0;
    while i < bpp
        invariant
            i <= bpp,
            1 <= bpp <= len,
            len == line@.len(),
            len <= line_start,
            line_start + len <= data_len,
            data@.len() == data_len,
            data@.len() == data0.len(),
            previous@ == prev,
            prev.len() == len,
            forall|j: int| 0 <= j < line_start ==> data@[j] == data0[j],
            forall|j: int|
                0 <= j < i ==> data@[line_start + j] == spec_avg_byte(line@, prev, bpp as int, j),
            forall|j: int| line_start + i <= j < data@.len() ==> data@[j] == data0[j],
        decreases bpp - i,
    {
        data[line_start + i] = line[i].wrapping_add(previous[i] / 2);
        i += 1;
    }
    while i < len
        invariant
            bpp <= i <= len,
            1 <= bpp <= len,
            len == line@.len(),
            len <= line_start,
            line_start + len <= data_len,
            data@.len() == data_len,
            data@.len() == data0.len(),
            previous@ == prev,
            prev.len() == len,
            forall|j: int| 0 <= j < line_start ==> data@[j] == data0[j],
            forall|j: int|
                0 <= j < i ==> data@[line_start + j] == spec_avg_byte(line@, prev, bpp as int, j),
            forall|j: int| line_start + i <= j < data@.len() ==> data@[j] == data0[j],
        decreases len - i,
    {
        let up = previous[i] as u16;
        let left = data[line_start + i - bpp] as u16;
        proof {
            assert(left == spec_avg_byte(line@, prev, bpp as int, i - bpp));
            assert(spec_avg_byte(line@, prev, bpp as int, i as int) == wadd(
                line@[i as int],
                ((prev[i as int] + spec_avg_byte(line@, prev, bpp as int, i - bpp)) / 2) as u8,
            ));
        }
        data[line_start + i] = line[i].wrapping_add(((up + left) / 2) as u8);
        i += 1;
    }
    proof {
        assert(data@ =~= spec_splice(
            data0,
            line_start as int,
            spec_avg_row(line@, prev, bpp as int),
        ));
    }
}

/// Reconstructs a Paeth row: each byte is the filtered byte plus the Paeth
/// predictor of its left, up, and up-left neighbors, modulo 256. On the
/// first row the filter dispatches to Sub.
pub fn decode_paeth(
    bpp: usize,
    line: &[u8],
    line_start: usize,
    data: &mut [u8],
    previous: &mut [u8],
)
    requires
        1 <= bpp <= line@.len(),
        old(previous)@.len() == line@.len(),
        line_start == 0 || line_start >= line@.len(),
        line_start + line@.len() <= old(data)@.len(),
    ensures
        final(previous)@.len() == line@.len(),
        line_start == 0 ==> final(data)@ == spec_splice(
            old(data)@,
            0,
            spec_sub_row(line@, bpp as int),
        ) && final(previous)@ == old(previous)@,
        line_start != 0 ==> final(data)@ == spec_splice(
            old(data)@,
            line_start as int,
            spec_paeth_row(
                line@,
                spec_prev_row(old(data)@, line_start as int, line@.len() as int),
                bpp as int,
            ),
        ) && final(previous)@ == spec_prev_row(old(data)@, line_start as int, line@.len() as int),
{
    if line_start == 0 {
        decode_sub(bpp, line, line_start, data);
        return ;
    }
    let ghost data0 = data@;
    let data_len = data.len();
    let len = line.len();
    let mut i: usize = 0;
    while i < len
        invariant
            i <= len,
            len == line@.len(),
            len <= line_start,
            line_start + len <= data_len,
            data@ == data0,
            data0.len() == data_len,
            previous@.len() == len,
            forall|j: int| 0 <= j < i ==> previous@[j] == data0[line_start - len + j],
        decreases len - i,
    {
        previous[i] = data[line_start - len + i];
        i += 1;
    }
    proof {
        assert(previous@ =~= spec_prev_row(data0, line_start as int, len as int));
    }
    let ghost prev = previous@;
    let mut i: usize = 0;
    while i < bpp
        invariant
            i <= bpp,
            1 <= bpp <= len,
            len == line@.len(),
            len <= line_start,
            line_start + len <= data_len,
            data@.len() == data_len,
            data@.len() == data0.len(),
            previous@ == prev,
            prev.len() == len,
            forall|j: int| 0 <= j < line_start ==> data@[j] == data0[j],
            forall|j: int|
                0 <= j < i ==> data@[line_start + j] == spec_paeth_byte(line@, prev, bpp as int, j),
            forall|j: int| line_start + i <= j < data@.len() ==> data@[j] == data0[j],
        decreases bpp - i,
    {
        proof {
            assert(spec_paeth(0, prev[i as int], 0) == prev[i as int]);
        }
        data[line_start + i] = line[i].wrapping_add(previous[i]);
        i += 1;
    }
    while i < len
        invariant
            bpp <= i <= len,
            1 <= bpp <= len,
            len == line@.len(),
            len <= line_start,
            line_start + len <= data_len,
            data@.len() == data_len,
            data@.len() == data0.len(),
            previous@ == prev,
            prev.len() == len,
            forall|j: int| 0 <= j < line_start ==> data@[j] == data0[j],
            forall|j: int|
                0 <= j < i ==> data@[line_start + j] == spec_paeth_byte(line@, prev, bpp as int, j),
            forall|j: int| line_start + i <= j < data@.len() ==> data@[j] == data0[j],
        decreases len - i,
    {
        let up_left = previous[i - bpp];
        let up = previous[i];
        let left = data[line_start + i - bpp];
        proof {
            assert(left == spec_paeth_byte(line@, prev, bpp as int, i - bpp));
            assert(spec_paeth_byte(line@, prev, bpp as int, i as int) == wadd(
                line@[i as int],
                spec_paeth(
                    spec_paeth_byte(line@, prev, bpp as int, i - bpp),
                    prev[i as int],
                    prev[i - bpp],
                ),
            ));
        }
        data[line_start + i] = line[i].wrapping_add(paeth_predictor(left, up, up_left));
        i += 1;
    }
    proof {
        assert(data@ =~= spec_splice(
            data0,
            line_start as int,
            spec_paeth_row(line@, prev, bpp as int),
        ));
    }
}

// OFFSET-BASED ROW DECODERS ###################################################
//
// The same five decoders, taking each row as an offset into the inflated
// buffer instead of a borrowed slice.

/// The `len` bytes of the row starting at `start` in the inflated buffer.
pub open spec fn spec_row_at(inflated: Seq<u8>, start: int, len: int) -> Seq<u8>
    recommends
        0 <= start,
        start + len <= inflated.len(),
{
    inflated.subrange(start, start + len)
}

/// Reconstructs a None row read from the inflated buffer at `start`.
pub fn decode_none_bis(
    len: usize,
    start: usize,
    inflated: &[u8],
    data_start: usize,
    data: &mut [u8],
)
    requires
        start + len <= inflated@.len(),
        data_start + len <= old(data)@.len(),
    ensures
        final(data)@ == spec_splice(
            old(data)@,
            data_start as int,
            spec_row_at(inflated@, start as int, len as int),
        ),
{
    let inflated_len = inflated.len();
    let line = vstd::slice::slice_subrange(inflated, start, start + len);
    decode_none(line, data_start, data);
}

/// Reconstructs a Sub row read from the inflated buffer at `start`.
pub fn decode_sub_bis(
    bpp: usize,
    len: usize,
    start: usize,
    inflated: &[u8],
    data_start: usize,
    data: &mut [u8],
)
    requires
        1 <= bpp <= len,
        start + len <= inflated@.len(),
        data_start + len <= old(data)@.len(),
    ensures
        final(data)@ == spec_splice(
            old(data)@,
            data_start as int,
            spec_sub_row(spec_row_at(inflated@, start as int, len as int), bpp as int),
        ),
{
    let inflated_len = inflated.len();
    let line = vstd::slice::slice_subrange(inflated, start, start + len);
    decode_sub(bpp, line, data_start, data);
}

/// Reconstructs an Up row read from the inflated buffer at `start`; on the
/// first row the filter reduces to None.
pub fn decode_up_bis(
    len: usize,
    start: usize,
    inflated: &[u8],
    data_start: usize,
    data: &mut [u8],
    prev_buff: &mut [u8],
)
    requires
        old(prev_buff)@.len() == len,
        start + len <= inflated@.len(),
        data_start == 0 || data_start >= len,
        data_start + len <= old(data)@.len(),
    ensures
        final(prev_buff)@.len() == len,
        data_start == 0 ==> final(data)@ == spec_splice(
            old(data)@,
            0,
            spec_row_at(inflated@, start as int, len as int),
        ),
        data_start != 0 ==> final(data)@ == spec_splice(
            old(data)@,
            data_start as int,
            spec_up_row(
                spec_row_at(inflated@, start as int, len as int),
                spec_prev_row(old(data)@, data_start as int, len as int),
            ),
        ),
{
    let inflated_len = inflated.len();
    let line = vstd::slice::slice_subrange(inflated, start, start + len);
    decode_up(line, data_start, data, prev_buff);
}

/// Reconstructs an Average row read from the inflated buffer at `start`; on
/// the first row the filter dispatches to Sub.
pub fn decode_average_bis(
    bpp: usize,
    len: usize,
    start: usize,
    inflated: &[u8],
    data_start: usize,
    data: &mut [u8],
    prev_buff: &mut [u8],
)
    requires
        1 <= bpp <= len,
        old(prev_buff)@.len() == len,
        start + len <= inflated@.len(),
        data_start == 0 || data_start >= len,
        data_start + len <= old(data)@.len(),
    ensures
        final(prev_buff)@.len() == len,
        data_start == 0 ==> final(data)@ == spec_splice(
            old(data)@,
            0,
            spec_sub_row(spec_row_at(inflated@, start as int, len as int), bpp as int),
        ),
        data_start != 0 ==> final(data)@ == spec_splice(
            old(data)@,
            data_start as int,
            spec_avg_row(
                spec_row_at(inflated@, start as int, len as int),
                spec_prev_row(old(data)@, data_start as int, len as int),
                bpp as int,
            ),
        ),
{
    let inflated_len = inflated.len();
    let line = vstd::slice::slice_subrange(inflated, start, start + len);
    decode_average(bpp, line, data_start, data, prev_buff);
}

/// Reconstructs a Paeth row read from the inflated buffer at `start`; on the
/// first row the filter dispatches to Sub.
pub fn decode_paeth_bis(
    bpp: usize,
    len: usize,
    start: usize,
    inflated: &[u8],
    data_start: usize,
    data: &mut [u8],
    prev_buff: &mut [u8],
)
    requires
        1 <= bpp <= len,
        old(prev_buff)@.len() == len,
        start + len <= inflated@.len(),
        data_start == 0 || data_start >= len,
        data_start + len <= old(data)@.len(),
    ensures
        final(prev_buff)@.len() == len,
        data_start == 0 ==> final(data)@ == spec_splice(
            old(data)@,
            0,
            spec_sub_row(spec_row_at(inflated@, start as int, len as int), bpp as int),
        ),
        data_start != 0 ==> final(data)@ == spec_splice(
            old(data)@,
            data_start as int,
            spec_paeth_row(
                spec_row_at(inflated@, start as int, len as int),
                spec_prev_row(old(data)@, data_start as int, len as int),
                bpp as int,
            ),
        ),
{
    let inflated_len = inflated.len();
    let line = vstd::slice::slice_subrange(inflated, start, start + len);
    decode_paeth(bpp, line, data_start, data, prev_buff);
}

// WHOLE-IMAGE RECONSTRUCTION ##################################################

/// The rows of a borrowed-slice scanline list, as sequences.
pub open spec fn spec_lines_of(scanlines: Seq<(Filter, &[u8])>) -> Seq<(Filter, Seq<u8>)> {
    scanlines.map_values(|t: (Filter, &[u8])| (t.0, t.1@))
}

/// The rows of an offset scanline list over the inflated buffer.
pub open spec fn spec_lines_at(
    inflated: Seq<u8>,
    scanlines: Seq<(Filter, usize)>,
    len: int,
) -> Seq<(Filter, Seq<u8>)> {
    scanlines.map_values(|t: (Filter, usize)| (t.0, spec_row_at(inflated, t.1 as int, len)))
}

/// A zeroed buffer of the given length.
pub(crate) fn zero_vec(n: usize) -> (v: Vec<u8>)
    ensures
        v@.len() == n,
        forall|j: int| 0 <= j < n ==> v@[j] == 0,
{
    let mut v: Vec<u8> = Vec::new();
    let mut i: usize = 0;
    while i < n
        invariant
            i <= n,
            v@.len() == i,
            forall|j: int| 0 <= j < i ==> v@[j] == 0,
        decreases n - i,
    {
        v.push(0);
        i += 1;
    }
    v
}

/// Inverts the per-scanline filters over a list of borrowed filtered rows,
/// producing the raster: `height` rows of `bpp * width` bytes each, of which
/// the first `scanlines.len()` rows are reconstructed and the rest stay zero.
pub fn unfilter(width: usize, height: usize, bpp: usize, scanlines: Vec<(Filter, &[u8])>) -> (data:
    Vec<u8>)
    requires
        1 <= bpp,
        1 <= width,
        bpp * width * height <= usize::MAX,
        bpp * width <= usize::MAX,
        scanlines@.len() <= height,
        forall|k: int| 0 <= k < scanlines@.len() ==> (#[trigger] scanlines@[k]).1@.len() == bpp
            * width,
    ensures
        data@.len() == bpp * width * height,
        data@.subrange(0, scanlines@.len() * (bpp * width)) == spec_unfilter(
            spec_lines_of(scanlines@),
            bpp as int,
            (bpp * width) as nat,
        ),
        forall|j: int| scanlines@.len() * (bpp * width) <= j < data@.len() ==> data@[j] == 0,
{
    let len = bpp * width;
    let total = len * height;
    let mut data = zero_vec(total);
    let mut prev = zero_vec(len);
    let ghost lines = spec_lines_of(scanlines@);
    let mut row: usize = 0;
    let mut line_start: usize = 0;
    proof {
        assert(lines.take(0) =~= Seq::<(Filter, Seq<u8>)>::empty());
        assert(data@.subrange(0, 0) =~= spec_unfilter(lines.take(0), bpp as int, len as nat));
    }
    while row < scanlines.len()
        invariant
            row <= scanlines@.len() <= height,
            1 <= bpp,
            1 <= width,
            len == bpp * width,
            total == len * height,
            line_start == row * len,
            lines == spec_lines_of(scanlines@),
            forall|k: int| 0 <= k < scanlines@.len() ==> (#[trigger] scanlines@[k]).1@.len()
                == len,
            data@.len() == total,
            prev@.len() == len,
            data@.subrange(0, row * len) == spec_unfilter(
                lines.take(row as int),
                bpp as int,
                len as nat,
            ),
            forall|j: int| row * len <= j < total ==> data@[j] == 0,
        decreases scanlines@.len() - row,
    {
        proof {
            assert((row + 1) * len <= height * len) by (nonlinear_arith)
                requires
                    row + 1 <= height,
                    0 <= len,
            ;
            assert((row + 1) * len == row * len + len) by (nonlinear_arith);
            assert(height * len == len * height) by (nonlinear_arith);
            assert(len >= 1) by (nonlinear_arith)
                requires
                    bpp >= 1,
                    width >= 1,
                    len == bpp * width,
            ;
            assert(row * len >= 0) by (nonlinear_arith)
                requires
                    row >= 0,
                    len >= 0,
            ;
        }
        let ghost data_pre = data@;
        let (f, line) = scanlines[row];
        proof {
            assert(scanlines@[row as int].1@.len() == len);
            assert(bpp <= len) by (nonlinear_arith)
                requires
                    bpp >= 1,
                    width >= 1,
                    len == bpp * width,
            ;
        }
        match f {
            Filter::NoFilter => decode_none(line, line_start, data.as_mut_slice()),
            Filter::Sub => decode_sub(bpp, line, line_start, data.as_mut_slice()),
            Filter::Up => decode_up(line, line_start, data.as_mut_slice(), prev.as_mut_slice()),
            Filter::Average => decode_average(
                bpp,
                line,
                line_start,
                data.as_mut_slice(),
                prev.as_mut_slice(),
            ),
            Filter::Paeth => decode_paeth(
                bpp,
                line,
                line_start,
                data.as_mut_slice(),
                prev.as_mut_slice(),
            ),
        }
        proof {
            lemma_unfilter_step(lines, bpp as int, len as nat, row as int, data_pre, data@);
        }
        row += 1;
        line_start += len;
    }
    proof {
        assert(lines.take(scanlines@.len() as int) =~= lines);
    }
    data
}

/// Inverts the per-scanline filters over rows given as offsets into the
/// inflated buffer, producing the raster as `unfilter` does.
pub fn unfilter_bis(
    width: usize,
    height: usize,
    bpp: usize,
    scanlines: Vec<(Filter, usize)>,
    inflated: &[u8],
) -> (data: Vec<u8>)
    requires
        1 <= bpp,
        1 <= width,
        bpp * width * height <= usize::MAX,
        bpp * width <= usize::MAX,
        scanlines@.len() <= height,
        forall|k: int| 0 <= k < scanlines@.len() ==> (#[trigger] scanlines@[k]).1 + bpp * width
            <= inflated@.len(),
    ensures
        data@.len() == bpp * width * height,
        data@.subrange(0, scanlines@.len() * (bpp * width)) == spec_unfilter(
            spec_lines_at(inflated@, scanlines@, (bpp * width) as int),
            bpp as int,
            (bpp * width) as nat,
        ),
        forall|j: int| scanlines@.len() * (bpp * width) <= j < data@.len() ==> data@[j] == 0,
{
    let len = bpp * width;
    let total = len * height;
    let mut data = zero_vec(total);
    let mut prev_buff = zero_vec(len);
    let ghost lines = spec_lines_at(inflated@, scanlines@, len as int);
    let mut row: usize = 0;
    let mut data_start: usize = 0;
    proof {
        assert(lines.take(0) =~= Seq::<(Filter, Seq<u8>)>::empty());
        assert(data@.subrange(0, 0) =~= spec_unfilter(lines.take(0), bpp as int, len as nat));
    }
    while row < scanlines.len()
        invariant
            row <= scanlines@.len() <= height,
            1 <= bpp,
            1 <= width,
            len == bpp * width,
            total == len * height,
            data_start == row * len,
            lines == spec_lines_at(inflated@, scanlines@, len as int),
            forall|k: int| 0 <= k < scanlines@.len() ==> (#[trigger] scanlines@[k]).1 + len
                <= inflated@.len(),
            data@.len() == total,
            prev_buff@.len() == len,
            data@.subrange(0, row * len) == spec_unfilter(
                lines.take(row as int),
                bpp as int,
                len as nat,
            ),
            forall|j: int| row * len <= j < total ==> data@[j] == 0,
        decreases scanlines@.len() - row,
    {
        proof {
            assert((row + 1) * len <= height * len) by (nonlinear_arith)
                requires
                    row + 1 <= height,
                    0 <= len,
            ;
            assert((row + 1) * len == row * len + len) by (nonlinear_arith);
            assert(height * len == len * height) by (nonlinear_arith);
            assert(len >= 1) by (nonlinear_arith)
                requires
                    bpp >= 1,
                    width >= 1,
                    len == bpp * width,
            ;
            assert(row * len >= 0) by (nonlinear_arith)
                requires
                    row >= 0,
                    len >= 0,
            ;
        }
        let ghost data_pre = data@;
        let (f, start) = scanlines[row];
        proof {
            assert(scanlines@[row as int].1 + len <= inflated@.len());
            assert(bpp <= len) by (nonlinear_arith)
                requires
                    bpp >= 1,
                    width >= 1,
                    len == bpp * width,
            ;
            assert(lines[row as int].1 == spec_row_at(inflated@, start as int, len as int));
        }
        match f {
            Filter::NoFilter => decode_none_bis(len, start, inflated, data_start, data.as_mut_slice()),
            Filter::Sub => decode_sub_bis(bpp, len, start, inflated, data_start, data.as_mut_slice()),
            Filter::Up => decode_up_bis(
                len,
                start,
                inflated,
                data_start,
                data.as_mut_slice(),
                prev_buff.as_mut_slice(),
            ),
            Filter::Average => decode_average_bis(
                bpp,
                len,
                start,
                inflated,
                data_start,
                data.as_mut_slice(),
                prev_buff.as_mut_slice(),
            ),
            Filter::Paeth => decode_paeth_bis(
                bpp,
                len,
                start,
                inflated,
                data_start,
                data.as_mut_slice(),
                prev_buff.as_mut_slice(),
            ),
        }
        proof {
            lemma_unfilter_step(lines, bpp as int, len as nat, row as int, data_pre, data@);
        }
        row += 1;
        data_start += len;
    }
    proof {
        assert(lines.take(scanlines@.len() as int) =~= lines);
    }
    data
}

/// One row of reconstruction extends the already reconstructed prefix: if
/// `data_pre` holds the reconstruction of the first `row` rows (zero beyond),
/// and `data_post` is `data_pre` with row `row` spliced in as the row
/// decoders guarantee, then `data_post` holds the reconstruction of the first
/// `row + 1` rows (zero beyond).
proof fn lemma_unfilter_step(
    lines: Seq<(Filter, Seq<u8>)>,
    bpp: int,
    len: nat,
    row: int,
    data_pre: Seq<u8>,
    data_post: Seq<u8>,
)
    requires
        1 <= bpp,
        0 <= row < lines.len(),
        len >= 1,
        lines[row].1.len() == len,
        (row + 1) * len <= data_pre.len(),
        data_pre.subrange(0, row * len) == spec_unfilter(lines.take(row), bpp, len),
        data_post == spec_splice(
            data_pre,
            row * len,
            if row == 0 {
                spec_recon_first_row(lines[0].0, lines[0].1, bpp)
            } else {
                spec_recon_row(
                    lines[row].0,
                    lines[row].1,
                    spec_prev_row(data_pre, row * len, len as int),
                    bpp,
                )
            },
        ),
    ensures
        data_post.len() == data_pre.len(),
        data_post.subrange(0, (row + 1) * len) == spec_unfilter(lines.take(row + 1), bpp, len),
        forall|j: int| (row + 1) * len <= j < data_post.len() ==> data_post[j] == data_pre[j],
{
    assert(row * len + len == (row + 1) * len) by (nonlinear_arith);
    assert(row * len >= 0) by (nonlinear_arith)
        requires
            row >= 0,
            len >= 0,
    ;
    let f = lines[row].0;
    let line = lines[row].1;
    let recon = if row == 0 {
        spec_recon_first_row(f, line, bpp)
    } else {
        spec_recon_row(f, line, spec_prev_row(data_pre, row * len, len as int), bpp)
    };
    assert(recon.len() == len);
    assert(data_post.len() == data_pre.len());
    let prefix = spec_unfilter(lines.take(row), bpp, len);
    assert(prefix.len() == row * len);
    assert(lines.take(row + 1).drop_last() =~= lines.take(row));
    assert(lines.take(row + 1).last() == lines[row]);
    if row == 0 {
        assert(spec_unfilter(lines.take(1), bpp, len) == prefix + recon);
    } else {
        assert(row * len >= len) by (nonlinear_arith)
            requires
                row >= 1,
                len >= 0,
        ;
        let prev = spec_unfilter(lines.take(row + 1).drop_last(), bpp, len).subrange(
            prefix.len() - len,
            prefix.len() as int,
        );
        assert(prev =~= spec_prev_row(data_pre, row * len, len as int));
        assert(spec_unfilter(lines.take(row + 1), bpp, len) == prefix + recon);
    }
    assert(data_post.subrange(0, (row + 1) * len) =~= prefix + recon);
}

// ROUND-TRIP LAWS #############################################################
//
// Filtering is what a PNG encoder applies before compression; reconstruction
// must invert it exactly. The forward filter subtracts the same predictor
// that reconstruction adds back, so the two compose to the identity.

/// A Sub-filtered row as an encoder produces it: each byte minus the
/// reconstructed byte one pixel to the left, modulo 256.
pub open spec fn spec_sub_filtered(orig: Seq<u8>, bpp: int) -> Seq<u8> {
    Seq::new(
        orig.len(),
        |i: int|
            wsub(
                orig[i],
                if i < bpp {
                    0u8
                } else {
                    orig[i - bpp]
                },
            ),
    )
}

/// A filtered row as an encoder produces it from the reconstructed row
/// `orig` and the reconstructed previous row `prev` (rows after the first):
/// each byte minus the predictor that reconstruction adds back.
pub open spec fn spec_filter_row(f: Filter, orig: Seq<u8>, prev: Seq<u8>, bpp: int) -> Seq<u8> {
    match f {
        Filter::NoFilter => orig,
        Filter::Sub => spec_sub_filtered(orig, bpp),
        Filter::Up => Seq::new(orig.len(), |i: int| wsub(orig[i], prev[i])),
        Filter::Average => Seq::new(
            orig.len(),
            |i: int|
                wsub(
                    orig[i],
                    ((prev[i] + (if i < bpp {
                        0int
                    } else {
                        orig[i - bpp] as int
                    })) / 2) as u8,
                ),
        ),
        Filter::Paeth => Seq::new(
            orig.len(),
            |i: int|
                wsub(
                    orig[i],
                    spec_paeth(
                        if i < bpp {
                            0u8
                        } else {
                            orig[i - bpp]
                        },
                        prev[i],
                        if i < bpp {
                            0u8
                        } else {
                            prev[i - bpp]
                        },
                    ),
                ),
        ),
    }
}

/// A filtered first row: Up degenerates to None, and Average and Paeth to
/// Sub, matching the reconstruction's row-0 dispatch.
pub open spec fn spec_filter_first_row(f: Filter, orig: Seq<u8>, bpp: int) -> Seq<u8> {
    match f {
        Filter::NoFilter | Filter::Up => orig,
        Filter::Sub | Filter::Average | Filter::Paeth => spec_sub_filtered(orig, bpp),
    }
}

/// Sub reconstruction inverts Sub filtering, byte by byte.
proof fn lemma_sub_round_trip_byte(orig: Seq<u8>, bpp: int, i: int)
    requires
        1 <= bpp,
        0 <= i < orig.len(),
    ensures
        spec_sub_byte(spec_sub_filtered(orig, bpp), bpp, i) == orig[i],
    decreases i,
{
    if i >= bpp {
        lemma_sub_round_trip_byte(orig, bpp, i - bpp);
    }
}

/// Average reconstruction inverts Average filtering, byte by byte.
proof fn lemma_avg_round_trip_byte(orig: Seq<u8>, prev: Seq<u8>, bpp: int, i: int)
    requires
        1 <= bpp,
        0 <= i < orig.len(),
        prev.len() == orig.len(),
    ensures
        spec_avg_byte(spec_filter_row(Filter::Average, orig, prev, bpp), prev, bpp, i) == orig[i],
    decreases i,
{
    if i >= bpp {
        lemma_avg_round_trip_byte(orig, prev, bpp, i - bpp);
    }
}

/// Paeth reconstruction inverts Paeth filtering, byte by byte.
#[verifier::rlimit(50)]
proof fn lemma_paeth_round_trip_byte(orig: Seq<u8>, prev: Seq<u8>, bpp: int, i: int)
    requires
        1 <= bpp,
        0 <= i < orig.len(),
        prev.len() == orig.len(),
    ensures
        spec_paeth_byte(spec_filter_row(Filter::Paeth, orig, prev, bpp), prev, bpp, i) == orig[i],
    decreases i,
{
    if i >= bpp {
        lemma_paeth_round_trip_byte(orig, prev, bpp, i - bpp);
    }
}

/// Law: for every filter, filtering a row that is not the first against its
/// reconstructed previous row, then reconstructing it, returns the original
/// bytes exactly.
pub proof fn lemma_filter_round_trip(f: Filter, orig: Seq<u8>, prev: Seq<u8>, bpp: int)
    requires
        1 <= bpp,
        prev.len() == orig.len(),
    ensures
        spec_recon_row(f, spec_filter_row(f, orig, prev, bpp), prev, bpp) == orig,
{
    let filtered = spec_filter_row(f, orig, prev, bpp);
    match f {
        Filter::NoFilter => {
            assert(spec_recon_row(f, filtered, prev, bpp) =~= orig);
        },
        Filter::Sub => {
            assert forall|i: int| 0 <= i < orig.len() implies spec_sub_byte(filtered, bpp, i)
                == orig[i] by {
                lemma_sub_round_trip_byte(orig, bpp, i);
            }
            assert(spec_recon_row(f, filtered, prev, bpp) =~= orig);
        },
        Filter::Up => {
            assert(spec_recon_row(f, filtered, prev, bpp) =~= orig);
        },
        Filter::Average => {
            assert forall|i: int| 0 <= i < orig.len() implies spec_avg_byte(
                filtered,
                prev,
                bpp,
                i,
            ) == orig[i] by {
                lemma_avg_round_trip_byte(orig, prev, bpp, i);
            }
            assert(spec_recon_row(f, filtered, prev, bpp) =~= orig);
        },
        Filter::Paeth => {
            assert forall|i: int| 0 <= i < orig.len() implies spec_paeth_byte(
                filtered,
                prev,
                bpp,
                i,
            ) == orig[i] by {
                lemma_paeth_round_trip_byte(orig, prev, bpp, i);
            }
            assert(spec_recon_row(f, filtered, prev, bpp) =~= orig);
        },
    }
}

/// Law: for every filter, filtering the first row, then reconstructing it,
/// returns the original bytes exactly. On the first row the filter pairs are
/// the degenerate ones: Up filters as None, and Average and Paeth as Sub.
pub proof fn lemma_first_row_round_trip(f: Filter, orig: Seq<u8>, bpp: int)
    requires
        1 <= bpp,
    ensures
        spec_recon_first_row(f, spec_filter_first_row(f, orig, bpp), bpp) == orig,
{
    let filtered = spec_filter_first_row(f, orig, bpp);
    match f {
        Filter::NoFilter | Filter::Up => {
            assert(spec_recon_first_row(f, filtered, bpp) =~= orig);
        },
        Filter::Sub | Filter::Average | Filter::Paeth => {
            assert forall|i: int| 0 <= i < orig.len() implies spec_sub_byte(filtered, bpp, i)
                == orig[i] by {
                lemma_sub_round_trip_byte(orig, bpp, i);
            }
            assert(spec_recon_first_row(f, filtered, bpp) =~= orig);
        },
    }
}

/// Paeth reconstruction against an all-zero previous row equals Sub
/// reconstruction, byte by byte: the predictor of (left, 0, 0) is left.
proof fn lemma_paeth_zero_prev_byte(line: Seq<u8>, prev: Seq<u8>, bpp: int, i: int)
    requires
        1 <= bpp,
        0 <= i < line.len(),
        prev.len() == line.len(),
        forall|j: int| 0 <= j < prev.len() ==> prev[j] == 0,
    ensures
        spec_paeth_byte(line, prev, bpp, i) == spec_sub_byte(line, bpp, i),
    decreases i,
{
    if i >= bpp {
        lemma_paeth_zero_prev_byte(line, prev, bpp, i - bpp);
    }
}

/// Law: against an all-zero previous row, reconstruction of a None, Sub, Up
/// or Paeth row equals the first-row dispatch. Average is the one filter
/// whose first-row reading (Sub, by the row-0 dispatch) differs from its
/// reconstruction against a zero row, which would add only half of `left`.
pub proof fn lemma_first_row_as_zero_prev(f: Filter, line: Seq<u8>, bpp: int)
    requires
        1 <= bpp,
        !(f is Average),
    ensures
        spec_recon_row(f, line, Seq::new(line.len(), |i: int| 0u8), bpp) == spec_recon_first_row(
            f,
            line,
            bpp,
        ),
{
    let zeros = Seq::new(line.len(), |i: int| 0u8);
    match f {
        Filter::NoFilter | Filter::Sub => {
            assert(spec_recon_row(f, line, zeros, bpp) =~= spec_recon_first_row(f, line, bpp));
        },
        Filter::Up => {
            assert(spec_recon_row(f, line, zeros, bpp) =~= spec_recon_first_row(f, line, bpp));
        },
        Filter::Paeth => {
            assert forall|i: int| 0 <= i < line.len() implies spec_paeth_byte(line, zeros, bpp, i)
                == spec_sub_byte(line, bpp, i) by {
                lemma_paeth_zero_prev_byte(line, zeros, bpp, i);
            }
            assert(spec_recon_row(f, line, zeros, bpp) =~= spec_recon_first_row(f, line, bpp));
        },
        Filter::Average => {},
    }
}

} // verus!
