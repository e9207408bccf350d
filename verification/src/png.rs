//! The decode pipeline: signature check and chunk framing, scanline
//! splitting, filter reconstruction, and the resulting raster.

use vstd::prelude::*;

use crate::chunk::{
    chunk_types, lemma_stream_validation, spec_be_u32_at, spec_known_name, spec_validate_stream,
    Chunk, ChunkType,
};
use crate::chunk_data::{spec_concat_payloads, spec_parse_ihdr, zlib_inflate, IHDRData};
use crate::color::ColorType;
use crate::error::PngError;
use crate::filter::{
    spec_filter_of, spec_lines_at, spec_unfilter, Filter,
};

verus! {

/// The decoded image: a row-major pixel buffer with no row padding, plus its
/// geometry.
#[derive(Debug)]
pub struct Png {
    pub width: usize,
    pub height: usize,
    pub color_type: ColorType,
    pub bytes_per_pixel: usize,
    pub data: Vec<u8>,
}

impl Png {
    /// The buffer is a row-major raster of the declared geometry.
    pub open spec fn wf(self) -> bool {
        &&& 1 <= self.bytes_per_pixel
        &&& self.data@.len() == self.width * self.height * self.bytes_per_pixel
    }

    /// The bytes of the pixel at column `x` of row `y`.
    pub open spec fn spec_pixel(self, x: int, y: int) -> Seq<u8>
        recommends
            self.wf(),
            0 <= x < self.width,
            0 <= y < self.height,
    {
        let start = (y * self.width + x) * self.bytes_per_pixel;
        self.data@.subrange(start, start + self.bytes_per_pixel)
    }

    /// Bounds-checked access to the pixel at `(x, y)`: its
    /// `bytes_per_pixel` bytes within the raster.
    pub fn get(&self, x: usize, y: usize) -> (r: &[u8])
        requires
            self.wf(),
            x < self.width,
            y < self.height,
        ensures
            r@ == self.spec_pixel(x as int, y as int),
    {
        let n = self.data.len();
        proof {
            assert(self.bytes_per_pixel * self.width <= self.width * self.height
                * self.bytes_per_pixel) by (nonlinear_arith)
                requires
                    1 <= self.height,
                    0 <= self.width,
                    0 <= self.bytes_per_pixel,
            ;
            assert((y * self.width + x) * self.bytes_per_pixel + self.bytes_per_pixel <= self.width
                * self.height * self.bytes_per_pixel) by (nonlinear_arith)
                requires
                    0 <= x < self.width,
                    0 <= y < self.height,
                    1 <= self.bytes_per_pixel,
            ;
            assert(y * (self.bytes_per_pixel * self.width) + x * self.bytes_per_pixel == (y
                * self.width + x) * self.bytes_per_pixel) by (nonlinear_arith);
        }
        let line_width = self.bytes_per_pixel * self.width;
        let start = y * line_width + x * self.bytes_per_pixel;
        let end = start + self.bytes_per_pixel;
        vstd::slice::slice_subrange(self.data.as_slice(), start, end)
    }
}

// CHUNK FRAMING OVER A WHOLE STREAM ###########################################

/// The 8-byte PNG signature that every stream must open with.
pub open spec fn spec_signature() -> Seq<u8> {
    seq![137u8, 80u8, 78u8, 71u8, 13u8, 10u8, 26u8, 10u8]
}

/// The starting positions of the chunks that tile `s` from `pos` to its end,
/// or nothing when a chunk's fixed fields or declared payload run past the
/// end.
pub open spec fn spec_chunk_starts(s: Seq<u8>, pos: int) -> Option<Seq<int>>
    decreases s.len() - pos,
    when 0 <= pos <= s.len()
{
    if pos == s.len() {
        Some(Seq::empty())
    } else if pos + 12 + spec_be_u32_at(s, pos) > s.len() {
        None
    } else {
        match spec_chunk_starts(s, pos + 12 + spec_be_u32_at(s, pos)) {
            None => None,
            Some(rest) => Some(seq![pos] + rest),
        }
    }
}

/// The chunk framed at `pos` of `s` has these fields.
pub open spec fn spec_chunk_at(s: Seq<u8>, pos: int, c: Chunk) -> bool {
    &&& c.length == spec_be_u32_at(s, pos)
    &&& Chunk::spec_type_matches(s, pos, c.chunk_type)
    &&& c.data_start == pos + 8
    &&& c.crc@ == s.subrange(pos + 8 + c.length, pos + 12 + c.length)
    &&& c.spec_in_bounds(s.len() as int)
}

/// Checks the 8-byte signature and frames the whole chunk stream. Fails
/// exactly when the signature is wrong or some chunk's declared length runs
/// past the end of the input; trailing partial chunks are not tolerated.
pub fn parse_chunks(input: &[u8]) -> (r: Result<Vec<Chunk>, PngError>)
    ensures
        r is Ok <==> input@.len() >= 8 && input@.subrange(0, 8) == spec_signature()
            && spec_chunk_starts(input@, 8) is Some,
        r matches Ok(chunks) ==> {
            let starts = spec_chunk_starts(input@, 8).unwrap();
            &&& chunks@.len() == starts.len()
            &&& forall|i: int|
                0 <= i < starts.len() ==> spec_chunk_at(input@, starts[i], #[trigger] chunks@[i])
        },
        r matches Err(e) ==> e is Format,
{
    let n = input.len();
    if n < 8 {
        return Err(PngError::Format);
    }
    if !(input[0] == 137 && input[1] == 80 && input[2] == 78 && input[3] == 71 && input[4] == 13
        && input[5] == 10 && input[6] == 26 && input[7] == 10) {
        proof {
            assert(input@.subrange(0, 8) != spec_signature());
        }
        return Err(PngError::Format);
    }
    proof {
        assert(input@.subrange(0, 8) =~= spec_signature());
    }
    let mut chunks: Vec<Chunk> = Vec::new();
    let ghost mut done: Seq<int> = Seq::empty();
    let mut pos: usize = 8;
    while pos < n
        invariant
            8 <= pos <= n,
            n == input@.len(),
            chunks@.len() == done.len(),
            forall|i: int| 0 <= i < done.len() ==> spec_chunk_at(input@, done[i], #[trigger] chunks@[i]),
            spec_chunk_starts(input@, 8) == (match spec_chunk_starts(input@, pos as int) {
                None => None::<Seq<int>>,
                Some(rest) => Some(done + rest),
            }),
        decreases n - pos,
    {
        match Chunk::parse(input, pos) {
            Ok((chunk, next)) => {
                proof {
                    assert(spec_chunk_starts(input@, pos as int) == (
                    match spec_chunk_starts(input@, next as int) {
                        None => None::<Seq<int>>,
                        Some(rest) => Some(seq![pos as int] + rest),
                    }));
                    if spec_chunk_starts(input@, next as int) is Some {
                        let rest = spec_chunk_starts(input@, next as int).unwrap();
                        assert(done + (seq![pos as int] + rest) =~= (done + seq![pos as int])
                            + rest);
                    }
                }
                proof {
                    done = done + seq![pos as int];
                }
                chunks.push(chunk);
                pos = next;
            },
            Err(e) => {
                proof {
                    assert(spec_chunk_starts(input@, pos as int) is None);
                }
                return Err(e);
            },
        }
    }
    proof {
        assert(spec_chunk_starts(input@, n as int) == Some(Seq::<int>::empty()));
        assert(done + Seq::<int>::empty() =~= done);
    }
    Ok(chunks)
}

// SCANLINE SPLITTING ##########################################################

/// Every scanline's leading tag byte names one of the five filters.
pub open spec fn spec_filters_ok(s: Seq<u8>, sw: int) -> bool {
    forall|i: int| 0 <= i < s.len() as int / sw ==> spec_filter_of(#[trigger] s[i * sw]) is Some
}

/// The number of whole scanlines the inflated buffer holds.
pub open spec fn spec_nb_scanlines(s: Seq<u8>, sw: int) -> int {
    s.len() as int / sw
}

/// `i * sw + sw` stays within a buffer holding at least `i + 1` whole
/// scanlines of stride `sw`.
proof fn lemma_scanline_in_bounds(n: int, sw: int, i: int)
    requires
        1 <= sw,
        0 <= i,
        i < n / sw,
        0 <= n,
    ensures
        i * sw + sw <= n,
        0 <= i * sw,
{
    vstd::arithmetic::div_mod::lemma_fundamental_div_mod(n, sw);
    assert((i + 1) * sw <= (n / sw) * sw) by (nonlinear_arith)
        requires
            i + 1 <= n / sw,
            0 <= sw,
    ;
    assert(i * sw + sw == (i + 1) * sw) by (nonlinear_arith);
    assert(0 <= i * sw) by (nonlinear_arith)
        requires
            0 <= i,
            0 <= sw,
    ;
    assert((n / sw) * sw <= n) by (nonlinear_arith)
        requires
            n == sw * (n / sw) + n % sw,
            0 <= n % sw,
    ;
}

/// Checks that every scanline's tag byte names a filter, which a
/// well-formed stream owes and the splitting functions require.
pub fn filters_valid(data: &[u8], scanline_width: usize) -> (b: bool)
    requires
        1 <= scanline_width,
    ensures
        b == spec_filters_ok(data@, scanline_width as int),
{
    let n = data.len();
    let nb = n / scanline_width;
    let mut i: usize = 0;
    while i < nb
        invariant
            i <= nb,
            1 <= scanline_width,
            n == data@.len(),
            nb == n as int / scanline_width as int,
            forall|j: int| 0 <= j < i ==> spec_filter_of(#[trigger] data@[j * scanline_width]) is Some,
        decreases nb - i,
    {
        proof {
            lemma_scanline_in_bounds(n as int, scanline_width as int, i as int);
        }
        if data[i * scanline_width] > 4 {
            return false;
        }
        i += 1;
    }
    true
}

/// Splits the inflated buffer into scanlines, each a filter and the offset
/// of its first pixel byte; the stride is `scanline_width`, whose first byte
/// is the filter tag.
pub fn lines_num(data: &[u8], scanline_width: usize) -> (r: Vec<(Filter, usize)>)
    requires
        1 <= scanline_width,
        spec_filters_ok(data@, scanline_width as int),
    ensures
        r@.len() == spec_nb_scanlines(data@, scanline_width as int),
        forall|i: int|
            0 <= i < r@.len() ==> (#[trigger] r@[i]).0 == spec_filter_of(
                data@[i * scanline_width],
            ).unwrap() && r@[i].1 == i * scanline_width + 1,
{
    let n = data.len();
    let nb = n / scanline_width;
    let mut r: Vec<(Filter, usize)> = Vec::new();
    let mut i: usize = 0;
    while i < nb
        invariant
            i <= nb,
            1 <= scanline_width,
            n == data@.len(),
            nb == n as int / scanline_width as int,
            spec_filters_ok(data@, scanline_width as int),
            r@.len() == i,
            forall|j: int|
                0 <= j < i ==> (#[trigger] r@[j]).0 == spec_filter_of(
                    data@[j * scanline_width],
                ).unwrap() && r@[j].1 == j * scanline_width + 1,
        decreases nb - i,
    {
        proof {
            lemma_scanline_in_bounds(n as int, scanline_width as int, i as int);
        }
        let start = i * scanline_width;
        let filter = match Filter::from_byte(data[start]) {
            Ok(f) => f,
            Err(_) => {
                proof {
                    assert(spec_filter_of(data@[i as int * scanline_width as int]) is Some);
                    assert(false);
                }
                Filter::NoFilter
            },
        };
        r.push((filter, start + 1));
        i += 1;
    }
    r
}

/// Splits the inflated buffer into scanlines, each a filter and a borrowed
/// view of its pixel bytes.
pub fn lines_slices<'a>(data: &'a [u8], scanline_width: usize) -> (r: Vec<(Filter, &'a [u8])>)
    requires
        1 <= scanline_width,
        spec_filters_ok(data@, scanline_width as int),
    ensures
        r@.len() == spec_nb_scanlines(data@, scanline_width as int),
        forall|i: int|
            0 <= i < r@.len() ==> (#[trigger] r@[i]).0 == spec_filter_of(
                data@[i * scanline_width],
            ).unwrap() && r@[i].1@ == data@.subrange(
                i * scanline_width + 1,
                i * scanline_width + scanline_width,
            ),
{
    let n = data.len();
    let nb = n / scanline_width;
    let mut r: Vec<(Filter, &'a [u8])> = Vec::new();
    let mut i: usize = 0;
    while i < nb
        invariant
            i <= nb,
            1 <= scanline_width,
            n == data@.len(),
            nb == n as int / scanline_width as int,
            spec_filters_ok(data@, scanline_width as int),
            r@.len() == i,
            forall|j: int|
                0 <= j < i ==> (#[trigger] r@[j]).0 == spec_filter_of(
                    data@[j * scanline_width],
                ).unwrap() && r@[j].1@ == data@.subrange(
                    j * scanline_width + 1,
                    j * scanline_width + scanline_width,
                ),
        decreases nb - i,
    {
        proof {
            lemma_scanline_in_bounds(n as int, scanline_width as int, i as int);
        }
        let start = i * scanline_width;
        let filter = match Filter::from_byte(data[start]) {
            Ok(f) => f,
            Err(_) => {
                proof {
                    assert(spec_filter_of(data@[i as int * scanline_width as int]) is Some);
                    assert(false);
                }
                Filter::NoFilter
            },
        };
        let line = vstd::slice::slice_subrange(data, start + 1, start + scanline_width);
        r.push((filter, line));
        i += 1;
    }
    r
}

// RECONSTRUCTION ##############################################################

/// The scanline rows the inflated buffer splits into: for each whole stride
/// of `sw` bytes, the filter its first byte names and the remaining `sw - 1`
/// filtered bytes.
pub open spec fn spec_rows(s: Seq<u8>, sw: int) -> Seq<(Filter, Seq<u8>)>
    recommends
        1 <= sw,
        spec_filters_ok(s, sw),
{
    Seq::new(
        (s.len() as int / sw) as nat,
        |i: int| (spec_filter_of(s[i * sw]).unwrap(), s.subrange(i * sw + 1, (i + 1) * sw)),
    )
}

/// The raster the inflated stream reconstructs to, given the scanline stride
/// and the bytes per pixel.
pub open spec fn spec_raster(s: Seq<u8>, sw: int, bpp: int) -> Seq<u8>
    recommends
        1 <= sw,
        spec_filters_ok(s, sw),
{
    spec_unfilter(spec_rows(s, sw), bpp, (sw - 1) as nat)
}

/// Inverts the scanline filters over borrowed rows, shaping the result with
/// the header's geometry.
pub fn unfilter(ihdr: &IHDRData, scanlines: Vec<(Filter, &[u8])>) -> (png: Png)
    requires
        !(ihdr.color_type is PLTE),
        1 <= ihdr.width,
        ihdr.spec_bpp() * ihdr.width <= usize::MAX,
        ihdr.spec_bpp() * ihdr.width * ihdr.height <= usize::MAX,
        scanlines@.len() <= ihdr.height,
        forall|k: int| 0 <= k < scanlines@.len() ==> (#[trigger] scanlines@[k]).1@.len()
            == ihdr.spec_bpp() * ihdr.width,
    ensures
        png.width == ihdr.width,
        png.height == ihdr.height,
        png.color_type == ihdr.color_type,
        png.bytes_per_pixel == ihdr.spec_bpp(),
        png.wf(),
        png.data@.len() == ihdr.spec_bpp() * ihdr.width * ihdr.height,
        png.data@.subrange(0, scanlines@.len() * (ihdr.spec_bpp() * ihdr.width)) == spec_unfilter(
            crate::filter::spec_lines_of(scanlines@),
            ihdr.spec_bpp(),
            (ihdr.spec_bpp() * ihdr.width) as nat,
        ),
        forall|j: int|
            scanlines@.len() * (ihdr.spec_bpp() * ihdr.width) <= j < png.data@.len()
                ==> png.data@[j] == 0,
{
    let width = ihdr.width as usize;
    let height = ihdr.height as usize;
    let bpp = ihdr.bytes_per_pixel();
    let data = crate::filter::unfilter(width, height, bpp, scanlines);
    proof {
        assert(ihdr.width * ihdr.height * ihdr.spec_bpp() == ihdr.spec_bpp() * ihdr.width
            * ihdr.height) by (nonlinear_arith);
    }
    Png { width, height, color_type: ihdr.color_type, bytes_per_pixel: bpp, data }
}

/// Inverts the scanline filters over rows given as offsets into the inflated
/// buffer, shaping the result with the header's geometry.
pub fn unfilter_bis(ihdr: &IHDRData, scanlines: Vec<(Filter, usize)>, inflated: &[u8]) -> (png:
    Png)
    requires
        !(ihdr.color_type is PLTE),
        1 <= ihdr.width,
        ihdr.spec_bpp() * ihdr.width <= usize::MAX,
        ihdr.spec_bpp() * ihdr.width * ihdr.height <= usize::MAX,
        scanlines@.len() <= ihdr.height,
        forall|k: int| 0 <= k < scanlines@.len() ==> (#[trigger] scanlines@[k]).1 + ihdr.spec_bpp()
            * ihdr.width <= inflated@.len(),
    ensures
        png.width == ihdr.width,
        png.height == ihdr.height,
        png.color_type == ihdr.color_type,
        png.bytes_per_pixel == ihdr.spec_bpp(),
        png.wf(),
        png.data@.len() == ihdr.spec_bpp() * ihdr.width * ihdr.height,
        png.data@.subrange(0, scanlines@.len() * (ihdr.spec_bpp() * ihdr.width)) == spec_unfilter(
            spec_lines_at(inflated@, scanlines@, ihdr.spec_bpp() * ihdr.width),
            ihdr.spec_bpp(),
            (ihdr.spec_bpp() * ihdr.width) as nat,
        ),
        forall|j: int|
            scanlines@.len() * (ihdr.spec_bpp() * ihdr.width) <= j < png.data@.len()
                ==> png.data@[j] == 0,
{
    let width = ihdr.width as usize;
    let height = ihdr.height as usize;
    let bpp = ihdr.bytes_per_pixel();
    let data = crate::filter::unfilter_bis(width, height, bpp, scanlines, inflated);
    proof {
        assert(ihdr.width * ihdr.height * ihdr.spec_bpp() == ihdr.spec_bpp() * ihdr.width
            * ihdr.height) by (nonlinear_arith);
    }
    Png { width, height, color_type: ihdr.color_type, bytes_per_pixel: bpp, data }
}

/// The inflated stream and header admit reconstruction: a supported color
/// type, a nonzero width, geometry that fits in memory, a known filter tag
/// on every scanline, and no more scanlines than the declared height.
pub open spec fn spec_can_reconstruct(ihdr: IHDRData, s: Seq<u8>) -> bool {
    &&& !(ihdr.color_type is PLTE)
    &&& 1 <= ihdr.width
    &&& ihdr.spec_scanline_width() <= usize::MAX
    &&& ihdr.spec_bpp() * ihdr.width * ihdr.height <= usize::MAX
    &&& spec_filters_ok(s, ihdr.spec_scanline_width())
    &&& s.len() as int / ihdr.spec_scanline_width() <= ihdr.height
}

/// What a successful reconstruction returns: the raster of the inflated
/// stream, shaped and padded to the header's geometry.
pub open spec fn spec_reconstructed(ihdr: IHDRData, s: Seq<u8>, png: Png) -> bool {
    let sw = ihdr.spec_scanline_width();
    let bpp = ihdr.spec_bpp();
    let nb = s.len() as int / sw;
    &&& png.width == ihdr.width
    &&& png.height == ihdr.height
    &&& png.color_type == ihdr.color_type
    &&& png.bytes_per_pixel == bpp
    &&& png.wf()
    &&& png.data@.len() == bpp * ihdr.width * ihdr.height
    &&& png.data@.subrange(0, nb * (bpp * ihdr.width)) == spec_raster(s, sw, bpp)
    &&& forall|j: int| nb * (bpp * ihdr.width) <= j < png.data@.len() ==> png.data@[j] == 0
}

/// Law: the reconstructed raster is a function of the header and the
/// inflated bytes alone. Any two rasters reconstructed from the same header
/// and the same inflated stream have the same geometry and byte-identical
/// pixel buffers, so every reconstruction strategy returns the same image.
pub proof fn lemma_reconstruction_unique(ihdr: IHDRData, s: Seq<u8>, a: Png, b: Png)
    requires
        spec_can_reconstruct(ihdr, s),
        spec_reconstructed(ihdr, s, a),
        spec_reconstructed(ihdr, s, b),
    ensures
        a.width == b.width,
        a.height == b.height,
        a.color_type == b.color_type,
        a.bytes_per_pixel == b.bytes_per_pixel,
        a.data@ == b.data@,
{
    let sw = ihdr.spec_scanline_width();
    let bpp = ihdr.spec_bpp();
    let nb = s.len() as int / sw;
    let cut = nb * (bpp * ihdr.width);
    assert(0 <= nb) by {
        vstd::arithmetic::div_mod::lemma_div_pos_is_pos(s.len() as int, sw);
    }
    assert(0 <= cut <= bpp * ihdr.width * ihdr.height) by (nonlinear_arith)
        requires
            0 <= nb <= ihdr.height,
            1 <= bpp,
            0 <= ihdr.width,
            cut == nb * (bpp * ihdr.width),
    ;
    assert forall|j: int| 0 <= j < a.data@.len() implies a.data@[j] == b.data@[j] by {
        if j < cut {
            assert(a.data@.subrange(0, cut)[j] == a.data@[j]);
            assert(b.data@.subrange(0, cut)[j] == b.data@[j]);
        }
    }
    assert(a.data@ =~= b.data@);
}

/// The checks and arithmetic shared by both reconstruction paths, up to the
/// scanline split: the stride, the scanline count, and their side conditions.
fn reconstruct_geometry(ihdr: &IHDRData, inflated: &Vec<u8>) -> (r: Result<(usize, usize), PngError
>)
    ensures
        r is Ok <==> spec_can_reconstruct(*ihdr, inflated@),
        r matches Ok((sw, nb)) ==> {
            &&& sw == ihdr.spec_scanline_width()
            &&& 2 <= sw
            &&& nb == inflated@.len() as int / sw as int
            &&& nb <= ihdr.height
            &&& ihdr.spec_bpp() * ihdr.width == sw - 1
            &&& spec_filters_ok(inflated@, sw as int)
        },
        r matches Err(e) ==> (if ihdr.color_type is PLTE {
            e is Unsupported
        } else {
            e is Format
        }),
{
    if let ColorType::PLTE = ihdr.color_type {
        return Err(PngError::Unsupported);
    }
    if ihdr.width == 0 {
        return Err(PngError::Format);
    }
    let bpp = ihdr.bytes_per_pixel();
    proof {
        assert(ihdr.width * bpp <= 0xFFFFFFFF * 124) by (nonlinear_arith)
            requires
                0 <= ihdr.width <= 0xFFFFFFFF,
                0 <= bpp <= 124,
        ;
    }
    let sw64: u64 = 1 + (ihdr.width as u64) * (bpp as u64);
    proof {
        assert(ihdr.width * ihdr.spec_bpp() == ihdr.spec_bpp() * ihdr.width) by (nonlinear_arith);
        assert(ihdr.spec_bpp() * ihdr.width >= 1) by (nonlinear_arith)
            requires
                1 <= ihdr.spec_bpp(),
                1 <= ihdr.width,
        ;
    }
    if sw64 > usize::MAX as u64 {
        return Err(PngError::Format);
    }
    proof {
        assert(bpp * ihdr.width * ihdr.height <= 124 * 0xFFFFFFFF * 0xFFFFFFFF)
            by (nonlinear_arith)
            requires
                0 <= bpp <= 124,
                0 <= ihdr.width <= 0xFFFFFFFF,
                0 <= ihdr.height <= 0xFFFFFFFF,
        ;
    }
    let total: u128 = (bpp as u128) * (ihdr.width as u128) * (ihdr.height as u128);
    if total > usize::MAX as u128 {
        return Err(PngError::Format);
    }
    let sw = ihdr.scanline_width();
    if !filters_valid(inflated.as_slice(), sw) {
        return Err(PngError::Format);
    }
    let nb = inflated.len() / sw;
    if (nb as u64) > (ihdr.height as u64) {
        return Err(PngError::Format);
    }
    Ok((sw, nb))
}

/// Reconstructs the raster from the inflated scanline stream, borrowing each
/// row. Palette images are unsupported; a bad filter tag, zero width,
/// overlong scanline run, or geometry past memory limits is a format error.
pub fn reconstruct(ihdr: &IHDRData, inflated: &Vec<u8>) -> (r: Result<Png, PngError>)
    ensures
        r is Ok <==> spec_can_reconstruct(*ihdr, inflated@),
        r matches Ok(png) ==> spec_reconstructed(*ihdr, inflated@, png),
        r matches Err(e) ==> (if ihdr.color_type is PLTE {
            e is Unsupported
        } else {
            e is Format
        }),
{
    let (sw, _nb) = match reconstruct_geometry(ihdr, inflated) {
        Ok(g) => g,
        Err(e) => {
            return Err(e);
        },
    };
    let scanlines = lines_slices(inflated.as_slice(), sw);
    proof {
        lemma_rows_bridge_slices(inflated@, scanlines@, sw as int);
    }
    let png = unfilter(ihdr, scanlines);
    Ok(png)
}

/// Reconstructs the raster from the inflated scanline stream, addressing
/// each row by offset; the same contract as `reconstruct`.
pub fn reconstruct_bis(ihdr: &IHDRData, inflated: &Vec<u8>) -> (r: Result<Png, PngError>)
    ensures
        r is Ok <==> spec_can_reconstruct(*ihdr, inflated@),
        r matches Ok(png) ==> spec_reconstructed(*ihdr, inflated@, png),
        r matches Err(e) ==> (if ihdr.color_type is PLTE {
            e is Unsupported
        } else {
            e is Format
        }),
{
    let (sw, _nb) = match reconstruct_geometry(ihdr, inflated) {
        Ok(g) => g,
        Err(e) => {
            return Err(e);
        },
    };
    let scanlines = lines_num(inflated.as_slice(), sw);
    proof {
        lemma_rows_bridge_offsets(inflated@, scanlines@, sw as int);
        assert forall|k: int| 0 <= k < scanlines@.len() implies (#[trigger] scanlines@[k]).1 + (sw
            - 1) <= inflated@.len() by {
            lemma_scanline_in_bounds(inflated@.len() as int, sw as int, k);
        }
    }
    let png = unfilter_bis(ihdr, scanlines, inflated.as_slice());
    Ok(png)
}

// DECODE PIPELINES ############################################################

/// The stream opens with the 8-byte signature and frames into whole chunks.
pub open spec fn spec_framed(s: Seq<u8>) -> bool {
    &&& s.len() >= 8
    &&& s.subrange(0, 8) == spec_signature()
    &&& spec_chunk_starts(s, 8) is Some
}

/// The header the first chunk's payload parses to. The first chunk starts at
/// byte 8, so its payload spans bytes 16 up to its declared length.
pub open spec fn spec_header_of(s: Seq<u8>) -> Option<IHDRData>
    recommends
        spec_framed(s),
{
    spec_parse_ihdr(s.subrange(16, 16 + spec_be_u32_at(s, 8)))
}

/// The chunk framed at `pos` of `s` is an IDAT chunk: its tag bytes name
/// IDAT.
pub open spec fn spec_is_idat_at(s: Seq<u8>, pos: int) -> bool {
    spec_known_name(s[pos + 4] as char, s[pos + 5] as char, s[pos + 6] as char, s[pos + 7] as char)
        == Some(ChunkType::IDAT)
}

/// The IDAT payloads of the chunks framed at `starts`, concatenated in
/// stream order: the logical compressed stream of the image data.
pub open spec fn spec_idat_stream(s: Seq<u8>, starts: Seq<int>) -> Seq<u8>
    decreases starts.len(),
{
    if starts.len() == 0 {
        Seq::empty()
    } else {
        let rest = spec_idat_stream(s, starts.drop_last());
        let pos = starts.last();
        if spec_is_idat_at(s, pos) {
            rest + s.subrange(pos + 8, pos + 8 + spec_be_u32_at(s, pos))
        } else {
            rest
        }
    }
}

/// Some chunk framed at `starts` is an IDAT chunk.
pub open spec fn spec_has_idat(s: Seq<u8>, starts: Seq<int>) -> bool {
    exists|i: int| 0 <= i < starts.len() && #[trigger] spec_is_idat_at(s, starts[i])
}

/// What inflating the stream's image data yields: the empty buffer when the
/// stream holds no IDAT chunk, else the inflation of the concatenated IDAT
/// payloads, absent when they are not one well-formed zlib stream.
pub open spec fn spec_inflated(s: Seq<u8>) -> Option<Seq<u8>>
    recommends
        spec_framed(s),
{
    let starts = spec_chunk_starts(s, 8).unwrap();
    if !spec_has_idat(s, starts) {
        Some(Seq::empty())
    } else {
        zlib_inflate(spec_idat_stream(s, starts))
    }
}

/// A stream decodes, chunk ordering aside: it is framed and nonempty, its
/// first chunk's payload parses as a header, its image data inflates, and
/// the inflated bytes reconstruct under that header.
pub open spec fn spec_decodes(s: Seq<u8>) -> bool {
    &&& spec_framed(s)
    &&& spec_chunk_starts(s, 8).unwrap().len() >= 1
    &&& spec_header_of(s) is Some
    &&& spec_inflated(s) is Some
    &&& spec_can_reconstruct(spec_header_of(s).unwrap(), spec_inflated(s).unwrap())
}

/// Reads the header from the first chunk of a framed stream and gathers the
/// IDAT chunks, shared by every decode pipeline.
fn header_and_idats(chunks: &Vec<Chunk>, input: &[u8]) -> (r: Result<
    (IHDRData, Vec<Chunk>),
    PngError,
>)
    requires
        input@.len() >= 8,
        spec_chunk_starts(input@, 8) is Some,
        chunks@.len() == spec_chunk_starts(input@, 8).unwrap().len(),
        forall|i: int|
            0 <= i < chunks@.len() ==> spec_chunk_at(
                input@,
                spec_chunk_starts(input@, 8).unwrap()[i],
                #[trigger] chunks@[i],
            ),
    ensures
        r is Ok <==> chunks@.len() >= 1 && spec_header_of(input@) is Some,
        r matches Err(e) ==> e is Format,
        r matches Ok((ihdr, idats)) ==> {
            &&& chunks@.len() >= 1
            &&& spec_header_of(input@) == Some(ihdr)
            &&& forall|j: int| 0 <= j < idats@.len() ==> (#[trigger] idats@[j]).spec_in_bounds(
                input@.len() as int,
            )
            &&& spec_concat_payloads(idats@, input@) == spec_idat_stream(
                input@,
                spec_chunk_starts(input@, 8).unwrap(),
            )
            &&& (idats@.len() >= 1 <==> spec_has_idat(
                input@,
                spec_chunk_starts(input@, 8).unwrap(),
            ))
        },
{
    if chunks.len() == 0 {
        return Err(PngError::Format);
    }
    let ghost starts = spec_chunk_starts(input@, 8).unwrap();
    proof {
        assert(starts[0] == 8);
        assert(spec_chunk_at(input@, 8, chunks@[0]));
    }
    let first = chunks[0];
    let hdr_bytes = first.data(input);
    let ihdr = match crate::chunk_data::parse_ihdr_data(hdr_bytes) {
        Ok(h) => h,
        Err(e) => {
            return Err(e);
        },
    };
    let mut idats: Vec<Chunk> = Vec::new();
    let mut k: usize = 0;
    proof {
        assert(starts.take(0) =~= Seq::<int>::empty());
    }
    while k < chunks.len()
        invariant
            k <= chunks@.len(),
            chunks@.len() == starts.len(),
            starts == spec_chunk_starts(input@, 8).unwrap(),
            spec_chunk_starts(input@, 8) is Some,
            forall|i: int|
                0 <= i < starts.len() ==> spec_chunk_at(input@, starts[i], #[trigger] chunks@[i]),
            forall|j: int| 0 <= j < idats@.len() ==> (#[trigger] idats@[j]).spec_in_bounds(
                input@.len() as int,
            ),
            spec_concat_payloads(idats@, input@) == spec_idat_stream(input@, starts.take(k as int)),
            idats@.len() >= 1 <==> spec_has_idat(input@, starts.take(k as int)),
        decreases chunks@.len() - k,
    {
        proof {
            lemma_idat_framing_step(input@, starts, chunks@, k as int);
        }
        let ghost prev_idats = idats@;
        if chunks[k].chunk_type.is_idat() {
            let c = chunks[k];
            idats.push(c);
            proof {
                assert(idats@.drop_last() =~= prev_idats);
            }
        }
        proof {
            lemma_has_idat_step(input@, starts, k as int, prev_idats.len() >= 1, idats@.len() >= 1);
        }
        k += 1;
    }
    proof {
        assert(starts.take(chunks@.len() as int) =~= starts);
    }
    Ok((ihdr, idats))
}

/// One framing step of the IDAT gathering loop: the chunk framed at
/// `starts[k]` is IDAT exactly when its tag bytes say so, its payload is the
/// stream's bytes there, and the concatenation over one more chunk extends
/// accordingly.
proof fn lemma_idat_framing_step(s: Seq<u8>, starts: Seq<int>, chunks: Seq<Chunk>, k: int)
    requires
        0 <= k < starts.len(),
        chunks.len() == starts.len(),
        forall|i: int| 0 <= i < starts.len() ==> spec_chunk_at(s, starts[i], #[trigger] chunks[i]),
    ensures
        chunks[k].chunk_type is IDAT <==> spec_is_idat_at(s, starts[k]),
        chunks[k].chunk_type is IDAT ==> chunks[k].spec_data(s) == s.subrange(
            starts[k] + 8,
            starts[k] + 8 + spec_be_u32_at(s, starts[k]),
        ),
        spec_idat_stream(s, starts.take(k + 1)) == (if spec_is_idat_at(s, starts[k]) {
            spec_idat_stream(s, starts.take(k)) + s.subrange(
                starts[k] + 8,
                starts[k] + 8 + spec_be_u32_at(s, starts[k]),
            )
        } else {
            spec_idat_stream(s, starts.take(k))
        }),
{
    let pos = starts[k];
    let c = chunks[k];
    assert(spec_chunk_at(s, pos, c));
    match spec_known_name(
        s[pos + 4] as char,
        s[pos + 5] as char,
        s[pos + 6] as char,
        s[pos + 7] as char,
    ) {
        Some(t) => {
            assert(c.chunk_type == t);
        },
        None => {
            assert(c.chunk_type is Unknown);
        },
    }
    if c.chunk_type is IDAT {
        assert(c.spec_data(s) =~= s.subrange(pos + 8, pos + 8 + spec_be_u32_at(s, pos)));
    }
    assert(starts.take(k + 1).drop_last() =~= starts.take(k));
    assert(starts.take(k + 1).last() == starts[k]);
}

/// Extending the considered prefix by one chunk keeps the "some chunk is
/// IDAT" account in step with the gathered count.
proof fn lemma_has_idat_step(s: Seq<u8>, starts: Seq<int>, k: int, had: bool, has: bool)
    requires
        0 <= k < starts.len(),
        had <==> spec_has_idat(s, starts.take(k)),
        has == (had || spec_is_idat_at(s, starts[k])),
    ensures
        has <==> spec_has_idat(s, starts.take(k + 1)),
{
    if has {
        if had {
            let i = choose|i: int|
                0 <= i < starts.take(k).len() && #[trigger] spec_is_idat_at(s, starts.take(k)[i]);
            assert(starts.take(k + 1)[i] == starts[i]);
            assert(spec_is_idat_at(s, starts.take(k + 1)[i]));
        } else {
            assert(starts.take(k + 1)[k] == starts[k]);
            assert(spec_is_idat_at(s, starts.take(k + 1)[k]));
        }
    }
    if spec_has_idat(s, starts.take(k + 1)) {
        let i = choose|i: int|
            0 <= i < starts.take(k + 1).len() && #[trigger] spec_is_idat_at(
                s,
                starts.take(k + 1)[i],
            );
        if i < k {
            assert(starts.take(k)[i] == starts[i]);
            assert(spec_is_idat_at(s, starts.take(k)[i]));
        } else {
            assert(starts.take(k + 1)[i] == starts[k]);
        }
    }
}

/// Decodes a PNG stream without checking chunk ordering: framing, header,
/// inflation of the IDAT payloads as one zlib stream, and scanline
/// reconstruction over borrowed rows. It succeeds exactly when every stage
/// does, and then returns the raster of the inflated image data, shaped by
/// the header; any failing stage aborts with its error, and no partial
/// raster is returned.
pub fn decode_no_check(input: &[u8]) -> (r: Result<Png, PngError>)
    ensures
        r is Ok <==> spec_decodes(input@),
        r matches Ok(png) ==> spec_reconstructed(
            spec_header_of(input@).unwrap(),
            spec_inflated(input@).unwrap(),
            png,
        ),
{
    let chunks = match parse_chunks(input) {
        Ok(c) => c,
        Err(e) => {
            return Err(e);
        },
    };
    let (ihdr, idats) = match header_and_idats(&chunks, input) {
        Ok(t) => t,
        Err(e) => {
            return Err(e);
        },
    };
    let inflated = match crate::chunk_data::inflate_idats(&idats, input) {
        Ok(v) => v,
        Err(e) => {
            return Err(e);
        },
    };
    proof {
        if idats@.len() == 0 {
            assert(inflated@ =~= Seq::<u8>::empty());
        }
        assert(spec_inflated(input@) == Some(inflated@));
    }
    reconstruct(&ihdr, &inflated)
}

/// Decodes a PNG stream without checking chunk ordering, reconstructing over
/// rows addressed by offset; the same contract as `decode_no_check`.
pub fn decode_no_check_bis(input: &[u8]) -> (r: Result<Png, PngError>)
    ensures
        r is Ok <==> spec_decodes(input@),
        r matches Ok(png) ==> spec_reconstructed(
            spec_header_of(input@).unwrap(),
            spec_inflated(input@).unwrap(),
            png,
        ),
{
    let chunks = match parse_chunks(input) {
        Ok(c) => c,
        Err(e) => {
            return Err(e);
        },
    };
    let (ihdr, idats) = match header_and_idats(&chunks, input) {
        Ok(t) => t,
        Err(e) => {
            return Err(e);
        },
    };
    let inflated = match crate::chunk_data::inflate_idats(&idats, input) {
        Ok(v) => v,
        Err(e) => {
            return Err(e);
        },
    };
    proof {
        if idats@.len() == 0 {
            assert(inflated@ =~= Seq::<u8>::empty());
        }
        assert(spec_inflated(input@) == Some(inflated@));
    }
    reconstruct_bis(&ihdr, &inflated)
}

/// Decodes a PNG stream with full chunk-ordering validation: a stream whose
/// chunk sequence the ordering automaton rejects is refused before any
/// inflation. It succeeds exactly when the stream decodes and the automaton
/// accepts its chunk sequence, and then returns the raster of the inflated
/// image data, shaped by the header.
pub fn decode(input: &[u8]) -> (r: Result<Png, PngError>)
    ensures
        r is Ok <==> spec_decodes(input@) && spec_validate_stream(
            input@,
            spec_chunk_starts(input@, 8).unwrap(),
        ) is Some,
        r matches Ok(png) ==> spec_reconstructed(
            spec_header_of(input@).unwrap(),
            spec_inflated(input@).unwrap(),
            png,
        ),
{
    let chunks = match parse_chunks(input) {
        Ok(c) => c,
        Err(e) => {
            return Err(e);
        },
    };
    proof {
        let starts = spec_chunk_starts(input@, 8).unwrap();
        lemma_stream_validation(input@, starts, chunks@, starts.len() as int);
        assert(starts.take(starts.len() as int) =~= starts);
        assert(chunk_types(chunks@).take(starts.len() as int) =~= chunk_types(chunks@));
    }
    match crate::chunk::validate_chunk_constraints(&chunks) {
        Ok(()) => (),
        Err(e) => {
            return Err(e);
        },
    }
    let (ihdr, idats) = match header_and_idats(&chunks, input) {
        Ok(t) => t,
        Err(e) => {
            return Err(e);
        },
    };
    let inflated = match crate::chunk_data::inflate_idats(&idats, input) {
        Ok(v) => v,
        Err(e) => {
            return Err(e);
        },
    };
    proof {
        if idats@.len() == 0 {
            assert(inflated@ =~= Seq::<u8>::empty());
        }
        assert(spec_inflated(input@) == Some(inflated@));
    }
    reconstruct(&ihdr, &inflated)
}

/// The borrowed scanline rows of `lines_slices` are the rows of the stream.
proof fn lemma_rows_bridge_slices(s: Seq<u8>, scanlines: Seq<(Filter, &[u8])>, sw: int)
    requires
        1 <= sw,
        scanlines.len() == s.len() as int / sw,
        forall|i: int|
            0 <= i < scanlines.len() ==> (#[trigger] scanlines[i]).0 == spec_filter_of(
                s[i * sw],
            ).unwrap() && scanlines[i].1@ == s.subrange(i * sw + 1, i * sw + sw),
    ensures
        crate::filter::spec_lines_of(scanlines) == spec_rows(s, sw),
        forall|k: int| 0 <= k < scanlines.len() ==> (#[trigger] scanlines[k]).1@.len() == sw - 1,
{
    assert forall|i: int| 0 <= i < scanlines.len() implies crate::filter::spec_lines_of(scanlines)[i]
        == spec_rows(s, sw)[i] by {
        lemma_scanline_in_bounds(s.len() as int, sw, i);
        assert(i * sw + sw == (i + 1) * sw) by (nonlinear_arith);
    }
    assert(crate::filter::spec_lines_of(scanlines) =~= spec_rows(s, sw));
    assert forall|k: int| 0 <= k < scanlines.len() implies (#[trigger] scanlines[k]).1@.len() == sw
        - 1 by {
        lemma_scanline_in_bounds(s.len() as int, sw, k);
    }
}

/// The offset scanline rows of `lines_num` are the rows of the stream.
proof fn lemma_rows_bridge_offsets(s: Seq<u8>, scanlines: Seq<(Filter, usize)>, sw: int)
    requires
        1 <= sw,
        scanlines.len() == s.len() as int / sw,
        forall|i: int|
            0 <= i < scanlines.len() ==> (#[trigger] scanlines[i]).0 == spec_filter_of(
                s[i * sw],
            ).unwrap() && scanlines[i].1 == i * sw + 1,
    ensures
        spec_lines_at(s, scanlines, sw - 1) == spec_rows(s, sw),
{
    assert forall|i: int| 0 <= i < scanlines.len() implies spec_lines_at(s, scanlines, sw - 1)[i]
        == spec_rows(s, sw)[i] by {
        lemma_scanline_in_bounds(s.len() as int, sw, i);
        assert(i * sw + sw == (i + 1) * sw) by (nonlinear_arith);
        assert(crate::filter::spec_row_at(s, i * sw + 1, sw - 1) == s.subrange(
            i * sw + 1,
            (i + 1) * sw,
        ));
    }
    assert(spec_lines_at(s, scanlines, sw - 1) =~= spec_rows(s, sw));
}

} // verus!
