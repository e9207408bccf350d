//! Decoded chunk payloads: the fixed 13-byte image header with its scanline
//! geometry, and the independent ancillary chunk readers (sBIT, bKGD, pHYs,
//! tIME, tEXt, zTXt).

use vstd::prelude::*;

use crate::chunk::{be_u32_at, spec_be_u32_at, Chunk, ChunkType};
use crate::color::ColorType;
use crate::error::PngError;

verus! {

/// The decoded payload of one chunk. Chunk types whose payload this decoder
/// does not read decode to `Unknown`.
#[allow(non_camel_case_types)]
#[derive(Debug)]
pub enum ChunkData {
    // Critical chunks
    IHDR(IHDRData),
    IEND,
    // Ancillary chunks
    tEXt(Text),
    zTXt(CompressedText),
    bKGD(Background),
    pHYs(PhysicalPixelDimension),
    sBIT(SignificantBits),
    tIME(LastModificationTime),
    // Anything else
    Unknown,
}

/// The image header: the fixed 13-byte payload of the IHDR chunk.
#[derive(Debug, Copy, Clone, PartialEq, Eq, Structural)]
pub struct IHDRData {
    pub width: u32,
    pub height: u32,
    pub bit_depth: u8,
    pub color_type: ColorType,
    pub compression_method: u8,
    pub filter_method: u8,
    pub interlace_method: u8,
}

/// The sBIT payload: significant bits per channel, shaped by color type.
#[derive(Debug, Copy, Clone)]
pub enum SignificantBits {
    Gray(u8),
    GrayAlpha([u8; 2]),
    RGB([u8; 3]),
    RGBA([u8; 4]),
}

/// The pHYs payload: intended pixel size or aspect ratio.
#[derive(Debug, Copy, Clone, PartialEq, Eq, Structural)]
pub struct PhysicalPixelDimension {
    pub x: u32,
    pub y: u32,
    pub unit: DimensionUnit,
}

/// The unit of a pHYs chunk: pixels per meter, or a bare aspect ratio.
#[derive(Debug, Copy, Clone, PartialEq, Eq, Structural)]
pub enum DimensionUnit {
    Unknown,
    Meter,
}

/// The tEXt payload: a keyword and an uncompressed text.
#[derive(Debug)]
pub struct Text {
    pub keyword: String,
    pub text: String,
}

/// The zTXt payload: a keyword, a compression method byte, and a
/// zlib-compressed text.
#[derive(Debug)]
pub struct CompressedText {
    pub keyword: String,
    pub method: u8,
    pub text: String,
}

/// The bKGD payload: a background color, shaped by color type.
#[derive(Debug, Copy, Clone)]
pub enum Background {
    Palette(u8),
    Gray(u16),
    RGB([u16; 3]),
}

/// The tIME payload: the image's last-modification time.
#[derive(Debug, Copy, Clone, PartialEq, Eq, Structural)]
pub struct LastModificationTime {
    pub year: u16,
    pub month: u8,
    pub day: u8,
    pub hour: u8,
    pub minute: u8,
    pub second: u8,
}

// GEOMETRY ####################################################################

impl IHDRData {
    /// How many bytes one channel sample takes: one for depths up to 8, else
    /// `bit_depth / 8`.
    pub open spec fn spec_bytes_per_channel(self) -> int {
        vstd::math::max(1, self.bit_depth as int / 8)
    }

    /// Bytes per complete pixel: channels times bytes per channel.
    pub open spec fn spec_bpp(self) -> int
        recommends
            self.color_type.spec_channels() is Some,
    {
        self.color_type.spec_channels().unwrap_or(0) * self.spec_bytes_per_channel()
    }

    /// The stride of one scanline in the inflated stream: one filter-tag
    /// byte plus `width * channels * bytes_per_channel` pixel bytes.
    pub open spec fn spec_scanline_width(self) -> int
        recommends
            self.color_type.spec_channels() is Some,
    {
        1 + self.width * self.spec_bpp()
    }

    /// Derives the scanline stride from the header. Palette images carry
    /// index data this decoder does not reconstruct, so they are excluded.
    pub fn scanline_width(&self) -> (r: usize)
        requires
            !(self.color_type is PLTE),
            self.spec_scanline_width() <= usize::MAX,
        ensures
            r == self.spec_scanline_width(),
    {
        let nb_channels: u64 = match self.color_type {
            ColorType::Gray => 1,
            ColorType::GrayAlpha => 2,
            ColorType::RGB => 3,
            ColorType::RGBA => 4,
            ColorType::PLTE => 0,
        };
        let bytes_per_channel: u64 = if self.bit_depth / 8 >= 1 {
            (self.bit_depth / 8) as u64
        } else {
            1
        };
        let w = 1 + (self.width as u64) * (nb_channels * bytes_per_channel);
        proof {
            assert(self.width * (nb_channels * bytes_per_channel) == self.width * self.spec_bpp());
        }
        w as usize
    }

    /// Derives the bytes per complete pixel from the header.
    pub fn bytes_per_pixel(&self) -> (r: usize)
        requires
            !(self.color_type is PLTE),
        ensures
            r == self.spec_bpp(),
            1 <= r <= 124,
    {
        let nb_channels: usize = match self.color_type {
            ColorType::Gray => 1,
            ColorType::GrayAlpha => 2,
            ColorType::RGB => 3,
            ColorType::RGBA => 4,
            ColorType::PLTE => 0,
        };
        let bytes_per_channel: usize = if self.bit_depth / 8 >= 1 {
            (self.bit_depth / 8) as usize
        } else {
            1
        };
        nb_channels * bytes_per_channel
    }
}

// PAYLOAD PARSERS #############################################################

/// The big-endian 16-bit integer held in bytes `i..i + 2` of `s`.
pub open spec fn spec_be_u16_at(s: Seq<u8>, i: int) -> u16
    recommends
        0 <= i,
        i + 2 <= s.len(),
{
    (s[i] * 0x100 + s[i + 1]) as u16
}

/// Reads a big-endian 16-bit integer from two bytes.
fn be_u16_at(input: &[u8], i: usize) -> (r: u16)
    requires
        i + 2 <= input@.len(),
    ensures
        r == spec_be_u16_at(input@, i as int),
{
    (input[i] as u16) * 0x100 + (input[i + 1] as u16)
}

/// The header a 13-byte IHDR payload decodes to, or nothing when the payload
/// is truncated or its color-type code is not one of the five.
pub open spec fn spec_parse_ihdr(s: Seq<u8>) -> Option<IHDRData> {
    if s.len() < 13 {
        None
    } else {
        match ColorType::spec_from_code(s[9]) {
            None => None,
            Some(color_type) => Some(
                IHDRData {
                    width: spec_be_u32_at(s, 0),
                    height: spec_be_u32_at(s, 4),
                    bit_depth: s[8],
                    color_type,
                    compression_method: s[10],
                    filter_method: s[11],
                    interlace_method: s[12],
                },
            ),
        }
    }
}

/// Parses the fixed 13-byte IHDR payload: width and height as big-endian
/// 32-bit integers, then five single-byte fields. An unrecognized numeric
/// color-type code is a format error.
pub fn parse_ihdr_data(input: &[u8]) -> (r: Result<IHDRData, PngError>)
    ensures
        match spec_parse_ihdr(input@) {
            Some(h) => r == Ok::<IHDRData, PngError>(h),
            None => r matches Err(e) && e is Format,
        },
{
    if input.len() < 13 {
        return Err(PngError::Format);
    }
    let width = be_u32_at(input, 0);
    let height = be_u32_at(input, 4);
    let bit_depth = input[8];
    let color_type = match ColorType::from_code(input[9]) {
        Some(ct) => ct,
        None => {
            return Err(PngError::Format);
        },
    };
    Ok(
        IHDRData {
            width,
            height,
            bit_depth,
            color_type,
            compression_method: input[10],
            filter_method: input[11],
            interlace_method: input[12],
        },
    )
}

/// The significant-bits record an sBIT payload of the declared length
/// decodes to, or nothing when the length is not 1 to 4 or the payload is
/// shorter than it.
pub open spec fn spec_parse_sbit(s: Seq<u8>, length: u32) -> Option<SignificantBits> {
    if s.len() < length {
        None
    } else if length == 1 {
        Some(SignificantBits::Gray(s[0]))
    } else if length == 2 {
        Some(SignificantBits::GrayAlpha([s[0], s[1]]))
    } else if length == 3 {
        Some(SignificantBits::RGB([s[0], s[1], s[2]]))
    } else if length == 4 {
        Some(SignificantBits::RGBA([s[0], s[1], s[2], s[3]]))
    } else {
        None
    }
}

/// Parses an sBIT payload: 1 to 4 bytes of significant-bit counts, shaped by
/// the declared chunk length.
pub fn parse_sbit_data(input: &[u8], length: u32) -> (r: Result<SignificantBits, PngError>)
    ensures
        match spec_parse_sbit(input@, length) {
            Some(sb) => r == Ok::<SignificantBits, PngError>(sb),
            None => r matches Err(e) && e is Format,
        },
{
    if length >= 1 && (input.len() as u64) < (length as u64) {
        return Err(PngError::Format);
    }
    match length {
        1 => Ok(SignificantBits::Gray(input[0])),
        2 => Ok(SignificantBits::GrayAlpha([input[0], input[1]])),
        3 => Ok(SignificantBits::RGB([input[0], input[1], input[2]])),
        4 => Ok(SignificantBits::RGBA([input[0], input[1], input[2], input[3]])),
        _ => Err(PngError::Format),
    }
}

/// The background record a bKGD payload of the declared length decodes to:
/// one palette index byte, one 16-bit gray level, or three 16-bit channels.
pub open spec fn spec_parse_bkgd(s: Seq<u8>, length: u32) -> Option<Background> {
    if s.len() < length {
        None
    } else if length == 1 {
        Some(Background::Palette(s[0]))
    } else if length == 2 {
        Some(Background::Gray(spec_be_u16_at(s, 0)))
    } else if length == 6 {
        Some(
            Background::RGB(
                [spec_be_u16_at(s, 0), spec_be_u16_at(s, 2), spec_be_u16_at(s, 4)],
            ),
        )
    } else {
        None
    }
}

/// Parses a bKGD payload: 1, 2 or 6 bytes of background color, shaped by the
/// declared chunk length.
pub fn parse_bkgd_data(input: &[u8], length: u32) -> (r: Result<Background, PngError>)
    ensures
        match spec_parse_bkgd(input@, length) {
            Some(b) => r == Ok::<Background, PngError>(b),
            None => r matches Err(e) && e is Format,
        },
{
    if length >= 1 && (input.len() as u64) < (length as u64) {
        return Err(PngError::Format);
    }
    match length {
        1 => Ok(Background::Palette(input[0])),
        2 => Ok(Background::Gray(be_u16_at(input, 0))),
        6 => Ok(
            Background::RGB([be_u16_at(input, 0), be_u16_at(input, 2), be_u16_at(input, 4)]),
        ),
        _ => Err(PngError::Format),
    }
}

/// The dimension record a pHYs payload decodes to: two big-endian 32-bit
/// counts and a unit byte that must be 0 or 1.
pub open spec fn spec_parse_phys(s: Seq<u8>) -> Option<PhysicalPixelDimension> {
    if s.len() < 9 {
        None
    } else if s[8] == 0 {
        Some(
            PhysicalPixelDimension {
                x: spec_be_u32_at(s, 0),
                y: spec_be_u32_at(s, 4),
                unit: DimensionUnit::Unknown,
            },
        )
    } else if s[8] == 1 {
        Some(
            PhysicalPixelDimension {
                x: spec_be_u32_at(s, 0),
                y: spec_be_u32_at(s, 4),
                unit: DimensionUnit::Meter,
            },
        )
    } else {
        None
    }
}

/// Parses a pHYs payload: pixels-per-unit in each direction and a unit byte,
/// which may only be 0 (unknown) or 1 (meter).
pub fn parse_phys_data(input: &[u8]) -> (r: Result<PhysicalPixelDimension, PngError>)
    ensures
        match spec_parse_phys(input@) {
            Some(p) => r == Ok::<PhysicalPixelDimension, PngError>(p),
            None => r matches Err(e) && e is Format,
        },
{
    if input.len() < 9 {
        return Err(PngError::Format);
    }
    let x = be_u32_at(input, 0);
    let y = be_u32_at(input, 4);
    let unit = match input[8] {
        0 => DimensionUnit::Unknown,
        1 => DimensionUnit::Meter,
        _ => {
            return Err(PngError::Format);
        },
    };
    Ok(PhysicalPixelDimension { x, y, unit })
}

/// The time record a 7-byte tIME payload decodes to.
pub open spec fn spec_parse_time(s: Seq<u8>) -> Option<LastModificationTime> {
    if s.len() < 7 {
        None
    } else {
        Some(
            LastModificationTime {
                year: spec_be_u16_at(s, 0),
                month: s[2],
                day: s[3],
                hour: s[4],
                minute: s[5],
                second: s[6],
            },
        )
    }
}

/// Parses a tIME payload: a big-endian year and five single-byte fields.
pub fn parse_time_data(input: &[u8]) -> (r: Result<LastModificationTime, PngError>)
    ensures
        match spec_parse_time(input@) {
            Some(t) => r == Ok::<LastModificationTime, PngError>(t),
            None => r matches Err(e) && e is Format,
        },
{
    if input.len() < 7 {
        return Err(PngError::Format);
    }
    Ok(
        LastModificationTime {
            year: be_u16_at(input, 0),
            month: input[2],
            day: input[3],
            hour: input[4],
            minute: input[5],
            second: input[6],
        },
    )
}

// NULL-TERMINATED TEXT ########################################################

/// The length of the prefix of `s` before its first zero byte (all of `s`
/// when it holds none).
pub open spec fn spec_null_pos(s: Seq<u8>) -> int
    decreases s.len(),
{
    if s.len() == 0 {
        0
    } else if s[0] == 0 {
        0
    } else {
        1 + spec_null_pos(s.drop_first())
    }
}

/// `spec_null_pos` is the first position holding a zero byte, or the length.
proof fn lemma_null_pos(s: Seq<u8>)
    ensures
        0 <= spec_null_pos(s) <= s.len(),
        spec_null_pos(s) < s.len() ==> s[spec_null_pos(s)] == 0,
        forall|j: int| 0 <= j < spec_null_pos(s) ==> s[j] != 0,
    decreases s.len(),
{
    if s.len() > 0 && s[0] != 0 {
        lemma_null_pos(s.drop_first());
        assert forall|j: int| 0 <= j < spec_null_pos(s) implies s[j] != 0 by {
            if j > 0 {
                assert(s.drop_first()[j - 1] != 0);
            }
        }
    }
}

/// Finds the first zero byte, the terminator of a PNG keyword.
fn null_pos(input: &[u8]) -> (p: usize)
    ensures
        p == spec_null_pos(input@),
{
    let n = input.len();
    let mut i: usize = 0;
    while i < n
        invariant
            i <= n,
            n == input@.len(),
            forall|j: int| 0 <= j < i ==> input@[j] != 0,
        decreases n - i,
    {
        if input[i] == 0 {
            proof {
                lemma_null_pos_at(input@, i as int);
            }
            return i;
        }
        i += 1;
    }
    proof {
        lemma_null_pos_at(input@, n as int);
    }
    n
}

/// A position whose prefix holds no zero byte, and which is the length or
/// holds one, is `spec_null_pos`.
proof fn lemma_null_pos_at(s: Seq<u8>, i: int)
    requires
        0 <= i <= s.len(),
        forall|j: int| 0 <= j < i ==> s[j] != 0,
        i < s.len() ==> s[i] == 0,
    ensures
        spec_null_pos(s) == i,
    decreases s.len(),
{
    if s.len() > 0 && s[0] != 0 {
        assert forall|j: int| 0 <= j < i - 1 implies s.drop_first()[j] != 0 by {
            assert(s[j + 1] != 0);
        }
        lemma_null_pos_at(s.drop_first(), i - 1);
    }
}

/// The keyword bytes of a text payload: the prefix before the first zero.
pub open spec fn spec_keyword_bytes(s: Seq<u8>) -> Seq<u8> {
    s.subrange(0, spec_null_pos(s))
}

/// What follows the keyword's zero terminator.
pub open spec fn spec_after_keyword(s: Seq<u8>) -> Seq<u8>
    recommends
        spec_null_pos(s) < s.len(),
{
    s.subrange(spec_null_pos(s) + 1, s.len() as int)
}

/// The text bytes of a tEXt payload: what follows the keyword's terminator,
/// up to a second zero byte if one occurs.
pub open spec fn spec_text_bytes(s: Seq<u8>) -> Seq<u8> {
    let rest = spec_after_keyword(s);
    rest.subrange(0, spec_null_pos(rest))
}

/// A tEXt payload is well-formed: the keyword has a terminator, and both the
/// keyword and the text are valid UTF-8.
pub open spec fn spec_text_ok(s: Seq<u8>) -> bool {
    &&& spec_null_pos(s) < s.len()
    &&& vstd::utf8::valid_utf8(spec_keyword_bytes(s))
    &&& vstd::utf8::valid_utf8(spec_text_bytes(s))
}

/// Relies on `String::from_utf8`: it succeeds exactly on valid UTF-8 and
/// decodes those bytes to the string's characters.
#[verifier::external_body]
fn string_from_utf8(v: Vec<u8>) -> (r: Option<String>)
    ensures
        match r {
            Some(s) => vstd::utf8::valid_utf8(v@) && s@ == vstd::utf8::decode_utf8(v@),
            None => !vstd::utf8::valid_utf8(v@),
        },
{
    String::from_utf8(v).ok()
}

/// Parses a tEXt payload: a zero-terminated keyword followed by the
/// uncompressed text.
pub fn parse_text_data(input: &[u8]) -> (r: Result<Text, PngError>)
    ensures
        r is Ok <==> spec_text_ok(input@),
        r matches Ok(t) ==> t.keyword@ == vstd::utf8::decode_utf8(spec_keyword_bytes(input@))
            && t.text@ == vstd::utf8::decode_utf8(spec_text_bytes(input@)),
        r matches Err(e) ==> e is Format,
{
    let n = input.len();
    let p = null_pos(input);
    proof {
        lemma_null_pos(input@);
    }
    if p >= n {
        return Err(PngError::Format);
    }
    let keyword_bytes = vstd::slice::slice_to_vec(vstd::slice::slice_subrange(input, 0, p));
    let keyword = match string_from_utf8(keyword_bytes) {
        Some(s) => s,
        None => {
            return Err(PngError::Format);
        },
    };
    let rest = vstd::slice::slice_subrange(input, p + 1, n);
    let q = null_pos(rest);
    proof {
        lemma_null_pos(rest@);
    }
    let text_bytes = vstd::slice::slice_to_vec(vstd::slice::slice_subrange(rest, 0, q));
    let text = match string_from_utf8(text_bytes) {
        Some(s) => s,
        None => {
            return Err(PngError::Format);
        },
    };
    Ok(Text { keyword, text })
}

// ZLIB DECOMPRESSION ##########################################################

/// What `miniz_oxide::inflate::decompress_to_vec_zlib` returns: the
/// inflation of one whole zlib stream, a function of the bytes alone;
/// nothing when the stream is rejected.
pub uninterp spec fn zlib_inflate(s: Seq<u8>) -> Option<Seq<u8>>;

/// Relies on `miniz_oxide::inflate::decompress_to_vec_zlib`: inflates one
/// whole zlib stream held in memory; the result is a function of the input
/// bytes alone.
#[verifier::external_body]
fn decompress_zlib(input: &[u8]) -> (r: Option<Vec<u8>>)
    ensures
        match r {
            Some(v) => zlib_inflate(input@) == Some(v@),
            None => zlib_inflate(input@) is None,
        },
{
    miniz_oxide::inflate::decompress_to_vec_zlib(input).ok()
}

/// The compressed text bytes of a zTXt payload: what follows the keyword's
/// terminator and the method byte.
pub open spec fn spec_ztxt_compressed(s: Seq<u8>) -> Seq<u8>
    recommends
        spec_null_pos(s) + 2 <= s.len(),
{
    s.subrange(spec_null_pos(s) + 2, s.len() as int)
}

/// A zTXt payload is well-formed: terminated keyword in valid UTF-8, a
/// method byte, and a compressed text that inflates to valid UTF-8.
pub open spec fn spec_ztxt_ok(s: Seq<u8>) -> bool {
    &&& spec_null_pos(s) + 2 <= s.len()
    &&& vstd::utf8::valid_utf8(spec_keyword_bytes(s))
    &&& zlib_inflate(spec_ztxt_compressed(s)) is Some
    &&& vstd::utf8::valid_utf8(zlib_inflate(spec_ztxt_compressed(s)).unwrap())
}

/// Parses a zTXt payload: a zero-terminated keyword, a compression method
/// byte, and a zlib-compressed text, inflated here.
pub fn parse_ztxt_data(input: &[u8]) -> (r: Result<CompressedText, PngError>)
    ensures
        r is Ok <==> spec_ztxt_ok(input@),
        r matches Ok(t) ==> {
            &&& t.keyword@ == vstd::utf8::decode_utf8(spec_keyword_bytes(input@))
            &&& t.method == input@[spec_null_pos(input@) + 1]
            &&& t.text@ == vstd::utf8::decode_utf8(
                zlib_inflate(spec_ztxt_compressed(input@)).unwrap(),
            )
        },
        r matches Err(e) ==> (if spec_null_pos(input@) + 2 <= input@.len()
            && vstd::utf8::valid_utf8(spec_keyword_bytes(input@)) && zlib_inflate(
            spec_ztxt_compressed(input@),
        ) is None {
            e is Inflate
        } else {
            e is Format
        }),
{
    let n = input.len();
    let p = null_pos(input);
    proof {
        lemma_null_pos(input@);
    }
    if p >= n || n - p < 2 {
        return Err(PngError::Format);
    }
    let keyword_bytes = vstd::slice::slice_to_vec(vstd::slice::slice_subrange(input, 0, p));
    let keyword = match string_from_utf8(keyword_bytes) {
        Some(s) => s,
        None => {
            return Err(PngError::Format);
        },
    };
    let method = input[p + 1];
    let compressed = vstd::slice::slice_subrange(input, p + 2, n);
    let inflated = match decompress_zlib(compressed) {
        Some(v) => v,
        None => {
            return Err(PngError::Inflate);
        },
    };
    let text = match string_from_utf8(inflated) {
        Some(s) => s,
        None => {
            return Err(PngError::Format);
        },
    };
    Ok(CompressedText { keyword, method, text })
}

// CHUNK PAYLOAD DISPATCH ######################################################

/// Decodes the payload of one framed chunk from the input buffer it was
/// framed from. Chunk types this decoder does not read (including PLTE and
/// IDAT, whose payloads other stages consume) decode to `Unknown`.
pub fn parse_chunk_data(chunk: &Chunk, input: &[u8]) -> (r: Result<ChunkData, PngError>)
    requires
        chunk.spec_in_bounds(input@.len() as int),
    ensures
        ({
            let data = chunk.spec_data(input@);
            match chunk.chunk_type {
                ChunkType::IHDR => match spec_parse_ihdr(data) {
                    Some(h) => r matches Ok(d) && d matches ChunkData::IHDR(h2) && h2 == h,
                    None => r is Err,
                },
                ChunkType::IEND => r matches Ok(d) && d is IEND,
                ChunkType::sBIT => match spec_parse_sbit(data, chunk.length) {
                    Some(sb) => r matches Ok(d) && d matches ChunkData::sBIT(s2) && s2 == sb,
                    None => r is Err,
                },
                ChunkType::bKGD => match spec_parse_bkgd(data, chunk.length) {
                    Some(b) => r matches Ok(d) && d matches ChunkData::bKGD(b2) && b2 == b,
                    None => r is Err,
                },
                ChunkType::pHYs => match spec_parse_phys(data) {
                    Some(p) => r matches Ok(d) && d matches ChunkData::pHYs(p2) && p2 == p,
                    None => r is Err,
                },
                ChunkType::tIME => match spec_parse_time(data) {
                    Some(t) => r matches Ok(d) && d matches ChunkData::tIME(t2) && t2 == t,
                    None => r is Err,
                },
                ChunkType::tEXt => if spec_text_ok(data) {
                    r matches Ok(d) && d matches ChunkData::tEXt(t) && t.keyword@
                        == vstd::utf8::decode_utf8(spec_keyword_bytes(data)) && t.text@
                        == vstd::utf8::decode_utf8(spec_text_bytes(data))
                } else {
                    r is Err
                },
                ChunkType::zTXt => if spec_ztxt_ok(data) {
                    r matches Ok(d) && d matches ChunkData::zTXt(t) && t.keyword@
                        == vstd::utf8::decode_utf8(spec_keyword_bytes(data)) && t.text@
                        == vstd::utf8::decode_utf8(
                        zlib_inflate(spec_ztxt_compressed(data)).unwrap(),
                    )
                } else {
                    r is Err
                },
                _ => r matches Ok(d) && d is Unknown,
            }
        }),
{
    let data = chunk.data(input);
    match chunk.chunk_type {
        ChunkType::IHDR => match parse_ihdr_data(data) {
            Ok(h) => Ok(ChunkData::IHDR(h)),
            Err(e) => Err(e),
        },
        ChunkType::IEND => Ok(ChunkData::IEND),
        ChunkType::sBIT => match parse_sbit_data(data, chunk.length) {
            Ok(sb) => Ok(ChunkData::sBIT(sb)),
            Err(e) => Err(e),
        },
        ChunkType::bKGD => match parse_bkgd_data(data, chunk.length) {
            Ok(b) => Ok(ChunkData::bKGD(b)),
            Err(e) => Err(e),
        },
        ChunkType::pHYs => match parse_phys_data(data) {
            Ok(p) => Ok(ChunkData::pHYs(p)),
            Err(e) => Err(e),
        },
        ChunkType::tIME => match parse_time_data(data) {
            Ok(t) => Ok(ChunkData::tIME(t)),
            Err(e) => Err(e),
        },
        ChunkType::tEXt => match parse_text_data(data) {
            Ok(t) => Ok(ChunkData::tEXt(t)),
            Err(e) => Err(e),
        },
        ChunkType::zTXt => match parse_ztxt_data(data) {
            Ok(t) => Ok(ChunkData::zTXt(t)),
            Err(e) => Err(e),
        },
        _ => Ok(ChunkData::Unknown),
    }
}

// IDAT INFLATION ##############################################################
//
// The payloads of all IDAT chunks form one logical zlib stream; chunk
// boundaries are an artifact of PNG chunking, not of the compression format.
// The payloads are gathered in stream order into one buffer and inflated as
// a single stream, so the result is a function of the concatenated bytes
// alone: a stream cut differently across chunks inflates to the same bytes.

/// The concatenated payloads of a chunk sequence within the input buffer:
/// one logical byte stream, in chunk order.
pub open spec fn spec_concat_payloads(chunks: Seq<Chunk>, s: Seq<u8>) -> Seq<u8>
    decreases chunks.len(),
{
    if chunks.len() == 0 {
        Seq::empty()
    } else {
        spec_concat_payloads(chunks.drop_last(), s) + chunks.last().spec_data(s)
    }
}

/// Inflates the payloads of all IDAT chunks, treated as one logical zlib
/// stream. With no chunk at all the stream is absent and the result is
/// empty; otherwise the call succeeds exactly when the concatenated payloads
/// form one complete well-formed zlib stream, and returns its inflation. A
/// truncated or invalid stream is an inflation error; no partial output is
/// returned.
pub fn inflate_idats(idats: &Vec<Chunk>, input: &[u8]) -> (r: Result<Vec<u8>, PngError>)
    requires
        forall|k: int| 0 <= k < idats@.len() ==> (#[trigger] idats@[k]).spec_in_bounds(
            input@.len() as int,
        ),
    ensures
        idats@.len() == 0 ==> (r matches Ok(v) && v@.len() == 0),
        idats@.len() >= 1 ==> match r {
            Ok(v) => zlib_inflate(spec_concat_payloads(idats@, input@)) == Some(v@),
            Err(e) => zlib_inflate(spec_concat_payloads(idats@, input@)) is None && e is Inflate,
        },
{
    let nb = idats.len();
    if nb == 0 {
        return Ok(Vec::new());
    }
    let mut stream: Vec<u8> = Vec::new();
    let mut k: usize = 0;
    while k < nb
        invariant
            k <= nb,
            nb == idats@.len(),
            forall|j: int| 0 <= j < idats@.len() ==> (#[trigger] idats@[j]).spec_in_bounds(
                input@.len() as int,
            ),
            stream@ == spec_concat_payloads(idats@.take(k as int), input@),
        decreases nb - k,
    {
        let mut piece = vstd::slice::slice_to_vec(idats[k].data(input));
        stream.append(&mut piece);
        proof {
            assert(idats@.take(k + 1).drop_last() =~= idats@.take(k as int));
        }
        k += 1;
    }
    proof {
        assert(idats@.take(nb as int) =~= idats@);
    }
    match decompress_zlib(stream.as_slice()) {
        Some(v) => Ok(v),
        None => Err(PngError::Inflate),
    }
}

} // verus!
