//! Chunk framing: the 4-letter chunk-type taxonomy and the binary layout of
//! one chunk (4-byte big-endian length, 4-byte type tag, payload, 4-byte crc).

use vstd::prelude::*;

use crate::error::PngError;

verus! {

/// The chunk types the PNG specification names, plus `Unknown` for any other
/// 4-character tag. Matching is case-sensitive on the literal names.
#[allow(non_camel_case_types)]
#[derive(Debug, Copy, Clone)]
pub enum ChunkType {
    // Critical chunks
    IHDR,
    PLTE,
    IDAT,
    IEND,
    // Ancillary chunks
    tRNS,
    gAMA,
    cHRM,
    sRGB,
    iCCP,
    tEXt,
    zTXt,
    iTXt,
    bKGD,
    pHYs,
    sBIT,
    sPLT,
    hIST,
    tIME,
    // Anything else
    Unknown([char; 4]),
}

/// The chunk type a 4-character tag names, or `None` for a tag outside the
/// taxonomy.
pub open spec fn spec_known_name(c0: char, c1: char, c2: char, c3: char) -> Option<ChunkType> {
    if c0 == 'I' && c1 == 'H' && c2 == 'D' && c3 == 'R' {
        Some(ChunkType::IHDR)
    } else if c0 == 'P' && c1 == 'L' && c2 == 'T' && c3 == 'E' {
        Some(ChunkType::PLTE)
    } else if c0 == 'I' && c1 == 'D' && c2 == 'A' && c3 == 'T' {
        Some(ChunkType::IDAT)
    } else if c0 == 'I' && c1 == 'E' && c2 == 'N' && c3 == 'D' {
        Some(ChunkType::IEND)
    } else if c0 == 't' && c1 == 'R' && c2 == 'N' && c3 == 'S' {
        Some(ChunkType::tRNS)
    } else if c0 == 'g' && c1 == 'A' && c2 == 'M' && c3 == 'A' {
        Some(ChunkType::gAMA)
    } else if c0 == 'c' && c1 == 'H' && c2 == 'R' && c3 == 'M' {
        Some(ChunkType::cHRM)
    } else if c0 == 's' && c1 == 'R' && c2 == 'G' && c3 == 'B' {
        Some(ChunkType::sRGB)
    } else if c0 == 'i' && c1 == 'C' && c2 == 'C' && c3 == 'P' {
        Some(ChunkType::iCCP)
    } else if c0 == 't' && c1 == 'E' && c2 == 'X' && c3 == 't' {
        Some(ChunkType::tEXt)
    } else if c0 == 'z' && c1 == 'T' && c2 == 'X' && c3 == 't' {
        Some(ChunkType::zTXt)
    } else if c0 == 'i' && c1 == 'T' && c2 == 'X' && c3 == 't' {
        Some(ChunkType::iTXt)
    } else if c0 == 'b' && c1 == 'K' && c2 == 'G' && c3 == 'D' {
        Some(ChunkType::bKGD)
    } else if c0 == 'p' && c1 == 'H' && c2 == 'Y' && c3 == 's' {
        Some(ChunkType::pHYs)
    } else if c0 == 's' && c1 == 'B' && c2 == 'I' && c3 == 'T' {
        Some(ChunkType::sBIT)
    } else if c0 == 's' && c1 == 'P' && c2 == 'L' && c3 == 'T' {
        Some(ChunkType::sPLT)
    } else if c0 == 'h' && c1 == 'I' && c2 == 'S' && c3 == 'T' {
        Some(ChunkType::hIST)
    } else if c0 == 't' && c1 == 'I' && c2 == 'M' && c3 == 'E' {
        Some(ChunkType::tIME)
    } else {
        None
    }
}

impl ChunkType {
    /// Decodes a 4-character tag, keeping unrecognized tags as `Unknown`
    /// rather than failing (rejection is deferred to the validator).
    pub fn from_name(name: [char; 4]) -> (r: ChunkType)
        ensures
            match spec_known_name(name[0], name[1], name[2], name[3]) {
                Some(t) => r == t,
                None => r matches ChunkType::Unknown(n) && n == name,
            },
    {
        let c0 = name[0];
        let c1 = name[1];
        let c2 = name[2];
        let c3 = name[3];
        if c0 == 'I' && c1 == 'H' && c2 == 'D' && c3 == 'R' {
            ChunkType::IHDR
        } else if c0 == 'P' && c1 == 'L' && c2 == 'T' && c3 == 'E' {
            ChunkType::PLTE
        } else if c0 == 'I' && c1 == 'D' && c2 == 'A' && c3 == 'T' {
            ChunkType::IDAT
        } else if c0 == 'I' && c1 == 'E' && c2 == 'N' && c3 == 'D' {
            ChunkType::IEND
        } else if c0 == 't' && c1 == 'R' && c2 == 'N' && c3 == 'S' {
            ChunkType::tRNS
        } else if c0 == 'g' && c1 == 'A' && c2 == 'M' && c3 == 'A' {
            ChunkType::gAMA
        } else if c0 == 'c' && c1 == 'H' && c2 == 'R' && c3 == 'M' {
            ChunkType::cHRM
        } else if c0 == 's' && c1 == 'R' && c2 == 'G' && c3 == 'B' {
            ChunkType::sRGB
        } else if c0 == 'i' && c1 == 'C' && c2 == 'C' && c3 == 'P' {
            ChunkType::iCCP
        } else if c0 == 't' && c1 == 'E' && c2 == 'X' && c3 == 't' {
            ChunkType::tEXt
        } else if c0 == 'z' && c1 == 'T' && c2 == 'X' && c3 == 't' {
            ChunkType::zTXt
        } else if c0 == 'i' && c1 == 'T' && c2 == 'X' && c3 == 't' {
            ChunkType::iTXt
        } else if c0 == 'b' && c1 == 'K' && c2 == 'G' && c3 == 'D' {
            ChunkType::bKGD
        } else if c0 == 'p' && c1 == 'H' && c2 == 'Y' && c3 == 's' {
            ChunkType::pHYs
        } else if c0 == 's' && c1 == 'B' && c2 == 'I' && c3 == 'T' {
            ChunkType::sBIT
        } else if c0 == 's' && c1 == 'P' && c2 == 'L' && c3 == 'T' {
            ChunkType::sPLT
        } else if c0 == 'h' && c1 == 'I' && c2 == 'S' && c3 == 'T' {
            ChunkType::hIST
        } else if c0 == 't' && c1 == 'I' && c2 == 'M' && c3 == 'E' {
            ChunkType::tIME
        } else {
            ChunkType::Unknown(name)
        }
    }

    /// True exactly on the IDAT variant.
    pub fn is_idat(&self) -> (b: bool)
        ensures
            b == (self is IDAT),
    {
        match self {
            ChunkType::IDAT => true,
            _ => false,
        }
    }

    /// True exactly on the IHDR variant.
    pub fn is_ihdr(&self) -> (b: bool)
        ensures
            b == (self is IHDR),
    {
        match self {
            ChunkType::IHDR => true,
            _ => false,
        }
    }
}

/// The big-endian 32-bit integer held in bytes `i..i + 4` of `s`.
pub open spec fn spec_be_u32_at(s: Seq<u8>, i: int) -> u32
    recommends
        0 <= i,
        i + 4 <= s.len(),
{
    (s[i] * 0x1000000 + s[i + 1] * 0x10000 + s[i + 2] * 0x100 + s[i + 3]) as u32
}

/// Reads a big-endian 32-bit integer from four bytes, as the PNG format
/// stores every length and coordinate.
pub fn be_u32_at(input: &[u8], i: usize) -> (r: u32)
    requires
        i + 4 <= input@.len(),
    ensures
        r == spec_be_u32_at(input@, i as int),
{
    (input[i] as u32) * 0x1000000 + (input[i + 1] as u32) * 0x10000 + (input[i + 2] as u32) * 0x100
        + (input[i + 3] as u32)
}

/// One framed chunk. The payload is a zero-copy view into the input buffer:
/// it starts at `data_start` and runs for `length` bytes.
#[derive(Debug, Copy, Clone)]
pub struct Chunk {
    pub length: u32,
    pub chunk_type: ChunkType,
    pub data_start: usize,
    pub crc: [u8; 4],
}

impl Chunk {
    /// The payload view lies inside a buffer of length `n`.
    pub open spec fn spec_in_bounds(self, n: int) -> bool {
        self.data_start + self.length <= n
    }

    /// The payload bytes of this chunk within the input buffer.
    pub open spec fn spec_data(self, s: Seq<u8>) -> Seq<u8>
        recommends
            self.spec_in_bounds(s.len() as int),
    {
        s.subrange(self.data_start as int, self.data_start + self.length)
    }

    /// Borrows the payload bytes from the input buffer the chunk was framed
    /// from.
    pub fn data<'a>(&self, input: &'a [u8]) -> (r: &'a [u8])
        requires
            self.spec_in_bounds(input@.len() as int),
        ensures
            r@ == self.spec_data(input@),
    {
        let n = input.len();
        assert(self.data_start + self.length <= n);
        vstd::slice::slice_subrange(input, self.data_start, self.data_start + self.length as usize)
    }

    /// The chunk type of this chunk is the one its tag bytes at position
    /// `pos + 4` of the buffer name.
    pub open spec fn spec_type_matches(s: Seq<u8>, pos: int, ct: ChunkType) -> bool {
        let c0 = s[pos + 4] as char;
        let c1 = s[pos + 5] as char;
        let c2 = s[pos + 6] as char;
        let c3 = s[pos + 7] as char;
        match spec_known_name(c0, c1, c2, c3) {
            Some(t) => ct == t,
            None => ct matches ChunkType::Unknown(n) && n@ == seq![c0, c1, c2, c3],
        }
    }

    /// Frames the chunk starting at byte `pos` of `input`, returning it with
    /// the position just past its crc. Fails exactly when the fixed fields or
    /// the declared payload run past the end of the input.
    pub fn parse(input: &[u8], pos: usize) -> (r: Result<(Chunk, usize), PngError>)
        ensures
            match r {
                Ok((c, next)) => {
                    &&& pos + 12 + c.length <= input@.len()
                    &&& c.length == spec_be_u32_at(input@, pos as int)
                    &&& Chunk::spec_type_matches(input@, pos as int, c.chunk_type)
                    &&& c.data_start == pos + 8
                    &&& c.crc@ == input@.subrange(pos + 8 + c.length, pos + 12 + c.length)
                    &&& next == pos + 12 + c.length
                },
                Err(e) => {
                    &&& e is Format
                    &&& pos + 12 > input@.len() || pos + 12 + spec_be_u32_at(input@, pos as int)
                        > input@.len()
                },
            },
    {
        let n = input.len();
        if pos >= n || n - pos < 12 {
            return Err(PngError::Format);
        }
        let length = be_u32_at(input, pos);
        if length as usize > n - pos - 12 {
            return Err(PngError::Format);
        }
        let name = [
            input[pos + 4] as char,
            input[pos + 5] as char,
            input[pos + 6] as char,
            input[pos + 7] as char,
        ];
        proof {
            assert(name@ =~= seq![
                input@[pos + 4] as char,
                input@[pos + 5] as char,
                input@[pos + 6] as char,
                input@[pos + 7] as char,
            ]);
        }
        let chunk_type = ChunkType::from_name(name);
        let crc_start = pos + 8 + length as usize;
        let crc = [input[crc_start], input[crc_start + 1], input[crc_start + 2], input[crc_start
            + 3]];
        let chunk = Chunk { length, chunk_type, data_start: pos + 8, crc };
        proof {
            assert(chunk.crc@ =~= input@.subrange(
                pos + 8 + chunk.length,
                pos + 12 + chunk.length,
            ));
        }
        Ok((chunk, pos + 12 + length as usize))
    }
}

// ORDERING VALIDATION #########################################################
//
// The PNG specification constrains the order of chunks:
//
//         Name  Multiple  Ordering constraints
//                 OK?
//         IHDR    No      Must be first
//         PLTE    No      Before IDAT
//         IDAT    Yes     Multiple IDATs must be consecutive
//         IEND    No      Must be last
//
//         cHRM    No      Before PLTE and IDAT
//         gAMA    No      Before PLTE and IDAT
//         iCCP    No      Before PLTE and IDAT
//         sBIT    No      Before PLTE and IDAT
//         sRGB    No      Before PLTE and IDAT
//         bKGD    No      After PLTE; before IDAT
//         hIST    No      After PLTE; before IDAT
//         tRNS    No      After PLTE; before IDAT
//         pHYs    No      Before IDAT
//         sPLT    Yes     Before IDAT
//         tIME    No      None
//         iTXt    Yes     None
//         tEXt    Yes     None
//         zTXt    Yes     None
//
// The validator is a fold over the chunk sequence maintaining two sets of
// chunk types: those seen so far (`present`) and those still acceptable
// (`authorized`). IDAT consecutiveness is enforced indirectly: a text or time
// chunk arriving after the first IDAT revokes further IDAT authorization.

/// A finite set of named chunk types, one membership flag per type; `Unknown`
/// tags are never members (see `spec_contains`).
#[derive(Debug, Copy, Clone, PartialEq, Eq, Structural)]
pub struct ChunkTypeSet {
    pub ihdr: bool,
    pub plte: bool,
    pub idat: bool,
    pub iend: bool,
    pub trns: bool,
    pub gama: bool,
    pub chrm: bool,
    pub srgb: bool,
    pub iccp: bool,
    pub text: bool,
    pub ztxt: bool,
    pub itxt: bool,
    pub bkgd: bool,
    pub phys: bool,
    pub sbit: bool,
    pub splt: bool,
    pub hist: bool,
    pub time: bool,
}

impl ChunkTypeSet {
    /// Membership: the flag of the named type; `Unknown` tags are never
    /// members.
    pub open spec fn spec_contains(self, ct: ChunkType) -> bool {
        match ct {
            ChunkType::IHDR => self.ihdr,
            ChunkType::PLTE => self.plte,
            ChunkType::IDAT => self.idat,
            ChunkType::IEND => self.iend,
            ChunkType::tRNS => self.trns,
            ChunkType::gAMA => self.gama,
            ChunkType::cHRM => self.chrm,
            ChunkType::sRGB => self.srgb,
            ChunkType::iCCP => self.iccp,
            ChunkType::tEXt => self.text,
            ChunkType::zTXt => self.ztxt,
            ChunkType::iTXt => self.itxt,
            ChunkType::bKGD => self.bkgd,
            ChunkType::pHYs => self.phys,
            ChunkType::sBIT => self.sbit,
            ChunkType::sPLT => self.splt,
            ChunkType::hIST => self.hist,
            ChunkType::tIME => self.time,
            ChunkType::Unknown(_) => false,
        }
    }

    /// The set with the named type added.
    pub open spec fn spec_insert(self, ct: ChunkType) -> ChunkTypeSet {
        match ct {
            ChunkType::IHDR => ChunkTypeSet { ihdr: true, ..self },
            ChunkType::PLTE => ChunkTypeSet { plte: true, ..self },
            ChunkType::IDAT => ChunkTypeSet { idat: true, ..self },
            ChunkType::IEND => ChunkTypeSet { iend: true, ..self },
            ChunkType::tRNS => ChunkTypeSet { trns: true, ..self },
            ChunkType::gAMA => ChunkTypeSet { gama: true, ..self },
            ChunkType::cHRM => ChunkTypeSet { chrm: true, ..self },
            ChunkType::sRGB => ChunkTypeSet { srgb: true, ..self },
            ChunkType::iCCP => ChunkTypeSet { iccp: true, ..self },
            ChunkType::tEXt => ChunkTypeSet { text: true, ..self },
            ChunkType::zTXt => ChunkTypeSet { ztxt: true, ..self },
            ChunkType::iTXt => ChunkTypeSet { itxt: true, ..self },
            ChunkType::bKGD => ChunkTypeSet { bkgd: true, ..self },
            ChunkType::pHYs => ChunkTypeSet { phys: true, ..self },
            ChunkType::sBIT => ChunkTypeSet { sbit: true, ..self },
            ChunkType::sPLT => ChunkTypeSet { splt: true, ..self },
            ChunkType::hIST => ChunkTypeSet { hist: true, ..self },
            ChunkType::tIME => ChunkTypeSet { time: true, ..self },
            ChunkType::Unknown(_) => self,
        }
    }

    /// The set with the named type removed.
    pub open spec fn spec_remove(self, ct: ChunkType) -> ChunkTypeSet {
        match ct {
            ChunkType::IHDR => ChunkTypeSet { ihdr: false, ..self },
            ChunkType::PLTE => ChunkTypeSet { plte: false, ..self },
            ChunkType::IDAT => ChunkTypeSet { idat: false, ..self },
            ChunkType::IEND => ChunkTypeSet { iend: false, ..self },
            ChunkType::tRNS => ChunkTypeSet { trns: false, ..self },
            ChunkType::gAMA => ChunkTypeSet { gama: false, ..self },
            ChunkType::cHRM => ChunkTypeSet { chrm: false, ..self },
            ChunkType::sRGB => ChunkTypeSet { srgb: false, ..self },
            ChunkType::iCCP => ChunkTypeSet { iccp: false, ..self },
            ChunkType::tEXt => ChunkTypeSet { text: false, ..self },
            ChunkType::zTXt => ChunkTypeSet { ztxt: false, ..self },
            ChunkType::iTXt => ChunkTypeSet { itxt: false, ..self },
            ChunkType::bKGD => ChunkTypeSet { bkgd: false, ..self },
            ChunkType::pHYs => ChunkTypeSet { phys: false, ..self },
            ChunkType::sBIT => ChunkTypeSet { sbit: false, ..self },
            ChunkType::sPLT => ChunkTypeSet { splt: false, ..self },
            ChunkType::hIST => ChunkTypeSet { hist: false, ..self },
            ChunkType::tIME => ChunkTypeSet { time: false, ..self },
            ChunkType::Unknown(_) => self,
        }
    }

    /// The set with every type that may not follow a PLTE chunk removed.
    pub open spec fn spec_clear_before_plte(self) -> ChunkTypeSet {
        ChunkTypeSet {
            plte: false,
            gama: false,
            chrm: false,
            srgb: false,
            iccp: false,
            sbit: false,
            ..self
        }
    }

    /// The set with every type that may not follow the first IDAT chunk
    /// removed.
    pub open spec fn spec_clear_before_idat(self) -> ChunkTypeSet {
        ChunkTypeSet {
            plte: false,
            trns: false,
            gama: false,
            chrm: false,
            srgb: false,
            iccp: false,
            bkgd: false,
            phys: false,
            sbit: false,
            splt: false,
            hist: false,
            ..self
        }
    }

    /// The empty set.
    pub open spec fn spec_empty() -> ChunkTypeSet {
        ChunkTypeSet {
            ihdr: false,
            plte: false,
            idat: false,
            iend: false,
            trns: false,
            gama: false,
            chrm: false,
            srgb: false,
            iccp: false,
            text: false,
            ztxt: false,
            itxt: false,
            bkgd: false,
            phys: false,
            sbit: false,
            splt: false,
            hist: false,
            time: false,
        }
    }

    /// The set holding IHDR alone: what the first chunk must be.
    pub open spec fn spec_only_ihdr() -> ChunkTypeSet {
        ChunkTypeSet { ihdr: true, ..ChunkTypeSet::spec_empty() }
    }

    /// Every named type except IHDR and IEND: what may follow IHDR.
    pub open spec fn spec_all_post_ihdr() -> ChunkTypeSet {
        ChunkTypeSet {
            ihdr: false,
            plte: true,
            idat: true,
            iend: false,
            trns: true,
            gama: true,
            chrm: true,
            srgb: true,
            iccp: true,
            text: true,
            ztxt: true,
            itxt: true,
            bkgd: true,
            phys: true,
            sbit: true,
            splt: true,
            hist: true,
            time: true,
        }
    }

    /// The empty set.
    pub fn empty() -> (r: ChunkTypeSet)
        ensures
            r == ChunkTypeSet::spec_empty(),
    {
        ChunkTypeSet {
            ihdr: false,
            plte: false,
            idat: false,
            iend: false,
            trns: false,
            gama: false,
            chrm: false,
            srgb: false,
            iccp: false,
            text: false,
            ztxt: false,
            itxt: false,
            bkgd: false,
            phys: false,
            sbit: false,
            splt: false,
            hist: false,
            time: false,
        }
    }

    /// Every named type except IHDR and IEND: what may follow IHDR.
    pub fn all_post_ihdr() -> (r: ChunkTypeSet)
        ensures
            r == ChunkTypeSet::spec_all_post_ihdr(),
    {
        ChunkTypeSet {
            ihdr: false,
            plte: true,
            idat: true,
            iend: false,
            trns: true,
            gama: true,
            chrm: true,
            srgb: true,
            iccp: true,
            text: true,
            ztxt: true,
            itxt: true,
            bkgd: true,
            phys: true,
            sbit: true,
            splt: true,
            hist: true,
            time: true,
        }
    }

    /// Membership test.
    pub fn contains(self, ct: ChunkType) -> (b: bool)
        ensures
            b == self.spec_contains(ct),
    {
        match ct {
            ChunkType::IHDR => self.ihdr,
            ChunkType::PLTE => self.plte,
            ChunkType::IDAT => self.idat,
            ChunkType::IEND => self.iend,
            ChunkType::tRNS => self.trns,
            ChunkType::gAMA => self.gama,
            ChunkType::cHRM => self.chrm,
            ChunkType::sRGB => self.srgb,
            ChunkType::iCCP => self.iccp,
            ChunkType::tEXt => self.text,
            ChunkType::zTXt => self.ztxt,
            ChunkType::iTXt => self.itxt,
            ChunkType::bKGD => self.bkgd,
            ChunkType::pHYs => self.phys,
            ChunkType::sBIT => self.sbit,
            ChunkType::sPLT => self.splt,
            ChunkType::hIST => self.hist,
            ChunkType::tIME => self.time,
            ChunkType::Unknown(_) => false,
        }
    }

    /// Adds a named type.
    pub fn insert(self, ct: ChunkType) -> (r: ChunkTypeSet)
        ensures
            r == self.spec_insert(ct),
    {
        match ct {
            ChunkType::IHDR => ChunkTypeSet { ihdr: true, ..self },
            ChunkType::PLTE => ChunkTypeSet { plte: true, ..self },
            ChunkType::IDAT => ChunkTypeSet { idat: true, ..self },
            ChunkType::IEND => ChunkTypeSet { iend: true, ..self },
            ChunkType::tRNS => ChunkTypeSet { trns: true, ..self },
            ChunkType::gAMA => ChunkTypeSet { gama: true, ..self },
            ChunkType::cHRM => ChunkTypeSet { chrm: true, ..self },
            ChunkType::sRGB => ChunkTypeSet { srgb: true, ..self },
            ChunkType::iCCP => ChunkTypeSet { iccp: true, ..self },
            ChunkType::tEXt => ChunkTypeSet { text: true, ..self },
            ChunkType::zTXt => ChunkTypeSet { ztxt: true, ..self },
            ChunkType::iTXt => ChunkTypeSet { itxt: true, ..self },
            ChunkType::bKGD => ChunkTypeSet { bkgd: true, ..self },
            ChunkType::pHYs => ChunkTypeSet { phys: true, ..self },
            ChunkType::sBIT => ChunkTypeSet { sbit: true, ..self },
            ChunkType::sPLT => ChunkTypeSet { splt: true, ..self },
            ChunkType::hIST => ChunkTypeSet { hist: true, ..self },
            ChunkType::tIME => ChunkTypeSet { time: true, ..self },
            ChunkType::Unknown(_) => self,
        }
    }

    /// Removes a named type.
    pub fn remove(self, ct: ChunkType) -> (r: ChunkTypeSet)
        ensures
            r == self.spec_remove(ct),
    {
        match ct {
            ChunkType::IHDR => ChunkTypeSet { ihdr: false, ..self },
            ChunkType::PLTE => ChunkTypeSet { plte: false, ..self },
            ChunkType::IDAT => ChunkTypeSet { idat: false, ..self },
            ChunkType::IEND => ChunkTypeSet { iend: false, ..self },
            ChunkType::tRNS => ChunkTypeSet { trns: false, ..self },
            ChunkType::gAMA => ChunkTypeSet { gama: false, ..self },
            ChunkType::cHRM => ChunkTypeSet { chrm: false, ..self },
            ChunkType::sRGB => ChunkTypeSet { srgb: false, ..self },
            ChunkType::iCCP => ChunkTypeSet { iccp: false, ..self },
            ChunkType::tEXt => ChunkTypeSet { text: false, ..self },
            ChunkType::zTXt => ChunkTypeSet { ztxt: false, ..self },
            ChunkType::iTXt => ChunkTypeSet { itxt: false, ..self },
            ChunkType::bKGD => ChunkTypeSet { bkgd: false, ..self },
            ChunkType::pHYs => ChunkTypeSet { phys: false, ..self },
            ChunkType::sBIT => ChunkTypeSet { sbit: false, ..self },
            ChunkType::sPLT => ChunkTypeSet { splt: false, ..self },
            ChunkType::hIST => ChunkTypeSet { hist: false, ..self },
            ChunkType::tIME => ChunkTypeSet { time: false, ..self },
            ChunkType::Unknown(_) => self,
        }
    }

    /// Clears every type that may not follow a PLTE chunk.
    pub fn clear_before_plte(self) -> (r: ChunkTypeSet)
        ensures
            r == self.spec_clear_before_plte(),
    {
        ChunkTypeSet {
            plte: false,
            gama: false,
            chrm: false,
            srgb: false,
            iccp: false,
            sbit: false,
            ..self
        }
    }

    /// Clears every type that may not follow the first IDAT chunk.
    pub fn clear_before_idat(self) -> (r: ChunkTypeSet)
        ensures
            r == self.spec_clear_before_idat(),
    {
        ChunkTypeSet {
            plte: false,
            trns: false,
            gama: false,
            chrm: false,
            srgb: false,
            iccp: false,
            bkgd: false,
            phys: false,
            sbit: false,
            splt: false,
            hist: false,
            ..self
        }
    }
}

/// The state the validator threads across the chunk sequence: the types seen
/// so far and the types still acceptable.
#[derive(Debug, Copy, Clone, PartialEq, Eq, Structural)]
pub struct ValidationState {
    pub present: ChunkTypeSet,
    pub authorized: ChunkTypeSet,
}

impl ValidationState {
    /// The state before any chunk: nothing present, only IHDR acceptable.
    pub open spec fn spec_initial() -> ValidationState {
        ValidationState {
            present: ChunkTypeSet::spec_empty(),
            authorized: ChunkTypeSet::spec_only_ihdr(),
        }
    }

    /// The state before any chunk: nothing present, only IHDR acceptable.
    pub fn initial() -> (s: ValidationState)
        ensures
            s == ValidationState::spec_initial(),
    {
        ValidationState {
            present: ChunkTypeSet::empty(),
            authorized: ChunkTypeSet { ihdr: true, ..ChunkTypeSet::empty() },
        }
    }
}

/// One transition of the ordering automaton: the state after accepting a
/// chunk of type `ct`, or `None` when the chunk is rejected. This is the
/// transition table above, with `authorized` updated per row and `ct` itself
/// recorded as present.
pub open spec fn spec_validate_chunk(state: ValidationState, ct: ChunkType) -> Option<
    ValidationState,
> {
    if ct is Unknown || !state.authorized.spec_contains(ct) {
        None
    } else {
        let present = state.present.spec_insert(ct);
        let authorized = match ct {
            // --- Critical chunks ---
            ChunkType::IHDR => ChunkTypeSet::spec_all_post_ihdr(),
            ChunkType::PLTE => state.authorized.spec_clear_before_plte(),
            ChunkType::IDAT => if state.present.spec_contains(ChunkType::IDAT) {
                state.authorized
            } else {
                state.authorized.spec_clear_before_idat().spec_insert(ChunkType::IEND)
            },
            ChunkType::IEND => ChunkTypeSet::spec_empty(),
            // --- Ancillary chunks ---
            // Single-shot chunks that revoke only themselves
            ChunkType::cHRM | ChunkType::gAMA | ChunkType::iCCP | ChunkType::sBIT
                | ChunkType::sRGB | ChunkType::pHYs => state.authorized.spec_remove(ct),
            // Single-shot chunks that must precede no further PLTE
            ChunkType::bKGD | ChunkType::hIST | ChunkType::tRNS => state.authorized.spec_remove(
                ChunkType::PLTE,
            ).spec_remove(ct),
            // Repeatable before IDAT
            ChunkType::sPLT => state.authorized,
            // Allowed anywhere, once; after IDAT it ends the IDAT run
            ChunkType::tIME => if state.present.spec_contains(ChunkType::IDAT) {
                state.authorized.spec_remove(ChunkType::tIME).spec_remove(ChunkType::IDAT)
            } else {
                state.authorized.spec_remove(ChunkType::tIME)
            },
            // Allowed anywhere, repeatable; after IDAT they end the IDAT run
            ChunkType::iTXt | ChunkType::tEXt | ChunkType::zTXt => if state.present.spec_contains(
                ChunkType::IDAT,
            ) {
                state.authorized.spec_remove(ChunkType::IDAT)
            } else {
                state.authorized
            },
            ChunkType::Unknown(_) => state.authorized,
        };
        Some(ValidationState { present, authorized })
    }
}

/// The automaton state after accepting a whole sequence of chunk types, or
/// `None` when some chunk of the sequence is rejected.
pub open spec fn spec_validate_types(types: Seq<ChunkType>) -> Option<ValidationState>
    decreases types.len(),
{
    if types.len() == 0 {
        Some(ValidationState::spec_initial())
    } else {
        match spec_validate_types(types.drop_last()) {
            None => None,
            Some(state) => spec_validate_chunk(state, types.last()),
        }
    }
}

/// The chunk types of a framed chunk sequence.
pub open spec fn chunk_types(chunks: Seq<Chunk>) -> Seq<ChunkType> {
    chunks.map_values(|c: Chunk| c.chunk_type)
}

/// One step of the ordering automaton over a framed chunk. Rejects unknown
/// chunk types outright, and known types that the current state no longer
/// authorizes, naming the offender.
pub fn validate_chunk(state: ValidationState, chunk: &Chunk) -> (r: Result<
    ValidationState,
    PngError,
>)
    ensures
        match r {
            Ok(s2) => spec_validate_chunk(state, chunk.chunk_type) == Some(s2),
            Err(e) => {
                &&& spec_validate_chunk(state, chunk.chunk_type) is None
                &&& (chunk.chunk_type is Unknown ==> e is Unsupported)
                &&& (!(chunk.chunk_type is Unknown) ==> (e matches PngError::Ordering(t) && t
                    == chunk.chunk_type))
            },
        },
{
    let ct = chunk.chunk_type;
    if let ChunkType::Unknown(_) = ct {
        return Err(PngError::Unsupported);
    }
    if !state.authorized.contains(ct) {
        return Err(PngError::Ordering(ct));
    }
    let present = state.present.insert(ct);
    let authorized = match ct {
        // --- Critical chunks ---
        ChunkType::IHDR => ChunkTypeSet::all_post_ihdr(),
        ChunkType::PLTE => state.authorized.clear_before_plte(),
        ChunkType::IDAT => {
            if state.present.contains(ChunkType::IDAT) {
                state.authorized
            } else {
                state.authorized.clear_before_idat().insert(ChunkType::IEND)
            }
        },
        ChunkType::IEND => ChunkTypeSet::empty(),
        // --- Ancillary chunks ---
        // Single-shot chunks that revoke only themselves
        ChunkType::cHRM | ChunkType::gAMA | ChunkType::iCCP | ChunkType::sBIT | ChunkType::sRGB
            | ChunkType::pHYs => state.authorized.remove(ct),
        // Single-shot chunks that must precede no further PLTE
        ChunkType::bKGD | ChunkType::hIST | ChunkType::tRNS => state.authorized.remove(
            ChunkType::PLTE,
        ).remove(ct),
        // Repeatable before IDAT
        ChunkType::sPLT => state.authorized,
        // Allowed anywhere, once; after IDAT it ends the IDAT run
        ChunkType::tIME => {
            if state.present.contains(ChunkType::IDAT) {
                state.authorized.remove(ChunkType::tIME).remove(ChunkType::IDAT)
            } else {
                state.authorized.remove(ChunkType::tIME)
            }
        },
        // Allowed anywhere, repeatable; after IDAT they end the IDAT run
        ChunkType::iTXt | ChunkType::tEXt | ChunkType::zTXt => {
            if state.present.contains(ChunkType::IDAT) {
                state.authorized.remove(ChunkType::IDAT)
            } else {
                state.authorized
            }
        },
        ChunkType::Unknown(_) => state.authorized,
    };
    Ok(ValidationState { present, authorized })
}

/// Folds the ordering automaton over a framed chunk sequence, accepting it
/// exactly when every chunk is accepted in turn.
pub fn validate_chunk_constraints(chunks: &Vec<Chunk>) -> (r: Result<(), PngError>)
    ensures
        r is Ok <==> spec_validate_types(chunk_types(chunks@)) is Some,
{
    let ghost types = chunk_types(chunks@);
    let mut state = ValidationState::initial();
    let mut i: usize = 0;
    proof {
        assert(types.take(0) =~= Seq::<ChunkType>::empty());
    }
    while i < chunks.len()
        invariant
            0 <= i <= chunks@.len(),
            types == chunk_types(chunks@),
            spec_validate_types(types.take(i as int)) == Some(state),
        decreases chunks@.len() - i,
    {
        proof {
            assert(types.take(i + 1).drop_last() =~= types.take(i as int));
            assert(types.take(i + 1).last() == types[i as int]);
            assert(types[i as int] == chunks@[i as int].chunk_type);
        }
        match validate_chunk(state, &chunks[i]) {
            Ok(s2) => {
                state = s2;
            },
            Err(e) => {
                proof {
                    lemma_validate_types_none(types, i + 1);
                }
                return Err(e);
            },
        }
        i += 1;
    }
    proof {
        assert(types.take(chunks@.len() as int) =~= types);
    }
    Ok(())
}

/// One transition of the ordering automaton over the chunk framed at `pos`
/// of the byte stream: unknown tags are rejected outright, known ones follow
/// the transition table.
pub open spec fn spec_validate_stream_chunk(
    state: ValidationState,
    s: Seq<u8>,
    pos: int,
) -> Option<ValidationState> {
    match spec_known_name(
        s[pos + 4] as char,
        s[pos + 5] as char,
        s[pos + 6] as char,
        s[pos + 7] as char,
    ) {
        Some(t) => spec_validate_chunk(state, t),
        None => None,
    }
}

/// The automaton state after accepting the chunks framed at `starts` of the
/// byte stream, or `None` when one of them is rejected.
pub open spec fn spec_validate_stream(s: Seq<u8>, starts: Seq<int>) -> Option<ValidationState>
    decreases starts.len(),
{
    if starts.len() == 0 {
        Some(ValidationState::spec_initial())
    } else {
        match spec_validate_stream(s, starts.drop_last()) {
            None => None,
            Some(state) => spec_validate_stream_chunk(state, s, starts.last()),
        }
    }
}

/// Validating the types of chunks framed from a stream is validating the
/// stream itself: the tag bytes at each chunk's position decide each step.
pub proof fn lemma_stream_validation(s: Seq<u8>, starts: Seq<int>, chunks: Seq<Chunk>, k: int)
    requires
        0 <= k <= starts.len(),
        chunks.len() == starts.len(),
        forall|i: int|
            0 <= i < starts.len() ==> Chunk::spec_type_matches(
                s,
                starts[i],
                (#[trigger] chunks[i]).chunk_type,
            ),
    ensures
        spec_validate_stream(s, starts.take(k)) == spec_validate_types(
            chunk_types(chunks).take(k),
        ),
    decreases k,
{
    if k == 0 {
        assert(starts.take(0) =~= Seq::<int>::empty());
        assert(chunk_types(chunks).take(0) =~= Seq::<ChunkType>::empty());
    } else {
        lemma_stream_validation(s, starts, chunks, k - 1);
        assert(starts.take(k).drop_last() =~= starts.take(k - 1));
        assert(chunk_types(chunks).take(k).drop_last() =~= chunk_types(chunks).take(k - 1));
        assert(starts.take(k).last() == starts[k - 1]);
        assert(chunk_types(chunks).take(k).last() == chunks[k - 1].chunk_type);
        let pos = starts[k - 1];
        let ct = chunks[k - 1].chunk_type;
        if spec_validate_stream(s, starts.take(k - 1)) is Some {
            let st = spec_validate_stream(s, starts.take(k - 1)).unwrap();
            match spec_known_name(
                s[pos + 4] as char,
                s[pos + 5] as char,
                s[pos + 6] as char,
                s[pos + 7] as char,
            ) {
                Some(t) => {
                    assert(ct == t);
                },
                None => {
                    assert(ct is Unknown);
                    assert(spec_validate_chunk(st, ct) is None);
                },
            }
        }
    }
}

/// Law: accepting IEND empties the authorized set, so every chunk after
/// IEND, of any type, is rejected.
pub proof fn lemma_nothing_after_iend(state: ValidationState, s2: ValidationState, ct: ChunkType)
    requires
        spec_validate_chunk(state, ChunkType::IEND) == Some(s2),
    ensures
        spec_validate_chunk(s2, ct) is None,
{
    assert(!s2.authorized.spec_contains(ct));
}

/// Once a prefix of the chunk sequence is rejected, the whole sequence is.
proof fn lemma_validate_types_none(types: Seq<ChunkType>, i: int)
    requires
        0 <= i <= types.len(),
        spec_validate_types(types.take(i)) is None,
    ensures
        spec_validate_types(types) is None,
    decreases types.len() - i,
{
    if i == types.len() {
        assert(types.take(i) =~= types);
    } else {
        assert(types.take(i + 1).drop_last() =~= types.take(i));
        lemma_validate_types_none(types, i + 1);
    }
}

} // verus!
