//! PNG color types and the number of channels each carries.

use vstd::prelude::*;

verus! {

/// The five color types a PNG header may declare.
#[derive(Debug, Copy, Clone, PartialEq, Eq, Structural)]
pub enum ColorType {
    Gray,
    RGB,
    PLTE,
    GrayAlpha,
    RGBA,
}

impl ColorType {
    /// The numeric color-type codes the PNG header uses.
    pub open spec fn spec_from_code(code: u8) -> Option<ColorType> {
        match code {
            0u8 => Some(ColorType::Gray),
            2u8 => Some(ColorType::RGB),
            3u8 => Some(ColorType::PLTE),
            4u8 => Some(ColorType::GrayAlpha),
            6u8 => Some(ColorType::RGBA),
            _ => None,
        }
    }

    /// Decodes the numeric color-type code of the IHDR chunk.
    pub fn from_code(code: u8) -> (r: Option<ColorType>)
        ensures
            r == ColorType::spec_from_code(code),
    {
        match code {
            0 => Some(ColorType::Gray),
            2 => Some(ColorType::RGB),
            3 => Some(ColorType::PLTE),
            4 => Some(ColorType::GrayAlpha),
            6 => Some(ColorType::RGBA),
            _ => None,
        }
    }

    /// How many channels a pixel of this color type has; palette pixels are
    /// indices, which this decoder does not reconstruct.
    pub open spec fn spec_channels(self) -> Option<nat> {
        match self {
            ColorType::Gray => Some(1nat),
            ColorType::GrayAlpha => Some(2nat),
            ColorType::RGB => Some(3nat),
            ColorType::RGBA => Some(4nat),
            ColorType::PLTE => None,
        }
    }

    /// The channel count, for the color types whose pixels this decoder
    /// reconstructs.
    pub fn channels(self) -> (r: Option<u32>)
        ensures
            match r {
                Some(n) => Some(n as nat) == self.spec_channels(),
                None => self.spec_channels() is None,
            },
    {
        match self {
            ColorType::Gray => Some(1),
            ColorType::GrayAlpha => Some(2),
            ColorType::RGB => Some(3),
            ColorType::RGBA => Some(4),
            ColorType::PLTE => None,
        }
    }
}

} // verus!
