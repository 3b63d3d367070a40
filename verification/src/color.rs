use vstd::prelude::*;

use crate::error::BinImageError;

verus! {

/// The two pixel color models the converter emits: grayscale or RGB, each
/// with a number of bits per channel drawn from {1, 2, 4, 8}.
#[derive(Clone, Copy, Debug, PartialEq, Eq, Structural)]
pub enum ColorType {
    Gray(u8),
    RGB(u8),
}

impl ColorType {
    /// A color type is well formed when its bits per channel is one of the
    /// supported values 1, 2, 4 or 8.
    pub open spec fn wf(self) -> bool {
        match self {
            ColorType::Gray(n) => n == 1 || n == 2 || n == 4 || n == 8,
            ColorType::RGB(n) => n == 1 || n == 2 || n == 4 || n == 8,
        }
    }

    /// Bits of storage one pixel takes: the channel width for grayscale,
    /// three channels' worth for RGB.
    pub open spec fn bits_per_pixel_spec(self) -> int {
        match self {
            ColorType::Gray(n) => n as int,
            ColorType::RGB(n) => 3 * (n as int),
        }
    }

    /// The supported bit-depth codes and their color models. Code 0 stands
    /// for the default and resolves like 24.
    pub open spec fn from_bitdepth_spec(bitdepth: u8) -> Result<ColorType, BinImageError> {
        if bitdepth == 1 {
            Ok(ColorType::Gray(1))
        } else if bitdepth == 2 {
            Ok(ColorType::Gray(2))
        } else if bitdepth == 4 {
            Ok(ColorType::Gray(4))
        } else if bitdepth == 8 {
            Ok(ColorType::Gray(8))
        } else if bitdepth == 12 {
            Ok(ColorType::RGB(4))
        } else if bitdepth == 24 || bitdepth == 0 {
            Ok(ColorType::RGB(8))
        } else {
            Err(BinImageError::UnsupportedBitDepth)
        }
    }

    /// Create a ColorType from a bit-depth code (bits per pixel).
    pub fn from_bitdepth(bitdepth: u8) -> (r: Result<ColorType, BinImageError>)
        ensures
            r == Self::from_bitdepth_spec(bitdepth),
            r matches Ok(c) ==> c.wf(),
    {
        match bitdepth {
            1 => Ok(ColorType::Gray(1)),
            2 => Ok(ColorType::Gray(2)),
            4 => Ok(ColorType::Gray(4)),
            8 => Ok(ColorType::Gray(8)),
            12 => Ok(ColorType::RGB(4)),
            24 | 0 => Ok(ColorType::RGB(8)),
            _ => Err(BinImageError::UnsupportedBitDepth),
        }
    }

    /// Bits of storage one pixel takes, derived from the color model rather
    /// than hard-coded per bit-depth code.
    pub fn bits_per_pixel(&self) -> (r: u32)
        ensures
            r == self.bits_per_pixel_spec(),
    {
        match self {
            ColorType::Gray(n) => *n as u32,
            ColorType::RGB(n) => *n as u32 * 3,
        }
    }
}

/// Law: over the whole table of supported codes {1, 2, 4, 8, 12, 24, 0}, the
/// resolved color model's bits per pixel equals the code itself (with 0, the
/// default, resolving like 24); every other code fails with
/// `UnsupportedBitDepth`.
pub proof fn lemma_bitdepth_table(code: u8)
    ensures
        (code == 1 || code == 2 || code == 4 || code == 8 || code == 12 || code == 24 || code == 0)
            ==> (ColorType::from_bitdepth_spec(code) matches Ok(c) && c.wf()
                && c.bits_per_pixel_spec() == (if code == 0 { 24int } else { code as int })),
        !(code == 1 || code == 2 || code == 4 || code == 8 || code == 12 || code == 24 || code == 0)
            ==> ColorType::from_bitdepth_spec(code)
                == Err::<ColorType, BinImageError>(BinImageError::UnsupportedBitDepth),
{
}

} // verus!
