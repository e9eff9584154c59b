//! Display colors as byte triples, and the quantization that produces them.
//!
//! Quantization is the only place where a color is forced into the
//! displayable range. A channel arrives as its intensity scaled by 255 with
//! the fraction dropped, still free to lie outside `0..=255`, and leaves as
//! the nearest byte.

use vstd::prelude::*;

verus! {

/// A pixel of the finished image.
#[derive(Clone, Copy, Debug, PartialEq, Eq, Structural)]
pub struct PixelColor {
    pub red: u8,
    pub green: u8,
    pub blue: u8,
}

/// The value nearest to `scaled` within `0..=255`.
pub open spec fn clamp_to_byte(scaled: int) -> int {
    if scaled < 0 {
        0
    } else if scaled > 255 {
        255
    } else {
        scaled
    }
}

/// Confines one scaled channel to the displayable range: anything below the
/// range becomes 0, anything above it 255, and what lies inside is kept.
pub fn quantize_channel(scaled: i64) -> (byte: u8)
    ensures
        byte == clamp_to_byte(scaled as int),
        scaled < 0 ==> byte == 0,
        scaled > 255 ==> byte == 255,
        0 <= scaled <= 255 ==> byte == scaled,
{
    if scaled < 0 {
        0
    } else if scaled > 255 {
        255
    } else {
        scaled as u8
    }
}

impl PixelColor {
    /// Pure black, the color of the set itself.
    pub open spec fn black_spec() -> PixelColor {
        PixelColor { red: 0, green: 0, blue: 0 }
    }

    /// The pixel that three scaled channels quantize to.
    pub open spec fn quantized(red: int, green: int, blue: int) -> PixelColor {
        PixelColor {
            red: clamp_to_byte(red) as u8,
            green: clamp_to_byte(green) as u8,
            blue: clamp_to_byte(blue) as u8,
        }
    }

    #[verifier::when_used_as_spec(black_spec)]
    pub fn black() -> (color: PixelColor)
        ensures
            color == PixelColor::black_spec(),
    {
        PixelColor { red: 0, green: 0, blue: 0 }
    }

    /// Quantizes three scaled channels, each on its own.
    pub fn from_scaled(red: i64, green: i64, blue: i64) -> (color: PixelColor)
        ensures
            color == PixelColor::quantized(red as int, green as int, blue as int),
    {
        PixelColor {
            red: quantize_channel(red),
            green: quantize_channel(green),
            blue: quantize_channel(blue),
        }
    }

    /// The channels in the order red, green, blue.
    pub fn channels(&self) -> (bytes: [u8; 3])
        ensures
            bytes@ == seq![self.red, self.green, self.blue],
    {
        [self.red, self.green, self.blue]
    }
}

} // verus!
