//! The colour bands: from an iteration count to an RGBA quadruple.
//!
//! Each channel is computed on its own and reduced modulo 256, so that the
//! colours repeat in bands as the count grows instead of saturating.
use vstd::prelude::*;
use crate::variant::Variant;

verus! {

/// One pixel's colour: four 8-bit channels.
#[derive(Clone, Copy, Debug, PartialEq, Eq, Structural)]
pub struct Rgba {
    pub red: u8,
    pub green: u8,
    pub blue: u8,
    pub alpha: u8,
}

/// The colour of a point that never escaped.
pub open spec fn opaque_black() -> Rgba {
    Rgba { red: 0, green: 0, blue: 0, alpha: 255 }
}

/// Julia: a quarter of the count, half of it, and the count itself.
pub open spec fn julia_color(count: nat) -> Rgba {
    Rgba {
        red: ((count / 4) % 256) as u8,
        green: ((count / 2) % 256) as u8,
        blue: (count % 256) as u8,
        alpha: 255,
    }
}

/// Mandelbrot: black for a count that reached the cutoff, else three bands
/// with periods 8, 256 (in steps of 3) and 256.
pub open spec fn mandelbrot_color(count: nat, cutoff: nat) -> Rgba {
    if count == cutoff {
        opaque_black()
    } else {
        Rgba {
            red: ((count % 8) * 32) as u8,
            green: ((count * 3) % 256) as u8,
            blue: (count % 256) as u8,
            alpha: 255,
        }
    }
}

/// Burning Ship: black for a count that reached the cutoff, else three bands
/// with periods 4, 8 and 16.
pub open spec fn burning_ship_color(count: nat, cutoff: nat) -> Rgba {
    if count == cutoff {
        opaque_black()
    } else {
        Rgba {
            red: ((count % 4) * 64) as u8,
            green: ((count % 8) * 32) as u8,
            blue: ((count % 16) * 8) as u8,
            alpha: 255,
        }
    }
}

/// The colour that a family gives to an iteration count under a cutoff.
pub open spec fn color_of(variant: Variant, count: nat, cutoff: nat) -> Rgba {
    match variant {
        Variant::Julia => julia_color(count),
        Variant::Mandelbrot => mandelbrot_color(count, cutoff),
        Variant::BurningShip => burning_ship_color(count, cutoff),
    }
}

impl Rgba {
    /// The four channels in the order in which they are stored: red, green,
    /// blue, alpha.
    pub open spec fn channels(self) -> Seq<u8> {
        seq![self.red, self.green, self.blue, self.alpha]
    }

    /// The four channels as stored bytes.
    pub fn to_bytes(self) -> (bytes: [u8; 4])
        ensures
            bytes@ == self.channels(),
    {
        let bytes: [u8; 4] = [self.red, self.green, self.blue, self.alpha];
        assert(bytes@ =~= self.channels());
        bytes
    }
}

/// Maps an iteration count to its colour. Every colour is opaque, and for
/// Mandelbrot and Burning Ship a count equal to the cutoff is black.
pub fn color(variant: Variant, count: u32, cutoff: u32) -> (rgba: Rgba)
    ensures
        rgba == color_of(variant, count as nat, cutoff as nat),
        rgba.alpha == 255,
        variant != Variant::Julia && count == cutoff ==> rgba == opaque_black(),
{
    match variant {
        Variant::Julia => Rgba {
            red: ((count / 4) % 256) as u8,
            green: ((count / 2) % 256) as u8,
            blue: (count % 256) as u8,
            alpha: 255,
        },
        Variant::Mandelbrot => {
            if count == cutoff {
                Rgba { red: 0, green: 0, blue: 0, alpha: 255 }
            } else {
                let tripled: u64 = count as u64 * 3;
                Rgba {
                    red: ((count % 8) * 32) as u8,
                    green: (tripled % 256) as u8,
                    blue: (count % 256) as u8,
                    alpha: 255,
                }
            }
        },
        Variant::BurningShip => {
            if count == cutoff {
                Rgba { red: 0, green: 0, blue: 0, alpha: 255 }
            } else {
                Rgba {
                    red: ((count % 4) * 64) as u8,
                    green: ((count % 8) * 32) as u8,
                    blue: ((count % 16) * 8) as u8,
                    alpha: 255,
                }
            }
        },
    }
}

} // verus!
