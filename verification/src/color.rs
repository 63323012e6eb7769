//! Colours of the image.
//!
//! Shading yields a colour whose red, green and blue channels are single-precision numbers,
//! meant to lie between 0 and 1 and free to leave that range when several bounces add up.
//! The image holds one byte per channel. A channel is first multiplied by 255, which is the
//! caller's arithmetic, and the product becomes a byte here: rounded towards zero and held
//! to the range of a byte, so that a channel above 1 shows as full brightness and never
//! wraps around.

use vstd::prelude::*;
use crate::binary32::{byte_of, to_byte};

verus! {

/// A pixel of the image.
#[derive(Clone, Copy, Debug, PartialEq, Eq, Structural)]
pub struct Rgb {
    pub red: u8,
    pub green: u8,
    pub blue: u8,
}

/// What a primary ray collected: the three channels, each multiplied by 255, as binary32
/// bit patterns.
#[derive(Clone, Copy, Debug, PartialEq, Eq, Structural)]
pub struct Sample {
    pub red: u32,
    pub green: u32,
    pub blue: u32,
}

/// The colour of a pixel whose ray reached nothing.
pub open spec fn background() -> Rgb {
    Rgb { red: 0, green: 0, blue: 0 }
}

/// The colour of a pixel: each channel of the sample as a byte, or the background where
/// the ray collected nothing.
pub open spec fn color_of(sample: Option<Sample>) -> Rgb {
    match sample {
        Some(s) => Rgb {
            red: byte_of(s.red) as u8,
            green: byte_of(s.green) as u8,
            blue: byte_of(s.blue) as u8,
        },
        None => background(),
    }
}

impl Rgb {
    /// Black, the background.
    pub fn black() -> (color: Rgb)
        ensures
            color == background(),
    {
        Rgb { red: 0, green: 0, blue: 0 }
    }

    /// The colour that a sample shows as.
    pub fn from_sample(sample: Option<Sample>) -> (color: Rgb)
        ensures
            color == color_of(sample),
    {
        match sample {
            Some(s) => Rgb { red: to_byte(s.red), green: to_byte(s.green), blue: to_byte(s.blue) },
            None => Rgb::black(),
        }
    }
}

} // verus!
