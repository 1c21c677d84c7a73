//! Colours and the distance between them.

use vstd::prelude::*;

verus! {

/// A colour: red, green and blue, eight bits each.
#[derive(Clone, Copy, Debug, PartialEq, Eq, Structural, Hash)]
pub struct Rgb {
    pub r: u8,
    pub g: u8,
    pub b: u8,
}

/// The absolute difference of two channel values.
pub open spec fn channel_gap(a: u8, b: u8) -> nat {
    if a >= b {
        (a - b) as nat
    } else {
        (b - a) as nat
    }
}

/// The distance between two colours: the sum of the absolute differences of
/// their channels.
pub open spec fn distance(a: Rgb, b: Rgb) -> nat {
    channel_gap(a.r, b.r) + channel_gap(a.g, b.g) + channel_gap(a.b, b.b)
}

impl Rgb {
    pub fn new(r: u8, g: u8, b: u8) -> (color: Rgb)
        ensures
            color == (Rgb { r, g, b }),
    {
        Rgb { r, g, b }
    }

    /// The colour as one number: red in the highest place, blue in the lowest.
    pub open spec fn spec_code(self) -> nat {
        (self.r * 65536 + self.g * 256 + self.b) as nat
    }

    /// The colour that a number stands for: blue in its lowest eight bits,
    /// green in the next eight, red in the eight after those.
    pub open spec fn spec_from_code(code: nat) -> Rgb {
        Rgb {
            r: ((code / 65536) % 256) as u8,
            g: ((code / 256) % 256) as u8,
            b: (code % 256) as u8,
        }
    }

    pub fn code(self) -> (code: u32)
        ensures
            code == self.spec_code(),
            code < 0x100_0000,
    {
        self.r as u32 * 65536 + self.g as u32 * 256 + self.b as u32
    }

    pub fn from_code(code: u32) -> (color: Rgb)
        ensures
            color == Rgb::spec_from_code(code as nat),
            code < 0x100_0000 ==> color.spec_code() == code,
    {
        Rgb {
            r: ((code / 65536) % 256) as u8,
            g: ((code / 256) % 256) as u8,
            b: (code % 256) as u8,
        }
    }

    /// A colour and its number stand for each other.
    pub proof fn code_round_trip(self)
        ensures
            self.spec_code() < 0x100_0000,
            Rgb::spec_from_code(self.spec_code()) == self,
    {
    }

    /// Different colours have different numbers.
    pub proof fn code_injective(a: Rgb, b: Rgb)
        ensures
            a.spec_code() == b.spec_code() <==> a == b,
    {
        a.code_round_trip();
        b.code_round_trip();
    }
}

fn gap(a: u8, b: u8) -> (d: i16)
    ensures
        d == channel_gap(a, b),
{
    let d: i16 = a as i16 - b as i16;
    if d < 0 {
        -d
    } else {
        d
    }
}

/// How far apart two colours are.
pub fn get_pixel_comparison(first: &Rgb, second: &Rgb) -> (d: usize)
    ensures
        d == distance(*first, *second),
        d <= 765,
{
    (gap(first.r, second.r) + gap(first.g, second.g) + gap(first.b, second.b)) as usize
}

} // verus!
