//! An image in memory: a grid of colours.

use crate::color::Rgb;
use vstd::prelude::*;

verus! {

/// The colours that a buffer of channel values holds, three values to a
/// colour: red, green, blue.
pub open spec fn pixels_of(raw: Seq<u8>) -> Seq<Rgb> {
    Seq::new(
        raw.len() / 3,
        |i: int| Rgb { r: raw[3 * i], g: raw[3 * i + 1], b: raw[3 * i + 2] },
    )
}

/// An image of `width` by `height` pixels, stored row by row from the top,
/// each row from the left.
pub struct PixelGrid {
    width: u32,
    height: u32,
    data: Vec<u8>,
}

impl PixelGrid {
    #[verifier::type_invariant]
    spec fn well_formed(self) -> bool {
        self.data@.len() == 3 * self.width * self.height
    }

    pub closed spec fn spec_width(self) -> nat {
        self.width as nat
    }

    pub closed spec fn spec_height(self) -> nat {
        self.height as nat
    }

    /// The channel values, three to a pixel.
    pub closed spec fn raw(self) -> Seq<u8> {
        self.data@
    }

    /// The pixels in row-major order.
    pub open spec fn pixels(self) -> Seq<Rgb> {
        pixels_of(self.raw())
    }

    /// An image over a buffer of channel values, if the buffer has exactly
    /// three values for each pixel.
    pub fn from_raw(width: u32, height: u32, data: Vec<u8>) -> (grid: Option<PixelGrid>)
        ensures
            grid is Some <==> data@.len() == 3 * width * height,
            grid matches Some(g) ==> {
                &&& g.spec_width() == width
                &&& g.spec_height() == height
                &&& g.raw() == data@
                &&& g.pixels().len() == width * height
            },
    {
        let w = width as u128;
        let h = height as u128;
        assert(w * h <= 0xFFFF_FFFF * 0xFFFF_FFFF) by (nonlinear_arith)
            requires
                w <= 0xFFFF_FFFF,
                h <= 0xFFFF_FFFF,
        ;
        assert(3 * width * height == 3 * (w * h)) by (nonlinear_arith)
            requires
                w == width,
                h == height,
        ;
        assert(3 * (w * h) == data@.len() ==> data@.len() / 3 == width * height)
            by (nonlinear_arith)
            requires
                w == width,
                h == height,
        ;
        if 3 * (w * h) == data.len() as u128 {
            Some(PixelGrid { width, height, data })
        } else {
            None
        }
    }

    pub fn width(&self) -> (w: u32)
        ensures
            w == self.spec_width(),
    {
        self.width
    }

    pub fn height(&self) -> (h: u32)
        ensures
            h == self.spec_height(),
    {
        self.height
    }

    /// The number of pixels.
    pub fn len(&self) -> (n: usize)
        ensures
            n == self.pixels().len(),
            n == self.spec_width() * self.spec_height(),
            self.raw().len() == 3 * n,
    {
        proof {
            use_type_invariant(self);
            assert(3 * self.width * self.height == 3 * (self.width * self.height))
                by (nonlinear_arith);
        }
        self.data.len() / 3
    }

    /// The pixel at place `i`, counted row by row.
    pub fn pixel_at(&self, i: usize) -> (color: Rgb)
        requires
            i < self.pixels().len(),
        ensures
            color == self.pixels()[i as int],
    {
        proof {
            use_type_invariant(self);
            assert(self.pixels().len() == self.data@.len() / 3);
        }
        let n: usize = self.data.len();
        assert(i < n / 3);
        assert(3 * i + 2 < n);
        Rgb { r: self.data[3 * i], g: self.data[3 * i + 1], b: self.data[3 * i + 2] }
    }

    /// The channel values, three to a pixel.
    pub fn as_raw(&self) -> (data: &Vec<u8>)
        ensures
            data@ == self.raw(),
            data@.len() == 3 * self.spec_width() * self.spec_height(),
    {
        proof {
            use_type_invariant(self);
        }
        &self.data
    }
}

} // verus!
