//! Decoded four-channel raster images.

use vstd::prelude::*;
use crate::grid::{cell_index, lemma_cell_index_in_bounds};

verus! {

/// One pixel of a raster image: red, green, blue and alpha samples.
#[derive(Clone, Copy, Debug, PartialEq, Eq, Structural)]
pub struct Rgba {
    pub r: u8,
    pub g: u8,
    pub b: u8,
    pub a: u8,
}

/// What a raster image is: its dimensions and its pixels in row-major order.
pub struct RasterView {
    pub width: nat,
    pub height: nat,
    pub pixels: Seq<Rgba>,
}

impl RasterView {
    /// There is exactly one pixel for each position of the `width` x `height` grid.
    pub open spec fn wf(self) -> bool {
        self.pixels.len() == self.width * self.height
    }

    /// The pixel in column `x` of row `y`.
    pub open spec fn pixel(self, x: int, y: int) -> Rgba
        recommends
            0 <= x < self.width,
            0 <= y < self.height,
    {
        self.pixels[cell_index(self.width, x, y)]
    }
}

/// The pixels that a buffer of interleaved R, G, B, A bytes holds.
pub open spec fn rgba_pixels(data: Seq<u8>) -> Seq<Rgba> {
    Seq::new(
        data.len() / 4,
        |k: int| Rgba { r: data[4 * k], g: data[4 * k + 1], b: data[4 * k + 2], a: data[4 * k + 3] },
    )
}

/// The raster image that `data` holds when read as `width` x `height` RGBA pixels.
pub open spec fn raster_of(width: u32, height: u32, data: Seq<u8>) -> RasterView {
    RasterView { width: width as nat, height: height as nat, pixels: rgba_pixels(data) }
}

/// A decoded raster image: `width * height` pixels of four 8-bit samples each,
/// stored interleaved in row-major order.
#[derive(Debug, PartialEq, Eq)]
pub struct RasterImage {
    width: u32,
    height: u32,
    data: Vec<u8>,
}

impl View for RasterImage {
    type V = RasterView;

    closed spec fn view(&self) -> RasterView {
        raster_of(self.width, self.height, self.data@)
    }
}

impl Clone for RasterImage {
    fn clone(&self) -> (res: Self)
        ensures
            res@ == self@,
    {
        proof {
            use_type_invariant(self);
        }
        let data = self.data.clone();
        assert(data@ =~= self.data@);
        RasterImage { width: self.width, height: self.height, data }
    }
}

impl RasterImage {
    #[verifier::type_invariant]
    spec fn inv(self) -> bool {
        self.data@.len() == 4 * (self.width * self.height)
    }

    /// Wraps a buffer of interleaved RGBA bytes. The buffer must hold exactly
    /// `4 * width * height` bytes; any other length is refused.
    pub fn from_raw(width: u32, height: u32, data: Vec<u8>) -> (res: Option<RasterImage>)
        ensures
            res is Some <==> data@.len() == 4 * (width * height),
            res matches Some(img) ==> img@ == raster_of(width, height, data@) && img@.wf(),
    {
        assert(width * height <= 0xFFFF_FFFF * 0xFFFF_FFFF) by (nonlinear_arith)
            requires
                width <= 0xFFFF_FFFF,
                height <= 0xFFFF_FFFF,
        ;
        let expected: u128 = 4 * ((width as u128) * (height as u128));
        if data.len() as u128 == expected {
            Some(RasterImage { width, height, data })
        } else {
            None
        }
    }

    /// The bytes of the image: R, G, B, A of each pixel, row by row.
    pub fn as_raw(&self) -> (data: &Vec<u8>)
        ensures
            self@.pixels == rgba_pixels(data@),
            data@.len() == 4 * (self@.width * self@.height),
            self@.wf(),
    {
        proof {
            use_type_invariant(self);
        }
        &self.data
    }

    /// Gives the buffer back: R, G, B, A of each pixel, row by row.
    pub fn into_raw(self) -> (data: Vec<u8>)
        ensures
            self@.pixels == rgba_pixels(data@),
            data@.len() == 4 * (self@.width * self@.height),
    {
        proof {
            use_type_invariant(&self);
        }
        self.data
    }

    /// The pixel in column `x` of row `y`, or nothing outside the image.
    pub fn get_pixel(&self, x: u32, y: u32) -> (res: Option<Rgba>)
        ensures
            res is Some <==> x < self@.width && y < self@.height,
            res matches Some(p) ==> p == self@.pixel(x as int, y as int),
    {
        proof {
            use_type_invariant(self);
        }
        if x >= self.width || y >= self.height {
            return None;
        }
        proof {
            lemma_cell_index_in_bounds(self.width as nat, self.height as nat, x as int, y as int);
            assert(0 <= y * self.width + x < self.width * self.height);
            assert(self.data.len() == self.data@.len());
        }
        let k: usize = 4 * ((y as usize) * (self.width as usize) + (x as usize));
        Some(Rgba { r: self.data[k], g: self.data[k + 1], b: self.data[k + 2], a: self.data[k + 3] })
    }

    /// The number of columns.
    pub fn width(&self) -> (w: u32)
        ensures
            w == self@.width,
    {
        self.width
    }

    /// The number of rows.
    pub fn height(&self) -> (h: u32)
        ensures
            h == self@.height,
    {
        self.height
    }
}

} // verus!
