//! The grayscale converter: RGBA pixels to intensity and alpha.

use vstd::prelude::*;
use crate::grid::{cell_index, lemma_cell_index_in_bounds};
use crate::raster::{RasterImage, RasterView, Rgba};

verus! {

/// One pixel of a grayscale image: intensity and alpha.
#[derive(Clone, Copy, Debug, PartialEq, Eq, Structural)]
pub struct LumaA {
    pub luma: u8,
    pub alpha: u8,
}

/// What a grayscale image is: its dimensions and its pixels in row-major order.
pub struct GrayView {
    pub width: nat,
    pub height: nat,
    pub pixels: Seq<LumaA>,
}

impl GrayView {
    /// There is exactly one pixel for each position of the `width` x `height` grid.
    pub open spec fn wf(self) -> bool {
        self.pixels.len() == self.width * self.height
    }

    /// The pixel in column `x` of row `y`.
    pub open spec fn pixel(self, x: int, y: int) -> LumaA
        recommends
            0 <= x < self.width,
            0 <= y < self.height,
    {
        self.pixels[cell_index(self.width, x, y)]
    }

    /// The intensity in column `x` of row `y`.
    pub open spec fn intensity(self, x: int, y: int) -> int
        recommends
            0 <= x < self.width,
            0 <= y < self.height,
    {
        self.pixel(x, y).luma as int
    }
}

/// The intensity of a colour: `floor(0.2 R + 0.5 G + 0.1 B)`, written over
/// tenths so that it stays in the integers. The weights sum to 0.8, so the
/// result never exceeds 204.
pub open spec fn luma(r: u8, g: u8, b: u8) -> u8 {
    ((2 * r + 5 * g + b) / 10) as u8
}

/// The grayscale pixel of a colour pixel: its intensity, and its alpha unchanged.
pub open spec fn gray_pixel(p: Rgba) -> LumaA {
    LumaA { luma: luma(p.r, p.g, p.b), alpha: p.a }
}

/// The grayscale image of a raster image: the same grid, each pixel converted by itself.
pub open spec fn gray_view(r: RasterView) -> GrayView {
    GrayView {
        width: r.width,
        height: r.height,
        pixels: Seq::new(r.pixels.len(), |k: int| gray_pixel(r.pixels[k])),
    }
}

/// The pixels that a buffer of interleaved intensity and alpha bytes holds.
pub open spec fn luma_alpha_pixels(data: Seq<u8>) -> Seq<LumaA> {
    Seq::new(data.len() / 2, |k: int| LumaA { luma: data[2 * k], alpha: data[2 * k + 1] })
}

/// The grayscale image that `data` holds when read as `width` x `height`
/// pixels of intensity and alpha.
pub open spec fn gray_of(width: u32, height: u32, data: Seq<u8>) -> GrayView {
    GrayView { width: width as nat, height: height as nat, pixels: luma_alpha_pixels(data) }
}

/// A grayscale image with alpha: `width * height` pixels of two 8-bit samples
/// each, stored interleaved in row-major order.
#[derive(Debug, PartialEq, Eq)]
pub struct GrayscaleImage {
    width: u32,
    height: u32,
    data: Vec<u8>,
}

impl View for GrayscaleImage {
    type V = GrayView;

    closed spec fn view(&self) -> GrayView {
        gray_of(self.width, self.height, self.data@)
    }
}

impl Clone for GrayscaleImage {
    fn clone(&self) -> (res: Self)
        ensures
            res@ == self@,
    {
        proof {
            use_type_invariant(self);
        }
        let data = self.data.clone();
        assert(data@ =~= self.data@);
        GrayscaleImage { width: self.width, height: self.height, data }
    }
}

impl GrayscaleImage {
    #[verifier::type_invariant]
    spec fn inv(self) -> bool {
        self.data@.len() == 2 * (self.width * self.height)
    }

    /// Wraps a buffer of interleaved intensity and alpha bytes. The buffer must
    /// hold exactly `2 * width * height` bytes; any other length is refused.
    pub fn from_raw(width: u32, height: u32, data: Vec<u8>) -> (res: Option<GrayscaleImage>)
        ensures
            res is Some <==> data@.len() == 2 * (width * height),
            res matches Some(img) ==> img@ == gray_of(width, height, data@) && img@.wf(),
    {
        assert(width * height <= 0xFFFF_FFFF * 0xFFFF_FFFF) by (nonlinear_arith)
            requires
                width <= 0xFFFF_FFFF,
                height <= 0xFFFF_FFFF,
        ;
        let expected: u128 = 2 * ((width as u128) * (height as u128));
        if data.len() as u128 == expected {
            Some(GrayscaleImage { width, height, data })
        } else {
            None
        }
    }

    /// The bytes of the image: intensity and alpha of each pixel, row by row.
    pub fn as_raw(&self) -> (data: &Vec<u8>)
        ensures
            self@.pixels == luma_alpha_pixels(data@),
            data@.len() == 2 * (self@.width * self@.height),
            self@.wf(),
    {
        proof {
            use_type_invariant(self);
        }
        &self.data
    }

    /// Gives the buffer back: intensity and alpha of each pixel, row by row.
    pub fn into_raw(self) -> (data: Vec<u8>)
        ensures
            self@.pixels == luma_alpha_pixels(data@),
            data@.len() == 2 * (self@.width * self@.height),
    {
        proof {
            use_type_invariant(&self);
        }
        self.data
    }

    /// The pixel in column `x` of row `y`, or nothing outside the image.
    pub fn get_pixel(&self, x: u32, y: u32) -> (res: Option<LumaA>)
        ensures
            res is Some <==> x < self@.width && y < self@.height,
            res matches Some(p) ==> p == self@.pixel(x as int, y as int),
    {
        proof {
            use_type_invariant(self);
        }
        if x >= self.width || y >= self.height {
            return None;
        }
        proof {
            lemma_cell_index_in_bounds(self.width as nat, self.height as nat, x as int, y as int);
            assert(0 <= y * self.width + x < self.width * self.height);
            assert(self.data.len() == self.data@.len());
        }
        let k: usize = 2 * ((y as usize) * (self.width as usize) + (x as usize));
        Some(LumaA { luma: self.data[k], alpha: self.data[k + 1] })
    }

    /// The number of columns.
    pub fn width(&self) -> (w: u32)
        ensures
            w == self@.width,
    {
        self.width
    }

    /// The number of rows.
    pub fn height(&self) -> (h: u32)
        ensures
            h == self@.height,
    {
        self.height
    }
}

/// The grayscale image has the size of the raster image, and at every
/// position the alpha of the raster image, unchanged, beside the intensity of
/// the colour there.
pub proof fn lemma_gray_keeps_size_and_alpha(r: RasterView, x: int, y: int)
    requires
        r.wf(),
        0 <= x < r.width,
        0 <= y < r.height,
    ensures
        gray_view(r).wf(),
        gray_view(r).width == r.width,
        gray_view(r).height == r.height,
        gray_view(r).pixel(x, y).alpha == r.pixel(x, y).a,
        gray_view(r).pixel(x, y).luma == luma(r.pixel(x, y).r, r.pixel(x, y).g, r.pixel(x, y).b),
{
    lemma_cell_index_in_bounds(r.width, r.height, x, y);
}

/// A raster image of one colour has a grayscale image of one intensity and alpha.
pub proof fn lemma_uniform_gray(r: RasterView, c: Rgba)
    requires
        forall|k: int| 0 <= k < r.pixels.len() ==> r.pixels[k] == c,
    ensures
        forall|k: int|
            0 <= k < gray_view(r).pixels.len() ==> #[trigger] gray_view(r).pixels[k] == gray_pixel(
                c,
            ),
{
}

/// The intensity of one colour, computed in 16 bits.
pub fn luma_of(r: u8, g: u8, b: u8) -> (l: u8)
    ensures
        l == luma(r, g, b),
{
    let tenths: u16 = 2 * (r as u16) + 5 * (g as u16) + (b as u16);
    (tenths / 10) as u8
}

/// Converts a raster image to grayscale. Every output pixel depends on the
/// input pixel at the same position and on nothing else: its intensity is
/// [`luma`] of the colour, its alpha is the colour's alpha.
pub fn gray(img: &RasterImage) -> (out: GrayscaleImage)
    ensures
        out@ == gray_view(img@),
        out@.wf(),
        out@.width == img@.width,
        out@.height == img@.height,
        forall|k: int| 0 <= k < img@.pixels.len() ==> (#[trigger] out@.pixels[k]).alpha == img@.pixels[k].a,
{
    let src = img.as_raw();
    let width: u32 = img.width();
    let height: u32 = img.height();
    let n: usize = src.len() / 4;
    let mut data: Vec<u8> = Vec::new();
    let mut k: usize = 0;
    while k < n
        invariant
            k <= n,
            src@.len() == 4 * n <= usize::MAX,
            data@.len() == 2 * k,
            luma_alpha_pixels(data@) == gray_view(img@).pixels.take(k as int),
            img@.pixels == crate::raster::rgba_pixels(src@),
        decreases n - k,
    {
        let l: u8 = luma_of(src[4 * k], src[4 * k + 1], src[4 * k + 2]);
        let a: u8 = src[4 * k + 3];
        let ghost before = data@;
        data.push(l);
        data.push(a);
        k += 1;
        assert(luma_alpha_pixels(data@) =~= gray_view(img@).pixels.take(k as int)) by {
            assert forall|j: int| 0 <= j < k implies luma_alpha_pixels(data@)[j] == gray_view(
                img@,
            ).pixels[j] by {
                if j < k - 1 {
                    assert(luma_alpha_pixels(before)[j] == gray_view(img@).pixels.take(k - 1)[j]);
                }
            }
        }
    }
    assert(luma_alpha_pixels(data@) =~= gray_view(img@).pixels);
    GrayscaleImage { width, height, data }
}

} // verus!
