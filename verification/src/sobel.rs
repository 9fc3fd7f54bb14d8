//! The edge detector: a 3x3 gradient operator over the intensities.

use vstd::prelude::*;
use rayon::iter::{IndexedParallelIterator, ParallelIterator};
use rayon::slice::ParallelSliceMut;
use crate::gray::{GrayView, GrayscaleImage};
use crate::grid::{
    cell_index, lemma_cell_index_in_bounds, lemma_cell_of_index, lemma_index_of_cell,
};
use crate::root::{capped_nearest_root, capped_root};

verus! {

/// What a magnitude image is: its dimensions and its samples in row-major order.
pub struct MagView {
    pub width: nat,
    pub height: nat,
    pub samples: Seq<u8>,
}

impl MagView {
    /// There is exactly one sample for each position of the `width` x `height` grid.
    pub open spec fn wf(self) -> bool {
        self.samples.len() == self.width * self.height
    }

    /// The sample in column `x` of row `y`.
    pub open spec fn sample(self, x: int, y: int) -> u8
        recommends
            0 <= x < self.width,
            0 <= y < self.height,
    {
        self.samples[cell_index(self.width, x, y)]
    }
}

/// The magnitude image that `data` holds when read as `width` x `height` samples.
pub open spec fn magnitude_of(width: u32, height: u32, data: Seq<u8>) -> MagView {
    MagView { width: width as nat, height: height as nat, samples: data }
}

/// An inverted edge-magnitude image: one 8-bit sample per pixel in row-major
/// order, 255 where the source is flat and darker the stronger the edge.
#[derive(Debug, PartialEq, Eq)]
pub struct MagnitudeImage {
    width: u32,
    height: u32,
    data: Vec<u8>,
}

impl View for MagnitudeImage {
    type V = MagView;

    closed spec fn view(&self) -> MagView {
        magnitude_of(self.width, self.height, self.data@)
    }
}

impl Clone for MagnitudeImage {
    fn clone(&self) -> (res: Self)
        ensures
            res@ == self@,
    {
        proof {
            use_type_invariant(self);
        }
        let data = self.data.clone();
        assert(data@ =~= self.data@);
        MagnitudeImage { width: self.width, height: self.height, data }
    }
}

impl MagnitudeImage {
    #[verifier::type_invariant]
    spec fn inv(self) -> bool {
        self.data@.len() == self.width * self.height
    }

    /// Wraps a buffer of samples. The buffer must hold exactly
    /// `width * height` bytes; any other length is refused.
    pub fn from_raw(width: u32, height: u32, data: Vec<u8>) -> (res: Option<MagnitudeImage>)
        ensures
            res is Some <==> data@.len() == width * height,
            res matches Some(img) ==> img@ == magnitude_of(width, height, data@) && img@.wf(),
    {
        assert(width * height <= 0xFFFF_FFFF * 0xFFFF_FFFF) by (nonlinear_arith)
            requires
                width <= 0xFFFF_FFFF,
                height <= 0xFFFF_FFFF,
        ;
        let expected: u128 = (width as u128) * (height as u128);
        if data.len() as u128 == expected {
            Some(MagnitudeImage { width, height, data })
        } else {
            None
        }
    }

    /// The samples of the image, row by row.
    pub fn as_raw(&self) -> (data: &Vec<u8>)
        ensures
            self@.samples == data@,
            self@.wf(),
    {
        proof {
            use_type_invariant(self);
        }
        &self.data
    }

    /// Gives the buffer back: the samples, row by row.
    pub fn into_raw(self) -> (data: Vec<u8>)
        ensures
            self@.samples == data@,
            data@.len() == self@.width * self@.height,
    {
        proof {
            use_type_invariant(&self);
        }
        self.data
    }

    /// The sample in column `x` of row `y`, or nothing outside the image.
    pub fn get_sample(&self, x: u32, y: u32) -> (res: Option<u8>)
        ensures
            res is Some <==> x < self@.width && y < self@.height,
            res matches Some(s) ==> s == self@.sample(x as int, y as int),
    {
        proof {
            use_type_invariant(self);
        }
        if x >= self.width || y >= self.height {
            return None;
        }
        proof {
            lemma_cell_index_in_bounds(self.width as nat, self.height as nat, x as int, y as int);
            assert(0 <= y * self.width + x < self.width * self.height);
            assert(self.data.len() == self.data@.len());
        }
        Some(self.data[(y as usize) * (self.width as usize) + (x as usize)])
    }

    /// The number of columns.
    pub fn width(&self) -> (w: u32)
        ensures
            w == self@.width,
    {
        self.width
    }

    /// The number of rows.
    pub fn height(&self) -> (h: u32)
        ensures
            h == self@.height,
    {
        self.height
    }
}

/// The failure of the edge detector on an image with fewer than three columns
/// or fewer than three rows: no 3x3 neighbourhood fits inside it.
#[derive(Clone, Copy, Debug, PartialEq, Eq, Structural)]
pub struct DimensionError {
    /// The width of the image that was refused.
    pub width: u32,
    /// The height of the image that was refused.
    pub height: u32,
}

/// The horizontal gradient of the 3x3 neighbourhood whose top-left corner is
/// column `i` of row `j`: the right column minus the left column, the middle
/// row counted twice.
pub open spec fn gradient_x(g: GrayView, i: int, j: int) -> int {
    -g.intensity(i, j) - 2 * g.intensity(i, j + 1) - g.intensity(i, j + 2)
        + g.intensity(i + 2, j) + 2 * g.intensity(i + 2, j + 1) + g.intensity(i + 2, j + 2)
}

/// The vertical gradient of the 3x3 neighbourhood whose top-left corner is
/// column `i` of row `j`: the bottom row minus the top row, the middle column
/// counted twice.
pub open spec fn gradient_y(g: GrayView, i: int, j: int) -> int {
    -g.intensity(i, j) - 2 * g.intensity(i + 1, j) - g.intensity(i + 2, j)
        + g.intensity(i, j + 2) + 2 * g.intensity(i + 1, j + 2) + g.intensity(i + 2, j + 2)
}

/// The output sample for a pair of gradients: 255 minus their Euclidean
/// magnitude, which is rounded to the nearest integer and capped at 255.
pub open spec fn inverted_magnitude(gx: int, gy: int) -> u8 {
    (255 - capped_root((gx * gx + gy * gy) as nat)) as u8
}

/// The output sample in column `i` of row `j`.
pub open spec fn edge_sample(g: GrayView, i: int, j: int) -> u8 {
    inverted_magnitude(gradient_x(g, i, j), gradient_y(g, i, j))
}

/// Row `j` of the output.
pub open spec fn edge_row(g: GrayView, j: int) -> Seq<u8> {
    Seq::new((g.width - 2) as nat, |i: int| edge_sample(g, i, j))
}

/// The magnitude image of a grayscale image of at least 3x3 pixels: two
/// samples smaller in each axis, one sample for every 3x3 neighbourhood.
pub open spec fn sobel_view(g: GrayView) -> MagView {
    MagView {
        width: (g.width - 2) as nat,
        height: (g.height - 2) as nat,
        samples: Seq::new(
            ((g.width - 2) * (g.height - 2)) as nat,
            |k: int| edge_sample(g, k % (g.width - 2), k / (g.width - 2)),
        ),
    }
}

/// The sample in column `i` of row `j` of the magnitude image is the
/// inverted magnitude of the 3x3 neighbourhood whose top-left corner is
/// column `i` of row `j` of the grayscale image.
pub proof fn lemma_sobel_sample(g: GrayView, i: int, j: int)
    requires
        0 <= i < g.width - 2,
        0 <= j < g.height - 2,
    ensures
        sobel_view(g).wf(),
        sobel_view(g).sample(i, j) == edge_sample(g, i, j),
{
    let width = (g.width - 2) as nat;
    let height = (g.height - 2) as nat;
    lemma_cell_index_in_bounds(width, height, i, j);
    lemma_index_of_cell(width, i, j);
}

/// On a grayscale image of one intensity both gradients vanish at every
/// neighbourhood, so every sample of the magnitude image is 255.
pub proof fn lemma_uniform_sobel(g: GrayView, v: u8)
    requires
        g.wf(),
        g.width >= 3,
        g.height >= 3,
        forall|k: int| 0 <= k < g.pixels.len() ==> (#[trigger] g.pixels[k]).luma == v,
    ensures
        forall|i: int, j: int|
            #![trigger gradient_x(g, i, j)]
            #![trigger gradient_y(g, i, j)]
            0 <= i < g.width - 2 && 0 <= j < g.height - 2 ==> gradient_x(g, i, j) == 0
                && gradient_y(g, i, j) == 0,
        forall|k: int|
            0 <= k < sobel_view(g).samples.len() ==> #[trigger] sobel_view(g).samples[k] == 255,
{
    assert forall|i: int, j: int| 0 <= i < g.width - 2 && 0 <= j < g.height - 2 implies gradient_x(
        g,
        i,
        j,
    ) == 0 && gradient_y(g, i, j) == 0 by {
        lemma_uniform_neighbourhood(g, v, i, j);
    }
    crate::root::lemma_nearest_root_is(0, 0);
    assert forall|k: int| 0 <= k < sobel_view(g).samples.len() implies #[trigger] sobel_view(
        g,
    ).samples[k] == 255 by {
        lemma_cell_of_index((g.width - 2) as nat, (g.height - 2) as nat, k);
        lemma_uniform_neighbourhood(g, v, k % (g.width - 2), k / (g.width - 2));
    }
}

/// On a grayscale image of one intensity both gradients of a neighbourhood vanish.
proof fn lemma_uniform_neighbourhood(g: GrayView, v: u8, i: int, j: int)
    requires
        g.wf(),
        0 <= i < g.width - 2,
        0 <= j < g.height - 2,
        forall|k: int| 0 <= k < g.pixels.len() ==> (#[trigger] g.pixels[k]).luma == v,
    ensures
        gradient_x(g, i, j) == 0,
        gradient_y(g, i, j) == 0,
{
    assert forall|dx: int, dy: int| 0 <= dx <= 2 && 0 <= dy <= 2 implies #[trigger] g.intensity(
        i + dx,
        j + dy,
    ) == v by {
        lemma_cell_index_in_bounds(g.width, g.height, i + dx, j + dy);
    }
    assert(g.intensity(i, j) == v) by {
        assert(g.intensity(i + 0, j + 0) == v);
    }
    assert(g.intensity(i + 1, j) == v) by {
        assert(g.intensity(i + 1, j + 0) == v);
    }
    assert(g.intensity(i + 2, j) == v) by {
        assert(g.intensity(i + 2, j + 0) == v);
    }
    assert(g.intensity(i, j + 1) == v) by {
        assert(g.intensity(i + 0, j + 1) == v);
    }
    assert(g.intensity(i, j + 2) == v) by {
        assert(g.intensity(i + 0, j + 2) == v);
    }
}

/// The `j`-th run of `size` elements of `s`.
pub open spec fn chunk(s: Seq<u8>, size: int, j: int) -> Seq<u8> {
    s.subrange(j * size, (j + 1) * size)
}

/// The intensity in column `x` of row `y`, widened for signed arithmetic.
fn intensity_at(input: &GrayscaleImage, x: usize, y: usize) -> (v: i32)
    requires
        x < input@.width,
        y < input@.height,
    ensures
        v == input@.intensity(x as int, y as int),
        0 <= v <= 255,
{
    let src = input.as_raw();
    let w: usize = input.width() as usize;
    proof {
        lemma_cell_index_in_bounds(input@.width, input@.height, x as int, y as int);
        assert(0 <= y * w + x < input@.width * input@.height);
        assert(src.len() == src@.len());
    }
    src[2 * (y * w + x)] as i32
}

/// Computes row `j` of the output into `row`.
fn sobel_row(input: &GrayscaleImage, j: usize, row: &mut [u8])
    requires
        input@.width >= 3,
        j + 2 < input@.height,
        old(row)@.len() == input@.width - 2,
    ensures
        final(row)@ == edge_row(input@, j as int),
{
    let columns: u32 = input.width();
    let rows: u32 = input.height();
    let n: usize = columns as usize - 2;
    let mut i: usize = 0;
    while i < n
        invariant
            i <= n,
            n == input@.width - 2,
            input@.width == columns,
            j + 2 < input@.height == rows,
            row@.len() == n,
            forall|c: int| 0 <= c < i ==> row@[c] == edge_sample(input@, c, j as int),
        decreases n - i,
    {
        let v0: i32 = intensity_at(input, i, j);
        let v1: i32 = intensity_at(input, i + 1, j);
        let v2: i32 = intensity_at(input, i + 2, j);
        let v3: i32 = intensity_at(input, i, j + 1);
        let v5: i32 = intensity_at(input, i + 2, j + 1);
        let v6: i32 = intensity_at(input, i, j + 2);
        let v7: i32 = intensity_at(input, i + 1, j + 2);
        let v8: i32 = intensity_at(input, i + 2, j + 2);
        let gx: i32 = -v0 - 2 * v3 - v6 + v2 + 2 * v5 + v8;
        let gy: i32 = -v0 - 2 * v1 - v2 + v6 + 2 * v7 + v8;
        assert(0 <= gx * gx <= 1020 * 1020 && 0 <= gy * gy <= 1020 * 1020) by (nonlinear_arith)
            requires
                -1020 <= gx <= 1020,
                -1020 <= gy <= 1020,
        ;
        let magnitude: u8 = capped_nearest_root((gx * gx + gy * gy) as u32);
        row[i] = 255 - magnitude;
        i += 1;
    }
    assert(row@ =~= edge_row(input@, j as int));
}

/// Fills `out`, read as rows of `width` samples, with the rows of the output,
/// one call of `sobel_row` per row.
///
/// The rows are handed out by rayon: `par_chunks_mut` cuts the buffer into
/// consecutive runs of `width` elements that do not overlap, `enumerate`
/// numbers them from zero in the order in which they lie in the buffer, and
/// `for_each` runs the closure once on each numbered run and returns when all
/// have finished. `par_chunks_mut` panics on a chunk size of zero, which the
/// precondition rules out. With a buffer of `width * rows` elements every run
/// is a full row, so each call meets what `sobel_row` requires and leaves in
/// its run what `sobel_row` ensures.
#[verifier::external_body]
fn fill_rows(out: &mut Vec<u8>, input: &GrayscaleImage, width: usize)
    requires
        input@.width >= 3,
        input@.height >= 3,
        width == input@.width - 2,
        old(out)@.len() == width * (input@.height - 2),
    ensures
        final(out)@.len() == old(out)@.len(),
        forall|j: int|
            0 <= j < input@.height - 2 ==> #[trigger] chunk(final(out)@, width as int, j)
                == edge_row(input@, j),
{
    out.par_chunks_mut(width).enumerate().for_each(|(j, row)| sobel_row(input, j, row));
}

/// Detects edges. For an image of at least 3x3 pixels the result has one
/// sample for each 3x3 neighbourhood of the input, [`edge_sample`] of that
/// neighbourhood; alpha plays no part. A smaller image has no neighbourhood
/// and is refused with its dimensions.
pub fn sobel(input: &GrayscaleImage) -> (res: Result<MagnitudeImage, DimensionError>)
    ensures
        res is Ok <==> input@.width >= 3 && input@.height >= 3,
        res matches Ok(out) ==> out@ == sobel_view(input@) && out@.wf(),
        res matches Ok(out) ==> out@.width == input@.width - 2 && out@.height == input@.height - 2,
        res matches Ok(out) ==> forall|i: int, j: int|
            0 <= i < out@.width && 0 <= j < out@.height ==> #[trigger] out@.sample(i, j)
                == edge_sample(input@, i, j),
        res matches Err(e) ==> e.width == input@.width && e.height == input@.height,
{
    let w: u32 = input.width();
    let h: u32 = input.height();
    if w < 3 || h < 3 {
        return Err(DimensionError { width: w, height: h });
    }
    let width: u32 = w - 2;
    let height: u32 = h - 2;
    let src = input.as_raw();
    assert(0 <= (w - 2) * (h - 2) <= w * h) by (nonlinear_arith)
        requires
            w >= 3,
            h >= 3,
    ;
    assert(2 * (w * h) == src.len());
    let len: usize = (width as usize) * (height as usize);
    let mut data: Vec<u8> = vec![0u8; len];
    fill_rows(&mut data, input, width as usize);
    proof {
        let target = sobel_view(input@).samples;
        assert forall|k: int| 0 <= k < len implies data@[k] == target[k] by {
            lemma_cell_of_index(width as nat, height as nat, k);
            let i = k % (width as int);
            let j = k / (width as int);
            assert(chunk(data@, width as int, j) == edge_row(input@, j));
            assert(0 <= j * width && (j + 1) * width <= len && (j + 1) * width == j * width
                + width) by (nonlinear_arith)
                requires
                    0 <= j < height,
                    len == width * height,
                    width > 0,
            ;
            assert(chunk(data@, width as int, j)[i] == data@[j * width + i]);
        }
        assert(data@ =~= target);
        assert forall|i: int, j: int| 0 <= i < width && 0 <= j < height implies #[trigger] sobel_view(
            input@,
        ).sample(i, j) == edge_sample(input@, i, j) by {
            lemma_sobel_sample(input@, i, j);
        }
    }
    Ok(MagnitudeImage { width, height, data })
}

} // verus!
