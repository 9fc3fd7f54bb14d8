//! The vectorizer: one unit square for every edge sample.

use vstd::prelude::*;
use crate::grid::{cell_index, lemma_cell_index_in_bounds, lemma_index_of_cell};
use crate::pathdata::{
    decoded, lemma_path_data_round_trip, path_data, unit_square_at, unit_square_data,
};
use crate::sobel::{MagView, MagnitudeImage};

verus! {

/// Samples strictly below this intensity count as edges.
pub const THRESHOLD: u8 = 100;

/// What a path primitive is: where its square is anchored, its fill colour
/// and its geometry string.
pub struct PathView {
    pub x: nat,
    pub y: nat,
    pub fill: Seq<char>,
    pub d: Seq<char>,
}

/// The black unit square whose top-left corner is `(x, y)`.
pub open spec fn unit_square(x: nat, y: nat) -> PathView {
    PathView { x, y, fill: "black"@, d: path_data(x, y) }
}

/// One shape of a vector document.
#[derive(Debug, PartialEq, Eq)]
pub struct PathPrimitive {
    /// The column of the pixel that the shape covers.
    pub x: u32,
    /// The row of the pixel that the shape covers.
    pub y: u32,
    /// The fill colour.
    pub fill: String,
    /// The geometry, in path syntax.
    pub d: String,
}

impl View for PathPrimitive {
    type V = PathView;

    open spec fn view(&self) -> PathView {
        PathView { x: self.x as nat, y: self.y as nat, fill: self.fill@, d: self.d@ }
    }
}

impl Clone for PathPrimitive {
    fn clone(&self) -> (res: Self)
        ensures
            res == *self,
    {
        PathPrimitive { x: self.x, y: self.y, fill: self.fill.clone(), d: self.d.clone() }
    }
}

impl PathPrimitive {
    /// The black unit square whose top-left corner is `(x, y)`.
    pub fn unit_square(x: u32, y: u32) -> (p: PathPrimitive)
        ensures
            p@ == unit_square(x as nat, y as nat),
    {
        PathPrimitive { x, y, fill: String::from_str("black"), d: unit_square_data(x, y) }
    }
}

/// What a vector document is: the size of its canvas and its shapes in the
/// order in which they were added.
pub struct DocumentView {
    pub width: nat,
    pub height: nat,
    pub paths: Seq<PathView>,
}

/// Every one of `paths` is a black unit square that covers one pixel of a
/// `width` x `height` canvas.
pub open spec fn squares_on_canvas(paths: Seq<PathView>, width: nat, height: nat) -> bool {
    forall|k: int|
        0 <= k < paths.len() ==> {
            let p = #[trigger] paths[k];
            p == unit_square(p.x, p.y) && p.x < width && p.y < height
        }
}

impl DocumentView {
    /// Every shape is a black unit square that covers one pixel of the canvas.
    pub open spec fn wf(self) -> bool {
        squares_on_canvas(self.paths, self.width, self.height)
    }
}

/// Every shape of a document reads back as the unit square that covers its pixel.
pub proof fn lemma_paths_decode(doc: DocumentView, k: int)
    requires
        doc.wf(),
        doc.width <= u32::MAX,
        doc.height <= u32::MAX,
        0 <= k < doc.paths.len(),
    ensures
        decoded(doc.paths[k].d) == Some(
            unit_square_at(doc.paths[k].x as u32, doc.paths[k].y as u32),
        ),
{
    let p = doc.paths[k];
    lemma_path_data_round_trip(p.x as u32, p.y as u32);
}

/// What each of the shapes is.
pub open spec fn path_views(paths: Seq<PathPrimitive>) -> Seq<PathView> {
    paths.map_values(|p: PathPrimitive| p@)
}

/// A vector document: a canvas and an ordered sequence of shapes on it.
#[derive(Debug, PartialEq, Eq)]
pub struct VectorDocument {
    width: u32,
    height: u32,
    paths: Vec<PathPrimitive>,
}

impl View for VectorDocument {
    type V = DocumentView;

    closed spec fn view(&self) -> DocumentView {
        DocumentView {
            width: self.width as nat,
            height: self.height as nat,
            paths: path_views(self.paths@),
        }
    }
}

impl Clone for VectorDocument {
    fn clone(&self) -> (res: Self)
        ensures
            res@ == self@,
    {
        proof {
            use_type_invariant(self);
        }
        let mut paths: Vec<PathPrimitive> = Vec::new();
        let mut k: usize = 0;
        while k < self.paths.len()
            invariant
                k <= self.paths@.len(),
                paths@ == self.paths@.take(k as int),
            decreases self.paths@.len() - k,
        {
            paths.push(self.paths[k].clone());
            k += 1;
            assert(paths@ =~= self.paths@.take(k as int));
        }
        assert(paths@ =~= self.paths@);
        VectorDocument { width: self.width, height: self.height, paths }
    }
}

impl VectorDocument {
    #[verifier::type_invariant]
    spec fn inv(self) -> bool {
        self@.wf()
    }

    /// The width of the canvas.
    pub fn width(&self) -> (w: u32)
        ensures
            w == self@.width,
    {
        self.width
    }

    /// The height of the canvas.
    pub fn height(&self) -> (h: u32)
        ensures
            h == self@.height,
    {
        self.height
    }

    /// The shapes, in the order in which they were added.
    pub fn paths(&self) -> (paths: &Vec<PathPrimitive>)
        ensures
            path_views(paths@) == self@.paths,
            self@.wf(),
    {
        proof {
            use_type_invariant(self);
        }
        &self.paths
    }
}

/// Whether a sample counts as an edge.
pub open spec fn is_edge(sample: u8) -> bool {
    sample < THRESHOLD
}

/// The first `n` positions of a buffer, ascending.
pub open spec fn positions(n: nat) -> Seq<int> {
    Seq::new(n, |k: int| k)
}

/// The test for the sample at a position to be an edge.
pub open spec fn edge_at(m: MagView) -> spec_fn(int) -> bool {
    |k: int| is_edge(m.samples[k])
}

/// The positions of the edge samples among the first `n` samples, ascending:
/// the order of a scan row by row, and from left to right in each row.
pub open spec fn edge_indices_upto(m: MagView, n: nat) -> Seq<int> {
    positions(n).filter(edge_at(m))
}

/// The shape for the sample at position `k` of the buffer.
pub open spec fn square_at(m: MagView, k: int) -> PathView {
    unit_square((k % (m.width as int)) as nat, (k / (m.width as int)) as nat)
}

/// The shapes for the edge samples among the first `n` samples.
pub open spec fn squares_upto(m: MagView, n: nat) -> Seq<PathView> {
    edge_indices_upto(m, n).map_values(|k: int| square_at(m, k))
}

/// The vector document of a magnitude image: a canvas of the image's size
/// and, in scan order, one unit square for each edge sample.
pub open spec fn vectorized(m: MagView) -> DocumentView {
    DocumentView { width: m.width, height: m.height, paths: squares_upto(m, m.samples.len()) }
}

/// Before the scan starts there are no shapes.
pub proof fn lemma_squares_start(m: MagView)
    ensures
        squares_upto(m, 0) == Seq::<PathView>::empty(),
{
    assert(squares_upto(m, 0) =~= Seq::<PathView>::empty());
}

/// Scanning one sample further adds its shape if it is an edge, and nothing otherwise.
pub proof fn lemma_squares_step(m: MagView, n: nat)
    requires
        n < m.samples.len(),
    ensures
        squares_upto(m, n + 1) == if is_edge(m.samples[n as int]) {
            squares_upto(m, n).push(square_at(m, n as int))
        } else {
            squares_upto(m, n)
        },
{
    reveal(Seq::filter);
    assert(positions(n + 1).drop_last() =~= positions(n));
    assert(positions(n + 1).last() == n);
    assert(edge_indices_upto(m, n + 1) == if is_edge(m.samples[n as int]) {
        edge_indices_upto(m, n).push(n as int)
    } else {
        edge_indices_upto(m, n)
    });
    assert(squares_upto(m, n + 1) =~= if is_edge(m.samples[n as int]) {
        squares_upto(m, n).push(square_at(m, n as int))
    } else {
        squares_upto(m, n)
    });
}

/// The document holds the unit square of a pixel exactly if the sample
/// of that pixel is strictly below [`THRESHOLD`].
pub proof fn lemma_square_iff_edge(m: MagView, x: int, y: int)
    requires
        m.wf(),
        0 <= x < m.width,
        0 <= y < m.height,
    ensures
        vectorized(m).paths.contains(unit_square(x as nat, y as nat)) <==> is_edge(m.sample(x, y)),
{
    let n = m.samples.len();
    let k = cell_index(m.width, x, y);
    let all = positions(n);
    let found = edge_indices_upto(m, n);
    let paths = vectorized(m).paths;
    lemma_cell_index_in_bounds(m.width, m.height, x, y);
    lemma_index_of_cell(m.width, x, y);
    assert(square_at(m, k) == unit_square(x as nat, y as nat));
    if is_edge(m.sample(x, y)) {
        assert(all[k] == k);
        all.lemma_filter_contains(edge_at(m), k);
        let c = choose|c: int| 0 <= c < found.len() && found[c] == k;
        assert(paths[c] == unit_square(x as nat, y as nat));
    }
    if paths.contains(unit_square(x as nat, y as nat)) {
        let c = choose|c: int| 0 <= c < paths.len() && paths[c] == unit_square(x as nat, y as nat);
        let at = found[c];
        assert(found.contains(at));
        all.lemma_filter_pred(edge_at(m), c);
        all.lemma_filter_contains_rev(edge_at(m), at);
        let i = choose|i: int| 0 <= i < all.len() && all[i] == at;
        assert(at == i);
        crate::grid::lemma_cell_of_index(m.width, m.height, at);
        assert(square_at(m, at) == unit_square(x as nat, y as nat));
        assert(at % (m.width as int) == x && at / (m.width as int) == y);
        assert(at == k);
    }
}

/// The positions found among the first `n` samples lie below `n` and ascend strictly.
proof fn lemma_indices_ascend(m: MagView, n: nat, a: int, b: int)
    requires
        n <= m.samples.len(),
        0 <= a <= b < edge_indices_upto(m, n).len(),
    ensures
        0 <= edge_indices_upto(m, n)[a] <= edge_indices_upto(m, n)[b] < n,
        a < b ==> edge_indices_upto(m, n)[a] < edge_indices_upto(m, n)[b],
    decreases n,
{
    reveal(Seq::filter);
    if n > 0 {
        let before = edge_indices_upto(m, (n - 1) as nat);
        assert(positions(n).drop_last() =~= positions((n - 1) as nat));
        assert(positions(n).last() == n - 1);
        if a < before.len() {
            lemma_indices_ascend(m, (n - 1) as nat, a, a);
        }
        if b < before.len() {
            lemma_indices_ascend(m, (n - 1) as nat, a, b);
        }
    }
}

/// The shapes stand in scan order: of two shapes, the earlier one covers a
/// pixel in a row further up, or further left in the same row.
pub proof fn lemma_scan_order(m: MagView, a: int, b: int)
    requires
        m.wf(),
        0 <= a < b < vectorized(m).paths.len(),
    ensures
        ({
            let p = vectorized(m).paths[a];
            let q = vectorized(m).paths[b];
            p.y < q.y || (p.y == q.y && p.x < q.x)
        }),
{
    let n = m.samples.len();
    let found = edge_indices_upto(m, n);
    lemma_indices_ascend(m, n, a, b);
    let i = found[a];
    let j = found[b];
    crate::grid::lemma_cell_of_index(m.width, m.height, i);
    crate::grid::lemma_cell_of_index(m.width, m.height, j);
    let w = m.width as int;
    assert(i / w < j / w || (i / w == j / w && i % w < j % w)) by (nonlinear_arith)
        requires
            0 <= i < j,
            w > 0,
            i == (i / w) * w + i % w,
            j == (j / w) * w + j % w,
            0 <= i % w < w,
            0 <= j % w < w,
    ;
}

/// The test for a sample to be an edge.
pub open spec fn edge_test() -> spec_fn(u8) -> bool {
    |sample: u8| is_edge(sample)
}

/// The edge samples of a magnitude image: those strictly below [`THRESHOLD`].
pub open spec fn edge_samples(m: MagView) -> Seq<u8> {
    m.samples.filter(edge_test())
}

/// Among the first `n` samples there are as many shapes as edge samples.
proof fn lemma_path_count_upto(m: MagView, n: nat)
    requires
        n <= m.samples.len(),
    ensures
        squares_upto(m, n).len() == m.samples.take(n as int).filter(edge_test()).len(),
    decreases n,
{
    reveal(Seq::filter);
    if n == 0 {
        lemma_squares_start(m);
    } else {
        lemma_path_count_upto(m, (n - 1) as nat);
        lemma_squares_step(m, (n - 1) as nat);
        assert(m.samples.take(n as int).drop_last() =~= m.samples.take(n - 1));
    }
}

/// The document has exactly as many shapes as the magnitude image has
/// samples strictly below [`THRESHOLD`].
pub proof fn lemma_path_count(m: MagView)
    ensures
        vectorized(m).paths.len() == edge_samples(m).len(),
{
    lemma_path_count_upto(m, m.samples.len());
    assert(m.samples.take(m.samples.len() as int) =~= m.samples);
}

/// A magnitude image without a sample below [`THRESHOLD`] has an empty document.
pub proof fn lemma_no_edges_no_paths(m: MagView)
    requires
        forall|k: int| 0 <= k < m.samples.len() ==> !is_edge(#[trigger] m.samples[k]),
    ensures
        vectorized(m).paths.len() == 0,
{
    lemma_path_count(m);
    m.samples.lemma_all_neg_filter_empty(edge_test());
}

/// Vectorizes a magnitude image. The canvas has the image's size. The pixels
/// are scanned row by row from the top, each row from the left, and every
/// sample strictly below [`THRESHOLD`] adds the unit square that covers its
/// pixel; the other samples add nothing.
pub fn vectorize(img: &MagnitudeImage) -> (doc: VectorDocument)
    ensures
        doc@ == vectorized(img@),
        doc@.wf(),
        doc@.paths.len() == edge_samples(img@).len(),
{
    proof {
        lemma_path_count(img@);
    }
    let data = img.as_raw();
    let width: u32 = img.width();
    let height: u32 = img.height();
    let mut paths: Vec<PathPrimitive> = Vec::new();
    let mut y: u32 = 0;
    proof {
        lemma_squares_start(img@);
        assert(path_views(paths@) =~= squares_upto(img@, 0));
    }
    while y < height
        invariant
            y <= height,
            width == img@.width,
            height == img@.height,
            img@.wf(),
            img@.samples == data@,
            path_views(paths@) == squares_upto(img@, (y * width) as nat),
            squares_on_canvas(path_views(paths@), width as nat, height as nat),
        decreases height - y,
    {
        let mut x: u32 = 0;
        while x < width
            invariant
                x <= width,
                y < height,
                width == img@.width,
                height == img@.height,
                img@.wf(),
                img@.samples == data@,
                path_views(paths@) == squares_upto(img@, (y * width + x) as nat),
                squares_on_canvas(path_views(paths@), width as nat, height as nat),
            decreases width - x,
        {
            proof {
                lemma_cell_index_in_bounds(width as nat, height as nat, x as int, y as int);
                lemma_index_of_cell(width as nat, x as int, y as int);
                lemma_squares_step(img@, (y * width + x) as nat);
                assert(data.len() == data@.len());
            }
            let k: usize = (y as usize) * (width as usize) + (x as usize);
            if data[k] < THRESHOLD {
                let ghost before = paths@;
                paths.push(PathPrimitive::unit_square(x, y));
                assert(path_views(paths@) =~= path_views(before).push(
                    unit_square(x as nat, y as nat),
                ));
                assert forall|c: int| 0 <= c < paths@.len() implies {
                    let p = #[trigger] path_views(paths@)[c];
                    p == unit_square(p.x, p.y) && p.x < width && p.y < height
                } by {
                    if c < before.len() {
                        assert(path_views(paths@)[c] == path_views(before)[c]);
                    }
                }
            }
            x += 1;
        }
        assert((y + 1) * width == y * width + width) by (nonlinear_arith);
        y += 1;
    }
    assert(height * width == img@.samples.len()) by (nonlinear_arith)
        requires
            img@.samples.len() == width * height,
    ;
    VectorDocument { width, height, paths }
}

} // verus!
