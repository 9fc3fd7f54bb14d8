//! The three stages composed: grayscale, edges, vector document.

use vstd::prelude::*;
use crate::gray::{gray, gray_view, lemma_uniform_gray, GrayView, GrayscaleImage};
use crate::raster::{RasterImage, RasterView, Rgba};
use crate::sobel::{
    lemma_uniform_sobel, sobel, sobel_view, DimensionError, MagView, MagnitudeImage,
};
use crate::vector::{
    lemma_no_edges_no_paths, vectorize, vectorized, DocumentView, VectorDocument,
};

verus! {

/// The outputs of a run in which every stage succeeded.
#[derive(Clone, Debug, PartialEq, Eq)]
pub struct Processed {
    /// The output of the grayscale converter.
    pub grayscale: GrayscaleImage,
    /// The output of the edge detector.
    pub edges: MagnitudeImage,
    /// The output of the vectorizer.
    pub document: VectorDocument,
}

/// What is left of a run that the edge detector halted: the grayscale image,
/// which was complete before the failure, and the failure.
#[derive(Clone, Debug, PartialEq, Eq)]
pub struct Halted {
    /// The output of the grayscale converter.
    pub grayscale: GrayscaleImage,
    /// Why the edge detector refused it.
    pub error: DimensionError,
}

/// What the outputs of a successful run are.
pub struct ProcessedView {
    pub grayscale: GrayView,
    pub edges: MagView,
    pub document: DocumentView,
}

/// What the remains of a halted run are.
pub struct HaltedView {
    pub grayscale: GrayView,
    pub error: DimensionError,
}

impl View for Processed {
    type V = ProcessedView;

    open spec fn view(&self) -> ProcessedView {
        ProcessedView {
            grayscale: self.grayscale@,
            edges: self.edges@,
            document: self.document@,
        }
    }
}

impl View for Halted {
    type V = HaltedView;

    open spec fn view(&self) -> HaltedView {
        HaltedView { grayscale: self.grayscale@, error: self.error }
    }
}

/// What the outcome of a full run is.
pub open spec fn outcome(res: Result<Processed, Halted>) -> Result<ProcessedView, HaltedView> {
    match res {
        Ok(p) => Ok(p@),
        Err(h) => Err(h@),
    }
}

/// What the outcome of a run to the vector document is.
pub open spec fn document_outcome(res: Result<VectorDocument, DimensionError>) -> Result<
    DocumentView,
    DimensionError,
> {
    match res {
        Ok(d) => Ok(d@),
        Err(e) => Err(e),
    }
}

/// Whether the edge detector accepts a grid of this size.
pub open spec fn fits_kernel(width: nat, height: nat) -> bool {
    width >= 3 && height >= 3
}

/// The pipeline as a function of the raster image alone. Each stage consumes
/// what the stage before it produced. An image of fewer than three columns or
/// rows halts at the edge detector, after the grayscale stage.
pub open spec fn pipeline(r: RasterView) -> Result<ProcessedView, HaltedView> {
    let grayscale = gray_view(r);
    if fits_kernel(r.width, r.height) {
        let edges = sobel_view(grayscale);
        Ok(ProcessedView { grayscale, edges, document: vectorized(edges) })
    } else {
        Err(
            HaltedView {
                grayscale,
                error: DimensionError { width: r.width as u32, height: r.height as u32 },
            },
        )
    }
}

/// The vector document of a raster image, or the failure of the edge detector.
pub open spec fn traced(r: RasterView) -> Result<DocumentView, DimensionError> {
    match pipeline(r) {
        Ok(p) => Ok(p.document),
        Err(h) => Err(h.error),
    }
}

/// Two runs on the same image have the same outcome: the same grayscale
/// image, the same magnitude image and the same document, or the same failure.
pub proof fn lemma_runs_agree(
    r: RasterView,
    first: Result<Processed, Halted>,
    second: Result<Processed, Halted>,
)
    requires
        outcome(first) == pipeline(r),
        outcome(second) == pipeline(r),
    ensures
        outcome(first) == outcome(second),
{
}

/// A raster image of one colour, large enough for the edge detector, has a
/// grayscale image of one intensity, a magnitude image that is 255
/// everywhere, and an empty document.
pub proof fn lemma_uniform_image_has_no_edges(r: RasterView, c: Rgba)
    requires
        r.wf(),
        fits_kernel(r.width, r.height),
        forall|k: int| 0 <= k < r.pixels.len() ==> r.pixels[k] == c,
    ensures
        pipeline(r) is Ok,
        pipeline(r) matches Ok(p) ==> p.document.paths.len() == 0 && forall|k: int|
            0 <= k < p.edges.samples.len() ==> #[trigger] p.edges.samples[k] == 255,
{
    lemma_uniform_gray(r, c);
    let g = gray_view(r);
    assert forall|k: int| 0 <= k < g.pixels.len() implies (#[trigger] g.pixels[k]).luma
        == crate::gray::gray_pixel(c).luma by {}
    lemma_uniform_sobel(g, crate::gray::gray_pixel(c).luma);
    lemma_no_edges_no_paths(sobel_view(g));
}

/// Runs the three stages on a decoded image and hands back the output of
/// each, for the caller to persist. The stages run strictly one after the
/// other; nothing is retried. Where the edge detector refuses the image, the
/// run halts there: the grayscale image is handed back with the failure, and
/// no edge image or document exists.
pub fn process_image(img: &RasterImage) -> (res: Result<Processed, Halted>)
    ensures
        outcome(res) == pipeline(img@),
        res is Ok <==> fits_kernel(img@.width, img@.height),
{
    let grayscale = gray(img);
    match sobel(&grayscale) {
        Ok(edges) => {
            let document = vectorize(&edges);
            Ok(Processed { grayscale, edges, document })
        },
        Err(error) => Err(Halted { grayscale, error }),
    }
}

/// Runs the three stages on a decoded image and hands back the vector
/// document alone, or the failure of the edge detector.
pub fn png_vector(img: &RasterImage) -> (res: Result<VectorDocument, DimensionError>)
    ensures
        document_outcome(res) == traced(img@),
        res is Ok <==> fits_kernel(img@.width, img@.height),
{
    let grayscale = gray(img);
    match sobel(&grayscale) {
        Ok(edges) => Ok(vectorize(&edges)),
        Err(error) => Err(error),
    }
}

} // verus!
