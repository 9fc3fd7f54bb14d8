//! Vector documents as SVG element trees.

use vstd::prelude::*;
use svg::node::element::{Path, SVG};
use crate::pathdata::{decimal, decimal_string};
use crate::vector::{path_views, PathPrimitive, PathView, VectorDocument};

verus! {

/// `svg::node::element::SVG`, the `svg` element that `svg::Document` names,
/// carried as an opaque value.
#[verifier::external_type_specification]
#[verifier::external_body]
pub struct ExSvgElement(SVG);

/// `svg::node::element::Path`, the `path` element, carried as an opaque value.
#[verifier::external_type_specification]
#[verifier::external_body]
pub struct ExPathElement(Path);

/// The attributes of an `svg` element: each name with its value.
pub uninterp spec fn document_attributes(doc: SVG) -> Map<Seq<char>, Seq<char>>;

/// The children of an `svg` element in the order in which they were
/// appended, each as its tag name and its attributes (the empty map for a
/// node that carries none).
pub uninterp spec fn document_children(doc: SVG) -> Seq<(Seq<char>, Map<Seq<char>, Seq<char>>)>;

/// The attributes of a `path` element: each name with its value.
pub uninterp spec fn path_attributes(path: Path) -> Map<Seq<char>, Seq<char>>;

/// The attribute map of an element without attributes.
pub open spec fn no_attributes() -> Map<Seq<char>, Seq<char>> {
    Map::empty()
}

/// The children of an element without children.
pub open spec fn no_children() -> Seq<(Seq<char>, Map<Seq<char>, Seq<char>>)> {
    Seq::empty()
}

/// `svg::Document::new`: a fresh `svg` element. Its constructor assigns the
/// one attribute `xmlns`, and it has no children.
#[verifier::external_body]
fn new_document() -> (doc: SVG)
    ensures
        document_attributes(doc) == no_attributes().insert("xmlns"@, "http://www.w3.org/2000/svg"@),
        document_children(doc) == no_children(),
{
    SVG::new()
}

/// `SVG::set`: inserts the value under the name into the element's
/// attribute map, replacing a value that was there, and leaves the children
/// as they were.
#[verifier::external_body]
fn set_document_attribute(doc: SVG, name: &str, value: &str) -> (res: SVG)
    ensures
        document_attributes(res) == document_attributes(doc).insert(name@, value@),
        document_children(res) == document_children(doc),
{
    doc.set(name, value)
}

/// `Path::new`: a fresh `path` element, without attributes.
#[verifier::external_body]
fn new_path() -> (path: Path)
    ensures
        path_attributes(path) == no_attributes(),
{
    Path::new()
}

/// `Path::set`: inserts the value under the name into the element's
/// attribute map, replacing a value that was there.
#[verifier::external_body]
fn set_path_attribute(path: Path, name: &str, value: &str) -> (res: Path)
    ensures
        path_attributes(res) == path_attributes(path).insert(name@, value@),
{
    path.set(name, value)
}

/// `SVG::add`: appends the node behind the children that the element has,
/// and leaves the attributes as they were. A `Path` always carries the tag
/// name `path`.
#[verifier::external_body]
fn add_path(doc: SVG, path: Path) -> (res: SVG)
    ensures
        document_attributes(res) == document_attributes(doc),
        document_children(res) == document_children(doc).push(("path"@, path_attributes(path))),
{
    doc.add(path)
}

/// The attributes that declare a canvas: the namespace, a view box from the
/// origin over the whole canvas, and the explicit width and height.
pub open spec fn canvas_attributes(width: nat, height: nat) -> Map<Seq<char>, Seq<char>> {
    no_attributes().insert("xmlns"@, "http://www.w3.org/2000/svg"@).insert(
        "viewBox"@,
        "0 0 "@ + decimal(width) + " "@ + decimal(height),
    ).insert("width"@, decimal(width)).insert("height"@, decimal(height))
}

/// The element of a shape: a `path` with its fill colour and its geometry.
pub open spec fn path_element(p: PathView) -> (Seq<char>, Map<Seq<char>, Seq<char>>) {
    ("path"@, no_attributes().insert("fill"@, p.fill).insert("d"@, p.d))
}

/// The elements of a sequence of shapes, in the same order.
pub open spec fn path_elements(paths: Seq<PathView>) -> Seq<
    (Seq<char>, Map<Seq<char>, Seq<char>>),
> {
    paths.map_values(|p: PathView| path_element(p))
}

/// The `path` element of one shape.
fn path_of(p: &PathPrimitive) -> (path: Path)
    ensures
        ("path"@, path_attributes(path)) == path_element(p@),
{
    let path = new_path();
    let path = set_path_attribute(path, "fill", p.fill.as_str());
    set_path_attribute(path, "d", p.d.as_str())
}

/// Builds the SVG element tree of a vector document: an `svg` element that
/// declares the canvas, with one `path` child for each shape, in the order of
/// the document.
pub fn to_svg(doc: &VectorDocument) -> (out: SVG)
    ensures
        document_attributes(out) == canvas_attributes(doc@.width, doc@.height),
        document_children(out) == path_elements(doc@.paths),
{
    let width = decimal_string(doc.width());
    let height = decimal_string(doc.height());
    let mut view_box = String::from_str("0 0 ");
    view_box.append(width.as_str());
    view_box.append(" ");
    view_box.append(height.as_str());
    let out = new_document();
    let out = set_document_attribute(out, "viewBox", view_box.as_str());
    let out = set_document_attribute(out, "width", width.as_str());
    let mut out = set_document_attribute(out, "height", height.as_str());
    let paths = doc.paths();
    let mut k: usize = 0;
    assert(document_children(out) =~= path_elements(doc@.paths.take(0)));
    while k < paths.len()
        invariant
            k <= paths@.len(),
            path_views(paths@) == doc@.paths,
            document_attributes(out) == canvas_attributes(doc@.width, doc@.height),
            document_children(out) == path_elements(doc@.paths.take(k as int)),
        decreases paths@.len() - k,
    {
        let path = path_of(&paths[k]);
        out = add_path(out, path);
        k += 1;
        assert(path_elements(doc@.paths.take(k as int)) =~= path_elements(
            doc@.paths.take(k - 1),
        ).push(path_element(doc@.paths[k - 1])));
    }
    assert(doc@.paths.take(k as int) =~= doc@.paths);
    out
}

} // verus!
