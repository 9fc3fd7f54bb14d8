//! Row-major addressing of a `width` x `height` grid.

use vstd::prelude::*;

verus! {

/// The position in a row-major buffer of the cell in column `x` of row `y`.
pub open spec fn cell_index(width: nat, x: int, y: int) -> int {
    y * width + x
}

/// Every cell of the grid has a position inside the buffer.
pub proof fn lemma_cell_index_in_bounds(width: nat, height: nat, x: int, y: int)
    requires
        0 <= x < width,
        0 <= y < height,
    ensures
        0 <= cell_index(width, x, y) < width * height,
{
    assert(y * width + x < width * height && 0 <= y * width) by (nonlinear_arith)
        requires
            0 <= x < width,
            0 <= y < height,
    ;
}

/// Every position inside the buffer is the position of exactly the cell in
/// column `k % width` of row `k / width`.
pub proof fn lemma_cell_of_index(width: nat, height: nat, k: int)
    requires
        0 <= k < width * height,
    ensures
        width > 0,
        0 <= k % (width as int) < width,
        0 <= k / (width as int) < height,
        cell_index(width, k % (width as int), k / (width as int)) == k,
{
    assert(width > 0) by (nonlinear_arith)
        requires
            0 <= k < width * height,
    ;
    let w = width as int;
    assert(0 <= k % w < w && k == (k / w) * w + k % w && 0 <= k / w) by (nonlinear_arith)
        requires
            w > 0,
            0 <= k,
    ;
    assert(k / w < height) by (nonlinear_arith)
        requires
            w > 0,
            0 <= k < w * height,
            k == (k / w) * w + k % w,
            0 <= k % w,
    ;
}

/// Distinct cells have distinct positions: the cell is recovered from its position.
pub proof fn lemma_index_of_cell(width: nat, x: int, y: int)
    requires
        0 <= x < width,
        0 <= y,
    ensures
        cell_index(width, x, y) % (width as int) == x,
        cell_index(width, x, y) / (width as int) == y,
{
    let w = width as int;
    vstd::arithmetic::div_mod::lemma_fundamental_div_mod_converse(y * w + x, w, y, x);
}

} // verus!
