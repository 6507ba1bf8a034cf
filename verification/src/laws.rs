use vstd::prelude::*;
use crate::convolution::cell_sum;
use crate::convolution::convolves_to;
use crate::convolution::is_convolution;
use crate::convolution::kernel_fits;
use crate::convolution::lemma_wrap_fits;
use crate::convolution::row_dot;
use crate::convolution::window_dot;
use crate::convolution::wrap_i32;
use crate::error::ConvolveError;
use crate::grid::lemma_grid_ext;
use crate::grid::Grid;
use crate::image::Image;

verus! {

/// The convolution of a source with a kernel is one grid: two grids that both meet
/// `is_convolution` for the same source and kernel are equal, cell for cell.
pub proof fn lemma_convolution_is_unique(
    src: Grid<i32>,
    ker: Grid<i32>,
    a: Grid<i32>,
    b: Grid<i32>,
)
    requires
        is_convolution(a, src, ker),
        is_convolution(b, src, ker),
    ensures
        a == b,
{
    assert forall|r: int, c: int| a.in_bounds(r, c) implies #[trigger] a.at(r, c) == b.at(r, c) by {
        assert(b.in_bounds(r, c));
        assert(b.at(r, c) == wrap_i32(cell_sum(src, ker, r, c)));
    }
    lemma_grid_ext(a, b);
}

/// All strategies agree, and each agrees with itself from run to run: whatever two
/// calls bound by the convolution contract return for the same source and kernel, they
/// return the same thing. Both succeed with grids that are equal element for element,
/// or both fail with the same error. The contract is the `ensures` of the
/// element-indexed, flattened-index, row-view and row-view-parallel strategies alike,
/// and it does not mention how the work was divided among threads.
pub proof fn lemma_outcomes_agree(
    src: Grid<i32>,
    ker: Grid<i32>,
    first: Result<Image<i32>, ConvolveError>,
    second: Result<Image<i32>, ConvolveError>,
)
    requires
        convolves_to(src, ker, first),
        convolves_to(src, ker, second),
    ensures
        match (first, second) {
            (Ok(a), Ok(b)) => a@ == b@,
            (Err(e), Err(f)) => e == f,
            _ => false,
        },
{
    if let (Ok(a), Ok(b)) = (first, second) {
        lemma_convolution_is_unique(src, ker, a@, b@);
    }
}

/// Where the exact sum of a cell fits in 32 bits the output holds that very sum:
/// wrap-around only shows where the sum itself leaves the range of the cell type.
pub proof fn lemma_exact_when_in_range(
    src: Grid<i32>,
    ker: Grid<i32>,
    out: Grid<i32>,
    r: int,
    c: int,
)
    requires
        is_convolution(out, src, ker),
        out.in_bounds(r, c),
        i32::MIN <= cell_sum(src, ker, r, c) <= i32::MAX,
    ensures
        out.at(r, c) == cell_sum(src, ker, r, c),
{
    lemma_wrap_fits(cell_sum(src, ker, r, c));
}

/// With the 1-by-1 kernel that holds the value 1, one window is one source cell.
pub proof fn lemma_identity_cell(src: Grid<i32>, ker: Grid<i32>, r: int, c: int)
    requires
        ker.rows == 1,
        ker.cols == 1,
        ker.at(0, 0) == 1,
    ensures
        cell_sum(src, ker, r, c) == src.at(r, c),
{
    assert(window_dot(src, ker, r, c, 0) == 0);
    assert(row_dot(src, ker, r, c, 0, 0) == 0);
    assert(row_dot(src, ker, r, c, 0, 1) == src.at(r, c) * ker.at(0, 0));
    assert(window_dot(src, ker, r, c, 1) == row_dot(src, ker, r, c, 0, 1));
}

/// Convolving a source that has at least one cell with the 1-by-1 kernel that holds the
/// value 1 gives back the source: every outcome the convolution contract allows is a
/// grid equal to the source.
pub proof fn lemma_identity_kernel(
    src: Grid<i32>,
    ker: Grid<i32>,
    res: Result<Image<i32>, ConvolveError>,
)
    requires
        src.wf(),
        src.rows >= 1,
        src.cols >= 1,
        ker.rows == 1,
        ker.cols == 1,
        ker.at(0, 0) == 1,
        convolves_to(src, ker, res),
    ensures
        res matches Ok(out) && out@ == src,
{
    assert(kernel_fits(src, ker));
    let out = res->Ok_0@;
    assert forall|r: int, c: int| out.in_bounds(r, c) implies #[trigger] out.at(r, c) == src.at(
        r,
        c,
    ) by {
        lemma_identity_cell(src, ker, r, c);
    }
    lemma_grid_ext(out, src);
}

} // verus!
