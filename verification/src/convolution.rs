use vstd::prelude::*;
use crate::error::ConvolveError;
use crate::grid::Grid;
use crate::image::Image;

verus! {

/// The 32-bit two's-complement integer that is congruent to `x` modulo 2^32.
///
/// This is the overflow policy of the whole engine: sums and products wrap around.
pub open spec fn wrap_i32(x: int) -> i32 {
    let m = x % 0x1_0000_0000;
    if m >= 0x8000_0000 {
        (m - 0x1_0000_0000) as i32
    } else {
        m as i32
    }
}

/// The kernel is non-empty and no larger than the source along either axis.
pub open spec fn kernel_fits(src: Grid<i32>, ker: Grid<i32>) -> bool {
    1 <= ker.rows <= src.rows && 1 <= ker.cols <= src.cols
}

/// The number of rows of the non-padded overlap region.
pub open spec fn output_rows(src: Grid<i32>, ker: Grid<i32>) -> int {
    src.rows - ker.rows + 1
}

/// The number of columns of the non-padded overlap region.
pub open spec fn output_cols(src: Grid<i32>, ker: Grid<i32>) -> int {
    src.cols - ker.cols + 1
}

/// The sum, over the first `n` columns `kc` of kernel row `kr`, of
/// `src[r + kr][c + kc] * ker[kr][kc]`.
pub open spec fn row_dot(src: Grid<i32>, ker: Grid<i32>, r: int, c: int, kr: int, n: nat) -> int
    decreases n,
{
    if n == 0 {
        0
    } else {
        row_dot(src, ker, r, c, kr, (n - 1) as nat) + src.at(r + kr, c + n - 1) * ker.at(
            kr,
            n - 1,
        )
    }
}

/// The sum, over the first `m` kernel rows `kr` and all kernel columns `kc`, of
/// `src[r + kr][c + kc] * ker[kr][kc]`.
pub open spec fn window_dot(src: Grid<i32>, ker: Grid<i32>, r: int, c: int, m: nat) -> int
    decreases m,
{
    if m == 0 {
        0
    } else {
        window_dot(src, ker, r, c, (m - 1) as nat) + row_dot(src, ker, r, c, m - 1, ker.cols)
    }
}

/// The exact, unbounded value of output cell `(r, c)`: the sum over the whole kernel of
/// `src[r + kr][c + kc] * ker[kr][kc]`.
pub open spec fn cell_sum(src: Grid<i32>, ker: Grid<i32>, r: int, c: int) -> int {
    window_dot(src, ker, r, c, ker.rows)
}

/// `out` is the valid cross-correlation of `src` with `ker`: it has the shape of the
/// overlap region and each cell holds its sum, wrapped to 32 bits.
pub open spec fn is_convolution(out: Grid<i32>, src: Grid<i32>, ker: Grid<i32>) -> bool {
    &&& out.wf()
    &&& out.rows == output_rows(src, ker)
    &&& out.cols == output_cols(src, ker)
    &&& forall|r: int, c: int|
        out.in_bounds(r, c) ==> #[trigger] out.at(r, c) == wrap_i32(cell_sum(src, ker, r, c))
}

/// `row` is row `r` of the convolution of `src` with `ker`.
pub open spec fn is_convolution_row(row: Seq<i32>, src: Grid<i32>, ker: Grid<i32>, r: int) -> bool {
    &&& row.len() == output_cols(src, ker)
    &&& forall|c: int|
        0 <= c < row.len() ==> #[trigger] row[c] == wrap_i32(cell_sum(src, ker, r, c))
}

/// What every convolution strategy owes its caller: the convolution when the kernel
/// fits, and `DimensionError` exactly when it does not.
pub open spec fn convolves_to(
    src: Grid<i32>,
    ker: Grid<i32>,
    res: Result<Image<i32>, ConvolveError>,
) -> bool {
    match res {
        Ok(out) => kernel_fits(src, ker) && is_convolution(out@, src, ker),
        Err(e) => !kernel_fits(src, ker) && e == ConvolveError::DimensionError,
    }
}

/// Wrapping leaves a value that already fits in 32 bits as it is.
pub proof fn lemma_wrap_fits(x: int)
    requires
        i32::MIN <= x <= i32::MAX,
    ensures
        wrap_i32(x) == x,
{
}

/// Wrapping an intermediate sum does not change the wrapped total.
pub proof fn lemma_wrap_absorbs(x: int, y: int)
    ensures
        wrap_i32(wrap_i32(x) + y) == wrap_i32(x + y),
{
}

/// One multiply-accumulate step in wrapping 32-bit arithmetic: the new accumulator is
/// the wrapped value of the old one plus the exact product.
pub fn mul_acc(acc: i32, a: i32, b: i32) -> (res: i32)
    ensures
        res == wrap_i32(acc + a * b),
{
    let product = a.wrapping_mul(b);
    proof {
        lemma_wrap_absorbs(a * b, acc as int);
    }
    acc.wrapping_add(product)
}

} // verus!
