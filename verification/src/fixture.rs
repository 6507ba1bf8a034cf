use vstd::prelude::*;
use crate::error::ConvolveError;
use crate::grid::Grid;
use crate::image::Image;

verus! {

/// The number of rows of the benchmark source grid.
pub const BENCHMARK_ROWS: usize = 30720;

/// The number of columns of the benchmark source grid.
pub const BENCHMARK_COLS: usize = 17280;

/// The side of the square benchmark kernel.
pub const BENCHMARK_KERNEL_SIZE: usize = 3;

/// A grid whose cells, in row-major order, cycle through `0, 1, ..., 99`.
pub open spec fn cycling_grid(rows: nat, cols: nat) -> Grid<i32> {
    Grid { rows, cols, cells: Seq::new(rows * cols, |i: int| (i % 100) as i32) }
}

/// A square grid whose cells, in row-major order, count up from zero.
pub open spec fn counting_grid(size: nat) -> Grid<i32> {
    Grid { rows: size, cols: size, cells: Seq::new(size * size, |i: int| i as i32) }
}

/// A synthetic source of `rows` by `cols` cells cycling through `0..=99`.
/// `DimensionError` when `rows * cols` is more than a buffer can hold.
pub fn cycling_image(rows: usize, cols: usize) -> (res: Result<Image<i32>, ConvolveError>)
    ensures
        match res {
            Ok(img) => rows * cols <= usize::MAX && img@ == cycling_grid(rows as nat, cols as nat),
            Err(e) => rows * cols > usize::MAX && e == ConvolveError::DimensionError,
        },
{
    match rows.checked_mul(cols) {
        Some(n) => {
            let mut data: Vec<i32> = Vec::with_capacity(n);
            let mut i: usize = 0;
            let mut value: i32 = 0;
            while i < n
                invariant
                    i <= n,
                    value == i % 100,
                    data@.len() == i,
                    forall|j: int| 0 <= j < i ==> #[trigger] data@[j] == (j % 100) as i32,
                decreases n - i,
            {
                data.push(value);
                value = if value == 99 {
                    0
                } else {
                    value + 1
                };
                i = i + 1;
            }
            proof {
                assert(data@ =~= cycling_grid(rows as nat, cols as nat).cells);
            }
            Image::new(rows, cols, data)
        },
        None => Err(ConvolveError::DimensionError),
    }
}

/// A synthetic square kernel of side `size` holding `0, 1, 2, ...` in row-major order.
/// `DimensionError` when the last value, `size * size - 1`, would not fit in 32 bits.
pub fn counting_kernel(size: usize) -> (res: Result<Image<i32>, ConvolveError>)
    ensures
        match res {
            Ok(img) => size * size <= i32::MAX && img@ == counting_grid(size as nat),
            Err(e) => size * size > i32::MAX && e == ConvolveError::DimensionError,
        },
{
    if size > 46340 {
        assert(size * size > i32::MAX) by (nonlinear_arith)
            requires
                size > 46340,
        ;
        return Err(ConvolveError::DimensionError);
    }
    assert(size * size <= 46340 * 46340) by (nonlinear_arith)
        requires
            0 <= size <= 46340,
    ;
    let n = size * size;
    let mut data: Vec<i32> = Vec::with_capacity(n);
    let mut i: usize = 0;
    let mut value: i32 = 0;
    while i < n
        invariant
            n <= i32::MAX,
            i <= n,
            value == i,
            data@.len() == i,
            forall|j: int| 0 <= j < i ==> #[trigger] data@[j] == j as i32,
        decreases n - i,
    {
        data.push(value);
        value = value + 1;
        i = i + 1;
    }
    proof {
        assert(data@ =~= counting_grid(size as nat).cells);
    }
    Image::new(size, size, data)
}

/// The benchmark fixture: a source of `BENCHMARK_ROWS` by `BENCHMARK_COLS` cells cycling
/// through `0..=99`, and the 3-by-3 kernel that holds `0, 1, ..., 8`.
pub fn get_image_and_kernel() -> (pair: (Image<i32>, Image<i32>))
    ensures
        pair.0@ == cycling_grid(BENCHMARK_ROWS as nat, BENCHMARK_COLS as nat),
        pair.1@ == counting_grid(BENCHMARK_KERNEL_SIZE as nat),
{
    let to_convolve = cycling_image(BENCHMARK_ROWS, BENCHMARK_COLS).unwrap();
    let kernel = counting_kernel(BENCHMARK_KERNEL_SIZE).unwrap();
    (to_convolve, kernel)
}

} // verus!
