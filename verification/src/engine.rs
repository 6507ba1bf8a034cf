use vstd::prelude::*;
use crate::convolution::cell_sum;
use crate::convolution::convolves_to;
use crate::convolution::is_convolution;
use crate::convolution::is_convolution_row;
use crate::convolution::kernel_fits;
use crate::convolution::lemma_wrap_absorbs;
use crate::convolution::mul_acc;
use crate::convolution::output_cols;
use crate::convolution::output_rows;
use crate::convolution::row_dot;
use crate::convolution::window_dot;
use crate::convolution::wrap_i32;
use crate::error::ConvolveError;
use crate::grid::lemma_offset_in_range;
use crate::grid::lemma_row_bounds;
use crate::grid::lemma_with_cell;
use crate::grid::lemma_with_row;
use crate::grid::Grid;
use crate::image::row_view_mut;
use crate::image::Image;
use crate::parallel::par_map_index;

verus! {

/// The access pattern by which a convolution is carried out. The choice changes how the
/// work is done, never what comes out.
#[derive(Clone, Copy, Debug, PartialEq, Eq, Structural)]
pub enum Strategy {
    /// Bounds-checked accessor calls for every element.
    ElementIndexed,
    /// Direct linear-offset arithmetic on the backing buffers.
    FlattenedIndex,
    /// One row view per output row.
    RowView,
    /// One row view per output row, rows spread over worker threads.
    RowViewParallel,
}

/// The grid that a row-major buffer of `rows * cols` cells stands for.
spec fn flat(rows: usize, cols: usize, cells: Seq<i32>) -> Grid<i32> {
    Grid { rows: rows as nat, cols: cols as nat, cells }
}

/// The part of the sum of cell `(r, c)` that comes from the kernel rows before `kr` and
/// from the first `kc` columns of kernel row `kr`.
spec fn partial_sum(src: Grid<i32>, ker: Grid<i32>, r: usize, c: usize, kr: usize, kc: usize) -> int {
    window_dot(src, ker, r as int, c as int, kr as nat) + row_dot(
        src,
        ker,
        r as int,
        c as int,
        kr as int,
        kc as nat,
    )
}

/// The state of an output grid part-way through a row-major sweep: every cell before
/// `(r, c)` holds its final value, the cell at `(r, c)` holds the wrapped partial sum
/// `partial`, and every later cell is still zero.
spec fn in_progress(
    out: Grid<i32>,
    src: Grid<i32>,
    ker: Grid<i32>,
    r: int,
    c: int,
    partial: int,
) -> bool {
    &&& out.wf()
    &&& out.rows == output_rows(src, ker)
    &&& out.cols == output_cols(src, ker)
    &&& forall|r2: int, c2: int|
        out.in_bounds(r2, c2) ==> #[trigger] out.at(r2, c2) == (if r2 < r || (r2 == r && c2 < c) {
            wrap_i32(cell_sum(src, ker, r2, c2))
        } else if r2 == r && c2 == c {
            wrap_i32(partial)
        } else {
            0i32
        })
}

/// A zeroed output is the state before the first cell.
proof fn lemma_progress_start(out: Grid<i32>, src: Grid<i32>, ker: Grid<i32>)
    requires
        kernel_fits(src, ker),
        out == Grid::filled(output_rows(src, ker) as nat, output_cols(src, ker) as nat, 0i32),
    ensures
        in_progress(out, src, ker, 0, 0, 0),
{
    assert forall|r2: int, c2: int| out.in_bounds(r2, c2) implies #[trigger] out.at(r2, c2)
        == 0i32 by {
        lemma_offset_in_range(out.rows as int, out.cols as int, r2, c2);
    }
}

/// Adding one term to the cell under work, with wrap-around, adds it to the partial sum.
proof fn lemma_progress_step(
    out: Grid<i32>,
    src: Grid<i32>,
    ker: Grid<i32>,
    r: int,
    c: int,
    partial: int,
    term: int,
)
    requires
        in_progress(out, src, ker, r, c, partial),
        out.in_bounds(r, c),
    ensures
        in_progress(
            out.with_cell(r, c, wrap_i32(out.at(r, c) + term)),
            src,
            ker,
            r,
            c,
            partial + term,
        ),
{
    let next = out.with_cell(r, c, wrap_i32(out.at(r, c) + term));
    lemma_with_cell(out, r, c, wrap_i32(out.at(r, c) + term));
    lemma_wrap_absorbs(partial, term);
    assert forall|r2: int, c2: int| next.in_bounds(r2, c2) implies #[trigger] next.at(r2, c2) == (if r2
        < r || (r2 == r && c2 < c) {
        wrap_i32(cell_sum(src, ker, r2, c2))
    } else if r2 == r && c2 == c {
        wrap_i32(partial + term)
    } else {
        0i32
    }) by {
        if r2 != r || c2 != c {
            assert(next.at(r2, c2) == out.at(r2, c2));
        }
    }
}

/// A cell whose partial sum has become its whole sum is done; the next cell is at zero.
proof fn lemma_progress_next_cell(out: Grid<i32>, src: Grid<i32>, ker: Grid<i32>, r: int, c: int)
    requires
        in_progress(out, src, ker, r, c, cell_sum(src, ker, r, c)),
    ensures
        in_progress(out, src, ker, r, c + 1, 0),
{
    assert forall|r2: int, c2: int| out.in_bounds(r2, c2) implies #[trigger] out.at(r2, c2) == (if r2
        < r || (r2 == r && c2 < c + 1) {
        wrap_i32(cell_sum(src, ker, r2, c2))
    } else if r2 == r && c2 == c + 1 {
        wrap_i32(0)
    } else {
        0i32
    }) by {}
}

/// The end of one row is the start of the next.
proof fn lemma_progress_next_row(out: Grid<i32>, src: Grid<i32>, ker: Grid<i32>, r: int)
    requires
        in_progress(out, src, ker, r, out.cols as int, 0),
    ensures
        in_progress(out, src, ker, r + 1, 0, 0),
{
    assert forall|r2: int, c2: int| out.in_bounds(r2, c2) implies #[trigger] out.at(r2, c2) == (if r2
        < r + 1 || (r2 == r + 1 && c2 < 0) {
        wrap_i32(cell_sum(src, ker, r2, c2))
    } else if r2 == r + 1 && c2 == 0 {
        wrap_i32(0)
    } else {
        0i32
    }) by {}
}

/// Putting a whole finished row in place moves the sweep to the start of the next row.
proof fn lemma_progress_row(out: Grid<i32>, src: Grid<i32>, ker: Grid<i32>, r: int, row: Seq<i32>)
    requires
        in_progress(out, src, ker, r, 0, 0),
        0 <= r < out.rows,
        is_convolution_row(row, src, ker, r),
    ensures
        in_progress(out.with_row(r, row), src, ker, r + 1, 0, 0),
{
    let next = out.with_row(r, row);
    lemma_with_row(out, r, row);
    assert forall|r2: int, c2: int| next.in_bounds(r2, c2) implies #[trigger] next.at(r2, c2) == (if r2
        < r + 1 || (r2 == r + 1 && c2 < 0) {
        wrap_i32(cell_sum(src, ker, r2, c2))
    } else if r2 == r + 1 && c2 == 0 {
        wrap_i32(0)
    } else {
        0i32
    }) by {
        if r2 == r {
            assert(next.at(r, c2) == row[c2]);
        } else {
            assert(next.at(r2, c2) == out.at(r2, c2));
        }
    }
}

/// Once the sweep has passed the last row, the grid is the convolution.
proof fn lemma_progress_done(out: Grid<i32>, src: Grid<i32>, ker: Grid<i32>)
    requires
        in_progress(out, src, ker, out.rows as int, 0, 0),
    ensures
        is_convolution(out, src, ker),
{
}

/// The shape of the output for `src` and `ker`: the size of the region over which the
/// kernel lies wholly inside the source. `DimensionError` exactly when the kernel is
/// empty or larger than the source along an axis.
pub fn output_shape(src: &Image<i32>, ker: &Image<i32>) -> (res: Result<
    (usize, usize),
    ConvolveError,
>)
    ensures
        src@.storable(),
        ker@.storable(),
        match res {
            Ok((h, w)) => {
                &&& kernel_fits(src@, ker@)
                &&& h == output_rows(src@, ker@)
                &&& w == output_cols(src@, ker@)
                &&& h * w <= usize::MAX
            },
            Err(e) => !kernel_fits(src@, ker@) && e == ConvolveError::DimensionError,
        },
{
    let (sr, sc) = (src.rows(), src.cols());
    let (kr, kc) = (ker.rows(), ker.cols());
    if 1 <= kr && kr <= sr && 1 <= kc && kc <= sc {
        let h = sr - kr + 1;
        let w = sc - kc + 1;
        assert(h * w <= sr * sc) by (nonlinear_arith)
            requires
                0 <= h <= sr,
                0 <= w <= sc,
        ;
        Ok((h, w))
    } else {
        Err(ConvolveError::DimensionError)
    }
}

/// Allocates the zero-initialised output for `src` and `ker` and computes nothing: the
/// baseline against which the cost of the strategies is measured.
pub fn just_zero_fill(src: &Image<i32>, ker: &Image<i32>) -> (res: Result<
    Image<i32>,
    ConvolveError,
>)
    ensures
        match res {
            Ok(out) => kernel_fits(src@, ker@) && out@ == Grid::filled(
                output_rows(src@, ker@) as nat,
                output_cols(src@, ker@) as nat,
                0i32,
            ),
            Err(e) => !kernel_fits(src@, ker@) && e == ConvolveError::DimensionError,
        },
{
    let (h, w) = output_shape(src, ker)?;
    Image::filled(h, w, 0i32)
}

/// Convolves `src` with `ker` by the given strategy. The contract is the same for
/// every strategy.
pub fn convolve(src: &Image<i32>, ker: &Image<i32>, strategy: Strategy) -> (res: Result<
    Image<i32>,
    ConvolveError,
>)
    ensures
        convolves_to(src@, ker@, res),
{
    match strategy {
        Strategy::ElementIndexed => naive_convolve(src, ker),
        Strategy::FlattenedIndex => convolve_simple_skip_functions(src, ker),
        Strategy::RowView => convolve_some_slices(src, ker),
        Strategy::RowViewParallel => convolve_some_slices_par(src, ker),
    }
}

/// Element-indexed strategy: every read and every write goes through the bounds-checked
/// accessors of the grid.
#[verifier::loop_isolation(false)]
pub fn naive_convolve(src: &Image<i32>, ker: &Image<i32>) -> (res: Result<
    Image<i32>,
    ConvolveError,
>)
    ensures
        convolves_to(src@, ker@, res),
{
    let (h, w) = output_shape(src, ker)?;
    let mut output = Image::filled(h, w, 0i32)?;
    let (kh, kw) = (ker.rows(), ker.cols());
    proof {
        lemma_progress_start(output@, src@, ker@);
    }
    let mut r: usize = 0;
    while r < h
        invariant
            r <= h,
            in_progress(output@, src@, ker@, r as int, 0, 0),
        decreases h - r,
    {
        let mut c: usize = 0;
        while c < w
            invariant
                c <= w,
                in_progress(output@, src@, ker@, r as int, c as int, 0),
            decreases w - c,
        {
            let mut kr: usize = 0;
            while kr < kh
                invariant
                    kr <= kh,
                    in_progress(
                        output@,
                        src@,
                        ker@,
                        r as int,
                        c as int,
                        partial_sum(src@, ker@, r, c, kr, 0),
                    ),
                decreases kh - kr,
            {
                let mut kc: usize = 0;
                while kc < kw
                    invariant
                        kc <= kw,
                        in_progress(
                            output@,
                            src@,
                            ker@,
                            r as int,
                            c as int,
                            partial_sum(src@, ker@, r, c, kr, kc),
                        ),
                    decreases kw - kc,
                {
                    let s = *src.get_pixel(r + kr, c + kc)?;
                    let k = *ker.get_pixel(kr, kc)?;
                    let ghost before = output@;
                    let cell = output.get_pixel_mut(r, c)?;
                    *cell = mul_acc(*cell, s, k);
                    proof {
                        lemma_progress_step(
                            before,
                            src@,
                            ker@,
                            r as int,
                            c as int,
                            partial_sum(src@, ker@, r, c, kr, kc),
                            s * k,
                        );
                    }
                    kc = kc + 1;
                }
                kr = kr + 1;
            }
            proof {
                lemma_progress_next_cell(output@, src@, ker@, r as int, c as int);
            }
            c = c + 1;
        }
        proof {
            lemma_progress_next_row(output@, src@, ker@, r as int);
        }
        r = r + 1;
    }
    proof {
        lemma_progress_done(output@, src@, ker@);
    }
    Ok(output)
}

/// Flattened-index strategy: cells are read and written at their linear offsets in the
/// backing buffers, without going through the accessors.
#[verifier::loop_isolation(false)]
pub fn convolve_simple_skip_functions(src: &Image<i32>, ker: &Image<i32>) -> (res: Result<
    Image<i32>,
    ConvolveError,
>)
    ensures
        convolves_to(src@, ker@, res),
{
    let (h, w) = output_shape(src, ker)?;
    let (sr, sc) = (src.rows(), src.cols());
    let (kh, kw) = (ker.rows(), ker.cols());
    let src_cells = src.as_slice();
    let ker_cells = ker.as_slice();
    let mut data: Vec<i32> = vec![0i32; h * w];
    proof {
        assert(data@ =~= Seq::new((h * w) as nat, |i: int| 0i32));
        lemma_progress_start(flat(h, w, data@), src@, ker@);
    }
    let mut r: usize = 0;
    while r < h
        invariant
            r <= h,
            data.len() == h * w,
            in_progress(flat(h, w, data@), src@, ker@, r as int, 0, 0),
        decreases h - r,
    {
        let mut c: usize = 0;
        while c < w
            invariant
                c <= w,
                data.len() == h * w,
                in_progress(flat(h, w, data@), src@, ker@, r as int, c as int, 0),
            decreases w - c,
        {
            let mut kr: usize = 0;
            while kr < kh
                invariant
                    kr <= kh,
                    data.len() == h * w,
                    in_progress(
                        flat(h, w, data@),
                        src@,
                        ker@,
                        r as int,
                        c as int,
                        partial_sum(src@, ker@, r, c, kr, 0),
                    ),
                decreases kh - kr,
            {
                let mut kc: usize = 0;
                while kc < kw
                    invariant
                        kc <= kw,
                        data.len() == h * w,
                        in_progress(
                            flat(h, w, data@),
                            src@,
                            ker@,
                            r as int,
                            c as int,
                            partial_sum(src@, ker@, r, c, kr, kc),
                        ),
                    decreases kw - kc,
                {
                    proof {
                        lemma_offset_in_range(h as int, w as int, r as int, c as int);
                        lemma_offset_in_range(sr as int, sc as int, r + kr, c + kc);
                        lemma_offset_in_range(kh as int, kw as int, kr as int, kc as int);
                        lemma_progress_step(
                            flat(h, w, data@),
                            src@,
                            ker@,
                            r as int,
                            c as int,
                            partial_sum(src@, ker@, r, c, kr, kc),
                            src@.at(r + kr, c + kc) * ker@.at(kr as int, kc as int),
                        );
                    }
                    let at = r * w + c;
                    data[at] = mul_acc(
                        data[at],
                        src_cells[(r + kr) * sc + c + kc],
                        ker_cells[kr * kw + kc],
                    );
                    kc = kc + 1;
                }
                kr = kr + 1;
            }
            proof {
                lemma_progress_next_cell(flat(h, w, data@), src@, ker@, r as int, c as int);
            }
            c = c + 1;
        }
        proof {
            lemma_progress_next_row(flat(h, w, data@), src@, ker@, r as int);
        }
        r = r + 1;
    }
    proof {
        lemma_progress_done(flat(h, w, data@), src@, ker@);
    }
    Image::new(h, w, data)
}

/// The row kernel shared by the row-view strategies: adds to each cell of `out_row` the
/// sum that belongs to that column of output row `r`, reading the source and the kernel
/// one row view at a time.
#[verifier::loop_isolation(false)]
fn accumulate_row(src: &Image<i32>, ker: &Image<i32>, r: usize, out_row: &mut [i32]) -> (res:
    Result<(), ConvolveError>)
    requires
        kernel_fits(src@, ker@),
        r < output_rows(src@, ker@),
        old(out_row)@.len() == output_cols(src@, ker@),
    ensures
        res is Ok,
        final(out_row)@.len() == old(out_row)@.len(),
        forall|c: int|
            0 <= c < old(out_row)@.len() ==> #[trigger] final(out_row)@[c] == wrap_i32(
                old(out_row)@[c] + cell_sum(src@, ker@, r as int, c),
            ),
{
    let ghost start = out_row@;
    let w = out_row.len();
    let (sr, sc) = (src.rows(), src.cols());
    let (kh, kw) = (ker.rows(), ker.cols());
    let mut c: usize = 0;
    while c < w
        invariant
            c <= w,
            out_row@.len() == w,
            forall|j: int|
                0 <= j < c ==> #[trigger] out_row@[j] == wrap_i32(
                    start[j] + cell_sum(src@, ker@, r as int, j),
                ),
            forall|j: int| c <= j < w ==> #[trigger] out_row@[j] == start[j],
        decreases w - c,
    {
        let mut kr: usize = 0;
        while kr < kh
            invariant
                kr <= kh,
                out_row@.len() == w,
                forall|j: int|
                    0 <= j < w && j != c ==> #[trigger] out_row@[j] == (if j < c {
                        wrap_i32(start[j] + cell_sum(src@, ker@, r as int, j))
                    } else {
                        start[j]
                    }),
                out_row@[c as int] == wrap_i32(
                    start[c as int] + partial_sum(src@, ker@, r, c, kr, 0),
                ),
            decreases kh - kr,
        {
            let src_row = src.row(r + kr)?;
            let ker_row = ker.row(kr)?;
            let mut kc: usize = 0;
            while kc < kw
                invariant
                    kc <= kw,
                    out_row@.len() == w,
                    forall|j: int|
                        0 <= j < w && j != c ==> #[trigger] out_row@[j] == (if j < c {
                            wrap_i32(start[j] + cell_sum(src@, ker@, r as int, j))
                        } else {
                            start[j]
                        }),
                    out_row@[c as int] == wrap_i32(
                        start[c as int] + partial_sum(src@, ker@, r, c, kr, kc),
                    ),
                decreases kw - kc,
            {
                proof {
                    lemma_row_bounds(sr as int, sc as int, r + kr);
                    lemma_row_bounds(kh as int, kw as int, kr as int);
                    lemma_wrap_absorbs(
                        start[c as int] + partial_sum(src@, ker@, r, c, kr, kc),
                        src@.at(r + kr, c + kc) * ker@.at(kr as int, kc as int),
                    );
                }
                out_row[c] = mul_acc(out_row[c], src_row[c + kc], ker_row[kc]);
                kc = kc + 1;
            }
            kr = kr + 1;
        }
        c = c + 1;
    }
    Ok(())
}

/// Row-view strategy: one exclusive view of the output buffer is taken per output row,
/// and the inner loops index into row views of the output, the source and the kernel.
#[verifier::loop_isolation(false)]
pub fn convolve_some_slices(src: &Image<i32>, ker: &Image<i32>) -> (res: Result<
    Image<i32>,
    ConvolveError,
>)
    ensures
        convolves_to(src@, ker@, res),
{
    let (h, w) = output_shape(src, ker)?;
    let mut data: Vec<i32> = vec![0i32; h * w];
    proof {
        assert(data@ =~= Seq::new((h * w) as nat, |i: int| 0i32));
        lemma_progress_start(flat(h, w, data@), src@, ker@);
    }
    let mut r: usize = 0;
    while r < h
        invariant
            r <= h,
            data.len() == h * w,
            in_progress(flat(h, w, data@), src@, ker@, r as int, 0, 0),
        decreases h - r,
    {
        let ghost before = flat(h, w, data@);
        proof {
            lemma_row_bounds(h as int, w as int, r as int);
        }
        let out_row = row_view_mut(data.as_mut_slice(), w, r)?;
        accumulate_row(src, ker, r, out_row)?;
        proof {
            let row = data@.subrange(r * w, r * w + w);
            assert(data@ =~= before.with_row(r as int, row).cells);
            assert forall|c: int| 0 <= c < w implies #[trigger] row[c] == wrap_i32(
                cell_sum(src@, ker@, r as int, c),
            ) by {
                lemma_offset_in_range(h as int, w as int, r as int, c);
                assert(before.at(r as int, c) == 0i32);
            }
            lemma_progress_row(before, src@, ker@, r as int, row);
        }
        r = r + 1;
    }
    proof {
        lemma_progress_done(flat(h, w, data@), src@, ker@);
    }
    Image::new(h, w, data)
}

/// Output row `r` of the convolution, computed on its own into a fresh buffer: the unit
/// of work of the parallel strategy. `DimensionError` when the kernel does not fit;
/// otherwise `OutOfBounds` when the output has no row `r`.
pub fn convolve_row(src: &Image<i32>, ker: &Image<i32>, r: usize) -> (res: Result<
    Vec<i32>,
    ConvolveError,
>)
    ensures
        match res {
            Ok(row) => {
                &&& kernel_fits(src@, ker@)
                &&& r < output_rows(src@, ker@)
                &&& is_convolution_row(row@, src@, ker@, r as int)
            },
            Err(e) => if kernel_fits(src@, ker@) {
                r >= output_rows(src@, ker@) && e == ConvolveError::OutOfBounds
            } else {
                e == ConvolveError::DimensionError
            },
        },
{
    let (h, w) = output_shape(src, ker)?;
    if r >= h {
        return Err(ConvolveError::OutOfBounds);
    }
    let mut row: Vec<i32> = vec![0i32; w];
    accumulate_row(src, ker, r, row.as_mut_slice())?;
    Ok(row)
}

/// Row-view-parallel strategy: every output row is computed independently of the
/// others on a pool of worker threads, each row into a buffer that one worker owns, and
/// the rows are put together in order once all of them are done.
pub fn convolve_some_slices_par(src: &Image<i32>, ker: &Image<i32>) -> (res: Result<
    Image<i32>,
    ConvolveError,
>)
    ensures
        convolves_to(src@, ker@, res),
{
    let (h, w) = output_shape(src, ker)?;
    let one_row = |r: usize| -> (row: Result<Vec<i32>, ConvolveError>)
        ensures
            match row {
                Ok(cells) => r < output_rows(src@, ker@) && is_convolution_row(
                    cells@,
                    src@,
                    ker@,
                    r as int,
                ),
                Err(_) => r >= output_rows(src@, ker@),
            },
        { convolve_row(src, ker, r) };
    let rows = par_map_index(h, one_row);
    let output = stack_rows(h, w, rows)?;
    proof {
        assert forall|r: int, c: int| output@.in_bounds(r, c) implies #[trigger] output@.at(r, c)
            == wrap_i32(cell_sum(src@, ker@, r, c)) by {
            assert(rows@[r] is Ok);
        }
    }
    Ok(output)
}

/// Lays `h` rows of `w` cells each end to end, in order, as one grid.
#[verifier::loop_isolation(false)]
fn stack_rows(h: usize, w: usize, rows: Vec<Result<Vec<i32>, ConvolveError>>) -> (res: Result<
    Image<i32>,
    ConvolveError,
>)
    requires
        h * w <= usize::MAX,
        rows@.len() == h,
        forall|r: int|
            0 <= r < h ==> (#[trigger] rows@[r] matches Ok(cells) && cells@.len() == w),
    ensures
        res matches Ok(out) && out@.wf() && out@.rows == h && out@.cols == w && forall|
            r: int,
            c: int,
        |
            out@.in_bounds(r, c) ==> #[trigger] out@.at(r, c) == rows@[r]->Ok_0@[c],
{
    let mut data: Vec<i32> = Vec::with_capacity(h * w);
    let mut r: usize = 0;
    while r < h
        invariant
            r <= h,
            data@.len() == r * w,
            forall|r2: int, c2: int|
                0 <= r2 < r && 0 <= c2 < w ==> #[trigger] flat(r, w, data@).at(r2, c2)
                    == rows@[r2]->Ok_0@[c2],
        decreases h - r,
    {
        let ghost done = data@;
        let cells = match &rows[r] {
            Ok(cells) => cells,
            Err(e) => {
                return Err(*e);
            },
        };
        let mut c: usize = 0;
        while c < w
            invariant
                c <= w,
                data@ == done + cells@.subrange(0, c as int),
            decreases w - c,
        {
            data.push(cells[c]);
            c = c + 1;
        }
        proof {
            assert(r * w + w == (r + 1) * w) by (nonlinear_arith);
            assert forall|r2: int, c2: int| 0 <= r2 < r + 1 && 0 <= c2 < w implies #[trigger] flat(
                (r + 1) as usize,
                w,
                data@,
            ).at(r2, c2) == rows@[r2]->Ok_0@[c2] by {
                lemma_offset_in_range(r + 1, w as int, r2, c2);
                if r2 < r {
                    lemma_offset_in_range(r as int, w as int, r2, c2);
                    assert(flat(r, w, done).at(r2, c2) == data@[r2 * w + c2]);
                } else {
                    assert(data@[r * w + c2] == cells@[c2]);
                }
            }
        }
        r = r + 1;
    }
    let ghost cells = data@;
    let res = Image::new(h, w, data);
    proof {
        let out = res->Ok_0;
        assert forall|r2: int, c2: int| out@.in_bounds(r2, c2) implies #[trigger] out@.at(r2, c2)
            == rows@[r2]->Ok_0@[c2] by {
            assert(flat(h, w, cells).at(r2, c2) == rows@[r2]->Ok_0@[c2]);
        }
    }
    res
}

} // verus!
