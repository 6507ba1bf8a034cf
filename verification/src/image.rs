use vstd::prelude::*;
use crate::error::ConvolveError;
use crate::grid::Grid;
use crate::grid::lemma_offset_in_range;
use crate::grid::lemma_row_bounds;

verus! {

/// A dense two-dimensional buffer addressed by (row, column) and backed by a single
/// contiguous vector in row-major order. The shape is fixed at construction.
#[derive(Debug, PartialEq, Eq)]
pub struct Image<T> {
    rows: usize,
    cols: usize,
    data: Vec<T>,
}

impl<T> View for Image<T> {
    type V = Grid<T>;

    closed spec fn view(&self) -> Grid<T> {
        Grid { rows: self.rows as nat, cols: self.cols as nat, cells: self.data@ }
    }
}

impl<T> Image<T> {
    #[verifier::type_invariant]
    spec fn inv(&self) -> bool {
        self.data.len() == self.rows * self.cols
    }

    /// Wraps `data` as a grid of `rows` by `cols` cells, row after row. Refused with
    /// `DimensionError` unless `data` holds exactly `rows * cols` elements.
    pub fn new(rows: usize, cols: usize, data: Vec<T>) -> (res: Result<Image<T>, ConvolveError>)
        ensures
            match res {
                Ok(img) => {
                    &&& data@.len() == rows * cols
                    &&& img@ == (Grid { rows: rows as nat, cols: cols as nat, cells: data@ })
                    &&& img@.storable()
                },
                Err(e) => data@.len() != rows * cols && e == ConvolveError::DimensionError,
            },
    {
        let len = data.len();
        match rows.checked_mul(cols) {
            Some(n) => {
                if n == len {
                    Ok(Image { rows, cols, data })
                } else {
                    Err(ConvolveError::DimensionError)
                }
            },
            None => Err(ConvolveError::DimensionError),
        }
    }

    /// A grid of `rows` by `cols` cells, each holding `value`. Refused with
    /// `DimensionError` when `rows * cols` is more than a buffer can hold.
    pub fn filled(rows: usize, cols: usize, value: T) -> (res: Result<Image<T>, ConvolveError>) where
        T: Copy,

        ensures
            match res {
                Ok(img) => {
                    &&& rows * cols <= usize::MAX
                    &&& img@ == Grid::filled(rows as nat, cols as nat, value)
                    &&& img@.storable()
                },
                Err(e) => rows * cols > usize::MAX && e == ConvolveError::DimensionError,
            },
    {
        match rows.checked_mul(cols) {
            Some(n) => {
                let mut data: Vec<T> = Vec::with_capacity(n);
                let mut i: usize = 0;
                while i < n
                    invariant
                        i <= n,
                        data@.len() == i,
                        forall|j: int| 0 <= j < i ==> data@[j] == value,
                    decreases n - i,
                {
                    data.push(value);
                    i = i + 1;
                }
                assert(data@ =~= Seq::new((rows * cols) as nat, |j: int| value));
                Ok(Image { rows, cols, data })
            },
            None => Err(ConvolveError::DimensionError),
        }
    }

    /// The number of rows.
    pub fn rows(&self) -> (n: usize)
        ensures
            n == self@.rows,
            self@.storable(),
    {
        proof {
            use_type_invariant(self);
        }
        self.rows
    }

    /// The number of columns.
    pub fn cols(&self) -> (n: usize)
        ensures
            n == self@.cols,
            self@.storable(),
    {
        proof {
            use_type_invariant(self);
        }
        self.cols
    }

    /// The whole backing buffer, row after row.
    pub fn as_slice(&self) -> (cells: &[T])
        ensures
            cells@ == self@.cells,
            self@.storable(),
    {
        proof {
            use_type_invariant(self);
        }
        self.data.as_slice()
    }

    /// The cell at `(row, col)`, or `OutOfBounds` when the position is outside the grid.
    pub fn get_pixel(&self, row: usize, col: usize) -> (res: Result<&T, ConvolveError>)
        ensures
            self@.storable(),
            match res {
                Ok(cell) => self@.in_bounds(row as int, col as int) && *cell == self@.at(
                    row as int,
                    col as int,
                ),
                Err(e) => !self@.in_bounds(row as int, col as int) && e
                    == ConvolveError::OutOfBounds,
            },
    {
        proof {
            use_type_invariant(self);
        }
        if row < self.rows && col < self.cols {
            proof {
                lemma_offset_in_range(self.rows as int, self.cols as int, row as int, col as int);
            }
            Ok(&self.data[row * self.cols + col])
        } else {
            Err(ConvolveError::OutOfBounds)
        }
    }

    /// Exclusive access to the cell at `(row, col)`, or `OutOfBounds` when the position
    /// is outside the grid. Whatever is written through the reference becomes the cell;
    /// nothing else changes.
    pub fn get_pixel_mut(&mut self, row: usize, col: usize) -> (res: Result<
        &mut T,
        ConvolveError,
    >)
        ensures
            old(self)@.storable(),
            final(self)@.storable(),
            match res {
                Ok(cell) => old(self)@.in_bounds(row as int, col as int) && *cell == old(self)@.at(
                    row as int,
                    col as int,
                ) && final(self)@ == old(self)@.with_cell(row as int, col as int, *final(cell)),
                Err(e) => !old(self)@.in_bounds(row as int, col as int) && e
                    == ConvolveError::OutOfBounds && final(self)@ == old(self)@,
            },
    {
        proof {
            use_type_invariant(&*self);
        }
        if row < self.rows && col < self.cols {
            proof {
                lemma_offset_in_range(self.rows as int, self.cols as int, row as int, col as int);
            }
            Ok(&mut self.data[row * self.cols + col])
        } else {
            Err(ConvolveError::OutOfBounds)
        }
    }

    /// A view of row `row`: exactly `cols` cells. `OutOfBounds` when there is no such row.
    pub fn row(&self, row: usize) -> (res: Result<&[T], ConvolveError>)
        ensures
            self@.storable(),
            match res {
                Ok(cells) => row < self@.rows && cells@ == self@.row(row as int) && cells@.len()
                    == self@.cols,
                Err(e) => row >= self@.rows && e == ConvolveError::OutOfBounds,
            },
    {
        proof {
            use_type_invariant(self);
        }
        if row < self.rows {
            proof {
                lemma_row_bounds(self.rows as int, self.cols as int, row as int);
            }
            let start = row * self.cols;
            Ok(vstd::slice::slice_subrange(self.data.as_slice(), start, start + self.cols))
        } else {
            Err(ConvolveError::OutOfBounds)
        }
    }
}

/// An exclusive view of row `row` of a row-major buffer with `cols` columns: exactly
/// `cols` cells. What the view holds when it is given up becomes the row; the cells of
/// the other rows stay. `OutOfBounds` when the buffer does not reach to the end of
/// that row.
pub fn row_view_mut<T>(cells: &mut [T], cols: usize, row: usize) -> (res: Result<
    &mut [T],
    ConvolveError,
>)
    ensures
        match res {
            Ok(view) => {
                &&& row * cols + cols <= old(cells)@.len()
                &&& view@ == old(cells)@.subrange(row * cols, row * cols + cols)
                &&& final(cells)@ == old(cells)@.subrange(0, row * cols) + final(view)@ + old(
                    cells,
                )@.subrange(row * cols + cols, old(cells)@.len() as int)
            },
            Err(e) => {
                &&& row * cols + cols > old(cells)@.len()
                &&& e == ConvolveError::OutOfBounds
                &&& final(cells)@ == old(cells)@
            },
        },
{
    let len = cells.len();
    let start = match row.checked_mul(cols) {
        Some(start) => start,
        None => {
            return Err(ConvolveError::OutOfBounds);
        },
    };
    if start > len || cols > len - start {
        return Err(ConvolveError::OutOfBounds);
    }
    let (_, tail) = cells.split_at_mut(start);
    let (view, _) = tail.split_at_mut(cols);
    Ok(view)
}

} // verus!
