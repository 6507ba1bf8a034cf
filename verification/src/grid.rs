use vstd::prelude::*;

verus! {

/// The mathematical model of a dense rectangular field: `rows * cols` cells laid out
/// row after row, with no gap between rows.
pub struct Grid<T> {
    pub rows: nat,
    pub cols: nat,
    pub cells: Seq<T>,
}

impl<T> Grid<T> {
    /// The cell sequence has exactly one entry per position.
    pub open spec fn wf(self) -> bool {
        self.cells.len() == self.rows * self.cols
    }

    /// The grid is well formed and small enough to be held in memory: its dimensions
    /// and its number of cells are addressable.
    pub open spec fn storable(self) -> bool {
        &&& self.wf()
        &&& self.rows <= usize::MAX
        &&& self.cols <= usize::MAX
        &&& self.cells.len() <= usize::MAX
    }

    /// `(r, c)` names a position of the grid.
    pub open spec fn in_bounds(self, r: int, c: int) -> bool {
        0 <= r < self.rows && 0 <= c < self.cols
    }

    /// The cell at position `(r, c)`: the one stored at offset `r * cols + c`.
    pub open spec fn at(self, r: int, c: int) -> T {
        self.cells[r * self.cols + c]
    }

    /// Row `r` as a sequence of `cols` cells.
    pub open spec fn row(self, r: int) -> Seq<T> {
        self.cells.subrange(r * self.cols, r * self.cols + self.cols)
    }

    /// The grid with the cell at `(r, c)` replaced by `value`.
    pub open spec fn with_cell(self, r: int, c: int, value: T) -> Grid<T> {
        Grid { rows: self.rows, cols: self.cols, cells: self.cells.update(r * self.cols + c, value) }
    }

    /// The grid with row `r` replaced by `cells`.
    pub open spec fn with_row(self, r: int, cells: Seq<T>) -> Grid<T> {
        Grid {
            rows: self.rows,
            cols: self.cols,
            cells: self.cells.subrange(0, r * self.cols) + cells + self.cells.subrange(
                r * self.cols + self.cols,
                self.cells.len() as int,
            ),
        }
    }

    /// A grid of the given shape with `value` in every cell.
    pub open spec fn filled(rows: nat, cols: nat, value: T) -> Grid<T> {
        Grid { rows, cols, cells: Seq::new(rows * cols, |i: int| value) }
    }
}

/// The offset of an in-bounds position lies within its row, and the row within the
/// cell sequence.
pub proof fn lemma_offset_in_range(rows: int, cols: int, r: int, c: int)
    requires
        0 <= r < rows,
        0 <= c < cols,
    ensures
        0 <= r * cols <= r * cols + c < r * cols + cols <= rows * cols,
{
    assert(0 <= r * cols) by (nonlinear_arith)
        requires
            0 <= r,
            0 <= cols,
    ;
    assert(r * cols + cols <= rows * cols) by (nonlinear_arith)
        requires
            r + 1 <= rows,
            0 <= cols,
    ;
}

/// Row `r` of a grid starts and ends within the cell sequence.
pub proof fn lemma_row_bounds(rows: int, cols: int, r: int)
    requires
        0 <= r < rows,
        0 <= cols,
    ensures
        0 <= r * cols <= r * cols + cols <= rows * cols,
{
    assert(0 <= r * cols) by (nonlinear_arith)
        requires
            0 <= r,
            0 <= cols,
    ;
    assert(r * cols + cols <= rows * cols) by (nonlinear_arith)
        requires
            r + 1 <= rows,
            0 <= cols,
    ;
}

/// Positions that are stored at the same offset are the same position.
pub proof fn lemma_offset_unique(cols: int, r1: int, c1: int, r2: int, c2: int)
    requires
        0 <= c1 < cols,
        0 <= c2 < cols,
        r1 * cols + c1 == r2 * cols + c2,
    ensures
        r1 == r2,
        c1 == c2,
{
    if r1 < r2 {
        assert(r1 * cols + cols <= r2 * cols) by (nonlinear_arith)
            requires
                r1 + 1 <= r2,
                0 <= cols,
        ;
    } else if r2 < r1 {
        assert(r2 * cols + cols <= r1 * cols) by (nonlinear_arith)
            requires
                r2 + 1 <= r1,
                0 <= cols,
        ;
    }
}

/// Every offset of a grid is the offset of one in-bounds position.
pub proof fn lemma_offset_position(rows: int, cols: int, i: int) -> (pos: (int, int))
    requires
        0 <= i < rows * cols,
        0 <= rows,
        0 <= cols,
    ensures
        0 <= pos.0 < rows,
        0 <= pos.1 < cols,
        pos.0 * cols + pos.1 == i,
{
    assert(cols > 0) by (nonlinear_arith)
        requires
            0 <= i < rows * cols,
            0 <= cols,
    ;
    let r = i / cols;
    let c = i % cols;
    vstd::arithmetic::div_mod::lemma_fundamental_div_mod(i, cols);
    vstd::arithmetic::div_mod::lemma_mod_bound(i, cols);
    assert(cols * r == r * cols) by (nonlinear_arith);
    assert(0 <= r) by (nonlinear_arith)
        requires
            r * cols + c == i,
            0 <= i,
            0 <= c < cols,
    ;
    assert(r < rows) by (nonlinear_arith)
        requires
            r * cols + c == i,
            i < rows * cols,
            0 <= c < cols,
    ;
    (r, c)
}

/// Two well-formed grids of one shape that agree at every position are the same grid.
pub proof fn lemma_grid_ext<T>(a: Grid<T>, b: Grid<T>)
    requires
        a.wf(),
        b.wf(),
        a.rows == b.rows,
        a.cols == b.cols,
        forall|r: int, c: int| a.in_bounds(r, c) ==> #[trigger] a.at(r, c) == b.at(r, c),
    ensures
        a == b,
{
    assert forall|i: int| 0 <= i < a.cells.len() implies a.cells[i] == b.cells[i] by {
        let (r, c) = lemma_offset_position(a.rows as int, a.cols as int, i);
        assert(a.at(r, c) == b.at(r, c));
    }
    assert(a.cells =~= b.cells);
}

/// Replacing one cell changes that position and no other.
pub proof fn lemma_with_cell<T>(g: Grid<T>, r: int, c: int, value: T)
    requires
        g.wf(),
        g.in_bounds(r, c),
    ensures
        g.with_cell(r, c, value).wf(),
        g.with_cell(r, c, value).at(r, c) == value,
        forall|r2: int, c2: int|
            g.in_bounds(r2, c2) && (r2 != r || c2 != c) ==> #[trigger] g.with_cell(
                r,
                c,
                value,
            ).at(r2, c2) == g.at(r2, c2),
{
    lemma_offset_in_range(g.rows as int, g.cols as int, r, c);
    assert forall|r2: int, c2: int| g.in_bounds(r2, c2) && (r2 != r || c2 != c) implies #[trigger] g.with_cell(
        r,
        c,
        value,
    ).at(r2, c2) == g.at(r2, c2) by {
        lemma_offset_in_range(g.rows as int, g.cols as int, r2, c2);
        if r2 * g.cols + c2 == r * g.cols + c {
            lemma_offset_unique(g.cols as int, r, c, r2, c2);
        }
    }
}

/// Replacing one row changes the positions of that row and no others.
pub proof fn lemma_with_row<T>(g: Grid<T>, r: int, cells: Seq<T>)
    requires
        g.wf(),
        0 <= r < g.rows,
        cells.len() == g.cols,
    ensures
        g.with_row(r, cells).wf(),
        g.with_row(r, cells).row(r) == cells,
        forall|c: int| 0 <= c < g.cols ==> #[trigger] g.with_row(r, cells).at(r, c) == cells[c],
        forall|r2: int, c2: int|
            g.in_bounds(r2, c2) && r2 != r ==> #[trigger] g.with_row(r, cells).at(r2, c2) == g.at(
                r2,
                c2,
            ),
{
    let h = g.with_row(r, cells);
    lemma_row_bounds(g.rows as int, g.cols as int, r);
    assert(h.row(r) =~= cells);
    assert forall|r2: int, c2: int| g.in_bounds(r2, c2) && r2 != r implies #[trigger] h.at(r2, c2)
        == g.at(r2, c2) by {
        lemma_offset_in_range(g.rows as int, g.cols as int, r2, c2);
        if r2 < r {
            assert(r2 * g.cols + g.cols <= r * g.cols) by (nonlinear_arith)
                requires
                    r2 + 1 <= r,
                    0 <= g.cols,
            ;
        } else {
            assert(r * g.cols + g.cols <= r2 * g.cols) by (nonlinear_arith)
                requires
                    r + 1 <= r2,
                    0 <= g.cols,
            ;
        }
    }
}

} // verus!
