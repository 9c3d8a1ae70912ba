//! A dense matrix of binary64 bit patterns, stored row by row.

use vstd::prelude::*;

verus! {

/// The mathematical content of a matrix: its shape and its cells in row-major
/// order.
pub struct Grid {
    pub rows: nat,
    pub cols: nat,
    pub cells: Seq<u64>,
}

impl Grid {
    /// The cell in row `i` and column `j`.
    pub open spec fn at(self, i: int, j: int) -> u64 {
        self.cells[i * self.cols + j]
    }

    /// There is one cell for each position.
    pub open spec fn well_formed(self) -> bool {
        self.cells.len() == self.rows * self.cols
    }
}

/// A dense `rows` by `cols` matrix.
#[derive(Debug, PartialEq, Eq)]
pub struct Matrix {
    rows: usize,
    cols: usize,
    cells: Vec<u64>,
}

/// The row-major position of a cell lies inside the storage.
pub proof fn lemma_cell_in_range(rows: int, cols: int, i: int, j: int)
    requires
        0 <= i < rows,
        0 <= j < cols,
    ensures
        0 <= i * cols + j < rows * cols,
        i * cols + cols <= rows * cols,
{
    assert(0 <= i * cols) by (nonlinear_arith)
        requires
            0 <= i,
            0 <= cols,
    ;
    assert((i + 1) * cols <= rows * cols) by (nonlinear_arith)
        requires
            i + 1 <= rows,
            0 <= cols,
    ;
    assert((i + 1) * cols == i * cols + cols) by (nonlinear_arith);
}

/// The cell that row-major storage with `cols` columns holds for row `i` and
/// column `j`.
spec fn stored(cells: Seq<u64>, cols: int, i: int, j: int) -> u64 {
    cells[i * cols + j]
}

impl View for Matrix {
    type V = Grid;

    closed spec fn view(&self) -> Grid {
        Grid { rows: self.rows as nat, cols: self.cols as nat, cells: self.cells@ }
    }
}

impl Matrix {
    #[verifier::type_invariant]
    spec fn inv(self) -> bool {
        self.cells@.len() == self.rows * self.cols && self.rows * self.cols <= usize::MAX
    }

    /// Builds a matrix from its cells in row-major order. The number of cells
    /// has to be `rows * cols`; with any other number there is no such matrix.
    pub fn from_cells(rows: usize, cols: usize, cells: Vec<u64>) -> (r: Option<Matrix>)
        ensures
            r is Some <==> cells@.len() == rows * cols,
            r matches Some(m) ==> m@ == (Grid {
                rows: rows as nat,
                cols: cols as nat,
                cells: cells@,
            }),
    {
        let given: usize = cells.len();
        match rows.checked_mul(cols) {
            Some(n) => {
                if given == n {
                    Some(Matrix { rows, cols, cells })
                } else {
                    None
                }
            },
            None => None,
        }
    }

    /// The number of rows.
    pub fn rows(&self) -> (r: usize)
        ensures
            r == self@.rows,
    {
        self.rows
    }

    /// The number of columns.
    pub fn cols(&self) -> (r: usize)
        ensures
            r == self@.cols,
    {
        self.cols
    }

    /// The cell in row `row` and column `col`, where there is one.
    pub fn get(&self, row: usize, col: usize) -> (r: Option<u64>)
        ensures
            r == if row < self@.rows && col < self@.cols {
                Some(self@.at(row as int, col as int))
            } else {
                None
            },
    {
        if row < self.rows && col < self.cols {
            proof {
                use_type_invariant(self);
                lemma_cell_in_range(self.rows as int, self.cols as int, row as int, col as int);
            }
            Some(self.cells[row * self.cols + col])
        } else {
            None
        }
    }

    /// The cell in row `row` and column `col` of a matrix that has one there.
    pub(crate) fn cell(&self, row: usize, col: usize) -> (r: u64)
        requires
            row < self@.rows,
            col < self@.cols,
        ensures
            r == self@.at(row as int, col as int),
    {
        proof {
            use_type_invariant(self);
            lemma_cell_in_range(self.rows as int, self.cols as int, row as int, col as int);
        }
        self.cells[row * self.cols + col]
    }

    /// The matrix made of the columns `picks[0]`, ..., `picks[count - 1]` of
    /// this one, in that order.
    pub(crate) fn columns(&self, picks: &Vec<usize>, count: usize) -> (r: Matrix)
        requires
            count <= picks@.len(),
            count <= self@.cols,
            forall|j: int| 0 <= j < count ==> picks@[j] < self@.cols,
        ensures
            r@.well_formed(),
            r@.rows == self@.rows,
            r@.cols == count,
            forall|i: int, j: int|
                0 <= i < self@.rows && 0 <= j < count ==> #[trigger] r@.at(i, j) == self@.at(
                    i,
                    picks@[j] as int,
                ),
    {
        proof {
            use_type_invariant(self);
        }
        let rows: usize = self.rows;
        let mut cells: Vec<u64> = Vec::new();
        let mut i: usize = 0;
        while i < rows
            invariant
                i <= rows,
                rows == self@.rows,
                count <= self@.cols,
                count <= picks@.len(),
                forall|b: int| 0 <= b < count ==> picks@[b] < self@.cols,
                cells@.len() == i * count,
                forall|a: int, b: int|
                    0 <= a < i && 0 <= b < count ==> #[trigger] stored(cells@, count as int, a, b)
                        == self@.at(a, picks@[b] as int),
            decreases rows - i,
        {
            let mut j: usize = 0;
            while j < count
                invariant
                    j <= count,
                    i < rows,
                    rows == self@.rows,
                    count <= self@.cols,
                    count <= picks@.len(),
                    forall|b: int| 0 <= b < count ==> picks@[b] < self@.cols,
                    cells@.len() == i * count + j,
                    forall|a: int, b: int|
                        0 <= a < i && 0 <= b < count ==> #[trigger] stored(
                            cells@,
                            count as int,
                            a,
                            b,
                        ) == self@.at(a, picks@[b] as int),
                    forall|b: int|
                        0 <= b < j ==> #[trigger] stored(cells@, count as int, i as int, b)
                            == self@.at(i as int, picks@[b] as int),
                decreases count - j,
            {
                let value: u64 = self.cell(i, picks[j]);
                let ghost before = cells@;
                cells.push(value);
                proof {
                    assert forall|a: int, b: int|
                        0 <= a < i && 0 <= b < count implies #[trigger] stored(
                        cells@,
                        count as int,
                        a,
                        b,
                    ) == self@.at(a, picks@[b] as int) by {
                        lemma_cell_in_range(i as int, count as int, a, b);
                        assert(stored(cells@, count as int, a, b) == stored(
                            before,
                            count as int,
                            a,
                            b,
                        ));
                    }
                    assert forall|b: int| 0 <= b < j + 1 implies #[trigger] stored(
                        cells@,
                        count as int,
                        i as int,
                        b,
                    ) == self@.at(i as int, picks@[b] as int) by {
                        if b < j {
                            assert(stored(cells@, count as int, i as int, b) == stored(
                                before,
                                count as int,
                                i as int,
                                b,
                            ));
                        }
                    }
                }
                j = j + 1;
            }
            proof {
                assert((i + 1) * count == i * count + count) by (nonlinear_arith);
            }
            i = i + 1;
        }
        proof {
            assert(rows * count <= rows * self.cols) by (nonlinear_arith)
                requires
                    count <= self.cols,
            ;
        }
        let r = Matrix { rows, cols: count, cells };
        proof {
            assert forall|i: int, j: int|
                0 <= i < self@.rows && 0 <= j < count implies #[trigger] r@.at(i, j) == self@.at(
                i,
                picks@[j] as int,
            ) by {
                assert(r@.at(i, j) == stored(r.cells@, count as int, i, j));
            }
        }
        r
    }

    /// Gives up the cells, in row-major order.
    pub fn into_cells(self) -> (r: Vec<u64>)
        ensures
            r@ == self@.cells,
            self@.well_formed(),
    {
        proof {
            use_type_invariant(&self);
        }
        self.cells
    }
}

} // verus!
