//! The cell matrix, kept in an `ndarray::Array2`.
//!
//! Nothing in this file is proved: each function states what the `ndarray`
//! method it calls does to the matrix, and the rest of the crate is proved
//! from these statements.

use crate::state::Cell;
use vstd::prelude::*;

verus! {

/// A two-dimensional array of cells, row-major, of a shape fixed when it is
/// made.
#[verifier::external_body]
#[derive(Debug)]
pub struct CellMatrix {
    inner: ndarray::Array2<Cell>,
}

/// The cells of the matrix, one sequence for each row.
pub uninterp spec fn matrix_cells(m: CellMatrix) -> Seq<Seq<Cell>>;

/// The shape that the matrix was made with: rows, then columns.
pub uninterp spec fn matrix_shape(m: CellMatrix) -> (nat, nat);

/// `cells` holds `shape.0` rows of `shape.1` cells each.
pub open spec fn rectangular(cells: Seq<Seq<Cell>>, shape: (nat, nat)) -> bool {
    &&& cells.len() == shape.0
    &&& forall|r: int| 0 <= r < cells.len() ==> (#[trigger] cells[r]).len() == shape.1
}

/// A row of `cols` copies of `cell`.
pub open spec fn row_of(cols: nat, cell: Cell) -> Seq<Cell> {
    Seq::new(cols, |c: int| cell)
}

/// `rows` rows of `cols` blank cells each.
pub open spec fn blank_grid(rows: nat, cols: nat) -> Seq<Seq<Cell>> {
    Seq::new(rows, |r: int| row_of(cols, Cell::spec_default()))
}

/// The shapes for which a matrix is made: neither side above sixteen bits,
/// and the cells, at sixteen bytes each at most, within the address space.
pub open spec fn fits_memory(rows: nat, cols: nat) -> bool {
    &&& rows <= u16::MAX
    &&& cols <= u16::MAX
    &&& rows * cols * 16 <= isize::MAX
}

impl CellMatrix {
    /// `Array2::default` with the shape `(rows, cols)`: every element is
    /// `Cell::default()`. It panics where the product of the sides that are
    /// not zero overflows `isize`, which `fits_memory` leaves out.
    #[verifier::external_body]
    pub(crate) fn blank(rows: usize, cols: usize) -> (m: CellMatrix)
        requires
            fits_memory(rows as nat, cols as nat),
        ensures
            matrix_shape(m) == (rows as nat, cols as nat),
            matrix_cells(m) == blank_grid(rows as nat, cols as nat),
    {
        CellMatrix { inner: ndarray::Array2::default((rows, cols)) }
    }

    /// `Clone::clone` of the array: a second matrix of the same shape that
    /// holds the same cells.
    #[verifier::external_body]
    pub(crate) fn duplicate(&self) -> (m: CellMatrix)
        ensures
            matrix_shape(m) == matrix_shape(*self),
            matrix_cells(m) == matrix_cells(*self),
    {
        CellMatrix { inner: self.inner.clone() }
    }

    /// `ArrayBase::dim`: the shape, as a pair.
    #[verifier::external_body]
    pub(crate) fn dim(&self) -> (shape: (usize, usize))
        ensures
            matrix_shape(*self) == (shape.0 as nat, shape.1 as nat),
    {
        self.inner.dim()
    }

    /// `ArrayBase::get` with the index `[row, col]`: the element there, or
    /// `None` where either index is outside the shape.
    #[verifier::external_body]
    pub(crate) fn get(&self, row: usize, col: usize) -> (cell: Option<&Cell>)
        ensures
            row < matrix_shape(*self).0 && col < matrix_shape(*self).1 ==> cell == Some(
                &matrix_cells(*self)[row as int][col as int],
            ),
            row >= matrix_shape(*self).0 || col >= matrix_shape(*self).1 ==> cell.is_none(),
    {
        self.inner.get([row, col])
    }

    /// `ArrayBase::get_mut` with the index `[row, col]`: a mutable reference
    /// to the element there, through which that element alone changes, or
    /// `None` where either index is outside the shape.
    #[verifier::external_body]
    pub(crate) fn get_mut(&mut self, row: usize, col: usize) -> (cell: Option<&mut Cell>)
        ensures
            matrix_shape(*final(self)) == matrix_shape(*old(self)),
            row < matrix_shape(*old(self)).0 && col < matrix_shape(*old(self)).1 ==> cell.is_some()
                && *cell.unwrap() == matrix_cells(*old(self))[row as int][col as int]
                && matrix_cells(*final(self)) == matrix_cells(*old(self)).update(
                row as int,
                matrix_cells(*old(self))[row as int].update(col as int, *final(cell.unwrap())),
            ),
            row >= matrix_shape(*old(self)).0 || col >= matrix_shape(*old(self)).1
                ==> cell.is_none() && matrix_cells(*final(self)) == matrix_cells(*old(self)),
    {
        self.inner.get_mut([row, col])
    }

    /// `ArrayBase::row_mut` and `ArrayBase::fill` on the view it gives: every
    /// element of the row becomes a clone of `cell`, the other rows stay.
    /// `row_mut` panics on a row outside the shape.
    #[verifier::external_body]
    pub(crate) fn fill_row(&mut self, row: usize, cell: Cell)
        requires
            row < matrix_shape(*old(self)).0,
        ensures
            matrix_shape(*final(self)) == matrix_shape(*old(self)),
            matrix_cells(*final(self)) == matrix_cells(*old(self)).update(
                row as int,
                row_of(matrix_shape(*old(self)).1, cell),
            ),
    {
        self.inner.row_mut(row).fill(cell)
    }
}

} // verus!
