//! The screen model: a fixed-size matrix of cells read through a ring of
//! rows, and the cursor that walks over it.

use crate::matrix::{blank_grid, fits_memory, matrix_cells, matrix_shape, rectangular, CellMatrix};
use crate::ring::{
    lemma_logical_scroll, lemma_logical_update, lemma_ring_index, lemma_scrolled_twice, logical,
    ring_index, scroll_count, scrolled,
};
use vstd::prelude::*;

verus! {

/// A row index or a row count.
#[derive(Debug, Clone, Copy, PartialEq, Eq, Structural, PartialOrd, Ord, Hash)]
pub struct Row(pub u16);

/// A column index or a column count.
#[derive(Debug, Clone, Copy, PartialEq, Eq, Structural, PartialOrd, Ord, Hash)]
pub struct Col(pub u16);

/// An RGB triple.
#[derive(Debug, Clone, Copy, PartialEq, Eq, Structural)]
pub struct Color {
    pub r: u8,
    pub g: u8,
    pub b: u8,
}

impl Color {
    pub open spec fn spec_black() -> Color {
        Color { r: 0, g: 0, b: 0 }
    }

    pub open spec fn spec_white() -> Color {
        Color { r: 255, g: 255, b: 255 }
    }

    #[verifier::when_used_as_spec(spec_black)]
    pub fn black() -> (color: Color)
        ensures
            color == Color::spec_black(),
    {
        Color { r: 0, g: 0, b: 0 }
    }

    #[verifier::when_used_as_spec(spec_white)]
    pub fn white() -> (color: Color)
        ensures
            color == Color::spec_white(),
    {
        Color { r: 255, g: 255, b: 255 }
    }

    pub fn new(r: u8, g: u8, b: u8) -> (color: Color)
        ensures
            color == (Color { r, g, b }),
    {
        Color { r, g, b }
    }
}

/// The shape in which the cursor is drawn.
#[derive(Debug, Clone, Copy, PartialEq, Eq, Structural)]
pub enum CursorStyle {
    Block,
    Beam,
    Underline,
}

impl Default for CursorStyle {
    fn default() -> (style: CursorStyle)
        ensures
            style == CursorStyle::Block,
    {
        CursorStyle::Block
    }
}

/// Where the cursor stands and how it is drawn.
#[derive(Debug, Clone, Copy, PartialEq, Eq)]
pub struct Cursor {
    pub position: (Row, Col),
    pub color: Color,
    pub style: CursorStyle,
    pub visible: bool,
}

impl Cursor {
    /// The cursor of a fresh screen: top left, white, a visible block.
    pub open spec fn spec_default() -> Cursor {
        Cursor {
            position: (Row(0), Col(0)),
            color: Color::spec_white(),
            style: CursorStyle::Block,
            visible: true,
        }
    }
}

impl Default for Cursor {
    fn default() -> (cursor: Cursor)
        ensures
            cursor == Cursor::spec_default(),
    {
        Cursor {
            position: (Row(0), Col(0)),
            color: Color::white(),
            style: CursorStyle::Block,
            visible: true,
        }
    }
}

pub const NORMAL: u8 = 0x00;

pub const BOLD: u8 = 0x01;

pub const DIM: u8 = 0x02;

pub const ITALIC: u8 = 0x04;

pub const UNDERSCORE: u8 = 0x08;

pub const BLINK_SLOW: u8 = 0x10;

pub const BLINK_FAST: u8 = 0x20;

pub const REVERSE: u8 = 0x40;

pub const STRIKE: u8 = 0x80;

/// A set of style flags, one bit each; the byte is what goes on the wire.
#[derive(Debug, Clone, Copy, PartialEq, Eq, Structural)]
pub struct CellStyle {
    pub bits: u8,
}

impl CellStyle {
    /// The flags of `self` that are also in `other` are not none.
    pub open spec fn spec_intersects(self, other: CellStyle) -> bool {
        self.bits & other.bits != 0
    }

    /// Every flag of `other` is in `self`.
    pub open spec fn spec_contains(self, other: CellStyle) -> bool {
        self.bits & other.bits == other.bits
    }

    pub open spec fn spec_union(self, other: CellStyle) -> CellStyle {
        CellStyle { bits: self.bits | other.bits }
    }

    pub fn from_bits(bits: u8) -> (style: CellStyle)
        ensures
            style.bits == bits,
    {
        CellStyle { bits }
    }

    pub fn bits(&self) -> (bits: u8)
        ensures
            bits == self.bits,
    {
        self.bits
    }

    pub fn normal() -> (style: CellStyle)
        ensures
            style.bits == NORMAL,
    {
        CellStyle { bits: NORMAL }
    }

    pub fn bold() -> (style: CellStyle)
        ensures
            style.bits == BOLD,
    {
        CellStyle { bits: BOLD }
    }

    pub fn dim() -> (style: CellStyle)
        ensures
            style.bits == DIM,
    {
        CellStyle { bits: DIM }
    }

    pub fn italic() -> (style: CellStyle)
        ensures
            style.bits == ITALIC,
    {
        CellStyle { bits: ITALIC }
    }

    pub fn underscore() -> (style: CellStyle)
        ensures
            style.bits == UNDERSCORE,
    {
        CellStyle { bits: UNDERSCORE }
    }

    pub fn blink_slow() -> (style: CellStyle)
        ensures
            style.bits == BLINK_SLOW,
    {
        CellStyle { bits: BLINK_SLOW }
    }

    pub fn blink_fast() -> (style: CellStyle)
        ensures
            style.bits == BLINK_FAST,
    {
        CellStyle { bits: BLINK_FAST }
    }

    pub fn reverse() -> (style: CellStyle)
        ensures
            style.bits == REVERSE,
    {
        CellStyle { bits: REVERSE }
    }

    pub fn strike() -> (style: CellStyle)
        ensures
            style.bits == STRIKE,
    {
        CellStyle { bits: STRIKE }
    }

    #[verifier::when_used_as_spec(spec_intersects)]
    pub fn intersects(self, other: CellStyle) -> (hit: bool)
        ensures
            hit == self.spec_intersects(other),
    {
        self.bits & other.bits != 0
    }

    #[verifier::when_used_as_spec(spec_contains)]
    pub fn contains(self, other: CellStyle) -> (all: bool)
        ensures
            all == self.spec_contains(other),
    {
        self.bits & other.bits == other.bits
    }

    #[verifier::when_used_as_spec(spec_union)]
    pub fn union(self, other: CellStyle) -> (both: CellStyle)
        ensures
            both == self.spec_union(other),
    {
        CellStyle { bits: self.bits | other.bits }
    }

    pub fn is_empty(&self) -> (empty: bool)
        ensures
            empty == (self.bits == NORMAL),
    {
        self.bits == 0
    }
}

impl Default for CellStyle {
    fn default() -> (style: CellStyle)
        ensures
            style.bits == NORMAL,
    {
        CellStyle { bits: NORMAL }
    }
}

/// One character position of the screen.
#[derive(Debug, Clone, Copy, PartialEq, Eq)]
pub struct Cell {
    pub style: CellStyle,
    pub foreground: Color,
    pub background: Color,
    pub content: Option<char>,
}

impl Cell {
    /// A blank cell: no flag, white on black, nothing written.
    pub open spec fn spec_default() -> Cell {
        Cell {
            style: CellStyle { bits: NORMAL },
            foreground: Color::spec_white(),
            background: Color::spec_black(),
            content: None,
        }
    }

    /// What a read outside the screen gives: a reversed, black on black dot.
    pub open spec fn spec_out_of_bounds() -> Cell {
        Cell {
            style: CellStyle { bits: REVERSE },
            foreground: Color::spec_black(),
            background: Color::spec_black(),
            content: Some('.'),
        }
    }

    #[verifier::when_used_as_spec(spec_out_of_bounds)]
    pub fn out_of_bounds() -> (cell: Cell)
        ensures
            cell == Cell::spec_out_of_bounds(),
    {
        Cell {
            style: CellStyle { bits: REVERSE },
            foreground: Color::black(),
            background: Color::black(),
            content: Some('.'),
        }
    }
}

impl Default for Cell {
    fn default() -> (cell: Cell)
        ensures
            cell == Cell::spec_default(),
    {
        Cell {
            style: CellStyle { bits: NORMAL },
            foreground: Color::white(),
            background: Color::black(),
            content: None,
        }
    }
}

/// The cells of the screen: the matrix, and the physical row that is
/// read as the first.
#[derive(Debug)]
pub struct Grid {
    cells: CellMatrix,
    top: usize,
}

impl Grid {
    /// The number of rows.
    pub closed spec fn rows(&self) -> nat {
        matrix_shape(self.cells).0
    }

    /// The number of columns.
    pub closed spec fn columns(&self) -> nat {
        matrix_shape(self.cells).1
    }

    /// The physical row that backs the logical row 0.
    pub closed spec fn top(&self) -> nat {
        self.top as nat
    }

    /// The physical rows, as the matrix stores them.
    pub closed spec fn stored(&self) -> Seq<Seq<Cell>> {
        matrix_cells(self.cells)
    }

    /// The logical rows, first row first: row `r` is the physical row
    /// `(r + top) mod rows`.
    pub open spec fn cells(&self) -> Seq<Seq<Cell>> {
        logical(self.stored(), self.top() as int, self.rows() as int)
    }

    /// What holds of every grid: the matrix has the shape it was made with,
    /// neither side above sixteen bits, and the top is a row of it.
    pub open spec fn inv(&self) -> bool {
        &&& rectangular(self.stored(), (self.rows(), self.columns()))
        &&& fits_memory(self.rows(), self.columns())
        &&& (self.top() < self.rows() || (self.rows() == 0 && self.top() == 0))
    }

    /// The logical rows fill the grid's sides as the physical rows do.
    pub proof fn lemma_cells_rectangular(&self)
        requires
            self.inv(),
        ensures
            rectangular(self.cells(), (self.rows(), self.columns())),
    {
        assert forall|r: int| 0 <= r < self.rows() implies 0 <= #[trigger] ring_index(
            r,
            self.top() as int,
            self.rows() as int,
        ) < self.rows() by {
            lemma_ring_index(r, self.top() as int, self.rows() as int);
        }
    }

    /// A blank grid of `rows` by `cols` cells whose first logical row is
    /// the physical row `top`.
    pub(crate) fn blank(rows: Row, cols: Col, top: Row) -> (grid: Grid)
        requires
            fits_memory(rows.0 as nat, cols.0 as nat),
            top.0 < rows.0 || (rows.0 == 0 && top.0 == 0),
        ensures
            grid.inv(),
            grid.rows() == rows.0,
            grid.columns() == cols.0,
            grid.top() == top.0,
            grid.cells() == blank_grid(rows.0 as nat, cols.0 as nat),
    {
        let grid = Grid {
            cells: CellMatrix::blank(rows.0 as usize, cols.0 as usize),
            top: top.0 as usize,
        };
        proof {
            assert forall|r: int| 0 <= r < rows.0 implies 0 <= #[trigger] ring_index(
                r,
                top.0 as int,
                rows.0 as int,
            ) < rows.0 by {
                lemma_ring_index(r, top.0 as int, rows.0 as int);
            }
            assert(grid.cells() =~= blank_grid(rows.0 as nat, cols.0 as nat));
        }
        grid
    }

    pub(crate) fn shape(&self) -> (shape: (u16, u16))
        requires
            self.inv(),
        ensures
            shape.0 == self.rows(),
            shape.1 == self.columns(),
    {
        let (rows, cols) = self.cells.dim();
        (rows as u16, cols as u16)
    }
}

impl Row {
    /// The physical row behind this logical row of `state`, where the
    /// screen has such a row.
    pub(crate) fn realize(self, state: &State) -> (index: Option<usize>)
        requires
            state.grid.inv(),
        ensures
            self.0 < state.spec_rows() ==> index == Some(
                ring_index(self.0 as int, state.grid.top() as int, state.spec_rows() as int) as usize,
            ) && index.unwrap() < state.spec_rows(),
            self.0 >= state.spec_rows() ==> index.is_none(),
    {
        let rows = state.grid.shape().0;
        if self.0 >= rows {
            None
        } else {
            proof {
                lemma_ring_index(self.0 as int, state.grid.top as int, rows as int);
            }
            Some((self.0 as usize + state.grid.top) % (rows as usize))
        }
    }
}

impl Col {
    /// The physical column behind this column of `state`, which is the
    /// column itself, where the screen has such a column.
    pub(crate) fn realize(self, state: &State) -> (index: Option<usize>)
        requires
            state.grid.inv(),
        ensures
            self.0 < state.spec_columns() ==> index == Some(self.0 as usize),
            self.0 >= state.spec_columns() ==> index.is_none(),
    {
        if self.0 >= state.grid.shape().1 {
            None
        } else {
            Some(self.0 as usize)
        }
    }
}

impl Clone for Grid {
    /// A second grid that holds the same cells behind the same top.
    fn clone(&self) -> (grid: Grid)
        ensures
            grid.rows() == self.rows(),
            grid.columns() == self.columns(),
            grid.top() == self.top(),
            grid.stored() == self.stored(),
            grid.cells() == self.cells(),
            self.inv() ==> grid.inv(),
    {
        Grid { cells: self.cells.duplicate(), top: self.top }
    }
}

/// The screen: the grid of cells and the cursor.
#[derive(Debug)]
pub struct State {
    pub grid: Grid,
    pub cursor: Cursor,
}

/// What a screen is, as mathematics: its sides, the ring's top, the
/// logical rows of cells, first row first, and the cursor.
pub ghost struct Screen {
    pub rows: nat,
    pub cols: nat,
    pub top: nat,
    pub cells: Seq<Seq<Cell>>,
    pub cursor: Cursor,
}

impl Screen {
    /// The cursor's row.
    pub open spec fn row(self) -> int {
        self.cursor.position.0.0 as int
    }

    /// The cursor's column.
    pub open spec fn col(self) -> int {
        self.cursor.position.1.0 as int
    }

    /// The cells fill the sides, the sides are such that the machine holds
    /// the cells, and the top is one of the rows.
    pub open spec fn sound(self) -> bool {
        &&& rectangular(self.cells, (self.rows, self.cols))
        &&& fits_memory(self.rows, self.cols)
        &&& (self.top < self.rows || (self.rows == 0 && self.top == 0))
    }

    /// The screen is sound and has at least one cell: commands can be
    /// applied to it.
    pub open spec fn usable(self) -> bool {
        &&& self.sound()
        &&& self.rows > 0
        &&& self.cols > 0
    }

    /// The cursor stands on a cell of the screen.
    pub open spec fn contained(self) -> bool {
        &&& 0 <= self.row() < self.rows
        &&& 0 <= self.col() < self.cols
    }

    /// The cell at `(row, col)`, and the out-of-bounds cell outside the
    /// screen.
    pub open spec fn cell_at(self, row: int, col: int) -> Cell {
        if 0 <= row < self.rows && 0 <= col < self.cols {
            self.cells[row][col]
        } else {
            Cell::spec_out_of_bounds()
        }
    }

    /// The same screen with the cursor at `(row, col)`.
    pub open spec fn cursor_at(self, row: int, col: int) -> Screen {
        Screen {
            cursor: Cursor { position: (Row(row as u16), Col(col as u16)), ..self.cursor },
            ..self
        }
    }
}

impl View for State {
    type V = Screen;

    open spec fn view(&self) -> Screen {
        Screen {
            rows: self.grid.rows(),
            cols: self.grid.columns(),
            top: self.grid.top(),
            cells: self.grid.cells(),
            cursor: self.cursor,
        }
    }
}

impl State {
    /// The number of rows.
    pub open spec fn spec_rows(&self) -> nat {
        self.grid.rows()
    }

    /// The number of columns.
    pub open spec fn spec_columns(&self) -> nat {
        self.grid.columns()
    }

    /// The cell at `(row, col)`, and the out-of-bounds cell outside the
    /// screen.
    pub open spec fn spec_cell(&self, row: int, col: int) -> Cell {
        self@.cell_at(row, col)
    }

    /// A screen that commands can be applied to: the grid is sound and
    /// has at least one cell.
    pub open spec fn usable(&self) -> bool {
        &&& self.grid.inv()
        &&& self.spec_rows() > 0
        &&& self.spec_columns() > 0
    }

    /// A state with a sound grid is a sound screen.
    pub proof fn lemma_view_sound(&self)
        requires
            self.grid.inv(),
        ensures
            self@.sound(),
            self.usable() ==> self@.usable(),
    {
        self.grid.lemma_cells_rectangular();
    }

    /// Whether the cursor stands on a cell of the screen.
    pub fn is_contained(&self) -> (ok: bool)
        requires
            self.grid.inv(),
        ensures
            ok == self@.contained(),
    {
        let (rows, cols) = self.grid.shape();
        self.cursor.position.0.0 < rows && self.cursor.position.1.0 < cols
    }

    /// A blank screen of `rows` by `cols` cells, the cursor at the top left.
    pub fn with_dimensions(rows: Row, cols: Col) -> (state: State)
        requires
            fits_memory(rows.0 as nat, cols.0 as nat),
        ensures
            state.grid.inv(),
            state.spec_rows() == rows.0,
            state.spec_columns() == cols.0,
            state.grid.top() == 0,
            state.grid.cells() == blank_grid(rows.0 as nat, cols.0 as nat),
            state.cursor == Cursor::spec_default(),
    {
        State::blank_at(rows, cols, Row(0))
    }

    /// A blank screen of `rows` by `cols` cells whose first logical row is
    /// the physical row `top`, the cursor at the top left.
    pub(crate) fn blank_at(rows: Row, cols: Col, top: Row) -> (state: State)
        requires
            fits_memory(rows.0 as nat, cols.0 as nat),
            top.0 < rows.0 || (rows.0 == 0 && top.0 == 0),
        ensures
            state.grid.inv(),
            state.spec_rows() == rows.0,
            state.spec_columns() == cols.0,
            state.grid.top() == top.0,
            state.grid.cells() == blank_grid(rows.0 as nat, cols.0 as nat),
            state.cursor == Cursor::spec_default(),
    {
        State { grid: Grid::blank(rows, cols, top), cursor: Cursor::default() }
    }

    /// The physical row that backs the first logical row.
    pub fn top(&self) -> (top: Row)
        requires
            self.grid.inv(),
        ensures
            top.0 == self.grid.top(),
    {
        Row(self.grid.top as u16)
    }

    /// The cell at `(row, col)`; outside the screen, the out-of-bounds
    /// cell.
    pub fn cell(&self, row: Row, col: Col) -> (cell: Cell)
        requires
            self.grid.inv(),
        ensures
            cell == self.spec_cell(row.0 as int, col.0 as int),
    {
        let r = match row.realize(self) {
            Some(r) => r,
            None => { return Cell::out_of_bounds(); },
        };
        let c = match col.realize(self) {
            Some(c) => c,
            None => { return Cell::out_of_bounds(); },
        };
        match self.grid.cells.get(r, c) {
            Some(cell) => *cell,
            None => Cell::out_of_bounds(),
        }
    }

    /// A mutable reference to the cell at `(row, col)`, through which that
    /// cell alone changes; outside the screen there is none, and nothing
    /// changes.
    pub fn cell_mut(&mut self, row: Row, col: Col) -> (cell: Option<&mut Cell>)
        requires
            old(self).grid.inv(),
        ensures
            final(self).grid.inv(),
            final(self).spec_rows() == old(self).spec_rows(),
            final(self).spec_columns() == old(self).spec_columns(),
            final(self).grid.top() == old(self).grid.top(),
            final(self).cursor == old(self).cursor,
            row.0 < old(self).spec_rows() && col.0 < old(self).spec_columns() ==> cell.is_some()
                && *cell.unwrap() == old(self).grid.cells()[row.0 as int][col.0 as int]
                && final(self).grid.cells() == old(self).grid.cells().update(
                row.0 as int,
                old(self).grid.cells()[row.0 as int].update(col.0 as int, *final(cell.unwrap())),
            ),
            row.0 >= old(self).spec_rows() || col.0 >= old(self).spec_columns() ==> cell.is_none()
                && final(self).grid.cells() == old(self).grid.cells(),
    {
        let rcol = match col.realize(self) {
            Some(c) => c,
            None => { return None; },
        };
        let rrow = match row.realize(self) {
            Some(r) => r,
            None => { return None; },
        };
        proof {
            let stored = self.grid.stored();
            let shape = (self.grid.rows(), self.grid.columns());
            assert forall|value: Cell|
                rectangular(
                    stored.update(rrow as int, #[trigger] stored[rrow as int].update(rcol as int, value)),
                    shape,
                ) && logical(
                    stored.update(rrow as int, stored[rrow as int].update(rcol as int, value)),
                    self.grid.top() as int,
                    shape.0 as int,
                ) == self.grid.cells().update(
                    row.0 as int,
                    self.grid.cells()[row.0 as int].update(col.0 as int, value),
                ) by {
                lemma_logical_update(
                    stored,
                    self.grid.top() as int,
                    shape,
                    row.0 as int,
                    col.0 as int,
                    value,
                );
            }
            lemma_ring_index(row.0 as int, self.grid.top() as int, shape.0 as int);
        }
        self.grid.cells.get_mut(rrow, rcol)
    }

    /// Scrolls the screen by `min(rows, R)` rows, `R` being the number of
    /// rows: each step clears the physical row at the top and moves the top
    /// one row on, round the ring. The cursor stays where it is.
    pub fn scroll_down(&mut self, rows: Row)
        requires
            old(self).grid.inv(),
        ensures
            final(self).grid.inv(),
            final(self).spec_rows() == old(self).spec_rows(),
            final(self).spec_columns() == old(self).spec_columns(),
            final(self).cursor == old(self).cursor,
            final(self).grid.cells() == scrolled(
                old(self).grid.cells(),
                scroll_count(rows.0 as int, old(self).spec_rows() as int),
                old(self).spec_columns(),
            ),
            old(self).spec_rows() > 0 ==> final(self).grid.top() == ring_index(
                scroll_count(rows.0 as int, old(self).spec_rows() as int),
                old(self).grid.top() as int,
                old(self).spec_rows() as int,
            ),
            old(self).spec_rows() == 0 ==> final(self).grid.top() == 0,
    {
        let (height, width) = self.grid.shape();
        let to_clear: u16 = if rows.0 < height {
            rows.0
        } else {
            height
        };
        let ghost start = self.grid;
        proof {
            assert(self.grid.cells() =~= scrolled(start.cells(), 0, start.columns()));
            if height > 0 {
                lemma_ring_index(0, start.top() as int, height as int);
            }
        }
        let mut done: u16 = 0;
        while done < to_clear
            invariant
                done <= to_clear <= height,
                self.grid.inv(),
                self.grid.rows() == height,
                self.grid.columns() == width,
                start.rows() == height,
                start.columns() == width,
                start.top() < height || height == 0,
                self.cursor == old(self).cursor,
                self.grid.cells() == scrolled(start.cells(), done as int, width as nat),
                height > 0 ==> self.grid.top() == if done < height {
                    ring_index(done as int, start.top() as int, height as int)
                } else {
                    start.top() as int
                },
            decreases to_clear - done,
        {
            proof {
                lemma_logical_scroll(
                    self.grid.stored(),
                    self.grid.top() as int,
                    (height as nat, width as nat),
                );
                lemma_scrolled_twice(start.cells(), done as int, 1, width as nat);
                lemma_ring_index(done as int, start.top() as int, height as int);
                if done + 1 < height {
                    lemma_ring_index(done + 1, start.top() as int, height as int);
                }
                if self.grid.top() + 1 < height {
                    vstd::arithmetic::div_mod::lemma_small_mod(
                        (self.grid.top() + 1) as nat,
                        height as nat,
                    );
                } else {
                    vstd::arithmetic::div_mod::lemma_mod_self_0(height as int);
                }
            }
            self.grid.cells.fill_row(self.grid.top, Cell::default());
            self.grid.top = (self.grid.top + 1) % (height as usize);
            done = done + 1;
        }
        proof {
            if height > 0 && to_clear == height {
                vstd::arithmetic::div_mod::lemma_mod_add_multiples_vanish(
                    start.top() as int,
                    height as int,
                );
                vstd::arithmetic::div_mod::lemma_small_mod(start.top(), height as nat);
            }
        }
    }

    /// The number of rows.
    pub fn rows(&self) -> (rows: Row)
        requires
            self.grid.inv(),
        ensures
            rows.0 == self.spec_rows(),
    {
        Row(self.grid.shape().0)
    }

    /// The number of columns.
    pub fn columns(&self) -> (cols: Col)
        requires
            self.grid.inv(),
        ensures
            cols.0 == self.spec_columns(),
    {
        Col(self.grid.shape().1)
    }
}

impl Clone for State {
    /// A second screen that shows the same as this one.
    fn clone(&self) -> (state: State)
        ensures
            state.spec_rows() == self.spec_rows(),
            state.spec_columns() == self.spec_columns(),
            state.grid.top() == self.grid.top(),
            state.grid.cells() == self.grid.cells(),
            state.cursor == self.cursor,
            self.grid.inv() ==> state.grid.inv(),
    {
        State { grid: self.grid.clone(), cursor: self.cursor }
    }
}

impl Default for State {
    /// A blank screen of 24 rows and 80 columns.
    fn default() -> (state: State)
        ensures
            state.usable(),
            state@.contained(),
            state.spec_rows() == 24,
            state.spec_columns() == 80,
            state.grid.top() == 0,
            state.grid.cells() == blank_grid(24, 80),
            state.cursor == Cursor::spec_default(),
    {
        State::with_dimensions(Row(24), Col(80))
    }
}

} // verus!
