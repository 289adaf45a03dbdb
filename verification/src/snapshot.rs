//! A screen on the wire: six bytes for the sides and the ring's top,
//! twelve for the cursor, and twelve for each cell, logical row after
//! logical row.

use crate::input::{char_of, is_scalar, lemma_char_bytes};
use crate::matrix::{fits_memory, rectangular};
use crate::msg::Wire;
use crate::state::{Cell, CellStyle, Col, Color, Cursor, CursorStyle, Row, Screen, State};
use crate::wire::{get_le, le_bytes, le_value, lemma_le_bytes_len, lemma_le_round_trip, lemma_le_value_bound, lemma_pow256, put_le};
use vstd::prelude::*;

verus! {

/// The bytes of the header: the sides, the top and the cursor.
pub const HEADER: usize = 18;

/// The bytes of one cell.
pub const CELL: usize = 12;

/// The three channels of a color.
pub open spec fn color_payload(color: Color) -> Seq<u8> {
    seq![color.r, color.g, color.b]
}

/// The number that stands for a cursor style.
pub open spec fn style_tag(style: CursorStyle) -> nat {
    match style {
        CursorStyle::Block => 0,
        CursorStyle::Beam => 1,
        CursorStyle::Underline => 2,
    }
}

/// The twelve bytes of a cursor: row and column in two bytes each, the
/// color, the style's number in four bytes, and one byte that is 1 for a
/// visible cursor and 0 for a hidden one.
pub open spec fn cursor_payload(cursor: Cursor) -> Seq<u8> {
    le_bytes(cursor.position.0.0 as nat, 2) + le_bytes(cursor.position.1.0 as nat, 2)
        + color_payload(cursor.color) + le_bytes(style_tag(cursor.style), 4) + seq![
        if cursor.visible {
            1u8
        } else {
            0u8
        },
    ]
}

/// The cursor that twelve bytes stand for, where they stand for one.
pub open spec fn parse_cursor(bytes: Seq<u8>) -> Option<Cursor> {
    let tag = le_value(bytes.subrange(7, 11));
    if bytes.len() == 12 && tag <= 2 && bytes[11] <= 1 {
        Some(
            Cursor {
                position: (
                    Row(le_value(bytes.subrange(0, 2)) as u16),
                    Col(le_value(bytes.subrange(2, 4)) as u16),
                ),
                color: Color { r: bytes[4], g: bytes[5], b: bytes[6] },
                style: if tag == 0 {
                    CursorStyle::Block
                } else if tag == 1 {
                    CursorStyle::Beam
                } else {
                    CursorStyle::Underline
                },
                visible: bytes[11] == 1,
            },
        )
    } else {
        None
    }
}

/// The one byte of a style: its flags, one bit each.
pub open spec fn style_payload(style: CellStyle) -> Seq<u8> {
    seq![style.bits]
}

/// The style that `bytes` stand for, where they stand for one: every
/// single byte is a style, and nothing else is.
pub open spec fn parse_style(bytes: Seq<u8>) -> Option<CellStyle> {
    if bytes.len() == 1 {
        Some(CellStyle { bits: bytes[0] })
    } else {
        None
    }
}

/// The twelve bytes of a cell: the style byte, the two colors, then a
/// byte that is 1 before a character's scalar value in four bytes, and 0
/// before four zero bytes where the cell holds no character.
pub open spec fn cell_payload(cell: Cell) -> Seq<u8> {
    style_payload(cell.style) + color_payload(cell.foreground) + color_payload(cell.background)
        + match cell.content {
        Some(c) => seq![1u8] + le_bytes(c as nat, 4),
        None => seq![0u8, 0u8, 0u8, 0u8, 0u8],
    }
}

/// The cell that twelve bytes stand for, where they stand for one.
pub open spec fn parse_cell(bytes: Seq<u8>) -> Option<Cell> {
    let value = le_value(bytes.subrange(8, 12));
    if bytes.len() == 12 && (if bytes[7] == 0 {
        value == 0
    } else {
        bytes[7] == 1 && is_scalar(value)
    }) {
        Some(
            Cell {
                style: CellStyle { bits: bytes[0] },
                foreground: Color { r: bytes[1], g: bytes[2], b: bytes[3] },
                background: Color { r: bytes[4], g: bytes[5], b: bytes[6] },
                content: if bytes[7] == 0 {
                    None
                } else {
                    Some(value as char)
                },
            },
        )
    } else {
        None
    }
}

/// The bytes of the first `upto` cells of a row.
pub open spec fn row_payload(row: Seq<Cell>, upto: nat) -> Seq<u8>
    decreases upto,
{
    if upto == 0 {
        Seq::empty()
    } else {
        row_payload(row, (upto - 1) as nat) + cell_payload(row[upto - 1])
    }
}

/// The bytes of the first `upto` rows of `cols` cells each.
pub open spec fn cells_payload(cells: Seq<Seq<Cell>>, upto: nat, cols: nat) -> Seq<u8>
    decreases upto,
{
    if upto == 0 {
        Seq::empty()
    } else {
        cells_payload(cells, (upto - 1) as nat, cols) + row_payload(cells[upto - 1], cols)
    }
}

/// The bytes that stand for a screen.
pub open spec fn screen_payload(screen: Screen) -> Seq<u8> {
    le_bytes(screen.rows, 2) + le_bytes(screen.cols, 2) + le_bytes(screen.top, 2) + cursor_payload(
        screen.cursor,
    ) + cells_payload(screen.cells, screen.rows, screen.cols)
}

/// Where the bytes of the cell at `(row, col)` begin in the payload of a
/// screen of `cols` columns.
pub open spec fn cell_offset(row: int, col: int, cols: int) -> int {
    HEADER + CELL * (row * cols + col)
}

/// The twelve bytes of `bytes` for the cell at `(row, col)`.
pub open spec fn cell_bytes(bytes: Seq<u8>, row: int, col: int, cols: int) -> Seq<u8> {
    bytes.subrange(cell_offset(row, col, cols), cell_offset(row, col, cols) + CELL)
}

/// The screen that `bytes` stand for, where they stand for one: the top
/// is a row of the screen, the sides are such that the machine holds the
/// cells, cursor and cells are well written, and no byte is missing and
/// none follows.
pub open spec fn parse_screen(bytes: Seq<u8>) -> Option<Screen> {
    if bytes.len() < HEADER {
        None
    } else {
        let rows = le_value(bytes.subrange(0, 2));
        let cols = le_value(bytes.subrange(2, 4));
        let top = le_value(bytes.subrange(4, 6));
        let cursor = parse_cursor(bytes.subrange(6, 18));
        if (top < rows || (rows == 0 && top == 0)) && fits_memory(rows, cols) && cursor.is_some()
            && bytes.len() == HEADER + CELL * (rows * cols) && (forall|r: int, c: int|
            0 <= r < rows && 0 <= c < cols ==> (#[trigger] parse_cell(
                cell_bytes(bytes, r, c, cols as int),
            )).is_some()) {
            Some(
                Screen {
                    rows,
                    cols,
                    top,
                    cells: Seq::new(
                        rows,
                        |r: int|
                            Seq::new(
                                cols,
                                |c: int| parse_cell(cell_bytes(bytes, r, c, cols as int)).unwrap(),
                            ),
                    ),
                    cursor: cursor.unwrap(),
                },
            )
        } else {
            None
        }
    }
}

impl Color {
    /// Appends the three channels to `out`.
    pub fn encode_into(&self, out: &mut Vec<u8>)
        ensures
            final(out)@ == old(out)@ + color_payload(*self),
    {
        out.push(self.r);
        out.push(self.g);
        out.push(self.b);
        assert(out@ =~= old(out)@ + color_payload(*self));
    }
}

impl Cursor {
    /// Appends the twelve bytes of the cursor to `out`.
    pub fn encode_into(&self, out: &mut Vec<u8>)
        ensures
            final(out)@ == old(out)@ + cursor_payload(*self),
    {
        put_le(out, self.position.0.0 as u64, 2);
        put_le(out, self.position.1.0 as u64, 2);
        self.color.encode_into(out);
        let tag: u64 = match self.style {
            CursorStyle::Block => 0,
            CursorStyle::Beam => 1,
            CursorStyle::Underline => 2,
        };
        put_le(out, tag, 4);
        out.push(if self.visible {
            1
        } else {
            0
        });
        assert(out@ =~= old(out)@ + cursor_payload(*self));
    }

    /// The cursor that the twelve bytes of `bytes` from `at` on stand
    /// for; `None` where they stand for none.
    pub fn decode(bytes: &[u8], at: usize) -> (cursor: Option<Cursor>)
        requires
            at + 12 <= bytes@.len(),
        ensures
            cursor == parse_cursor(bytes@.subrange(at as int, at + 12)),
    {
        let total = bytes.len();
        let ghost part = bytes@.subrange(at as int, at + 12);
        proof {
            assert(part.subrange(0, 2) =~= bytes@.subrange(at as int, at + 2));
            assert(part.subrange(2, 4) =~= bytes@.subrange(at + 2, at + 4));
            assert(part.subrange(7, 11) =~= bytes@.subrange(at + 7, at + 11));
            lemma_le_value_bound(part.subrange(0, 2));
            lemma_le_value_bound(part.subrange(2, 4));
            lemma_pow256(2);
        }
        let row = get_le(bytes, at, 2);
        let col = get_le(bytes, at + 2, 2);
        let tag = get_le(bytes, at + 7, 4);
        let visible = bytes[at + 11];
        if tag > 2 || visible > 1 {
            return None;
        }
        Some(
            Cursor {
                position: (Row(row as u16), Col(col as u16)),
                color: Color { r: bytes[at + 4], g: bytes[at + 5], b: bytes[at + 6] },
                style: if tag == 0 {
                    CursorStyle::Block
                } else if tag == 1 {
                    CursorStyle::Beam
                } else {
                    CursorStyle::Underline
                },
                visible: visible == 1,
            },
        )
    }
}

impl Cell {
    /// Appends the twelve bytes of the cell to `out`.
    pub fn encode_into(&self, out: &mut Vec<u8>)
        ensures
            final(out)@ == old(out)@ + cell_payload(*self),
    {
        out.push(self.style.bits);
        self.foreground.encode_into(out);
        self.background.encode_into(out);
        match self.content {
            Some(c) => {
                proof {
                    lemma_char_bytes(c);
                }
                out.push(1);
                put_le(out, c as u64, 4);
            },
            None => {
                out.push(0);
                out.push(0);
                out.push(0);
                out.push(0);
                out.push(0);
            },
        }
        assert(out@ =~= old(out)@ + cell_payload(*self));
    }

    /// The cell that the twelve bytes of `bytes` from `at` on stand for;
    /// `None` where they stand for none.
    pub fn decode(bytes: &[u8], at: usize) -> (cell: Option<Cell>)
        requires
            at + 12 <= bytes@.len(),
        ensures
            cell == parse_cell(bytes@.subrange(at as int, at + 12)),
    {
        let total = bytes.len();
        let ghost part = bytes@.subrange(at as int, at + 12);
        proof {
            assert(part.subrange(8, 12) =~= bytes@.subrange(at + 8, at + 12));
            lemma_le_value_bound(part.subrange(8, 12));
            lemma_pow256(4);
        }
        let value = get_le(bytes, at + 8, 4);
        let has = bytes[at + 7];
        let content = if has == 0 {
            if value != 0 {
                return None;
            }
            None
        } else if has == 1 {
            match char_of(value as u32) {
                Some(c) => Some(c),
                None => {
                    return None;
                },
            }
        } else {
            return None;
        };
        Some(
            Cell {
                style: CellStyle { bits: bytes[at] },
                foreground: Color { r: bytes[at + 1], g: bytes[at + 2], b: bytes[at + 3] },
                background: Color { r: bytes[at + 4], g: bytes[at + 5], b: bytes[at + 6] },
                content,
            },
        )
    }
}

/// The bytes of a cell are twelve, and the cell is read back from them.
pub proof fn lemma_cell_round_trip(cell: Cell)
    ensures
        cell_payload(cell).len() == CELL,
        parse_cell(cell_payload(cell)) == Some(cell),
{
    let bytes = cell_payload(cell);
    lemma_pow256(4);
    match cell.content {
        Some(c) => {
            lemma_char_bytes(c);
            assert(bytes.subrange(8, 12) =~= le_bytes(c as nat, 4));
        },
        None => {
            let zeros = bytes.subrange(8, 12);
            assert(zeros =~= seq![0u8, 0u8, 0u8, 0u8]);
            reveal_with_fuel(le_value, 5);
            assert(zeros.drop_first() =~= seq![0u8, 0u8, 0u8]);
            assert(zeros.drop_first().drop_first() =~= seq![0u8, 0u8]);
            assert(zeros.drop_first().drop_first().drop_first() =~= seq![0u8]);
            assert(zeros.drop_first().drop_first().drop_first().drop_first() =~= Seq::<u8>::empty());
        },
    }
}

/// The bytes of a cursor are twelve, and the cursor is read back from
/// them.
pub proof fn lemma_cursor_round_trip(cursor: Cursor)
    ensures
        cursor_payload(cursor).len() == 12,
        parse_cursor(cursor_payload(cursor)) == Some(cursor),
{
    let bytes = cursor_payload(cursor);
    let row = cursor.position.0.0 as nat;
    let col = cursor.position.1.0 as nat;
    lemma_pow256(2);
    lemma_pow256(4);
    lemma_le_bytes_len(row, 2);
    lemma_le_bytes_len(col, 2);
    lemma_le_bytes_len(style_tag(cursor.style), 4);
    lemma_le_round_trip(row, 2);
    lemma_le_round_trip(col, 2);
    lemma_le_round_trip(style_tag(cursor.style), 4);
    assert(bytes.subrange(0, 2) =~= le_bytes(row, 2));
    assert(bytes.subrange(2, 4) =~= le_bytes(col, 2));
    assert(bytes.subrange(7, 11) =~= le_bytes(style_tag(cursor.style), 4));
}

/// The cells of a screen are counted row after row: the cell at
/// `(row, col)` is one of them, and the bytes of a row follow those of the
/// row above.
pub proof fn lemma_cell_offset(row: int, col: int, rows: int, cols: int)
    requires
        0 <= row < rows,
        0 <= col < cols,
    ensures
        0 <= row * cols + col < rows * cols,
        (row + 1) * cols == row * cols + cols,
        cell_offset(row, col, cols) + CELL <= HEADER + CELL * (rows * cols),
{
    assert((row + 1) * cols == row * cols + cols) by (nonlinear_arith);
    assert((row + 1) * cols <= rows * cols) by (nonlinear_arith)
        requires
            row + 1 <= rows,
            cols >= 0,
    ;
    assert(row * cols >= 0) by (nonlinear_arith)
        requires
            row >= 0,
            cols >= 0,
    ;
}

/// The bytes of the first `upto` cells of a row are twelve for each, and
/// the twelve of a cell are the cell's.
pub proof fn lemma_row_payload(row: Seq<Cell>, upto: nat, col: int)
    requires
        0 <= col < upto <= row.len(),
    ensures
        row_payload(row, upto).len() == CELL * upto,
        row_payload(row, upto).subrange(CELL * col, CELL * col + CELL) == cell_payload(row[col]),
    decreases upto,
{
    lemma_row_payload_len(row, upto);
    lemma_row_payload_len(row, (upto - 1) as nat);
    lemma_cell_round_trip(row[upto - 1]);
    if col < upto - 1 {
        lemma_row_payload(row, (upto - 1) as nat, col);
        assert(row_payload(row, upto).subrange(CELL * col, CELL * col + CELL) =~= row_payload(
            row,
            (upto - 1) as nat,
        ).subrange(CELL * col, CELL * col + CELL));
    } else {
        assert(row_payload(row, upto).subrange(CELL * col, CELL * col + CELL) =~= cell_payload(
            row[col],
        ));
    }
}

/// The bytes of the first `upto` cells of a row are twelve for each.
pub proof fn lemma_row_payload_len(row: Seq<Cell>, upto: nat)
    requires
        upto <= row.len(),
    ensures
        row_payload(row, upto).len() == CELL * upto,
    decreases upto,
{
    if upto > 0 {
        lemma_row_payload_len(row, (upto - 1) as nat);
        lemma_cell_round_trip(row[upto - 1]);
    }
}

/// The bytes of the first `upto` rows are twelve for each cell.
pub proof fn lemma_cells_payload_len(cells: Seq<Seq<Cell>>, upto: nat, cols: nat)
    requires
        upto <= cells.len(),
        forall|r: int| 0 <= r < cells.len() ==> (#[trigger] cells[r]).len() == cols,
    ensures
        cells_payload(cells, upto, cols).len() == CELL * (upto * cols),
    decreases upto,
{
    if upto > 0 {
        lemma_cells_payload_len(cells, (upto - 1) as nat, cols);
        lemma_row_payload_len(cells[upto - 1], cols);
        assert(upto * cols == (upto - 1) * cols + cols) by (nonlinear_arith);
    } else {
        assert(upto * cols == 0) by (nonlinear_arith)
            requires
                upto == 0,
        ;
    }
}

/// Among the bytes of the first `upto` rows, the twelve of the cell at
/// `(row, col)` are the cell's.
pub proof fn lemma_cells_payload(cells: Seq<Seq<Cell>>, upto: nat, cols: nat, row: int, col: int)
    requires
        0 <= row < upto <= cells.len(),
        0 <= col < cols,
        forall|r: int| 0 <= r < cells.len() ==> (#[trigger] cells[r]).len() == cols,
    ensures
        cells_payload(cells, upto, cols).len() == CELL * (upto * cols),
        cells_payload(cells, upto, cols).subrange(
            CELL * (row * cols + col),
            CELL * (row * cols + col) + CELL,
        ) == cell_payload(cells[row][col]),
    decreases upto,
{
    let all = cells_payload(cells, upto, cols);
    let above = cells_payload(cells, (upto - 1) as nat, cols);
    let at = CELL * (row * cols + col);
    lemma_cells_payload_len(cells, upto, cols);
    lemma_cells_payload_len(cells, (upto - 1) as nat, cols);
    lemma_cell_offset(row, col, upto as int, cols as int);
    if row < upto - 1 {
        lemma_cells_payload(cells, (upto - 1) as nat, cols, row, col);
        lemma_cell_offset(row, col, upto - 1, cols as int);
        assert(all.subrange(at, at + CELL) =~= above.subrange(at, at + CELL));
    } else {
        lemma_row_payload(cells[row], cols, col);
        assert(all.subrange(at, at + CELL) =~= row_payload(cells[row], cols).subrange(
            CELL * col,
            CELL * col + CELL,
        ));
    }
}

/// Codec round trip, for screens: a screen is read back from the bytes
/// that stand for it.
pub proof fn lemma_screen_round_trip(screen: Screen)
    requires
        screen.sound(),
    ensures
        parse_screen(screen_payload(screen)) == Some(screen),
{
    let bytes = screen_payload(screen);
    let body = cells_payload(screen.cells, screen.rows, screen.cols);
    lemma_pow256(2);
    lemma_le_bytes_len(screen.rows, 2);
    lemma_le_bytes_len(screen.cols, 2);
    lemma_le_bytes_len(screen.top, 2);
    lemma_le_round_trip(screen.rows, 2);
    lemma_le_round_trip(screen.cols, 2);
    lemma_le_round_trip(screen.top, 2);
    lemma_cursor_round_trip(screen.cursor);
    lemma_cells_payload_len(screen.cells, screen.rows, screen.cols);
    assert(bytes.subrange(0, 2) =~= le_bytes(screen.rows, 2));
    assert(bytes.subrange(2, 4) =~= le_bytes(screen.cols, 2));
    assert(bytes.subrange(4, 6) =~= le_bytes(screen.top, 2));
    assert(bytes.subrange(6, 18) =~= cursor_payload(screen.cursor));
    assert forall|r: int, c: int| 0 <= r < screen.rows && 0 <= c < screen.cols implies #[trigger] parse_cell(
        cell_bytes(bytes, r, c, screen.cols as int),
    ) == Some(screen.cells[r][c]) by {
        lemma_cells_payload(screen.cells, screen.rows, screen.cols, r, c);
        lemma_cell_offset(r, c, screen.rows as int, screen.cols as int);
        let at = CELL * (r * screen.cols + c);
        assert(cell_bytes(bytes, r, c, screen.cols as int) =~= body.subrange(at, at + CELL));
        lemma_cell_round_trip(screen.cells[r][c]);
    }
    let parsed = parse_screen(bytes).unwrap();
    assert(parsed.cells =~= screen.cells) by {
        assert forall|r: int| 0 <= r < screen.rows implies #[trigger] parsed.cells[r]
            =~= screen.cells[r] by {
            assert forall|c: int| 0 <= c < screen.cols implies parsed.cells[r][c]
                == screen.cells[r][c] by {
                assert(parse_cell(cell_bytes(bytes, r, c, screen.cols as int)) == Some(
                    screen.cells[r][c],
                ));
            }
        }
    }
}

/// Twelve bytes that stand for a cell are the bytes that the cell is
/// written as.
pub proof fn lemma_cell_canonical(bytes: Seq<u8>)
    requires
        parse_cell(bytes).is_some(),
    ensures
        cell_payload(parse_cell(bytes).unwrap()) == bytes,
{
    let cell = parse_cell(bytes).unwrap();
    let tail = bytes.subrange(8, 12);
    crate::wire::lemma_le_bytes_of_value(tail);
    if bytes[7] == 0 {
        reveal_with_fuel(le_bytes, 5);
        assert(le_bytes(0, 4) =~= seq![0u8, 0u8, 0u8, 0u8]);
    } else {
        let c = le_value(tail) as char;
        assert(c as nat == le_value(tail));
    }
    assert(cell_payload(cell) =~= bytes.subrange(0, 8) + tail);
    assert(bytes.subrange(0, 8) + tail =~= bytes);
}

/// Twelve bytes that stand for a cursor are the bytes that the cursor is
/// written as.
pub proof fn lemma_cursor_canonical(bytes: Seq<u8>)
    requires
        parse_cursor(bytes).is_some(),
    ensures
        cursor_payload(parse_cursor(bytes).unwrap()) == bytes,
{
    let cursor = parse_cursor(bytes).unwrap();
    lemma_pow256(2);
    lemma_le_value_bound(bytes.subrange(0, 2));
    lemma_le_value_bound(bytes.subrange(2, 4));
    crate::wire::lemma_le_bytes_of_value(bytes.subrange(0, 2));
    crate::wire::lemma_le_bytes_of_value(bytes.subrange(2, 4));
    crate::wire::lemma_le_bytes_of_value(bytes.subrange(7, 11));
    assert(style_tag(cursor.style) == le_value(bytes.subrange(7, 11)));
    assert(cursor_payload(cursor) =~= bytes.subrange(0, 2) + bytes.subrange(2, 4) + bytes.subrange(
        4,
        7,
    ) + bytes.subrange(7, 11) + bytes.subrange(11, 12));
    assert(bytes.subrange(0, 2) + bytes.subrange(2, 4) + bytes.subrange(4, 7) + bytes.subrange(
        7,
        11,
    ) + bytes.subrange(11, 12) =~= bytes);
}

/// Where each cell of a row is written as its twelve bytes of `bytes`,
/// the row is written as its bytes of `bytes`.
proof fn lemma_row_canonical(bytes: Seq<u8>, row: Seq<Cell>, upto: nat, start: int)
    requires
        upto <= row.len(),
        0 <= start,
        start + CELL * upto <= bytes.len(),
        forall|c: int|
            0 <= c < upto ==> cell_payload(#[trigger] row[c]) == bytes.subrange(
                start + CELL * c,
                start + CELL * c + CELL,
            ),
    ensures
        row_payload(row, upto) == bytes.subrange(start, start + CELL * upto),
    decreases upto,
{
    if upto > 0 {
        lemma_row_canonical(bytes, row, (upto - 1) as nat, start);
        assert(cell_payload(row[upto - 1]) == bytes.subrange(
            start + CELL * (upto - 1),
            start + CELL * (upto - 1) + CELL,
        ));
    }
    assert(row_payload(row, upto) =~= bytes.subrange(start, start + CELL * upto));
}

/// Where each cell of a screen is written as its twelve bytes of `bytes`,
/// the cells are written as the bytes of `bytes` behind the header.
proof fn lemma_cells_canonical(bytes: Seq<u8>, cells: Seq<Seq<Cell>>, upto: nat, cols: nat)
    requires
        upto <= cells.len(),
        HEADER + CELL * (upto * cols) <= bytes.len(),
        forall|r: int| 0 <= r < cells.len() ==> (#[trigger] cells[r]).len() == cols,
        forall|r: int, c: int|
            0 <= r < upto && 0 <= c < cols ==> cell_payload(#[trigger] cells[r][c]) == cell_bytes(
                bytes,
                r,
                c,
                cols as int,
            ),
    ensures
        cells_payload(cells, upto, cols) == bytes.subrange(
            HEADER as int,
            HEADER + CELL * (upto * cols),
        ),
    decreases upto,
{
    if upto > 0 {
        let row = upto - 1;
        assert(upto * cols == row * cols + cols) by (nonlinear_arith)
            requires
                row == upto - 1,
        ;
        assert(row * cols >= 0) by (nonlinear_arith)
            requires
                row >= 0,
        ;
        lemma_cells_canonical(bytes, cells, row as nat, cols);
        let start = HEADER + CELL * (row * cols);
        assert forall|c: int| 0 <= c < cols implies cell_payload(#[trigger] cells[row][c])
            == bytes.subrange(start + CELL * c, start + CELL * c + CELL) by {
            assert(cell_payload(cells[row][c]) == cell_bytes(bytes, row, c, cols as int));
        }
        lemma_row_canonical(bytes, cells[row], cols, start);
        assert(cells_payload(cells, upto, cols) =~= bytes.subrange(
            HEADER as int,
            HEADER + CELL * (upto * cols),
        ));
    } else {
        assert(upto * cols == 0) by (nonlinear_arith)
            requires
                upto == 0,
        ;
        assert(cells_payload(cells, upto, cols) =~= bytes.subrange(
            HEADER as int,
            HEADER + CELL * (upto * cols),
        ));
    }
}

/// Bytes that stand for a screen are the bytes that the screen is written
/// as.
pub proof fn lemma_screen_canonical(bytes: Seq<u8>)
    requires
        parse_screen(bytes).is_some(),
    ensures
        screen_payload(parse_screen(bytes).unwrap()) == bytes,
        parse_screen(bytes).unwrap().sound(),
{
    let screen = parse_screen(bytes).unwrap();
    crate::wire::lemma_le_bytes_of_value(bytes.subrange(0, 2));
    crate::wire::lemma_le_bytes_of_value(bytes.subrange(2, 4));
    crate::wire::lemma_le_bytes_of_value(bytes.subrange(4, 6));
    lemma_cursor_canonical(bytes.subrange(6, 18));
    assert forall|r: int, c: int| 0 <= r < screen.rows && 0 <= c < screen.cols implies cell_payload(
        #[trigger] screen.cells[r][c],
    ) == cell_bytes(bytes, r, c, screen.cols as int) by {
        assert(parse_cell(cell_bytes(bytes, r, c, screen.cols as int)).is_some());
        lemma_cell_canonical(cell_bytes(bytes, r, c, screen.cols as int));
    }
    lemma_cells_canonical(bytes, screen.cells, screen.rows, screen.cols);
    assert(screen_payload(screen) =~= bytes.subrange(0, 2) + bytes.subrange(2, 4) + bytes.subrange(
        4,
        6,
    ) + bytes.subrange(6, 18) + bytes.subrange(18, bytes.len() as int));
    assert(bytes.subrange(0, 2) + bytes.subrange(2, 4) + bytes.subrange(4, 6) + bytes.subrange(
        6,
        18,
    ) + bytes.subrange(18, bytes.len() as int) =~= bytes);
}

impl Wire for CellStyle {
    type Model = CellStyle;

    open spec fn model(&self) -> CellStyle {
        *self
    }

    open spec fn sound(&self) -> bool {
        true
    }

    open spec fn payload(model: CellStyle) -> Seq<u8> {
        style_payload(model)
    }

    open spec fn parse(bytes: Seq<u8>) -> Option<CellStyle> {
        parse_style(bytes)
    }

    fn encode(&self) -> (bytes: Vec<u8>) {
        let mut out: Vec<u8> = Vec::new();
        out.push(self.bits);
        assert(out@ =~= style_payload(*self));
        out
    }

    fn decode(bytes: &[u8]) -> (value: Option<CellStyle>) {
        if bytes.len() == 1 {
            Some(CellStyle { bits: bytes[0] })
        } else {
            None
        }
    }

    proof fn lemma_round_trip(&self) {
    }

    proof fn lemma_canonical(bytes: Seq<u8>) {
        assert(style_payload(parse_style(bytes).unwrap()) =~= bytes);
    }
}

impl Wire for State {
    type Model = Screen;

    open spec fn model(&self) -> Screen {
        self@
    }

    open spec fn sound(&self) -> bool {
        self.grid.inv()
    }

    open spec fn payload(model: Screen) -> Seq<u8> {
        screen_payload(model)
    }

    open spec fn parse(bytes: Seq<u8>) -> Option<Screen> {
        parse_screen(bytes)
    }

    fn encode(&self) -> (bytes: Vec<u8>) {
        let rows = self.rows().0;
        let cols = self.columns().0;
        let mut out: Vec<u8> = Vec::new();
        put_le(&mut out, rows as u64, 2);
        put_le(&mut out, cols as u64, 2);
        put_le(&mut out, self.top().0 as u64, 2);
        self.cursor.encode_into(&mut out);
        let ghost head = out@;
        proof {
            self.grid.lemma_cells_rectangular();
            assert(out@ + cells_payload(self@.cells, 0, cols as nat) =~= out@);
        }
        let mut r: u16 = 0;
        while r < rows
            invariant
                r <= rows,
                self.grid.inv(),
                rows == self.spec_rows(),
                cols == self.spec_columns(),
                rectangular(self@.cells, (rows as nat, cols as nat)),
                out@ == head + cells_payload(self@.cells, r as nat, cols as nat),
            decreases rows - r,
        {
            let ghost above = out@;
            let mut c: u16 = 0;
            proof {
                assert(out@ + row_payload(self@.cells[r as int], 0) =~= out@);
            }
            while c < cols
                invariant
                    c <= cols,
                    r < rows,
                    self.grid.inv(),
                    rows == self.spec_rows(),
                    cols == self.spec_columns(),
                    rectangular(self@.cells, (rows as nat, cols as nat)),
                    out@ == above + row_payload(self@.cells[r as int], c as nat),
                decreases cols - c,
            {
                let cell = self.cell(Row(r), Col(c));
                cell.encode_into(&mut out);
                proof {
                    assert(out@ =~= above + row_payload(self@.cells[r as int], (c + 1) as nat));
                }
                c = c + 1;
            }
            proof {
                assert(out@ =~= head + cells_payload(self@.cells, (r + 1) as nat, cols as nat));
            }
            r = r + 1;
        }
        proof {
            assert(out@ =~= screen_payload(self@));
        }
        out
    }

    fn decode(bytes: &[u8]) -> (value: Option<State>) {
        let len = bytes.len();
        if len < HEADER {
            return None;
        }
        proof {
            lemma_pow256(2);
            lemma_le_value_bound(bytes@.subrange(0, 2));
            lemma_le_value_bound(bytes@.subrange(2, 4));
            lemma_le_value_bound(bytes@.subrange(4, 6));
        }
        let rows = get_le(bytes, 0, 2) as u16;
        let cols = get_le(bytes, 2, 2) as u16;
        let top = get_le(bytes, 4, 2) as u16;
        if !(top < rows || (rows == 0 && top == 0)) {
            return None;
        }
        assert(rows as u64 * cols as u64 <= 0xFFFF_FFFF) by (nonlinear_arith)
            requires
                rows <= 0xFFFF,
                cols <= 0xFFFF,
        ;
        let count: u64 = rows as u64 * cols as u64;
        if count * 16 > isize::MAX as u64 {
            return None;
        }
        let cursor = match Cursor::decode(bytes, 6) {
            Some(cursor) => cursor,
            None => {
                return None;
            },
        };
        if len as u64 != HEADER as u64 + CELL as u64 * count {
            return None;
        }
        let mut state = State::blank_at(Row(rows), Col(cols), Row(top));
        state.cursor = cursor;
        let mut at: usize = HEADER;
        let mut r: u16 = 0;
        proof {
            assert(0 * (cols as int) == 0) by (nonlinear_arith);
        }
        while r < rows
            invariant
                r <= rows,
                len == bytes@.len(),
                len == HEADER + CELL * (rows * cols),
                rows == le_value(bytes@.subrange(0, 2)),
                cols == le_value(bytes@.subrange(2, 4)),
                at == HEADER + CELL * (r * cols),
                state.grid.inv(),
                state.spec_rows() == rows,
                state.spec_columns() == cols,
                state.grid.top() == top,
                state.cursor == cursor,
                forall|i: int, j: int|
                    0 <= i < r && 0 <= j < cols ==> (#[trigger] parse_cell(
                        cell_bytes(bytes@, i, j, cols as int),
                    )) == Some(state.grid.cells()[i][j]),
            decreases rows - r,
        {
            let mut c: u16 = 0;
            while c < cols
                invariant
                    c <= cols,
                    r < rows,
                    len == bytes@.len(),
                    len == HEADER + CELL * (rows * cols),
                    rows == le_value(bytes@.subrange(0, 2)),
                    cols == le_value(bytes@.subrange(2, 4)),
                    at == HEADER + CELL * (r * cols + c),
                    state.grid.inv(),
                    state.spec_rows() == rows,
                    state.spec_columns() == cols,
                    state.grid.top() == top,
                    state.cursor == cursor,
                    forall|i: int, j: int|
                        0 <= i < r && 0 <= j < cols ==> (#[trigger] parse_cell(
                            cell_bytes(bytes@, i, j, cols as int),
                        )) == Some(state.grid.cells()[i][j]),
                    forall|j: int|
                        0 <= j < c ==> (#[trigger] parse_cell(
                            cell_bytes(bytes@, r as int, j, cols as int),
                        )) == Some(state.grid.cells()[r as int][j]),
                decreases cols - c,
            {
                proof {
                    lemma_cell_offset(r as int, c as int, rows as int, cols as int);
                    state.grid.lemma_cells_rectangular();
                }
                let cell = match Cell::decode(bytes, at) {
                    Some(cell) => cell,
                    None => {
                        proof {
                            assert(parse_cell(cell_bytes(bytes@, r as int, c as int, cols as int))
                                .is_none());
                        }
                        return None;
                    },
                };
                match state.cell_mut(Row(r), Col(c)) {
                    Some(slot) => {
                        *slot = cell;
                    },
                    None => {},
                }
                at = at + CELL;
                c = c + 1;
            }
            proof {
                assert((r + 1) * cols == r * cols + cols) by (nonlinear_arith);
            }
            r = r + 1;
        }
        proof {
            state.grid.lemma_cells_rectangular();
            let parsed = parse_screen(bytes@).unwrap();
            assert(parsed.cells =~= state@.cells) by {
                assert forall|i: int| 0 <= i < rows implies #[trigger] parsed.cells[i]
                    =~= state@.cells[i] by {
                    assert forall|j: int| 0 <= j < cols implies parsed.cells[i][j]
                        == state@.cells[i][j] by {
                        assert(parse_cell(cell_bytes(bytes@, i, j, cols as int)) == Some(
                            state.grid.cells()[i][j],
                        ));
                    }
                }
            }
        }
        Some(state)
    }

    proof fn lemma_round_trip(&self) {
        self.grid.lemma_cells_rectangular();
        lemma_screen_round_trip(self@);
    }

    proof fn lemma_canonical(bytes: Seq<u8>) {
        lemma_screen_canonical(bytes);
    }
}

} // verus!
