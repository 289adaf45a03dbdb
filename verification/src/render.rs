//! The delta renderer: the text that draws a screen on a terminal, with a
//! style or color sequence only where a cell differs from the cell drawn
//! before it.

use crate::ansi::{background, background_text, foreground, foreground_text, goto_line, goto_text, push_char};
use crate::state::{
    Cell, CellStyle, Col, Row, Screen, State, BLINK_FAST, BLINK_SLOW, BOLD, DIM, ITALIC, REVERSE,
    STRIKE, UNDERSCORE,
};
use vstd::prelude::*;
use vstd::string::StringExecFns;

verus! {

/// What is written for one group of flags: `on` where the new style has
/// one of them and the style before had none, `off` where the style
/// before had one and the new style has none, and nothing otherwise.
pub open spec fn flag_delta(
    new: CellStyle,
    previous: CellStyle,
    flags: u8,
    on: Seq<char>,
    off: Seq<char>,
) -> Seq<char> {
    let group = CellStyle { bits: flags };
    if new.spec_intersects(group) && !previous.spec_intersects(group) {
        on
    } else if !new.spec_intersects(group) && previous.spec_intersects(group) {
        off
    } else {
        Seq::empty()
    }
}

/// What is written to change the style `previous` into `new`: bold, dim,
/// italic, underscore, blink (slow and fast are one), reverse and strike,
/// in this order.
pub open spec fn style_delta(new: CellStyle, previous: CellStyle) -> Seq<char> {
    flag_delta(new, previous, BOLD, "\x1b[1m"@, "\x1b[21m"@) + flag_delta(
        new,
        previous,
        DIM,
        "\x1b[2m"@,
        "\x1b[22m"@,
    ) + flag_delta(new, previous, ITALIC, "\x1b[3m"@, "\x1b[23m"@) + flag_delta(
        new,
        previous,
        UNDERSCORE,
        "\x1b[4m"@,
        "\x1b[24m"@,
    ) + flag_delta(new, previous, BLINK_FAST | BLINK_SLOW, "\x1b[5m"@, "\x1b[25m"@) + flag_delta(
        new,
        previous,
        REVERSE,
        "\x1b[7m"@,
        "\x1b[27m"@,
    ) + flag_delta(new, previous, STRIKE, "\x1b[9m"@, "\x1b[29m"@)
}

/// What is written before the character of `cell` where `previous` was
/// drawn last: the style changes, then the foreground where it differs,
/// then the background where it differs.
pub open spec fn cell_delta(cell: Cell, previous: Cell) -> Seq<char> {
    style_delta(cell.style, previous.style) + (if cell.foreground != previous.foreground {
        foreground_text(cell.foreground)
    } else {
        Seq::empty()
    }) + (if cell.background != previous.background {
        background_text(cell.background)
    } else {
        Seq::empty()
    })
}

/// The character that shows `cell`: what it holds, or a space.
pub open spec fn glyph(cell: Cell) -> char {
    match cell.content {
        Some(c) => c,
        None => ' ',
    }
}

impl Screen {
    /// The cell drawn last before the cell at `(row, col)` of a terminal
    /// of `cols` columns, where `start` was drawn last before the first
    /// cell: the cell to the left, or the last cell of the row above.
    pub open spec fn drawn_before(self, row: int, col: int, cols: int, start: Cell) -> Cell {
        if col > 0 {
            self.cell_at(row, col - 1)
        } else if row > 0 && cols > 0 {
            self.cell_at(row - 1, cols - 1)
        } else {
            start
        }
    }

    /// The text for the first `upto` cells of the row `row`: the cursor
    /// movement to the row, then for each cell its changes and its
    /// character.
    pub open spec fn row_text(self, row: int, upto: nat, cols: int, start: Cell) -> Seq<char>
        decreases upto,
    {
        if upto == 0 {
            goto_text((row + 1) as nat)
        } else {
            let col = upto - 1;
            self.row_text(row, col as nat, cols, start) + cell_delta(
                self.cell_at(row, col),
                self.drawn_before(row, col, cols, start),
            ).push(glyph(self.cell_at(row, col)))
        }
    }

    /// The text for the first `upto` rows of a terminal of `cols`
    /// columns.
    pub open spec fn text(self, upto: nat, cols: nat, start: Cell) -> Seq<char>
        decreases upto,
    {
        if upto == 0 {
            Seq::empty()
        } else {
            self.text((upto - 1) as nat, cols, start) + self.row_text(
                upto - 1,
                cols,
                cols as int,
                start,
            )
        }
    }

    /// The cell drawn last when `rows` rows of `cols` columns have been
    /// drawn: the last cell, or `start` where nothing was drawn.
    pub open spec fn drawn_last(self, rows: nat, cols: nat, start: Cell) -> Cell {
        if rows > 0 && cols > 0 {
            self.cell_at(rows - 1, cols - 1)
        } else {
            start
        }
    }
}

/// The style shows one of the flags `flags`.
pub open spec fn shows(style: CellStyle, flags: u8) -> bool {
    style.spec_intersects(CellStyle { bits: flags })
}

/// Two cells look alike: each of the seven groups of flags shows in both
/// or in neither, and the two colors are the same.
pub open spec fn same_look(a: Cell, b: Cell) -> bool {
    &&& shows(a.style, BOLD) == shows(b.style, BOLD)
    &&& shows(a.style, DIM) == shows(b.style, DIM)
    &&& shows(a.style, ITALIC) == shows(b.style, ITALIC)
    &&& shows(a.style, UNDERSCORE) == shows(b.style, UNDERSCORE)
    &&& shows(a.style, BLINK_FAST | BLINK_SLOW) == shows(b.style, BLINK_FAST | BLINK_SLOW)
    &&& shows(a.style, REVERSE) == shows(b.style, REVERSE)
    &&& shows(a.style, STRIKE) == shows(b.style, STRIKE)
    &&& a.foreground == b.foreground
    &&& a.background == b.background
}

impl Screen {
    /// The text for the first `upto` cells of the row `row` without any
    /// change of style or color: the cursor movement, then the
    /// characters.
    pub open spec fn plain_row_text(self, row: int, upto: nat) -> Seq<char>
        decreases upto,
    {
        if upto == 0 {
            goto_text((row + 1) as nat)
        } else {
            self.plain_row_text(row, (upto - 1) as nat).push(glyph(self.cell_at(row, upto - 1)))
        }
    }

    /// The text for the first `upto` rows of a terminal of `cols` columns
    /// without any change of style or color.
    pub open spec fn plain_text(self, upto: nat, cols: nat) -> Seq<char>
        decreases upto,
    {
        if upto == 0 {
            Seq::empty()
        } else {
            self.plain_text((upto - 1) as nat, cols) + self.plain_row_text(upto - 1, cols)
        }
    }

    /// All the cells of the first `rows` rows and `cols` columns look
    /// like `look`.
    pub open spec fn uniform(self, rows: nat, cols: nat, look: Cell) -> bool {
        forall|r: int, c: int|
            0 <= r < rows && 0 <= c < cols ==> same_look(#[trigger] self.cell_at(r, c), look)
    }
}

/// Between two cells that look alike nothing is written but the
/// character: so a cell drawn after itself brings no style or color
/// sequence.
pub proof fn lemma_cell_delta_same_look(cell: Cell, previous: Cell)
    requires
        same_look(cell, previous),
    ensures
        cell_delta(cell, previous) == Seq::<char>::empty(),
{
    assert(style_delta(cell.style, previous.style) =~= Seq::<char>::empty());
    assert(cell_delta(cell, previous) =~= Seq::<char>::empty());
}

/// Only between two cells that look alike is nothing written but the
/// character.
pub proof fn lemma_cell_delta_empty(cell: Cell, previous: Cell)
    ensures
        (cell_delta(cell, previous).len() == 0) == same_look(cell, previous),
{
    if same_look(cell, previous) {
        lemma_cell_delta_same_look(cell, previous);
    } else {
        reveal_strlit("\x1b[1m");
        reveal_strlit("\x1b[21m");
        reveal_strlit("\x1b[2m");
        reveal_strlit("\x1b[22m");
        reveal_strlit("\x1b[3m");
        reveal_strlit("\x1b[23m");
        reveal_strlit("\x1b[4m");
        reveal_strlit("\x1b[24m");
        reveal_strlit("\x1b[5m");
        reveal_strlit("\x1b[25m");
        reveal_strlit("\x1b[7m");
        reveal_strlit("\x1b[27m");
        reveal_strlit("\x1b[9m");
        reveal_strlit("\x1b[29m");
        assert(foreground_text(cell.foreground).len() > 0);
        assert(background_text(cell.background).len() > 0);
    }
}

/// On a terminal that shows the look of every cell already, a row is
/// drawn by the cursor movement and the characters alone.
proof fn lemma_row_text_plain(screen: Screen, row: int, upto: nat, rows: nat, cols: nat, start: Cell)
    requires
        screen.uniform(rows, cols, start),
        0 <= row < rows,
        upto <= cols,
    ensures
        screen.row_text(row, upto, cols as int, start) == screen.plain_row_text(row, upto),
    decreases upto,
{
    if upto > 0 {
        let col = upto - 1;
        lemma_row_text_plain(screen, row, col as nat, rows, cols, start);
        let before = screen.drawn_before(row, col, cols as int, start);
        assert(same_look(screen.cell_at(row, col), start));
        if col > 0 {
            assert(same_look(screen.cell_at(row, col - 1), start));
        } else if row > 0 && cols > 0 {
            assert(same_look(screen.cell_at(row - 1, cols - 1), start));
        }
        lemma_cell_delta_same_look(screen.cell_at(row, col), before);
    }
}

/// On a terminal that shows the look of every cell already, the screen is
/// drawn by cursor movements and characters alone.
pub proof fn lemma_text_plain(screen: Screen, upto: nat, rows: nat, cols: nat, start: Cell)
    requires
        screen.uniform(rows, cols, start),
        upto <= rows,
    ensures
        screen.text(upto, cols, start) == screen.plain_text(upto, cols),
    decreases upto,
{
    if upto > 0 {
        lemma_text_plain(screen, (upto - 1) as nat, rows, cols, start);
        lemma_row_text_plain(screen, upto - 1, cols, rows, cols, start);
    }
}

/// Whatever was drawn before the first pass, after one pass over a
/// screen the terminal shows the look of the screen's last cell: so every
/// pass over the same screen from the second on writes the same text.
pub proof fn lemma_later_passes_agree(screen: Screen, rows: nat, cols: nat, a: Cell, b: Cell)
    requires
        rows > 0,
        cols > 0,
    ensures
        screen.drawn_last(rows, cols, a) == screen.drawn_last(rows, cols, b),
        screen.drawn_last(rows, cols, screen.drawn_last(rows, cols, a)) == screen.drawn_last(
            rows,
            cols,
            a,
        ),
{
}

/// Drawing a screen a second time, where its cells all look alike, writes
/// no style or color sequence: the second pass is cursor movements and
/// characters alone.
pub proof fn lemma_second_pass_plain(screen: Screen, rows: nat, cols: nat, start: Cell)
    requires
        forall|r: int, c: int, r2: int, c2: int|
            0 <= r < rows && 0 <= c < cols && 0 <= r2 < rows && 0 <= c2 < cols ==> same_look(
                #[trigger] screen.cell_at(r, c),
                #[trigger] screen.cell_at(r2, c2),
            ),
    ensures
        screen.text(rows, cols, screen.drawn_last(rows, cols, start)) == screen.plain_text(
            rows,
            cols,
        ),
{
    let last = screen.drawn_last(rows, cols, start);
    if rows > 0 && cols > 0 {
        assert(screen.uniform(rows, cols, last)) by {
            assert forall|r: int, c: int| 0 <= r < rows && 0 <= c < cols implies same_look(
                #[trigger] screen.cell_at(r, c),
                last,
            ) by {
                assert(same_look(screen.cell_at(r, c), screen.cell_at(rows - 1, cols - 1)));
            }
        }
    }
    lemma_text_plain(screen, rows, rows, cols, last);
}

/// Writes `on` or `off` for one group of flags, or nothing.
fn write_flag(
    new: CellStyle,
    previous: CellStyle,
    flags: u8,
    on: &str,
    off: &str,
    out: &mut String,
)
    ensures
        final(out)@ == old(out)@ + flag_delta(new, previous, flags, on@, off@),
{
    let group = CellStyle::from_bits(flags);
    if new.intersects(group) && !previous.intersects(group) {
        out.append(on);
    } else if !new.intersects(group) && previous.intersects(group) {
        out.append(off);
    } else {
        assert(out@ =~= old(out)@ + Seq::<char>::empty());
    }
}

impl CellStyle {
    /// Appends to `out` what changes the style `previous` into this one.
    pub fn write_delta(&self, previous: &CellStyle, out: &mut String)
        ensures
            final(out)@ == old(out)@ + style_delta(*self, *previous),
    {
        let ghost bold = flag_delta(*self, *previous, BOLD, "\x1b[1m"@, "\x1b[21m"@);
        let ghost dim = flag_delta(*self, *previous, DIM, "\x1b[2m"@, "\x1b[22m"@);
        let ghost italic = flag_delta(*self, *previous, ITALIC, "\x1b[3m"@, "\x1b[23m"@);
        let ghost underscore = flag_delta(*self, *previous, UNDERSCORE, "\x1b[4m"@, "\x1b[24m"@);
        let ghost blink = flag_delta(
            *self,
            *previous,
            BLINK_FAST | BLINK_SLOW,
            "\x1b[5m"@,
            "\x1b[25m"@,
        );
        let ghost reverse = flag_delta(*self, *previous, REVERSE, "\x1b[7m"@, "\x1b[27m"@);
        let ghost strike = flag_delta(*self, *previous, STRIKE, "\x1b[9m"@, "\x1b[29m"@);
        write_flag(*self, *previous, BOLD, "\x1b[1m", "\x1b[21m", out);
        write_flag(*self, *previous, DIM, "\x1b[2m", "\x1b[22m", out);
        assert(out@ =~= old(out)@ + (bold + dim));
        write_flag(*self, *previous, ITALIC, "\x1b[3m", "\x1b[23m", out);
        assert(out@ =~= old(out)@ + (bold + dim + italic));
        write_flag(*self, *previous, UNDERSCORE, "\x1b[4m", "\x1b[24m", out);
        assert(out@ =~= old(out)@ + (bold + dim + italic + underscore));
        write_flag(*self, *previous, BLINK_FAST | BLINK_SLOW, "\x1b[5m", "\x1b[25m", out);
        assert(out@ =~= old(out)@ + (bold + dim + italic + underscore + blink));
        write_flag(*self, *previous, REVERSE, "\x1b[7m", "\x1b[27m", out);
        assert(out@ =~= old(out)@ + (bold + dim + italic + underscore + blink + reverse));
        write_flag(*self, *previous, STRIKE, "\x1b[9m", "\x1b[29m", out);
        assert(out@ =~= old(out)@ + (bold + dim + italic + underscore + blink + reverse + strike));
    }
}

impl Cell {
    /// Appends to `out` what changes the look of `previous` into the look
    /// of this cell.
    pub fn write_delta(&self, previous: &Cell, out: &mut String)
        ensures
            final(out)@ == old(out)@ + cell_delta(*self, *previous),
    {
        self.style.write_delta(&previous.style, out);
        if self.foreground != previous.foreground {
            let text = foreground(self.foreground);
            out.append(text.as_str());
        }
        if self.background != previous.background {
            let text = background(self.background);
            out.append(text.as_str());
        }
        assert(out@ =~= old(out)@ + cell_delta(*self, *previous));
    }
}

/// The text that draws the first `rows` rows and `cols` columns of
/// `state` on a terminal on which `previous` was drawn last, and the cell
/// drawn last after it.
pub fn render_from(state: &State, previous: Cell, rows: Row, cols: Col) -> (drawn: (String, Cell))
    requires
        state.grid.inv(),
    ensures
        drawn.0@ == state@.text(rows.0 as nat, cols.0 as nat, previous),
        drawn.1 == state@.drawn_last(rows.0 as nat, cols.0 as nat, previous),
{
    let mut out = String::new();
    let mut last = previous;
    let mut row: u16 = 0;
    while row < rows.0
        invariant
            row <= rows.0,
            state.grid.inv(),
            out@ == state@.text(row as nat, cols.0 as nat, previous),
            last == state@.drawn_last(row as nat, cols.0 as nat, previous),
        decreases rows.0 - row,
    {
        let ghost above = out@;
        let line = goto_line(row + 1);
        out.append(line.as_str());
        let mut col: u16 = 0;
        while col < cols.0
            invariant
                col <= cols.0,
                row < rows.0,
                state.grid.inv(),
                out@ == above + state@.row_text(row as int, col as nat, cols.0 as int, previous),
                last == state@.drawn_before(row as int, col as int, cols.0 as int, previous),
            decreases cols.0 - col,
        {
            let ghost left = out@;
            let cell = state.cell(Row(row), Col(col));
            cell.write_delta(&last, &mut out);
            let c = match cell.content {
                Some(c) => c,
                None => ' ',
            };
            push_char(&mut out, c);
            proof {
                assert(cell == state@.cell_at(row as int, col as int));
                assert(out@ =~= above + state@.row_text(
                    row as int,
                    (col + 1) as nat,
                    cols.0 as int,
                    previous,
                ));
            }
            last = cell;
            col = col + 1;
        }
        row = row + 1;
    }
    (out, last)
}

/// The text that draws the first `rows` rows and `cols` columns of
/// `state` on a terminal in its default look.
pub fn render(state: &State, rows: Row, cols: Col) -> (text: String)
    requires
        state.grid.inv(),
    ensures
        text@ == state@.text(rows.0 as nat, cols.0 as nat, Cell::spec_default()),
{
    render_from(state, Cell::default(), rows, cols).0
}

impl State {
    /// The text that draws the first `rows` rows and `cols` columns of
    /// this screen on a terminal in its default look.
    pub fn render(&self, rows: Row, cols: Col) -> (text: String)
        requires
            self.grid.inv(),
        ensures
            text@ == self@.text(rows.0 as nat, cols.0 as nat, Cell::spec_default()),
    {
        render(self, rows, cols)
    }
}

} // verus!
