//! The commands that a terminal's byte stream gives, and what each does to
//! the screen.

use crate::ring::{lemma_ring_index, ring_index, scrolled};
use crate::state::{Cell, Col, Color, Cursor, CursorStyle, Row, Screen, State};
use std::collections::VecDeque;
use vstd::prelude::*;

verus! {

/// A command for the screen.
#[derive(Debug, Clone, Copy, PartialEq, Eq)]
pub enum FromTerm {
    Print(char),
    CarriageReturn,
    Linefeed,
    Newline,
    Backspace,
    PutTab(u16),
    GotoRow(Row),
    GotoCol(Col),
    Goto { row: Row, col: Col },
    MoveUp(Row),
    MoveDown(Row),
    MoveBackward(Col),
    MoveForward(Col),
    MoveDownAndReturn(Row),
    MoveUpAndReturn(Row),
    SetCursorStyle(CursorStyle),
    SetColor(usize, Color),
    ResetColor(usize),
}

/// Backspace.
pub const BS: u8 = 0x08;

/// Horizontal tabulation.
pub const HT: u8 = 0x09;

/// Linefeed.
pub const LF: u8 = 0x0A;

/// Vertical tabulation.
pub const VT: u8 = 0x0B;

/// Form feed.
pub const FF: u8 = 0x0C;

/// Carriage return.
pub const CR: u8 = 0x0D;

/// Next line, of the eight-bit controls.
pub const NEL: u8 = 0x85;

/// The command that the control byte `byte` stands for, where it stands
/// for one.
pub open spec fn spec_control_command(byte: u8) -> Option<FromTerm> {
    if byte == CR {
        Some(FromTerm::CarriageReturn)
    } else if byte == LF || byte == VT || byte == FF {
        Some(FromTerm::Linefeed)
    } else if byte == BS {
        Some(FromTerm::Backspace)
    } else if byte == HT {
        Some(FromTerm::PutTab(1))
    } else if byte == NEL {
        Some(FromTerm::Newline)
    } else {
        None
    }
}

/// The command that the control byte `byte` stands for; `None` for a byte
/// that is passed over.
#[verifier::when_used_as_spec(spec_control_command)]
pub fn control_command(byte: u8) -> (command: Option<FromTerm>)
    ensures
        command == spec_control_command(byte),
{
    if byte == CR {
        Some(FromTerm::CarriageReturn)
    } else if byte == LF || byte == VT || byte == FF {
        Some(FromTerm::Linefeed)
    } else if byte == BS {
        Some(FromTerm::Backspace)
    } else if byte == HT {
        Some(FromTerm::PutTab(1))
    } else if byte == NEL {
        Some(FromTerm::Newline)
    } else {
        None
    }
}

/// The smaller of two numbers.
pub open spec fn least(a: int, b: int) -> int {
    if a < b {
        a
    } else {
        b
    }
}

/// `a - b`, and zero where that is negative.
pub open spec fn less(a: int, b: int) -> int {
    if a < b {
        0
    } else {
        a - b
    }
}

/// The column that one tab leads to from `col` on a line of `cols`
/// columns: the next multiple of eight, and the last column where that
/// lies beyond the line.
pub open spec fn next_tab(col: int, cols: int) -> int {
    least((col / 8 + 1) * 8, cols - 1)
}

/// The column that `count` tabs lead to from `col`.
pub open spec fn tabbed(col: int, count: nat, cols: int) -> int
    decreases count,
{
    if count == 0 {
        col
    } else {
        tabbed(next_tab(col, cols), (count - 1) as nat, cols)
    }
}

impl Screen {
    /// The screen with `c` written into the cell under the cursor, whose
    /// style and colors stay; where the cursor stands on no cell, nothing
    /// is written.
    pub open spec fn written(self, c: char) -> Screen {
        if self.contained() {
            let cell = Cell { content: Some(c), ..self.cells[self.row()][self.col()] };
            Screen {
                cells: self.cells.update(
                    self.row(),
                    self.cells[self.row()].update(self.col(), cell),
                ),
                ..self
            }
        } else {
            self
        }
    }

    /// The screen scrolled by one row; the cursor stays.
    pub open spec fn scrolled_once(self) -> Screen {
        Screen {
            cells: scrolled(self.cells, 1, self.cols),
            top: ring_index(1, self.top as int, self.rows as int) as nat,
            ..self
        }
    }

    /// The cursor after a character was written under it: one column to
    /// the right; from the last column, to the first column of the next
    /// row; and where there is no next row, to the first column of the
    /// last row, the screen scrolled by one row.
    pub open spec fn advanced(self) -> Screen {
        if self.col() < self.cols - 1 {
            self.cursor_at(self.row(), self.col() + 1)
        } else if self.row() + 1 < self.rows {
            self.cursor_at(self.row() + 1, 0)
        } else {
            self.cursor_at(self.rows - 1, 0).scrolled_once()
        }
    }

    pub open spec fn print(self, c: char) -> Screen {
        self.written(c).advanced()
    }

    pub open spec fn carriage_return(self) -> Screen {
        self.cursor_at(self.row(), 0)
    }

    /// One row down, and no further than the last row; nothing scrolls.
    pub open spec fn linefeed(self) -> Screen {
        self.cursor_at(least(self.row() + 1, self.rows - 1), self.col())
    }

    pub open spec fn newline(self) -> Screen {
        self.carriage_return().linefeed()
    }

    pub open spec fn backspace(self) -> Screen {
        self.cursor_at(self.row(), less(self.col(), 1))
    }

    pub open spec fn put_tab(self, count: nat) -> Screen {
        self.cursor_at(self.row(), tabbed(self.col(), count, self.cols as int))
    }

    pub open spec fn goto_row(self, row: int) -> Screen {
        self.cursor_at(least(row, self.rows - 1), self.col())
    }

    pub open spec fn goto_col(self, col: int) -> Screen {
        self.cursor_at(self.row(), least(col, self.cols - 1))
    }

    pub open spec fn goto(self, row: int, col: int) -> Screen {
        self.cursor_at(least(row, self.rows - 1), least(col, self.cols - 1))
    }

    pub open spec fn move_up(self, count: int) -> Screen {
        self.cursor_at(less(self.row(), count), self.col())
    }

    pub open spec fn move_down(self, count: int) -> Screen {
        self.cursor_at(least(self.row() + count, self.rows - 1), self.col())
    }

    pub open spec fn move_backward(self, count: int) -> Screen {
        self.cursor_at(self.row(), less(self.col(), count))
    }

    pub open spec fn move_forward(self, count: int) -> Screen {
        self.cursor_at(self.row(), least(self.col() + count, self.cols - 1))
    }

    pub open spec fn move_down_and_return(self, count: int) -> Screen {
        self.move_down(count).carriage_return()
    }

    pub open spec fn move_up_and_return(self, count: int) -> Screen {
        self.move_up(count).carriage_return()
    }

    pub open spec fn set_cursor_style(self, style: CursorStyle) -> Screen {
        Screen { cursor: Cursor { style, ..self.cursor }, ..self }
    }

    /// What `command` makes of the screen. The two palette commands are
    /// taken and change nothing.
    pub open spec fn apply(self, command: FromTerm) -> Screen {
        match command {
            FromTerm::Print(c) => self.print(c),
            FromTerm::CarriageReturn => self.carriage_return(),
            FromTerm::Linefeed => self.linefeed(),
            FromTerm::Newline => self.newline(),
            FromTerm::Backspace => self.backspace(),
            FromTerm::PutTab(count) => self.put_tab(count as nat),
            FromTerm::GotoRow(row) => self.goto_row(row.0 as int),
            FromTerm::GotoCol(col) => self.goto_col(col.0 as int),
            FromTerm::Goto { row, col } => self.goto(row.0 as int, col.0 as int),
            FromTerm::MoveUp(count) => self.move_up(count.0 as int),
            FromTerm::MoveDown(count) => self.move_down(count.0 as int),
            FromTerm::MoveBackward(count) => self.move_backward(count.0 as int),
            FromTerm::MoveForward(count) => self.move_forward(count.0 as int),
            FromTerm::MoveDownAndReturn(count) => self.move_down_and_return(count.0 as int),
            FromTerm::MoveUpAndReturn(count) => self.move_up_and_return(count.0 as int),
            FromTerm::SetCursorStyle(style) => self.set_cursor_style(style),
            FromTerm::SetColor(_, _) => self,
            FromTerm::ResetColor(_) => self,
        }
    }

    /// `command` can be applied: the screen is usable, whatever the
    /// command.
    pub open spec fn accepts(self, command: FromTerm) -> bool {
        self.usable()
    }

    /// What the control byte `byte` makes of the screen: what its command
    /// does, and nothing where it stands for none.
    pub open spec fn execute(self, byte: u8) -> Screen {
        match spec_control_command(byte) {
            Some(command) => self.apply(command),
            None => self,
        }
    }

    /// What the commands of `commands` make of the screen, applied in
    /// order.
    pub open spec fn apply_all(self, commands: Seq<FromTerm>) -> Screen
        decreases commands.len(),
    {
        if commands.len() == 0 {
            self
        } else {
            self.apply(commands[0]).apply_all(commands.drop_first())
        }
    }

    /// What printing the characters of `text` in order makes of the
    /// screen.
    pub open spec fn print_all(self, text: Seq<char>) -> Screen
        decreases text.len(),
    {
        if text.len() == 0 {
            self
        } else {
            self.print(text[0]).print_all(text.drop_first())
        }
    }
}

impl State {
    /// Moves the cursor to `(row, col)`.
    fn place(&mut self, row: u16, col: u16)
        ensures
            final(self).grid == old(self).grid,
            final(self)@ == old(self)@.cursor_at(row as int, col as int),
    {
        self.cursor.position = (Row(row), Col(col));
    }

    /// Whether `command` can be applied.
    pub fn accepts(&self, command: FromTerm) -> (ok: bool)
        requires
            self.grid.inv(),
        ensures
            ok == self@.accepts(command),
    {
        proof {
            self.lemma_view_sound();
        }
        let rows = self.rows().0;
        let cols = self.columns().0;
        rows > 0 && cols > 0
    }

    /// Writes `c` into the cell under the cursor, then moves the cursor
    /// on, wrapping at the right edge and scrolling at the bottom.
    pub fn print(&mut self, c: char)
        requires
            old(self).usable(),
        ensures
            final(self).usable(),
            final(self)@ == old(self)@.print(c),
    {
        let (row, col) = self.cursor.position;
        proof {
            self.grid.lemma_cells_rectangular();
        }
        match self.cell_mut(row, col) {
            Some(cell) => {
                cell.content = Some(c);
            },
            None => {},
        }
        assert(self@ == old(self)@.written(c));
        let rows = self.rows();
        let cols = self.columns();
        if col.0 < cols.0 - 1 {
            self.place(row.0, col.0 + 1);
        } else if row.0 < rows.0 - 1 {
            self.place(row.0 + 1, 0);
        } else {
            self.place(rows.0 - 1, 0);
            self.scroll_down(Row(1));
        }
    }

    /// Moves the cursor to the first column of its row.
    pub fn carriage_return(&mut self)
        requires
            old(self).usable(),
        ensures
            final(self).usable(),
            final(self)@ == old(self)@.carriage_return(),
    {
        let row = self.cursor.position.0;
        self.place(row.0, 0);
    }

    /// Moves the cursor one row down; on the last row it stays, and
    /// nothing scrolls.
    pub fn linefeed(&mut self)
        requires
            old(self).usable(),
        ensures
            final(self).usable(),
            final(self)@ == old(self)@.linefeed(),
    {
        self.move_down(Row(1));
    }

    /// A carriage return, then a linefeed.
    pub fn newline(&mut self)
        requires
            old(self).usable(),
        ensures
            final(self).usable(),
            final(self)@ == old(self)@.newline(),
    {
        self.carriage_return();
        self.linefeed();
    }

    /// Moves the cursor one column to the left; in the first column it
    /// stays.
    pub fn backspace(&mut self)
        requires
            old(self).usable(),
        ensures
            final(self).usable(),
            final(self)@ == old(self)@.backspace(),
    {
        self.move_backward(Col(1));
    }

    /// Moves the cursor to the next multiple of eight columns, `count`
    /// times, and no further than the last column.
    pub fn put_tab(&mut self, count: u16)
        requires
            old(self).usable(),
        ensures
            final(self).usable(),
            final(self)@ == old(self)@.put_tab(count as nat),
    {
        let (row, start) = self.cursor.position;
        let cols = self.columns().0;
        let mut col: u16 = start.0;
        let mut done: u16 = 0;
        while done < count && col != cols - 1
            invariant
                done <= count,
                cols > 0,
                tabbed(col as int, (count - done) as nat, cols as int) == tabbed(
                    start.0 as int,
                    count as nat,
                    cols as int,
                ),
            decreases count - done,
        {
            let stop: u32 = (col as u32 / 8 + 1) * 8;
            col = if stop < cols as u32 - 1 {
                stop as u16
            } else {
                cols - 1
            };
            done = done + 1;
        }
        proof {
            if done < count {
                lemma_tabbed_at_end((count - done) as nat, cols as int);
            }
        }
        self.place(row.0, col);
    }

    /// Moves the cursor to the row `row`, or to the last row where the
    /// screen has no such row.
    pub fn goto_row(&mut self, row: Row)
        requires
            old(self).usable(),
        ensures
            final(self).usable(),
            final(self)@ == old(self)@.goto_row(row.0 as int),
    {
        let rows = self.rows().0;
        let col = self.cursor.position.1;
        self.place(
            if row.0 < rows - 1 {
                row.0
            } else {
                rows - 1
            },
            col.0,
        );
    }

    /// Moves the cursor to the column `col`, or to the last column where
    /// the screen has no such column.
    pub fn goto_col(&mut self, col: Col)
        requires
            old(self).usable(),
        ensures
            final(self).usable(),
            final(self)@ == old(self)@.goto_col(col.0 as int),
    {
        let cols = self.columns().0;
        let row = self.cursor.position.0;
        self.place(
            row.0,
            if col.0 < cols - 1 {
                col.0
            } else {
                cols - 1
            },
        );
    }

    /// Moves the cursor to `(row, col)`, each of the two brought back to
    /// the last row or column where the screen has no such one.
    pub fn goto(&mut self, row: Row, col: Col)
        requires
            old(self).usable(),
        ensures
            final(self).usable(),
            final(self)@ == old(self)@.goto(row.0 as int, col.0 as int),
    {
        let rows = self.rows().0;
        let cols = self.columns().0;
        let r: u16 = if row.0 < rows - 1 {
            row.0
        } else {
            rows - 1
        };
        let c: u16 = if col.0 < cols - 1 {
            col.0
        } else {
            cols - 1
        };
        self.place(r, c);
    }

    /// Moves the cursor `count` rows up, and no further than the first
    /// row.
    pub fn move_up(&mut self, count: Row)
        requires
            old(self).usable(),
        ensures
            final(self).usable(),
            final(self)@ == old(self)@.move_up(count.0 as int),
    {
        let (row, col) = self.cursor.position;
        let r: u16 = if row.0 < count.0 {
            0
        } else {
            row.0 - count.0
        };
        self.place(r, col.0);
    }

    /// Moves the cursor `count` rows down, and no further than the last
    /// row.
    pub fn move_down(&mut self, count: Row)
        requires
            old(self).usable(),
        ensures
            final(self).usable(),
            final(self)@ == old(self)@.move_down(count.0 as int),
    {
        let (row, col) = self.cursor.position;
        let rows = self.rows().0;
        let r: u16 = if row.0 < rows - 1 && count.0 < rows - 1 - row.0 {
            row.0 + count.0
        } else {
            rows - 1
        };
        self.place(r, col.0);
    }

    /// Moves the cursor `count` columns to the left, and no further than
    /// the first column.
    pub fn move_backward(&mut self, count: Col)
        requires
            old(self).usable(),
        ensures
            final(self).usable(),
            final(self)@ == old(self)@.move_backward(count.0 as int),
    {
        let (row, col) = self.cursor.position;
        let c: u16 = if col.0 < count.0 {
            0
        } else {
            col.0 - count.0
        };
        self.place(row.0, c);
    }

    /// Moves the cursor `count` columns to the right, and no further than
    /// the last column.
    pub fn move_forward(&mut self, count: Col)
        requires
            old(self).usable(),
        ensures
            final(self).usable(),
            final(self)@ == old(self)@.move_forward(count.0 as int),
    {
        let (row, col) = self.cursor.position;
        let cols = self.columns().0;
        let c: u16 = if col.0 < cols - 1 && count.0 < cols - 1 - col.0 {
            col.0 + count.0
        } else {
            cols - 1
        };
        self.place(row.0, c);
    }

    /// `count` rows down, then to the first column.
    pub fn move_down_and_return(&mut self, count: Row)
        requires
            old(self).usable(),
        ensures
            final(self).usable(),
            final(self)@ == old(self)@.move_down_and_return(count.0 as int),
    {
        self.move_down(count);
        self.carriage_return();
    }

    /// `count` rows up, then to the first column.
    pub fn move_up_and_return(&mut self, count: Row)
        requires
            old(self).usable(),
        ensures
            final(self).usable(),
            final(self)@ == old(self)@.move_up_and_return(count.0 as int),
    {
        self.move_up(count);
        self.carriage_return();
    }

    /// Gives the cursor the shape `style`.
    pub fn set_cursor_style(&mut self, style: CursorStyle)
        requires
            old(self).usable(),
        ensures
            final(self).usable(),
            final(self)@ == old(self)@.set_cursor_style(style),
    {
        self.cursor.style = style;
    }

    /// Does to the screen what `command` says. A cursor that stood on a
    /// cell of the screen stands on one afterwards.
    pub fn apply(&mut self, command: FromTerm)
        requires
            old(self).usable(),
        ensures
            final(self).usable(),
            final(self)@ == old(self)@.apply(command),
            old(self)@.contained() ==> final(self)@.contained(),
    {
        proof {
            self.lemma_view_sound();
            if self@.contained() {
                lemma_apply_contained(self@, command);
            }
        }
        match command {
            FromTerm::Print(c) => self.print(c),
            FromTerm::CarriageReturn => self.carriage_return(),
            FromTerm::Linefeed => self.linefeed(),
            FromTerm::Newline => self.newline(),
            FromTerm::Backspace => self.backspace(),
            FromTerm::PutTab(count) => self.put_tab(count),
            FromTerm::GotoRow(row) => self.goto_row(row),
            FromTerm::GotoCol(col) => self.goto_col(col),
            FromTerm::Goto { row, col } => self.goto(row, col),
            FromTerm::MoveUp(count) => self.move_up(count),
            FromTerm::MoveDown(count) => self.move_down(count),
            FromTerm::MoveBackward(count) => self.move_backward(count),
            FromTerm::MoveForward(count) => self.move_forward(count),
            FromTerm::MoveDownAndReturn(count) => self.move_down_and_return(count),
            FromTerm::MoveUpAndReturn(count) => self.move_up_and_return(count),
            FromTerm::SetCursorStyle(style) => self.set_cursor_style(style),
            FromTerm::SetColor(_, _) => {},
            FromTerm::ResetColor(_) => {},
        }
    }
}

impl State {
    /// Applies `command` where it can be applied, and says whether it
    /// was: a command that cannot be applied is passed over, and the
    /// screen stays as it is.
    pub fn try_apply(&mut self, command: FromTerm) -> (applied: bool)
        requires
            old(self).grid.inv(),
        ensures
            final(self).grid.inv(),
            applied == old(self)@.accepts(command),
            applied ==> final(self)@ == old(self)@.apply(command),
            !applied ==> final(self)@ == old(self)@,
            old(self)@.contained() ==> final(self)@.contained(),
    {
        proof {
            self.lemma_view_sound();
        }
        if self.accepts(command) {
            self.apply(command);
            true
        } else {
            false
        }
    }
}

/// The callbacks of a terminal parser, bound to a screen: characters are
/// printed, control bytes do what their commands say, and every other
/// sequence is passed over.
impl State {
    /// Applies the command of the control byte `byte`; a byte that stands
    /// for none changes nothing.
    pub fn execute(&mut self, byte: u8)
        requires
            old(self).usable(),
        ensures
            final(self).usable(),
            final(self)@ == old(self)@.execute(byte),
            old(self)@.contained() ==> final(self)@.contained(),
    {
        match control_command(byte) {
            Some(command) => self.apply(command),
            None => {},
        }
    }
}

/// The callbacks of a terminal parser, bound to a queue: each character
/// and each control byte that stands for a command puts one command at the
/// back, and every other sequence is passed over.
#[derive(Debug)]
pub struct Performer {
    pub items: VecDeque<FromTerm>,
}

impl View for Performer {
    type V = Seq<FromTerm>;

    open spec fn view(&self) -> Seq<FromTerm> {
        self.items@
    }
}

impl Performer {
    /// An empty queue.
    pub fn new() -> (performer: Performer)
        ensures
            performer@ == Seq::<FromTerm>::empty(),
    {
        Performer { items: VecDeque::new() }
    }

    /// Queues the printing of `c`.
    pub fn print(&mut self, c: char)
        ensures
            final(self)@ == old(self)@.push(FromTerm::Print(c)),
    {
        self.items.push_back(FromTerm::Print(c));
    }

    /// Queues the command of the control byte `byte`, where it stands for
    /// one.
    pub fn execute(&mut self, byte: u8)
        ensures
            final(self)@ == match spec_control_command(byte) {
                Some(command) => old(self)@.push(command),
                None => old(self)@,
            },
    {
        match control_command(byte) {
            Some(command) => self.items.push_back(command),
            None => {},
        }
    }

    /// Whether no command waits.
    pub fn is_empty(&self) -> (empty: bool)
        ensures
            empty == (self@.len() == 0),
    {
        self.items.len() == 0
    }

    /// Takes the command at the front, the one that has waited longest.
    pub fn pop(&mut self) -> (command: Option<FromTerm>)
        ensures
            old(self)@.len() == 0 ==> command.is_none() && final(self)@ == old(self)@,
            old(self)@.len() > 0 ==> command == Some(old(self)@[0]) && final(self)@ == old(
                self,
            )@.drop_first(),
    {
        let command = self.items.pop_front();
        proof {
            if old(self)@.len() > 0 {
                assert(self@ =~= old(self)@.drop_first());
            }
        }
        command
    }
}

/// From the last column no tab leads away.
proof fn lemma_tabbed_at_end(count: nat, cols: int)
    requires
        cols > 0,
    ensures
        tabbed(cols - 1, count, cols) == cols - 1,
    decreases count,
{
    if count > 0 {
        lemma_tabbed_at_end((count - 1) as nat, cols);
    }
}

/// Tabs lead to a column of the line.
pub proof fn lemma_tabbed_bounds(col: int, count: nat, cols: int)
    requires
        0 <= col,
        0 < cols,
        count > 0 || col < cols,
    ensures
        0 <= tabbed(col, count, cols) < cols,
    decreases count,
{
    if count > 0 {
        lemma_tabbed_bounds(next_tab(col, cols), (count - 1) as nat, cols);
    }
}

/// Whatever the command, a usable screen stays usable, and its sides stay
/// what they are.
pub proof fn lemma_apply_usable(screen: Screen, command: FromTerm)
    requires
        screen.usable(),
    ensures
        screen.apply(command).usable(),
        screen.apply(command).rows == screen.rows,
        screen.apply(command).cols == screen.cols,
{
    match command {
        FromTerm::Print(c) => {
            if screen.rows > 1 {
                lemma_ring_index(1, screen.top as int, screen.rows as int);
            } else {
                vstd::arithmetic::div_mod::lemma_mod_self_0(1);
            }
        },
        _ => {},
    }
}

/// Cursor containment: a cursor that stands on a cell of the screen
/// stands on one after the command, whatever the command.
pub proof fn lemma_apply_contained(screen: Screen, command: FromTerm)
    requires
        screen.usable(),
        screen.contained(),
    ensures
        screen.apply(command).usable(),
        screen.apply(command).contained(),
        screen.apply(command).rows == screen.rows,
        screen.apply(command).cols == screen.cols,
{
    lemma_apply_usable(screen, command);
    match command {
        FromTerm::PutTab(count) => {
            lemma_tabbed_bounds(screen.col(), count as nat, screen.cols as int);
        },
        _ => {},
    }
}

/// Cursor containment, for any sequence of commands: each can be applied
/// when its turn comes, and the cursor ends on a cell of the screen.
pub proof fn lemma_apply_all_contained(screen: Screen, commands: Seq<FromTerm>)
    requires
        screen.usable(),
        screen.contained(),
    ensures
        screen.apply_all(commands).usable(),
        screen.apply_all(commands).contained(),
        screen.apply_all(commands).rows == screen.rows,
        screen.apply_all(commands).cols == screen.cols,
    decreases commands.len(),
{
    if commands.len() > 0 {
        lemma_apply_contained(screen, commands[0]);
        lemma_apply_all_contained(screen.apply(commands[0]), commands.drop_first());
    }
}

/// A text that fits between the cursor and the end of its row is printed
/// into that row, one character a cell from the cursor on; the cursor
/// ends behind the last character, and nothing else changes.
pub proof fn lemma_print_all_in_row(screen: Screen, text: Seq<char>)
    requires
        screen.usable(),
        screen.contained(),
        screen.col() + text.len() < screen.cols,
    ensures
        ({
            let printed = screen.print_all(text);
            &&& printed.usable()
            &&& printed.contained()
            &&& printed.rows == screen.rows
            &&& printed.cols == screen.cols
            &&& printed.top == screen.top
            &&& printed.cursor == screen.cursor_at(
                screen.row(),
                screen.col() + text.len(),
            ).cursor
            &&& forall|r: int, c: int|
                0 <= r < screen.rows && 0 <= c < screen.cols ==> #[trigger] printed.cells[r][c]
                    == if r == screen.row() && screen.col() <= c < screen.col() + text.len() {
                    Cell { content: Some(text[c - screen.col()]), ..screen.cells[r][c] }
                } else {
                    screen.cells[r][c]
                }
        }),
    decreases text.len(),
{
    if text.len() > 0 {
        let next = screen.print(text[0]);
        lemma_apply_contained(screen, FromTerm::Print(text[0]));
        lemma_print_all_in_row(next, text.drop_first());
        let printed = screen.print_all(text);
        assert forall|r: int, c: int| 0 <= r < screen.rows && 0 <= c < screen.cols implies
            #[trigger] printed.cells[r][c] == if r == screen.row() && screen.col() <= c
            < screen.col() + text.len() {
            Cell { content: Some(text[c - screen.col()]), ..screen.cells[r][c] }
        } else {
            screen.cells[r][c]
        } by {
            if r == screen.row() && screen.col() < c < screen.col() + text.len() {
                assert(text.drop_first()[c - next.col()] == text[c - screen.col()]);
            }
        }
    }
}

/// Print and read back: a text shorter than a row, printed from the top
/// left corner, stands in the first row, one character a cell, and the
/// cursor stands behind it in that row.
pub proof fn lemma_print_read_round_trip(screen: Screen, text: Seq<char>)
    requires
        screen.usable(),
        screen.row() == 0,
        screen.col() == 0,
        text.len() < screen.cols,
    ensures
        forall|i: int|
            0 <= i < text.len() ==> (#[trigger] screen.print_all(text).cells[0][i]).content
                == Some(text[i]),
        screen.print_all(text).row() == 0,
        screen.print_all(text).col() == text.len(),
{
    lemma_print_all_in_row(screen, text);
}

} // verus!
