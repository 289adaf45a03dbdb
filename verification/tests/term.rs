use muxr::state::{Cell, CellStyle, Col, Color, CursorStyle, Row, State};
use muxr::term::{control_command, FromTerm, Performer};

#[test]
fn print_basic() {
    let mut state = State::default();
    state.print('c');

    assert_eq!(state.cursor.position, (Row(0), Col(1)));

    let cell = state.cell(Row(0), Col(0));
    assert_eq!(cell.content, Some('c'));
}

#[test]
fn print_wrap() {
    let mut state = State::with_dimensions(Row(2), Col(1));
    state.print('c');

    assert_eq!(state.cursor.position, (Row(1), Col(0)));

    let cell = state.cell(Row(0), Col(0));
    assert_eq!(cell.content, Some('c'));
}

#[test]
fn print_scroll() {
    let mut state = State::with_dimensions(Row(3), Col(1));

    state.cell_mut(Row(0), Col(0)).unwrap().content = Some('a');
    state.cell_mut(Row(1), Col(0)).unwrap().content = Some('b');

    state.cursor.position = (Row(2), Col(0));

    state.print('c');

    assert_eq!(state.cursor.position, (Row(2), Col(0)));

    let cell = state.cell(Row(0), Col(0));
    assert_eq!(cell.content, Some('b'));

    let cell = state.cell(Row(1), Col(0));
    assert_eq!(cell.content, Some('c'));

    let cell = state.cell(Row(2), Col(0));
    assert_eq!(cell.content, None);
}

#[test]
fn apply_print_basic() {
    let mut state = State::default();
    state.apply(FromTerm::Print('c'));
    assert_eq!(state.cursor.position, (Row(0), Col(1)));
    assert_eq!(state.cell(Row(0), Col(0)).content, Some('c'));
}

#[test]
fn wrap_then_wrap() {
    let mut state = State::with_dimensions(Row(1), Col(2));
    state.apply(FromTerm::Print('a'));
    assert_eq!(state.cursor.position, (Row(0), Col(1)));
    state.apply(FromTerm::Print('b'));
    assert_eq!(state.cursor.position, (Row(0), Col(0)));
    assert_eq!(state.cell(Row(0), Col(0)).content, None);
    assert_eq!(state.cell(Row(0), Col(1)).content, None);
    state.apply(FromTerm::Print('c'));
    assert_eq!(state.cell(Row(0), Col(0)).content, Some('c'));
    assert_eq!(state.cell(Row(0), Col(1)).content, None);
    assert_eq!(state.cursor.position, (Row(0), Col(1)));
}

#[test]
fn carriage_return_linefeed() {
    let mut state = State::default();
    state.cursor.position = (Row(0), Col(5));
    state.apply(FromTerm::CarriageReturn);
    assert_eq!(state.cursor.position, (Row(0), Col(0)));
    state.apply(FromTerm::Linefeed);
    assert_eq!(state.cursor.position, (Row(1), Col(0)));
}

#[test]
fn print_keeps_style_and_colors() {
    let mut state = State::with_dimensions(Row(2), Col(2));
    {
        let cell = state.cell_mut(Row(0), Col(0)).unwrap();
        cell.style = CellStyle::bold().union(CellStyle::strike());
        cell.foreground = Color::new(9, 8, 7);
        cell.background = Color::new(1, 2, 3);
        cell.content = Some('o');
    }
    state.print('n');
    let cell = state.cell(Row(0), Col(0));
    assert_eq!(cell.content, Some('n'));
    assert_eq!(cell.style, CellStyle::from_bits(0x81));
    assert_eq!(cell.foreground, Color::new(9, 8, 7));
    assert_eq!(cell.background, Color::new(1, 2, 3));
}

#[test]
fn print_and_read_back() {
    let text = "héllo, wörld ✓";
    let mut state = State::with_dimensions(Row(3), Col(20));
    for c in text.chars() {
        state.apply(FromTerm::Print(c));
    }
    let count = text.chars().count() as u16;
    for (i, c) in text.chars().enumerate() {
        assert_eq!(state.cell(Row(0), Col(i as u16)).content, Some(c));
    }
    assert_eq!(state.cell(Row(0), Col(count)).content, None);
    assert_eq!(state.cell(Row(1), Col(0)).content, None);
    assert_eq!(state.cursor.position, (Row(0), Col(count)));
    assert_eq!(state.top(), Row(0));
}

#[test]
fn print_fills_the_screen_then_scrolls() {
    let mut state = State::with_dimensions(Row(2), Col(3));
    for c in "abcdef".chars() {
        state.print(c);
    }
    assert_eq!(state.cursor.position, (Row(1), Col(0)));
    assert_eq!(state.top(), Row(1));
    assert_eq!(state.cell(Row(0), Col(0)).content, Some('d'));
    assert_eq!(state.cell(Row(0), Col(2)).content, Some('f'));
    assert_eq!(state.cell(Row(1), Col(0)).content, None);
    state.print('g');
    assert_eq!(state.cell(Row(1), Col(0)).content, Some('g'));
    assert_eq!(state.cursor.position, (Row(1), Col(1)));
}

#[test]
fn linefeed_stays_on_the_last_row() {
    let mut state = State::with_dimensions(Row(2), Col(2));
    state.cell_mut(Row(0), Col(0)).unwrap().content = Some('a');
    state.linefeed();
    assert_eq!(state.cursor.position, (Row(1), Col(0)));
    state.linefeed();
    assert_eq!(state.cursor.position, (Row(1), Col(0)));
    state.apply(FromTerm::Linefeed);
    assert_eq!(state.cursor.position, (Row(1), Col(0)));
    assert!(state.is_contained());
    assert_eq!(state.top(), Row(0));
    assert_eq!(state.cell(Row(0), Col(0)).content, Some('a'));
}

#[test]
fn print_after_linefeeds_on_the_last_row_is_kept() {
    let mut state = State::with_dimensions(Row(2), Col(2));
    state.linefeed();
    state.linefeed();
    state.print('x');
    assert_eq!(state.cell(Row(1), Col(0)).content, Some('x'));
    assert_eq!(state.cursor.position, (Row(1), Col(1)));
    assert_eq!(state.top(), Row(0));
}

#[test]
fn every_control_byte_keeps_the_cursor_on_the_screen() {
    for (row, col) in [(0u16, 0u16), (2, 0), (2, 3), (0, 3), (1, 2)] {
        for byte in 0..=255u8 {
            let mut state = State::with_dimensions(Row(3), Col(4));
            state.cursor.position = (Row(row), Col(col));
            state.execute(byte);
            assert!(state.cursor.position.0 < state.rows());
            assert!(state.cursor.position.1 < state.columns());
            assert!(state.top() < state.rows());
            assert!(state.is_contained());
        }
    }
    let mut state = State::with_dimensions(Row(3), Col(4));
    state.cursor.position = (Row(2), Col(3));
    state.execute(0x0A);
    assert_eq!(state.cursor.position, (Row(2), Col(3)));
    state.execute(0x0B);
    state.execute(0x0C);
    assert_eq!(state.cursor.position, (Row(2), Col(3)));
    state.execute(0x85);
    assert_eq!(state.cursor.position, (Row(2), Col(0)));
    state.execute(0x08);
    assert_eq!(state.cursor.position, (Row(2), Col(0)));
    state.cursor.position = (Row(0), Col(3));
    state.execute(0x09);
    assert_eq!(state.cursor.position, (Row(0), Col(3)));
}

#[test]
fn a_cursor_put_outside_the_screen_is_brought_back() {
    let mut state = State::with_dimensions(Row(3), Col(3));
    state.cursor.position = (Row(7), Col(9));
    state.apply(FromTerm::MoveDown(Row(1)));
    assert_eq!(state.cursor.position, (Row(2), Col(9)));
    state.apply(FromTerm::MoveForward(Col(0)));
    assert_eq!(state.cursor.position, (Row(2), Col(2)));
    state.cursor.position = (Row(7), Col(9));
    state.apply(FromTerm::Linefeed);
    assert_eq!(state.cursor.position, (Row(2), Col(9)));
    state.cursor.position = (Row(65535), Col(9));
    state.apply(FromTerm::Newline);
    assert_eq!(state.cursor.position, (Row(2), Col(0)));
    state.cursor.position = (Row(7), Col(9));
    state.apply(FromTerm::PutTab(1));
    assert_eq!(state.cursor.position, (Row(7), Col(2)));
    state.apply(FromTerm::MoveUp(Row(6)));
    assert_eq!(state.cursor.position, (Row(1), Col(2)));
    state.cursor.position = (Row(7), Col(9));
    state.apply(FromTerm::Print('x'));
    assert_eq!(state.cursor.position, (Row(2), Col(0)));
    assert_eq!(state.top(), Row(1));
    for r in 0..3 {
        for c in 0..3 {
            assert_eq!(state.cell(Row(r), Col(c)).content, None);
        }
    }
}

#[test]
fn accepts_tells_whether_a_command_can_be_applied() {
    let mut state = State::with_dimensions(Row(2), Col(2));
    assert!(state.accepts(FromTerm::Linefeed));
    assert!(state.accepts(FromTerm::Print('a')));
    state.cursor.position = (Row(65535), Col(65535));
    assert!(state.accepts(FromTerm::Linefeed));
    assert!(state.accepts(FromTerm::Newline));
    assert!(state.accepts(FromTerm::Print('a')));
    assert!(state.accepts(FromTerm::MoveDown(Row(65535))));

    let flat = State::with_dimensions(Row(0), Col(2));
    assert!(!flat.accepts(FromTerm::Print('a')));
    assert!(!flat.accepts(FromTerm::Linefeed));
    let thin = State::with_dimensions(Row(2), Col(0));
    assert!(!thin.accepts(FromTerm::CarriageReturn));
}

#[test]
fn try_apply_passes_over_what_cannot_be_applied() {
    let mut state = State::with_dimensions(Row(2), Col(2));
    assert!(state.try_apply(FromTerm::Print('a')));
    assert_eq!(state.cell(Row(0), Col(0)).content, Some('a'));
    assert_eq!(state.cursor.position, (Row(0), Col(1)));
    assert!(state.try_apply(FromTerm::Linefeed));
    assert!(state.try_apply(FromTerm::Linefeed));
    assert_eq!(state.cursor.position, (Row(1), Col(1)));

    let mut flat = State::with_dimensions(Row(0), Col(2));
    assert!(!flat.try_apply(FromTerm::Print('a')));
    assert!(!flat.try_apply(FromTerm::MoveDown(Row(1))));
    assert!(!flat.try_apply(FromTerm::Linefeed));
    assert_eq!(flat.cursor.position, (Row(0), Col(0)));
}

#[test]
fn newline_is_return_then_linefeed() {
    let mut state = State::default();
    state.cursor.position = (Row(3), Col(17));
    state.apply(FromTerm::Newline);
    assert_eq!(state.cursor.position, (Row(4), Col(0)));
    state.cursor.position = (Row(23), Col(17));
    state.newline();
    assert_eq!(state.cursor.position, (Row(23), Col(0)));
}

#[test]
fn backspace_stops_at_the_first_column() {
    let mut state = State::default();
    state.cursor.position = (Row(2), Col(2));
    state.apply(FromTerm::Backspace);
    assert_eq!(state.cursor.position, (Row(2), Col(1)));
    state.backspace();
    assert_eq!(state.cursor.position, (Row(2), Col(0)));
    state.backspace();
    assert_eq!(state.cursor.position, (Row(2), Col(0)));
}

#[test]
fn put_tab_goes_to_multiples_of_eight() {
    let mut state = State::default();
    state.apply(FromTerm::PutTab(1));
    assert_eq!(state.cursor.position, (Row(0), Col(8)));
    state.cursor.position = (Row(0), Col(7));
    state.put_tab(1);
    assert_eq!(state.cursor.position, (Row(0), Col(8)));
    state.cursor.position = (Row(0), Col(3));
    state.put_tab(3);
    assert_eq!(state.cursor.position, (Row(0), Col(24)));
    state.put_tab(0);
    assert_eq!(state.cursor.position, (Row(0), Col(24)));
}

#[test]
fn put_tab_stops_at_the_last_column() {
    let mut state = State::default();
    state.cursor.position = (Row(1), Col(72));
    state.put_tab(1);
    assert_eq!(state.cursor.position, (Row(1), Col(79)));
    state.put_tab(1);
    assert_eq!(state.cursor.position, (Row(1), Col(79)));
    state.cursor.position = (Row(1), Col(0));
    state.put_tab(65535);
    assert_eq!(state.cursor.position, (Row(1), Col(79)));

    let mut narrow = State::with_dimensions(Row(1), Col(5));
    narrow.put_tab(1);
    assert_eq!(narrow.cursor.position, (Row(0), Col(4)));
}

#[test]
fn goto_clamps_into_the_screen() {
    let mut state = State::default();
    state.apply(FromTerm::Goto { row: Row(5), col: Col(6) });
    assert_eq!(state.cursor.position, (Row(5), Col(6)));
    state.apply(FromTerm::Goto { row: Row(24), col: Col(80) });
    assert_eq!(state.cursor.position, (Row(23), Col(79)));
    state.apply(FromTerm::GotoRow(Row(2)));
    assert_eq!(state.cursor.position, (Row(2), Col(79)));
    state.apply(FromTerm::GotoCol(Col(3)));
    assert_eq!(state.cursor.position, (Row(2), Col(3)));
    state.apply(FromTerm::GotoRow(Row(65535)));
    assert_eq!(state.cursor.position, (Row(23), Col(3)));
    state.apply(FromTerm::GotoCol(Col(65535)));
    assert_eq!(state.cursor.position, (Row(23), Col(79)));
}

#[test]
fn relative_moves_clamp_into_the_screen() {
    let mut state = State::default();
    state.cursor.position = (Row(10), Col(10));
    state.apply(FromTerm::MoveUp(Row(3)));
    assert_eq!(state.cursor.position, (Row(7), Col(10)));
    state.apply(FromTerm::MoveUp(Row(8)));
    assert_eq!(state.cursor.position, (Row(0), Col(10)));
    state.apply(FromTerm::MoveDown(Row(5)));
    assert_eq!(state.cursor.position, (Row(5), Col(10)));
    state.apply(FromTerm::MoveDown(Row(65535)));
    assert_eq!(state.cursor.position, (Row(23), Col(10)));
    state.apply(FromTerm::MoveBackward(Col(4)));
    assert_eq!(state.cursor.position, (Row(23), Col(6)));
    state.apply(FromTerm::MoveBackward(Col(7)));
    assert_eq!(state.cursor.position, (Row(23), Col(0)));
    state.apply(FromTerm::MoveForward(Col(79)));
    assert_eq!(state.cursor.position, (Row(23), Col(79)));
    state.apply(FromTerm::MoveBackward(Col(1)));
    state.apply(FromTerm::MoveForward(Col(65535)));
    assert_eq!(state.cursor.position, (Row(23), Col(79)));
}

#[test]
fn moves_with_return() {
    let mut state = State::default();
    state.cursor.position = (Row(10), Col(10));
    state.apply(FromTerm::MoveDownAndReturn(Row(2)));
    assert_eq!(state.cursor.position, (Row(12), Col(0)));
    state.cursor.position = (Row(10), Col(10));
    state.apply(FromTerm::MoveUpAndReturn(Row(20)));
    assert_eq!(state.cursor.position, (Row(0), Col(0)));
    state.cursor.position = (Row(10), Col(10));
    state.apply(FromTerm::MoveDownAndReturn(Row(20)));
    assert_eq!(state.cursor.position, (Row(23), Col(0)));
}

#[test]
fn set_cursor_style_changes_only_the_style() {
    let mut state = State::default();
    state.cursor.position = (Row(1), Col(2));
    state.apply(FromTerm::SetCursorStyle(CursorStyle::Beam));
    assert_eq!(state.cursor.style, CursorStyle::Beam);
    assert_eq!(state.cursor.position, (Row(1), Col(2)));
    assert_eq!(state.cursor.color, Color::white());
    assert!(state.cursor.visible);
    state.set_cursor_style(CursorStyle::Underline);
    assert_eq!(state.cursor.style, CursorStyle::Underline);
}

#[test]
fn palette_commands_change_nothing() {
    let mut state = State::with_dimensions(Row(2), Col(2));
    state.print('a');
    let before = state.clone();
    state.apply(FromTerm::SetColor(3, Color::new(1, 2, 3)));
    state.apply(FromTerm::ResetColor(3));
    assert_eq!(state.cursor, before.cursor);
    assert_eq!(state.top(), before.top());
    for r in 0..2 {
        for c in 0..2 {
            assert_eq!(state.cell(Row(r), Col(c)), before.cell(Row(r), Col(c)));
        }
    }
}

#[test]
fn cursor_stays_on_the_screen_under_any_commands() {
    let commands = [
        FromTerm::Print('x'),
        FromTerm::Linefeed,
        FromTerm::PutTab(3),
        FromTerm::Newline,
        FromTerm::MoveDown(Row(9)),
        FromTerm::Print('y'),
        FromTerm::MoveForward(Col(9)),
        FromTerm::Print('z'),
        FromTerm::Goto { row: Row(100), col: Col(100) },
        FromTerm::Print('w'),
        FromTerm::Backspace,
        FromTerm::MoveUpAndReturn(Row(1)),
        FromTerm::GotoCol(Col(2)),
        FromTerm::GotoRow(Row(2)),
        FromTerm::MoveBackward(Col(1)),
        FromTerm::MoveUp(Row(1)),
        FromTerm::CarriageReturn,
        FromTerm::MoveDownAndReturn(Row(1)),
        FromTerm::SetCursorStyle(CursorStyle::Beam),
        FromTerm::SetColor(0, Color::black()),
        FromTerm::ResetColor(0),
    ];
    let mut state = State::with_dimensions(Row(3), Col(4));
    for round in 0..5 {
        for (i, command) in commands.iter().enumerate() {
            for _ in 0..1 + (i + round) % 2 {
                assert!(state.accepts(*command));
                state.apply(*command);
                assert!(state.is_contained());
                assert!(state.cursor.position.0 < Row(3));
                assert!(state.cursor.position.1 < Col(4));
                assert!(state.top() < Row(3));
            }
        }
    }
}

#[test]
fn control_bytes() {
    assert_eq!(control_command(0x0D), Some(FromTerm::CarriageReturn));
    assert_eq!(control_command(0x0A), Some(FromTerm::Linefeed));
    assert_eq!(control_command(0x0B), Some(FromTerm::Linefeed));
    assert_eq!(control_command(0x0C), Some(FromTerm::Linefeed));
    assert_eq!(control_command(0x08), Some(FromTerm::Backspace));
    assert_eq!(control_command(0x09), Some(FromTerm::PutTab(1)));
    assert_eq!(control_command(0x85), Some(FromTerm::Newline));
    for byte in 0..=255u8 {
        if ![0x08, 0x09, 0x0A, 0x0B, 0x0C, 0x0D, 0x85].contains(&byte) {
            assert_eq!(control_command(byte), None);
        }
    }
}

#[test]
fn execute_applies_the_command_of_the_byte() {
    let mut state = State::default();
    state.cursor.position = (Row(0), Col(5));
    state.execute(0x0D);
    assert_eq!(state.cursor.position, (Row(0), Col(0)));
    state.execute(0x0A);
    assert_eq!(state.cursor.position, (Row(1), Col(0)));
    state.execute(0x09);
    assert_eq!(state.cursor.position, (Row(1), Col(8)));
    state.execute(0x08);
    assert_eq!(state.cursor.position, (Row(1), Col(7)));
    state.execute(0x85);
    assert_eq!(state.cursor.position, (Row(2), Col(0)));
    state.execute(0x07);
    state.execute(0x00);
    state.execute(0x1B);
    assert_eq!(state.cursor.position, (Row(2), Col(0)));
    assert_eq!(state.cell(Row(0), Col(0)), Cell::default());
}

#[test]
fn performer_queues_in_order() {
    let mut performer = Performer::new();
    assert!(performer.is_empty());
    assert_eq!(performer.pop(), None);
    performer.print('a');
    performer.execute(0x0D);
    performer.execute(0x07);
    performer.execute(0x0A);
    performer.print('b');
    assert!(!performer.is_empty());
    assert_eq!(performer.pop(), Some(FromTerm::Print('a')));
    assert_eq!(performer.pop(), Some(FromTerm::CarriageReturn));
    assert_eq!(performer.pop(), Some(FromTerm::Linefeed));
    assert_eq!(performer.pop(), Some(FromTerm::Print('b')));
    assert_eq!(performer.pop(), None);
    assert!(performer.is_empty());
}
