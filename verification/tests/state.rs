use muxr::state::{Cell, CellStyle, Col, Color, Cursor, CursorStyle, Row, State};

#[test]
fn row_col_div() {
    let x = Row::from(3);
    let y = x * 3u16;
    assert_eq!(y, Row::from(9));

    let x = Col::from(3);
    let y = x * 3u16;
    assert_eq!(y, Col::from(9));
}

#[test]
fn row_col_mul() {
    let x = Row::from(20);
    let y = x / 5u16;
    assert_eq!(y, Row::from(4));

    let x = Col::from(20);
    let y = x / 5u16;
    assert_eq!(y, Col::from(4));
}

#[test]
fn row_col_add_sub_convert() {
    assert_eq!(Row(7) + Row(5), Row(12));
    assert_eq!(Row(7) - Row(5), Row(2));
    assert_eq!(Col(7) + Col(5), Col(12));
    assert_eq!(Col(7) - Col(5), Col(2));
    assert_eq!(u16::from(Row(9)), 9);
    assert_eq!(u16::from(Col(11)), 11);
    assert!(Row(1) < Row(2));
    assert!(Col(3) > Col(2));
}

#[test]
fn defaults() {
    let state = State::default();
    assert_eq!(state.rows(), Row(24));
    assert_eq!(state.columns(), Col(80));
    assert_eq!(state.top(), Row(0));
    assert_eq!(state.cursor, Cursor::default());
    assert_eq!(state.cursor.position, (Row(0), Col(0)));
    assert_eq!(state.cursor.color, Color::white());
    assert_eq!(state.cursor.style, CursorStyle::Block);
    assert!(state.cursor.visible);
    assert_eq!(CursorStyle::default(), CursorStyle::Block);

    let cell = Cell::default();
    assert_eq!(cell.style, CellStyle::normal());
    assert_eq!(cell.foreground, Color::new(255, 255, 255));
    assert_eq!(cell.background, Color::new(0, 0, 0));
    assert_eq!(cell.content, None);
    assert_eq!(state.cell(Row(0), Col(0)), cell);
    assert_eq!(state.cell(Row(23), Col(79)), cell);
}

#[test]
fn style_bits_are_the_wire_byte() {
    assert_eq!(CellStyle::normal().bits(), 0x00);
    assert_eq!(CellStyle::bold().bits(), 0x01);
    assert_eq!(CellStyle::dim().bits(), 0x02);
    assert_eq!(CellStyle::italic().bits(), 0x04);
    assert_eq!(CellStyle::underscore().bits(), 0x08);
    assert_eq!(CellStyle::blink_slow().bits(), 0x10);
    assert_eq!(CellStyle::blink_fast().bits(), 0x20);
    assert_eq!(CellStyle::reverse().bits(), 0x40);
    assert_eq!(CellStyle::strike().bits(), 0x80);
    assert_eq!(CellStyle::default(), CellStyle::normal());
    assert!(CellStyle::normal().is_empty());
    assert!(!CellStyle::bold().is_empty());
}

#[test]
fn style_set_operations() {
    let both = CellStyle::bold().union(CellStyle::underscore());
    assert_eq!(both.bits(), 0x09);
    assert_eq!(both, CellStyle::from_bits(0x09));
    assert!(both.contains(CellStyle::bold()));
    assert!(both.contains(CellStyle::underscore()));
    assert!(!both.contains(CellStyle::dim()));
    assert!(!CellStyle::bold().contains(both));
    assert!(both.intersects(CellStyle::bold().union(CellStyle::dim())));
    assert!(!both.intersects(CellStyle::dim()));
    assert!(!both.intersects(CellStyle::normal()));
}

#[test]
fn out_of_bounds_read_gives_the_sentinel() {
    let state = State::with_dimensions(Row(3), Col(4));
    let sentinel = Cell::out_of_bounds();
    assert_eq!(sentinel.style, CellStyle::reverse());
    assert_eq!(sentinel.foreground, Color::black());
    assert_eq!(sentinel.background, Color::black());
    assert_eq!(sentinel.content, Some('.'));

    assert_eq!(state.cell(Row(3), Col(0)), sentinel);
    assert_eq!(state.cell(Row(0), Col(4)), sentinel);
    assert_eq!(state.cell(Row(65535), Col(65535)), sentinel);
    assert_eq!(state.cell(Row(2), Col(3)), Cell::default());
}

#[test]
fn out_of_bounds_write_changes_nothing() {
    let mut state = State::with_dimensions(Row(2), Col(2));
    state.cell_mut(Row(1), Col(1)).unwrap().content = Some('x');
    let before = state.clone();

    assert!(state.cell_mut(Row(2), Col(0)).is_none());
    assert!(state.cell_mut(Row(0), Col(2)).is_none());
    assert!(state.cell_mut(Row(65535), Col(65535)).is_none());

    for r in 0..3 {
        for c in 0..3 {
            assert_eq!(state.cell(Row(r), Col(c)), before.cell(Row(r), Col(c)));
        }
    }
    assert_eq!(state.top(), before.top());
    assert_eq!(state.cursor, before.cursor);
}

#[test]
fn cell_mut_writes_one_cell() {
    let mut state = State::with_dimensions(Row(2), Col(3));
    {
        let cell = state.cell_mut(Row(1), Col(2)).unwrap();
        assert_eq!(*cell, Cell::default());
        cell.content = Some('z');
        cell.foreground = Color::new(1, 2, 3);
        cell.style = CellStyle::bold();
    }
    for r in 0..2 {
        for c in 0..3 {
            let cell = state.cell(Row(r), Col(c));
            if (r, c) == (1, 2) {
                assert_eq!(cell.content, Some('z'));
                assert_eq!(cell.foreground, Color::new(1, 2, 3));
                assert_eq!(cell.background, Color::black());
                assert_eq!(cell.style, CellStyle::bold());
            } else {
                assert_eq!(cell, Cell::default());
            }
        }
    }
}

fn lettered(rows: u16, cols: u16) -> State {
    let mut state = State::with_dimensions(Row(rows), Col(cols));
    for r in 0..rows {
        for c in 0..cols {
            let letter = (b'a' + (r * cols + c) as u8) as char;
            state.cell_mut(Row(r), Col(c)).unwrap().content = Some(letter);
        }
    }
    state
}

#[test]
fn scroll_down_moves_rows_up_and_clears_the_bottom() {
    let mut state = lettered(4, 2);
    state.cursor.position = (Row(3), Col(1));
    state.scroll_down(Row(1));

    assert_eq!(state.rows(), Row(4));
    assert_eq!(state.columns(), Col(2));
    assert_eq!(state.top(), Row(1));
    assert_eq!(state.cursor.position, (Row(3), Col(1)));
    assert_eq!(state.cell(Row(0), Col(0)).content, Some('c'));
    assert_eq!(state.cell(Row(0), Col(1)).content, Some('d'));
    assert_eq!(state.cell(Row(1), Col(0)).content, Some('e'));
    assert_eq!(state.cell(Row(2), Col(1)).content, Some('h'));
    assert_eq!(state.cell(Row(3), Col(0)), Cell::default());
    assert_eq!(state.cell(Row(3), Col(1)), Cell::default());
}

#[test]
fn scroll_down_by_several_rows() {
    let mut state = lettered(4, 1);
    state.scroll_down(Row(3));
    assert_eq!(state.top(), Row(3));
    assert_eq!(state.cell(Row(0), Col(0)).content, Some('d'));
    assert_eq!(state.cell(Row(1), Col(0)).content, None);
    assert_eq!(state.cell(Row(2), Col(0)).content, None);
    assert_eq!(state.cell(Row(3), Col(0)).content, None);
}

#[test]
fn scroll_down_twice_is_scroll_down_by_the_sum() {
    let mut twice = lettered(5, 2);
    twice.scroll_down(Row(2));
    twice.scroll_down(Row(1));
    let mut once = lettered(5, 2);
    once.scroll_down(Row(3));
    assert_eq!(twice.top(), once.top());
    for r in 0..5 {
        for c in 0..2 {
            assert_eq!(twice.cell(Row(r), Col(c)), once.cell(Row(r), Col(c)));
        }
    }
}

#[test]
fn scroll_down_by_more_than_the_screen_clears_it_and_keeps_the_top() {
    let mut state = lettered(3, 2);
    state.scroll_down(Row(1));
    assert_eq!(state.top(), Row(1));
    state.scroll_down(Row(100));
    assert_eq!(state.top(), Row(1));
    for r in 0..3 {
        for c in 0..2 {
            assert_eq!(state.cell(Row(r), Col(c)), Cell::default());
        }
    }
}

#[test]
fn scroll_down_by_nothing_changes_nothing() {
    let mut state = lettered(3, 2);
    state.scroll_down(Row(0));
    assert_eq!(state.top(), Row(0));
    assert_eq!(state.cell(Row(0), Col(0)).content, Some('a'));
    assert_eq!(state.cell(Row(2), Col(1)).content, Some('f'));
}

#[test]
fn top_stays_inside_the_ring() {
    let mut state = lettered(3, 1);
    for step in 1..=10u16 {
        state.scroll_down(Row(1));
        assert_eq!(state.top(), Row(step % 3));
        assert!(state.top() < state.rows());
    }
}

#[test]
fn writes_after_a_scroll_land_on_the_logical_row() {
    let mut state = lettered(3, 1);
    state.scroll_down(Row(2));
    state.cell_mut(Row(1), Col(0)).unwrap().content = Some('x');
    assert_eq!(state.cell(Row(0), Col(0)).content, Some('c'));
    assert_eq!(state.cell(Row(1), Col(0)).content, Some('x'));
    assert_eq!(state.cell(Row(2), Col(0)).content, None);
}

#[test]
fn empty_screens() {
    let mut state = State::with_dimensions(Row(0), Col(5));
    assert_eq!(state.rows(), Row(0));
    assert_eq!(state.columns(), Col(5));
    assert!(!state.is_contained());
    assert_eq!(state.cell(Row(0), Col(0)), Cell::out_of_bounds());
    assert!(state.cell_mut(Row(0), Col(0)).is_none());
    state.scroll_down(Row(3));
    assert_eq!(state.top(), Row(0));

    let state = State::with_dimensions(Row(5), Col(0));
    assert_eq!(state.rows(), Row(5));
    assert_eq!(state.columns(), Col(0));
    assert!(!state.is_contained());
}

#[test]
fn is_contained_tells_whether_the_cursor_is_on_the_screen() {
    let mut state = State::with_dimensions(Row(2), Col(3));
    assert!(state.is_contained());
    state.cursor.position = (Row(1), Col(2));
    assert!(state.is_contained());
    state.cursor.position = (Row(2), Col(0));
    assert!(!state.is_contained());
    state.cursor.position = (Row(0), Col(3));
    assert!(!state.is_contained());
}

#[test]
fn clone_shows_the_same_and_is_apart() {
    let mut state = lettered(2, 2);
    state.scroll_down(Row(1));
    state.cursor.position = (Row(1), Col(1));
    let copy = state.clone();
    state.cell_mut(Row(0), Col(0)).unwrap().content = Some('!');

    assert_eq!(copy.top(), Row(1));
    assert_eq!(copy.cursor.position, (Row(1), Col(1)));
    assert_eq!(copy.cell(Row(0), Col(0)).content, Some('c'));
    assert_eq!(copy.cell(Row(0), Col(1)).content, Some('d'));
    assert_eq!(copy.cell(Row(1), Col(0)).content, None);
    assert_eq!(state.cell(Row(0), Col(0)).content, Some('!'));
}
