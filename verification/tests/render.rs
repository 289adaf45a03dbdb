use muxr::render::{render, render_from};
use muxr::state::{Cell, CellStyle, Col, Color, Row, State};

fn styled(bits: u8) -> Cell {
    let mut cell = Cell::default();
    cell.style = CellStyle::from_bits(bits);
    cell
}

fn delta(new: u8, previous: u8) -> String {
    let mut out = String::from("..");
    CellStyle::from_bits(new).write_delta(&CellStyle::from_bits(previous), &mut out);
    assert!(out.starts_with(".."));
    out[2..].to_string()
}

#[test]
fn blank_screen_is_movements_and_spaces() {
    let state = State::with_dimensions(Row(2), Col(3));
    assert_eq!(render(&state, Row(2), Col(3)), "\x1b[1;1H   \x1b[2;1H   ");
}

#[test]
fn nothing_to_draw() {
    let state = State::default();
    assert_eq!(render(&state, Row(0), Col(80)), "");
    assert_eq!(render(&state, Row(2), Col(0)), "\x1b[1;1H\x1b[2;1H");
}

#[test]
fn movements_are_those_of_termion() {
    let state = State::with_dimensions(Row(1), Col(1));
    let text = render(&state, Row(12), Col(0));
    let mut expected = String::new();
    for line in 1..=12u16 {
        expected.push_str(&format!("{}", termion::cursor::Goto(1, line)));
    }
    assert_eq!(text, expected);
    assert!(text.ends_with("\x1b[10;1H\x1b[11;1H\x1b[12;1H"));
}

#[test]
fn movement_to_a_far_line() {
    let state = State::with_dimensions(Row(1), Col(1));
    let text = render(&state, Row(65535), Col(0));
    assert!(text.starts_with("\x1b[1;1H\x1b[2;1H"));
    assert!(text.ends_with("\x1b[65534;1H\x1b[65535;1H"));
    assert!(text.contains("\x1b[100;1H\x1b[101;1H"));
    assert!(text.contains("\x1b[9999;1H\x1b[10000;1H"));
}

#[test]
fn content_is_drawn_and_empty_cells_are_spaces() {
    let mut state = State::with_dimensions(Row(1), Col(4));
    state.cell_mut(Row(0), Col(1)).unwrap().content = Some('a');
    state.cell_mut(Row(0), Col(3)).unwrap().content = Some('é');
    assert_eq!(render(&state, Row(1), Col(4)), "\x1b[1;1H a é");
}

#[test]
fn style_sequences_are_those_of_termion() {
    let on_off: [(u8, String, String); 8] = [
        (
            0x01,
            format!("{}", termion::style::Bold),
            format!("{}", termion::style::NoBold),
        ),
        (
            0x02,
            format!("{}", termion::style::Faint),
            format!("{}", termion::style::NoFaint),
        ),
        (
            0x04,
            format!("{}", termion::style::Italic),
            format!("{}", termion::style::NoItalic),
        ),
        (
            0x08,
            format!("{}", termion::style::Underline),
            format!("{}", termion::style::NoUnderline),
        ),
        (
            0x10,
            format!("{}", termion::style::Blink),
            format!("{}", termion::style::NoBlink),
        ),
        (
            0x20,
            format!("{}", termion::style::Blink),
            format!("{}", termion::style::NoBlink),
        ),
        (
            0x40,
            format!("{}", termion::style::Invert),
            format!("{}", termion::style::NoInvert),
        ),
        (
            0x80,
            format!("{}", termion::style::CrossedOut),
            format!("{}", termion::style::NoCrossedOut),
        ),
    ];
    for (bits, on, off) in on_off.iter() {
        assert_eq!(&delta(*bits, 0), on);
        assert_eq!(&delta(0, *bits), off);
        assert_eq!(delta(*bits, *bits), "");
    }
}

#[test]
fn style_sequences_exact() {
    assert_eq!(delta(0x01, 0), "\x1b[1m");
    assert_eq!(delta(0, 0x01), "\x1b[21m");
    assert_eq!(delta(0x02, 0), "\x1b[2m");
    assert_eq!(delta(0, 0x02), "\x1b[22m");
    assert_eq!(delta(0x04, 0), "\x1b[3m");
    assert_eq!(delta(0, 0x04), "\x1b[23m");
    assert_eq!(delta(0x08, 0), "\x1b[4m");
    assert_eq!(delta(0, 0x08), "\x1b[24m");
    assert_eq!(delta(0x10, 0), "\x1b[5m");
    assert_eq!(delta(0, 0x20), "\x1b[25m");
    assert_eq!(delta(0x40, 0), "\x1b[7m");
    assert_eq!(delta(0, 0x40), "\x1b[27m");
    assert_eq!(delta(0x80, 0), "\x1b[9m");
    assert_eq!(delta(0, 0x80), "\x1b[29m");
}

#[test]
fn style_changes_come_in_order() {
    assert_eq!(
        delta(0xFF, 0),
        "\x1b[1m\x1b[2m\x1b[3m\x1b[4m\x1b[5m\x1b[7m\x1b[9m"
    );
    assert_eq!(
        delta(0, 0xFF),
        "\x1b[21m\x1b[22m\x1b[23m\x1b[24m\x1b[25m\x1b[27m\x1b[29m"
    );
    assert_eq!(delta(0x81, 0x42), "\x1b[1m\x1b[22m\x1b[27m\x1b[9m");
}

#[test]
fn slow_and_fast_blink_are_one() {
    assert_eq!(delta(0x10, 0x20), "");
    assert_eq!(delta(0x20, 0x10), "");
    assert_eq!(delta(0x30, 0x10), "");
    assert_eq!(delta(0x30, 0), "\x1b[5m");
    assert_eq!(delta(0, 0x30), "\x1b[25m");
}

#[test]
fn color_sequences_are_those_of_termion() {
    for r in 0..=255u8 {
        for &g in [0u8, 7, 77, 177, 255].iter() {
            let b = r.wrapping_mul(3).wrapping_add(g);
            let mut cell = Cell::default();
            cell.foreground = Color::new(r, g, b);
            cell.background = Color::new(b, r, g);
            let previous = {
                let mut p = Cell::default();
                p.foreground = Color::new(r, g, b.wrapping_add(1));
                p.background = Color::new(b.wrapping_add(1), r, g);
                p
            };
            let mut out = String::new();
            cell.write_delta(&previous, &mut out);
            let expected = format!(
                "{}{}",
                termion::color::Fg(termion::color::Rgb(r, g, b)),
                termion::color::Bg(termion::color::Rgb(b, r, g))
            );
            assert_eq!(out, expected);
        }
    }
}

#[test]
fn color_sequences_exact() {
    let mut cell = Cell::default();
    cell.foreground = Color::new(255, 0, 10);
    cell.background = Color::new(1, 20, 100);
    let mut out = String::new();
    cell.write_delta(&Cell::default(), &mut out);
    assert_eq!(out, "\x1b[38;2;255;0;10m\x1b[48;2;1;20;100m");
}

#[test]
fn colors_are_written_only_where_they_differ() {
    let mut cell = Cell::default();
    cell.foreground = Color::new(1, 2, 3);
    let mut out = String::new();
    cell.write_delta(&Cell::default(), &mut out);
    assert_eq!(out, "\x1b[38;2;1;2;3m");

    let mut out = String::new();
    Cell::default().write_delta(&cell, &mut out);
    assert_eq!(out, "\x1b[38;2;255;255;255m");

    let mut other = Cell::default();
    other.background = Color::new(4, 5, 6);
    let mut out = String::from("x");
    other.write_delta(&Cell::default(), &mut out);
    assert_eq!(out, "x\x1b[48;2;4;5;6m");

    let mut out = String::new();
    cell.write_delta(&cell, &mut out);
    assert_eq!(out, "");
}

#[test]
fn cell_delta_is_style_then_foreground_then_background() {
    let mut cell = styled(0x09);
    cell.foreground = Color::new(255, 0, 0);
    cell.background = Color::new(0, 0, 255);
    cell.content = Some('b');
    let mut out = String::new();
    cell.write_delta(&Cell::default(), &mut out);
    assert_eq!(out, "\x1b[1m\x1b[4m\x1b[38;2;255;0;0m\x1b[48;2;0;0;255m");
}

#[test]
fn only_changes_are_written_between_cells() {
    let mut state = State::with_dimensions(Row(2), Col(3));
    for c in 0..3 {
        let cell = state.cell_mut(Row(0), Col(c)).unwrap();
        cell.style = CellStyle::bold();
        cell.content = Some('x');
    }
    {
        let cell = state.cell_mut(Row(1), Col(1)).unwrap();
        cell.foreground = Color::new(0, 255, 0);
        cell.content = Some('y');
    }
    assert_eq!(
        render(&state, Row(2), Col(3)),
        "\x1b[1;1H\x1b[1mxxx\x1b[2;1H\x1b[21m \x1b[38;2;0;255;0my\x1b[38;2;255;255;255m "
    );
}

#[test]
fn outside_the_screen_the_sentinel_is_drawn() {
    let state = State::with_dimensions(Row(1), Col(1));
    assert_eq!(
        render(&state, Row(2), Col(2)),
        "\x1b[1;1H \x1b[7m\x1b[38;2;0;0;0m.\x1b[2;1H.."
    );
}

#[test]
fn window_smaller_than_the_screen() {
    let mut state = State::with_dimensions(Row(3), Col(3));
    state.cell_mut(Row(0), Col(0)).unwrap().content = Some('a');
    state.cell_mut(Row(0), Col(2)).unwrap().content = Some('c');
    state.cell_mut(Row(2), Col(0)).unwrap().content = Some('z');
    assert_eq!(render(&state, Row(2), Col(2)), "\x1b[1;1Ha \x1b[2;1H  ");
}

#[test]
fn render_is_also_a_method_of_the_screen() {
    let mut state = State::with_dimensions(Row(1), Col(2));
    state.cell_mut(Row(0), Col(0)).unwrap().content = Some('m');
    assert_eq!(state.render(Row(1), Col(2)), "\x1b[1;1Hm ");
    assert_eq!(state.render(Row(1), Col(2)), render(&state, Row(1), Col(2)));
}

#[test]
fn render_reads_logical_rows() {
    let mut state = State::with_dimensions(Row(2), Col(1));
    state.cell_mut(Row(0), Col(0)).unwrap().content = Some('a');
    state.cell_mut(Row(1), Col(0)).unwrap().content = Some('b');
    state.scroll_down(Row(1));
    assert_eq!(render(&state, Row(2), Col(1)), "\x1b[1;1Hb\x1b[2;1H ");
}

#[test]
fn render_from_gives_the_cell_drawn_last() {
    let mut state = State::with_dimensions(Row(2), Col(2));
    {
        let last = state.cell_mut(Row(1), Col(1)).unwrap();
        last.style = CellStyle::italic();
        last.content = Some('q');
    }
    let (text, last) = render_from(&state, Cell::default(), Row(2), Col(2));
    assert_eq!(text, "\x1b[1;1H  \x1b[2;1H \x1b[3mq");
    assert_eq!(last, state.cell(Row(1), Col(1)));
    assert_eq!(
        text,
        render(&state, Row(2), Col(2))
    );

    let (text, last) = render_from(&state, styled(0x01), Row(0), Col(2));
    assert_eq!(text, "");
    assert_eq!(last, styled(0x01));
    let (text, last) = render_from(&state, styled(0x01), Row(2), Col(0));
    assert_eq!(text, "\x1b[1;1H\x1b[2;1H");
    assert_eq!(last, styled(0x01));
}

#[test]
fn later_passes_write_the_same() {
    let mut state = State::with_dimensions(Row(2), Col(2));
    {
        let cell = state.cell_mut(Row(0), Col(1)).unwrap();
        cell.style = CellStyle::bold();
        cell.foreground = Color::new(5, 6, 7);
        cell.content = Some('k');
    }
    let (first, after_first) = render_from(&state, Cell::default(), Row(2), Col(2));
    let (second, after_second) = render_from(&state, after_first, Row(2), Col(2));
    let (third, after_third) = render_from(&state, after_second, Row(2), Col(2));
    assert_eq!(after_first, after_second);
    assert_eq!(after_second, after_third);
    assert_eq!(second, third);
    assert_eq!(first, render(&state, Row(2), Col(2)));
    assert_eq!(render(&state, Row(2), Col(2)), render(&state, Row(2), Col(2)));
}

#[test]
fn second_pass_over_cells_that_look_alike_writes_no_sequence() {
    let mut state = State::with_dimensions(Row(2), Col(2));
    for r in 0..2 {
        for c in 0..2 {
            let cell = state.cell_mut(Row(r), Col(c)).unwrap();
            cell.style = CellStyle::reverse().union(CellStyle::dim());
            cell.foreground = Color::new(10, 20, 30);
            cell.background = Color::new(40, 50, 60);
            cell.content = Some((b'a' + (2 * r + c) as u8) as char);
        }
    }
    let (first, last) = render_from(&state, Cell::default(), Row(2), Col(2));
    assert_eq!(
        first,
        "\x1b[1;1H\x1b[2m\x1b[7m\x1b[38;2;10;20;30m\x1b[48;2;40;50;60mab\x1b[2;1Hcd"
    );
    let (second, _) = render_from(&state, last, Row(2), Col(2));
    assert_eq!(second, "\x1b[1;1Hab\x1b[2;1Hcd");
}
