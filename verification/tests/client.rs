use muxr::client::{input_step, Action};
use muxr::input::{Event, Key};
use muxr::io::split;

#[test]
fn keys_outside_the_meta_state_are_sent() {
    for key in [
        Key::Char('a'),
        Key::Char('q'),
        Key::Char('!'),
        Key::Alt('a'),
        Key::Ctrl('!'),
        Key::F(1),
        Key::Esc,
        Key::Backspace,
        Key::Null,
    ] {
        assert_eq!(
            input_step(false, Some(key)),
            (false, Action::Send(Event::Key(key)))
        );
    }
}

#[test]
fn escape_key_enters_the_meta_state() {
    assert_eq!(
        input_step(false, Some(Key::Alt('!'))),
        (true, Action::Nothing)
    );
}

#[test]
fn events_without_a_key_are_passed_over() {
    assert_eq!(input_step(false, None), (false, Action::Nothing));
    assert_eq!(input_step(true, None), (false, Action::Nothing));
}

#[test]
fn double_escape_sends_the_escape_key() {
    let (escaped, action) = input_step(false, Some(Key::Alt('!')));
    assert_eq!(action, Action::Nothing);
    let (escaped, action) = input_step(escaped, Some(Key::Alt('!')));
    assert_eq!(action, Action::Send(Event::Key(Key::Alt('!'))));
    assert!(!escaped);
}

#[test]
fn q_in_the_meta_state_quits() {
    assert_eq!(
        input_step(true, Some(Key::Char('q'))),
        (false, Action::Quit)
    );
}

#[test]
fn other_keys_in_the_meta_state_are_dropped() {
    for key in [
        Key::Char('a'),
        Key::Char('Q'),
        Key::Char('!'),
        Key::Alt('q'),
        Key::Ctrl('q'),
        Key::F(1),
        Key::Esc,
    ] {
        assert_eq!(input_step(true, Some(key)), (false, Action::Nothing));
    }
}

#[test]
fn a_session() {
    let keys = [
        Some(Key::Char('l')),
        Some(Key::Alt('!')),
        Some(Key::Char('x')),
        Some(Key::Char('s')),
        None,
        Some(Key::Alt('!')),
        None,
        Some(Key::Char('q')),
        Some(Key::Alt('!')),
        Some(Key::Char('q')),
    ];
    let expected = [
        Action::Send(Event::Key(Key::Char('l'))),
        Action::Nothing,
        Action::Nothing,
        Action::Send(Event::Key(Key::Char('s'))),
        Action::Nothing,
        Action::Nothing,
        Action::Nothing,
        Action::Send(Event::Key(Key::Char('q'))),
        Action::Nothing,
        Action::Quit,
    ];
    let mut escaped = false;
    for (key, action) in keys.iter().zip(expected.iter()) {
        let (next, done) = input_step(escaped, *key);
        assert_eq!(done, *action);
        escaped = next;
    }
}

#[test]
fn split_gives_two_handles_on_one_item() {
    let (read, write) = split(String::from("tty"));
    assert_eq!(read.get_ref(), "tty");
    assert_eq!(write.get_ref(), "tty");
    assert!(std::ptr::eq(read.get_ref(), write.get_ref()));
    assert_eq!(std::sync::Arc::strong_count(&read.0), 2);
}
