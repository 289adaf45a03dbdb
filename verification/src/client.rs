//! What the client does with the keys of its terminal: most are sent to
//! the server, and the escape key opens a one-shot meta state.

use crate::input::{Event, Key};
use vstd::prelude::*;

verus! {

/// The character of the escape key, which is pressed together with Alt.
pub const ESCAPE: char = '!';

/// The character that, after the escape key, ends the client.
pub const QUIT: char = 'q';

/// What the client does after a key.
#[derive(Debug, Clone, Copy, PartialEq, Eq)]
pub enum Action {
    /// Nothing is sent.
    Nothing,
    /// The event is framed and sent to the server.
    Send(Event),
    /// The client ends.
    Quit,
}

/// `key` is the escape key.
pub open spec fn is_escape(key: Option<Key>) -> bool {
    key == Some(Key::Alt(ESCAPE))
}

/// The meta state after `key` and what is done for it. Outside the meta
/// state the escape key enters it and every other key is sent; a
/// terminal event without a key is passed over. In the meta state, which
/// lasts for one event, the escape key is sent itself, `q` ends the
/// client, and anything else is dropped.
pub open spec fn spec_input_step(escaped: bool, key: Option<Key>) -> (bool, Action) {
    if escaped {
        if is_escape(key) {
            (false, Action::Send(Event::Key(Key::Alt(ESCAPE))))
        } else if key == Some(Key::Char(QUIT)) {
            (false, Action::Quit)
        } else {
            (false, Action::Nothing)
        }
    } else {
        match key {
            Some(k) => if is_escape(key) {
                (true, Action::Nothing)
            } else {
                (false, Action::Send(Event::Key(k)))
            },
            None => (false, Action::Nothing),
        }
    }
}

/// One step of the input loop: from the meta state and the key of a
/// terminal event, `None` where the event carries no key, to the next
/// meta state and what is to be done.
pub fn input_step(escaped: bool, key: Option<Key>) -> (next: (bool, Action))
    ensures
        next == spec_input_step(escaped, key),
{
    let escape = match key {
        Some(Key::Alt(c)) => c == ESCAPE,
        _ => false,
    };
    if escaped {
        if escape {
            (false, Action::Send(Event::Key(Key::Alt(ESCAPE))))
        } else {
            match key {
                Some(Key::Char(c)) => if c == QUIT {
                    (false, Action::Quit)
                } else {
                    (false, Action::Nothing)
                },
                _ => (false, Action::Nothing),
            }
        }
    } else {
        match key {
            Some(k) => if escape {
                (true, Action::Nothing)
            } else {
                (false, Action::Send(Event::Key(k)))
            },
            None => (false, Action::Nothing),
        }
    }
}

/// The meta state never outlasts one event: whatever comes in it, the
/// next state is outside it.
pub proof fn lemma_meta_is_one_shot(key: Option<Key>)
    ensures
        !spec_input_step(true, key).0,
{
}

/// Pressing the escape key twice sends it once, and leaves the client
/// outside the meta state.
pub proof fn lemma_double_escape()
    ensures
        spec_input_step(false, Some(Key::Alt(ESCAPE))) == (true, Action::Nothing),
        spec_input_step(true, Some(Key::Alt(ESCAPE))) == (
            false,
            Action::Send(Event::Key(Key::Alt(ESCAPE))),
        ),
{
}

} // verus!
