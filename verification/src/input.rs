//! What a user does at a client's terminal.

use crate::msg::Wire;
use crate::wire::{get_le, le_bytes, le_value, lemma_le_bytes_len, lemma_le_round_trip, lemma_pow256, put_le};
use vstd::prelude::*;

verus! {

/// An input event.
#[derive(Debug, Clone, Copy, PartialEq, Eq)]
pub enum Event {
    Key(Key),
}

/// A key press.
#[derive(Debug, Clone, Copy, PartialEq, Eq)]
pub enum Key {
    Backspace,
    Left,
    Right,
    Up,
    Down,
    Home,
    End,
    PageUp,
    PageDown,
    Delete,
    Insert,
    F(u8),
    Char(char),
    Alt(char),
    Ctrl(char),
    Null,
    Esc,
}

impl Key {
    /// The number that stands for the key's kind on the wire.
    pub open spec fn tag(self) -> nat {
        match self {
            Key::Backspace => 0,
            Key::Left => 1,
            Key::Right => 2,
            Key::Up => 3,
            Key::Down => 4,
            Key::Home => 5,
            Key::End => 6,
            Key::PageUp => 7,
            Key::PageDown => 8,
            Key::Delete => 9,
            Key::Insert => 10,
            Key::F(_) => 11,
            Key::Char(_) => 12,
            Key::Alt(_) => 13,
            Key::Ctrl(_) => 14,
            Key::Null => 15,
            Key::Esc => 16,
        }
    }
}

/// `value` is a Unicode scalar value: a code point that is no surrogate.
pub open spec fn is_scalar(value: nat) -> bool {
    value <= 0xD7FF || 0xE000 <= value <= 0x10FFFF
}

/// `char::from_u32`: the character with the scalar value `value`, and
/// `None` where `value` is no scalar value.
#[verifier::external_body]
pub(crate) fn char_of(value: u32) -> (c: Option<char>)
    ensures
        is_scalar(value as nat) ==> c == Some(value as char),
        !is_scalar(value as nat) ==> c.is_none(),
{
    char::from_u32(value)
}

/// A character is a scalar value, and its four bytes give it back.
pub proof fn lemma_char_bytes(c: char)
    ensures
        is_scalar(c as nat),
        c as nat == c as u32 == c as u64,
        le_bytes(c as nat, 4).len() == 4,
        le_value(le_bytes(c as nat, 4)) == c as nat,
        (c as nat) as char == c,
{
    lemma_pow256(4);
    lemma_le_bytes_len(c as nat, 4);
    lemma_le_round_trip(c as nat, 4);
}

/// The key without a field whose kind has the number `tag`.
pub open spec fn plain_key(tag: nat) -> Option<Key> {
    if tag == 0 {
        Some(Key::Backspace)
    } else if tag == 1 {
        Some(Key::Left)
    } else if tag == 2 {
        Some(Key::Right)
    } else if tag == 3 {
        Some(Key::Up)
    } else if tag == 4 {
        Some(Key::Down)
    } else if tag == 5 {
        Some(Key::Home)
    } else if tag == 6 {
        Some(Key::End)
    } else if tag == 7 {
        Some(Key::PageUp)
    } else if tag == 8 {
        Some(Key::PageDown)
    } else if tag == 9 {
        Some(Key::Delete)
    } else if tag == 10 {
        Some(Key::Insert)
    } else if tag == 15 {
        Some(Key::Null)
    } else if tag == 16 {
        Some(Key::Esc)
    } else {
        None
    }
}

/// The bytes that stand for a key: the number of its kind in four bytes,
/// then its field: a byte for a function key's number, four bytes for a
/// character's scalar value.
pub open spec fn key_payload(key: Key) -> Seq<u8> {
    le_bytes(key.tag(), 4) + match key {
        Key::F(n) => seq![n],
        Key::Char(c) => le_bytes(c as nat, 4),
        Key::Alt(c) => le_bytes(c as nat, 4),
        Key::Ctrl(c) => le_bytes(c as nat, 4),
        _ => Seq::empty(),
    }
}

/// The key that `bytes` stand for, where they stand for one: no byte may
/// be missing and none may follow.
pub open spec fn parse_key(bytes: Seq<u8>) -> Option<Key> {
    if bytes.len() < 4 {
        None
    } else {
        let tag = le_value(bytes.subrange(0, 4));
        let field = bytes.subrange(4, bytes.len() as int);
        if tag == 11 {
            if field.len() == 1 {
                Some(Key::F(field[0]))
            } else {
                None
            }
        } else if 12 <= tag <= 14 {
            if field.len() == 4 && is_scalar(le_value(field)) {
                let c = le_value(field) as char;
                if tag == 12 {
                    Some(Key::Char(c))
                } else if tag == 13 {
                    Some(Key::Alt(c))
                } else {
                    Some(Key::Ctrl(c))
                }
            } else {
                None
            }
        } else if field.len() == 0 {
            plain_key(tag)
        } else {
            None
        }
    }
}

/// The bytes that stand for an event: the number of its kind, which is
/// zero, in four bytes, then the key.
pub open spec fn event_payload(event: Event) -> Seq<u8> {
    match event {
        Event::Key(key) => le_bytes(0, 4) + key_payload(key),
    }
}

/// The event that `bytes` stand for, where they stand for one.
pub open spec fn parse_event(bytes: Seq<u8>) -> Option<Event> {
    if bytes.len() >= 4 && le_value(bytes.subrange(0, 4)) == 0 {
        match parse_key(bytes.subrange(4, bytes.len() as int)) {
            Some(key) => Some(Event::Key(key)),
            None => None,
        }
    } else {
        None
    }
}

impl Key {
    /// Appends the bytes that stand for the key to `out`.
    pub fn encode_into(&self, out: &mut Vec<u8>)
        ensures
            final(out)@ == old(out)@ + key_payload(*self),
    {
        let tag: u64 = match self {
            Key::Backspace => 0,
            Key::Left => 1,
            Key::Right => 2,
            Key::Up => 3,
            Key::Down => 4,
            Key::Home => 5,
            Key::End => 6,
            Key::PageUp => 7,
            Key::PageDown => 8,
            Key::Delete => 9,
            Key::Insert => 10,
            Key::F(_) => 11,
            Key::Char(_) => 12,
            Key::Alt(_) => 13,
            Key::Ctrl(_) => 14,
            Key::Null => 15,
            Key::Esc => 16,
        };
        put_le(out, tag, 4);
        match self {
            Key::F(n) => {
                out.push(*n);
            },
            Key::Char(c) => {
                put_le(out, *c as u64, 4);
            },
            Key::Alt(c) => {
                put_le(out, *c as u64, 4);
            },
            Key::Ctrl(c) => {
                put_le(out, *c as u64, 4);
            },
            _ => {},
        }
        assert(out@ =~= old(out)@ + key_payload(*self));
    }

    /// The key that `bytes` stand for; `None` where they stand for none.
    pub fn decode(bytes: &[u8]) -> (key: Option<Key>)
        ensures
            key == parse_key(bytes@),
    {
        let len = bytes.len();
        if len < 4 {
            return None;
        }
        let tag = get_le(bytes, 0, 4);
        let ghost field = bytes@.subrange(4, len as int);
        if tag == 11 {
            if len == 5 {
                Some(Key::F(bytes[4]))
            } else {
                None
            }
        } else if 12 <= tag && tag <= 14 {
            if len != 8 {
                return None;
            }
            let value = get_le(bytes, 4, 4);
            proof {
                crate::wire::lemma_le_value_bound(field);
                lemma_pow256(4);
            }
            match char_of(value as u32) {
                Some(c) => if tag == 12 {
                    Some(Key::Char(c))
                } else if tag == 13 {
                    Some(Key::Alt(c))
                } else {
                    Some(Key::Ctrl(c))
                },
                None => None,
            }
        } else if len != 4 {
            None
        } else if tag == 0 {
            Some(Key::Backspace)
        } else if tag == 1 {
            Some(Key::Left)
        } else if tag == 2 {
            Some(Key::Right)
        } else if tag == 3 {
            Some(Key::Up)
        } else if tag == 4 {
            Some(Key::Down)
        } else if tag == 5 {
            Some(Key::Home)
        } else if tag == 6 {
            Some(Key::End)
        } else if tag == 7 {
            Some(Key::PageUp)
        } else if tag == 8 {
            Some(Key::PageDown)
        } else if tag == 9 {
            Some(Key::Delete)
        } else if tag == 10 {
            Some(Key::Insert)
        } else if tag == 15 {
            Some(Key::Null)
        } else if tag == 16 {
            Some(Key::Esc)
        } else {
            None
        }
    }
}

/// A key is read back from the bytes that stand for it.
pub proof fn lemma_key_round_trip(key: Key)
    ensures
        parse_key(key_payload(key)) == Some(key),
{
    let bytes = key_payload(key);
    lemma_pow256(4);
    lemma_le_bytes_len(key.tag(), 4);
    lemma_le_round_trip(key.tag(), 4);
    assert(bytes.subrange(0, 4) =~= le_bytes(key.tag(), 4));
    match key {
        Key::F(n) => {
            assert(bytes.subrange(4, bytes.len() as int) =~= seq![n]);
        },
        Key::Char(c) => {
            lemma_char_field(bytes, c);
        },
        Key::Alt(c) => {
            lemma_char_field(bytes, c);
        },
        Key::Ctrl(c) => {
            lemma_char_field(bytes, c);
        },
        _ => {
            assert(bytes.subrange(4, bytes.len() as int) =~= Seq::<u8>::empty());
        },
    }
}

/// Bytes that stand for a key are the bytes that the key is written as.
pub proof fn lemma_key_canonical(bytes: Seq<u8>)
    requires
        parse_key(bytes).is_some(),
    ensures
        key_payload(parse_key(bytes).unwrap()) == bytes,
{
    let key = parse_key(bytes).unwrap();
    let head = bytes.subrange(0, 4);
    let field = bytes.subrange(4, bytes.len() as int);
    let tag = le_value(head);
    crate::wire::lemma_le_bytes_of_value(head);
    assert(key.tag() == tag);
    if tag == 11 {
        assert(field =~= seq![field[0]]);
    } else if 12 <= tag <= 14 {
        crate::wire::lemma_le_bytes_of_value(field);
        let c = le_value(field) as char;
        assert(c as nat == le_value(field));
    }
    assert(key_payload(key) =~= head + field);
    assert(head + field =~= bytes);
}

/// The four bytes behind a key's kind give the character back.
proof fn lemma_char_field(bytes: Seq<u8>, c: char)
    requires
        bytes.len() >= 4,
        bytes.subrange(4, bytes.len() as int) =~= le_bytes(c as nat, 4),
    ensures
        bytes.subrange(4, bytes.len() as int).len() == 4,
        is_scalar(le_value(bytes.subrange(4, bytes.len() as int))),
        le_value(bytes.subrange(4, bytes.len() as int)) as char == c,
{
    lemma_pow256(4);
    lemma_le_bytes_len(c as nat, 4);
    lemma_le_round_trip(c as nat, 4);
}

impl Wire for Event {
    type Model = Event;

    open spec fn model(&self) -> Event {
        *self
    }

    open spec fn sound(&self) -> bool {
        true
    }

    open spec fn payload(model: Event) -> Seq<u8> {
        event_payload(model)
    }

    open spec fn parse(bytes: Seq<u8>) -> Option<Event> {
        parse_event(bytes)
    }

    fn encode(&self) -> (bytes: Vec<u8>) {
        let mut out: Vec<u8> = Vec::new();
        put_le(&mut out, 0, 4);
        match self {
            Event::Key(key) => key.encode_into(&mut out),
        }
        assert(out@ =~= event_payload(*self));
        out
    }

    fn decode(bytes: &[u8]) -> (value: Option<Event>) {
        let len = bytes.len();
        if len < 4 {
            return None;
        }
        if get_le(bytes, 0, 4) != 0 {
            return None;
        }
        match Key::decode(vstd::slice::slice_subrange(bytes, 4, len)) {
            Some(key) => Some(Event::Key(key)),
            None => None,
        }
    }

    proof fn lemma_canonical(bytes: Seq<u8>) {
        let head = bytes.subrange(0, 4);
        let rest = bytes.subrange(4, bytes.len() as int);
        crate::wire::lemma_le_bytes_of_value(head);
        lemma_key_canonical(rest);
        assert(head + rest =~= bytes);
    }

    proof fn lemma_round_trip(&self) {
        let bytes = event_payload(*self);
        lemma_pow256(4);
        lemma_le_bytes_len(0, 4);
        lemma_le_round_trip(0, 4);
        assert(bytes.subrange(0, 4) =~= le_bytes(0, 4));
        match *self {
            Event::Key(key) => {
                assert(bytes.subrange(4, bytes.len() as int) =~= key_payload(key));
                lemma_key_round_trip(key);
            },
        }
    }
}

} // verus!
