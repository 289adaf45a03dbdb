//! What the server decides: which input reaches the child, which clients
//! stay on the roster, and that it starts once.

use crate::input::{Event, Key};
use crate::ansi::push_char;
use vstd::prelude::*;

verus! {

/// Why the server refuses.
#[derive(Debug, Clone, Copy, PartialEq, Eq, Structural)]
pub enum ServerError {
    /// The server can only be started once.
    AlreadyStarted,
}

/// The event that goes on to the child for an event that a client sent:
/// a character key goes on as it is, and nothing else goes on.
pub open spec fn spec_forwarded(event: Event) -> Option<Event> {
    match event {
        Event::Key(Key::Char(c)) => Some(Event::Key(Key::Char(c))),
        _ => None,
    }
}

/// The event that the server hands on to the child for `event`, if any.
pub fn forwarded(event: Event) -> (onward: Option<Event>)
    ensures
        onward == spec_forwarded(event),
{
    match event {
        Event::Key(Key::Char(c)) => Some(Event::Key(Key::Char(c))),
        _ => None,
    }
}

/// The bytes that the child reads for `event`: the UTF-8 encoding of a
/// character key, and nothing for any other event.
pub open spec fn spec_child_bytes(event: Event) -> Option<Seq<u8>> {
    match event {
        Event::Key(Key::Char(c)) => Some(vstd::utf8::encode_utf8(seq![c])),
        _ => None,
    }
}

/// The bytes to write to the child's terminal for `event`, if any.
pub fn child_bytes(event: Event) -> (bytes: Option<Vec<u8>>)
    ensures
        match bytes {
            Some(bytes) => spec_child_bytes(event) == Some(bytes@),
            None => spec_child_bytes(event).is_none(),
        },
{
    match event {
        Event::Key(Key::Char(c)) => {
            let mut text = String::new();
            push_char(&mut text, c);
            assert(text@ =~= seq![c]);
            Some(vstd::slice::slice_to_vec(text.as_str().as_bytes()))
        },
        _ => None,
    }
}

/// The clients that stay on the roster after a broadcast: those to whom
/// the frame was delivered, in their order. `delivered[i]` says it of
/// `clients[i]`; a client without such an entry leaves.
pub open spec fn kept<T>(clients: Seq<T>, delivered: Seq<bool>) -> Seq<T>
    decreases clients.len(),
{
    if clients.len() == 0 {
        Seq::empty()
    } else {
        let rest = kept(clients.drop_last(), delivered);
        if clients.len() <= delivered.len() && delivered[clients.len() - 1] {
            rest.push(clients.last())
        } else {
            rest
        }
    }
}

/// Drops from the roster every client to whom the frame was not
/// delivered.
pub fn retain_delivered<T>(clients: Vec<T>, delivered: &Vec<bool>) -> (roster: Vec<T>)
    ensures
        roster@ == kept(clients@, delivered@),
{
    let ghost all = clients@;
    let mut clients = clients;
    let mut roster: Vec<T> = Vec::new();
    let mut left: usize = clients.len();
    while left > 0
        invariant
            left == clients@.len(),
            clients@ == all.subrange(0, left as int),
            left <= all.len(),
            kept(all, delivered@) == kept(clients@, delivered@) + reversed(roster@),
        decreases left,
    {
        let ghost before = clients@;
        let client = clients.pop().unwrap();
        left = left - 1;
        proof {
            assert(before.drop_last() =~= clients@);
            assert(clients@ =~= all.subrange(0, left as int));
        }
        if left < delivered.len() && delivered[left] {
            proof {
                assert(reversed(roster@.push(client)) =~= seq![client] + reversed(roster@)) by {
                    lemma_reversed_push(roster@, client);
                }
                assert(kept(before, delivered@) + reversed(roster@) =~= kept(
                    clients@,
                    delivered@,
                ) + reversed(roster@.push(client)));
            }
            roster.push(client);
        }
    }
    proof {
        assert(kept(clients@, delivered@) =~= Seq::<T>::empty());
        assert(kept(all, delivered@) =~= reversed(roster@));
    }
    reverse(roster)
}

/// `items` from the last to the first.
pub open spec fn reversed<T>(items: Seq<T>) -> Seq<T> {
    Seq::new(items.len(), |i: int| items[items.len() - 1 - i])
}

/// The last of a sequence comes first when it is reversed.
proof fn lemma_reversed_push<T>(items: Seq<T>, last: T)
    ensures
        reversed(items.push(last)) == seq![last] + reversed(items),
{
    assert(reversed(items.push(last)) =~= seq![last] + reversed(items));
}

/// `items` from the last to the first.
fn reverse<T>(items: Vec<T>) -> (turned: Vec<T>)
    ensures
        turned@ == reversed(items@),
{
    let ghost all = items@;
    let mut items = items;
    let mut turned: Vec<T> = Vec::new();
    while items.len() > 0
        invariant
            items@.len() + turned@.len() == all.len(),
            items@ == all.subrange(0, items@.len() as int),
            turned@ == reversed(all).subrange(0, turned@.len() as int),
        decreases items@.len(),
    {
        let item = items.pop().unwrap();
        turned.push(item);
        proof {
            assert(items@ =~= all.subrange(0, items@.len() as int));
            assert(turned@ =~= reversed(all).subrange(0, turned@.len() as int));
        }
    }
    proof {
        assert(turned@ =~= reversed(all));
    }
    turned
}

/// What is handed out once: the listening socket, which the first start
/// of the server takes.
#[derive(Debug)]
pub struct Once<T> {
    pub held: Option<T>,
}

impl<T> Once<T> {
    /// Holds `item` until it is taken.
    pub fn new(item: T) -> (once: Once<T>)
        ensures
            once.held == Some(item),
    {
        Once { held: Some(item) }
    }

    /// Hands the item out, the first time; every later time it refuses.
    pub fn take(&mut self) -> (item: Result<T, ServerError>)
        ensures
            final(self).held.is_none(),
            match old(self).held {
                Some(held) => item == Ok::<T, ServerError>(held),
                None => item == Err::<T, ServerError>(ServerError::AlreadyStarted),
            },
    {
        match self.held.take() {
            Some(item) => Ok(item),
            None => Err(ServerError::AlreadyStarted),
        }
    }
}

} // verus!
