//! Messages on the wire: a frame is a length, a machine word wide and
//! little-endian, that counts the whole frame, and then the payload.

use crate::wire::{get_le, le_bytes, le_value, lemma_le_bytes_len, lemma_le_round_trip, lemma_pow256, pow256, put_le};
use vstd::prelude::*;

verus! {

/// Why a message could not be made or read.
#[derive(Debug, Clone, Copy, PartialEq, Eq, Structural)]
pub enum CodecError {
    /// The bytes end before the frame does.
    ShortRead,
    /// The frame is complete and its length or its payload is not one
    /// that `serialize` writes.
    Malformed,
    /// The frame would be longer than a machine word can count.
    TooLong,
}

/// A value that travels as the payload of a frame.
pub trait Wire: Sized {
    /// What a value is, as mathematics.
    type Model;

    /// What this value is.
    spec fn model(&self) -> Self::Model;

    /// What holds of every value that is encoded or was decoded.
    spec fn sound(&self) -> bool;

    /// The payload that stands for `model`.
    spec fn payload(model: Self::Model) -> Seq<u8>;

    /// The value that `bytes` stand for, where they stand for one.
    spec fn parse(bytes: Seq<u8>) -> Option<Self::Model>;

    /// The payload of this value.
    fn encode(&self) -> (bytes: Vec<u8>)
        requires
            self.sound(),
        ensures
            bytes@ == Self::payload(self.model()),
    ;

    /// The value that `bytes` stand for; `None` where they stand for
    /// none.
    fn decode(bytes: &[u8]) -> (value: Option<Self>)
        ensures
            match value {
                Some(v) => v.sound() && Self::parse(bytes@) == Some(v.model()),
                None => Self::parse(bytes@).is_none(),
            },
    ;

    /// What was encoded is decoded again.
    proof fn lemma_round_trip(&self)
        requires
            self.sound(),
        ensures
            Self::parse(Self::payload(self.model())) == Some(self.model()),
    ;

    /// Nothing is decoded but what is encoded: bytes that stand for a
    /// value are the payload of that value.
    proof fn lemma_canonical(bytes: Seq<u8>)
        requires
            Self::parse(bytes).is_some(),
        ensures
            Self::payload(Self::parse(bytes).unwrap()) == bytes,
    ;
}

/// The width of a frame's length: a machine word, in bytes.
pub open spec fn word() -> nat {
    vstd::layout::size_of::<usize>()
}

/// The frame that carries `payload`: the length of the whole frame, then
/// the payload.
pub open spec fn framed(payload: Seq<u8>) -> Seq<u8> {
    le_bytes(word() + payload.len(), word()) + payload
}

/// The length that the frame at the start of `buffer` gives for itself.
pub open spec fn declared(buffer: Seq<u8>) -> nat
    recommends
        buffer.len() >= word(),
{
    le_value(buffer.subrange(0, word() as int))
}

/// `buffer` holds the whole of the frame at its start.
pub open spec fn complete(buffer: Seq<u8>) -> bool {
    &&& buffer.len() >= word()
    &&& buffer.len() >= declared(buffer)
}

/// The payload of the frame at the start of `buffer`, where that frame is
/// complete and its length counts at least itself.
pub open spec fn unframed(buffer: Seq<u8>) -> Option<Seq<u8>> {
    if complete(buffer) && declared(buffer) >= word() {
        Some(buffer.subrange(word() as int, declared(buffer) as int))
    } else {
        None
    }
}

/// A machine word is four or eight bytes, and holds what `usize` holds.
pub proof fn lemma_word()
    ensures
        word() == 4 || word() == 8,
        pow256(word()) == usize::MAX + 1,
{
    broadcast use vstd::layout::layout_of_primitives;

    lemma_pow256(4);
    lemma_pow256(8);
}

/// The payload of a frame is read back from it, whatever follows the
/// frame.
pub proof fn lemma_frame_round_trip(payload: Seq<u8>, more: Seq<u8>)
    requires
        word() + payload.len() <= usize::MAX,
    ensures
        unframed(framed(payload) + more) == Some(payload),
        declared(framed(payload) + more) == word() + payload.len(),
{
    let buffer = framed(payload) + more;
    let total = word() + payload.len();
    lemma_word();
    lemma_le_bytes_len(total, word());
    lemma_le_round_trip(total, word());
    assert(buffer.subrange(0, word() as int) =~= le_bytes(total, word()));
    assert(buffer.subrange(word() as int, total as int) =~= payload);
}

/// A frame that is read is the frame that is written for what was read:
/// the bytes of a complete frame are the frame of its payload.
pub proof fn lemma_frame_canonical(buffer: Seq<u8>)
    requires
        unframed(buffer).is_some(),
    ensures
        framed(unframed(buffer).unwrap()) == buffer.subrange(0, declared(buffer) as int),
{
    let prefix = buffer.subrange(0, word() as int);
    let payload = unframed(buffer).unwrap();
    crate::wire::lemma_le_bytes_of_value(prefix);
    assert(framed(payload) =~= buffer.subrange(0, declared(buffer) as int));
}

/// The size of the payload that follows the length field `prefix`.
pub fn payload_size(prefix: &[u8]) -> (size: Result<usize, CodecError>)
    ensures
        match size {
            Ok(size) => prefix@.len() == word() && declared(prefix@) == word() + size,
            Err(CodecError::ShortRead) => prefix@.len() != word(),
            Err(CodecError::Malformed) => prefix@.len() == word() && declared(prefix@) < word(),
            Err(CodecError::TooLong) => false,
        },
{
    let width = core::mem::size_of::<usize>();
    proof {
        lemma_word();
    }
    if prefix.len() != width {
        return Err(CodecError::ShortRead);
    }
    proof {
        lemma_word();
        assert(prefix@.subrange(0, word() as int) =~= prefix@);
        crate::wire::lemma_le_value_bound(prefix@);
    }
    let total = get_le(prefix, 0, width);
    if total < width as u64 {
        Err(CodecError::Malformed)
    } else {
        Ok((total - width as u64) as usize)
    }
}

/// The frame that carries `obj`.
pub fn serialize<T: Wire>(obj: &T) -> (frame: Result<Vec<u8>, CodecError>)
    requires
        obj.sound(),
    ensures
        match frame {
            Ok(frame) => frame@ == framed(T::payload(obj.model())) && frame@.len() == word()
                + T::payload(obj.model()).len(),
            Err(e) => e == CodecError::TooLong && word() + T::payload(obj.model()).len()
                > usize::MAX,
        },
{
    let width = core::mem::size_of::<usize>();
    let mut payload = obj.encode();
    proof {
        lemma_word();
        lemma_le_bytes_len(word() + payload@.len(), word());
    }
    if payload.len() > usize::MAX - width {
        return Err(CodecError::TooLong);
    }
    let mut buffer: Vec<u8> = Vec::new();
    put_le(&mut buffer, (payload.len() + width) as u64, width);
    buffer.append(&mut payload);
    Ok(buffer)
}

/// The value in the frame at the start of `buffer`.
pub fn deserialize_from<T: Wire>(buffer: &[u8]) -> (value: Result<T, CodecError>)
    ensures
        match value {
            Ok(v) => v.sound() && unframed(buffer@).is_some() && T::parse(unframed(buffer@).unwrap())
                == Some(v.model()),
            Err(CodecError::ShortRead) => !complete(buffer@),
            Err(CodecError::Malformed) => complete(buffer@) && (unframed(buffer@).is_none()
                || T::parse(unframed(buffer@).unwrap()).is_none()),
            Err(CodecError::TooLong) => false,
        },
{
    let width = core::mem::size_of::<usize>();
    proof {
        lemma_word();
    }
    if buffer.len() < width {
        return Err(CodecError::ShortRead);
    }
    let total = get_le(buffer, 0, width);
    proof {
        crate::wire::lemma_le_value_bound(buffer@.subrange(0, word() as int));
    }
    if total > buffer.len() as u64 {
        return Err(CodecError::ShortRead);
    }
    if total < width as u64 {
        return Err(CodecError::Malformed);
    }
    let payload = vstd::slice::slice_subrange(buffer, width, total as usize);
    match T::decode(payload) {
        Some(v) => Ok(v),
        None => Err(CodecError::Malformed),
    }
}

/// Values that differ have payloads that differ.
pub proof fn lemma_payload_injective<T: Wire>(a: &T, b: &T)
    requires
        a.sound(),
        b.sound(),
        T::payload(a.model()) == T::payload(b.model()),
    ensures
        a.model() == b.model(),
{
    a.lemma_round_trip();
    b.lemma_round_trip();
}

/// What `deserialize_from` reads from a frame, `serialize` writes as that
/// frame.
pub proof fn lemma_deserialize_canonical<T: Wire>(buffer: Seq<u8>)
    requires
        unframed(buffer).is_some(),
        T::parse(unframed(buffer).unwrap()).is_some(),
    ensures
        framed(T::payload(T::parse(unframed(buffer).unwrap()).unwrap())) == buffer.subrange(
            0,
            declared(buffer) as int,
        ),
{
    lemma_frame_canonical(buffer);
    T::lemma_canonical(unframed(buffer).unwrap());
}

/// Frame round trip: what `serialize` wrote, `deserialize_from` reads
/// back, whatever follows the frame.
pub proof fn lemma_serialize_round_trip<T: Wire>(obj: &T, more: Seq<u8>)
    requires
        obj.sound(),
        word() + T::payload(obj.model()).len() <= usize::MAX,
    ensures
        unframed(framed(T::payload(obj.model())) + more) == Some(T::payload(obj.model())),
        T::parse(unframed(framed(T::payload(obj.model())) + more).unwrap()) == Some(obj.model()),
{
    lemma_frame_round_trip(T::payload(obj.model()), more);
    obj.lemma_round_trip();
}

} // verus!
