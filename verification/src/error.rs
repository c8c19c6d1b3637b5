//! Errors of the library.

use vstd::prelude::*;

verus! {

/// Why the binary decoder rejected its input.
///
/// The kinds follow the streaming decoder of the wire format: `Incomplete` means that the
/// input ended before the item was complete (more bytes might complete it); the other kinds
/// mean that a byte holds a value that the format does not allow.
#[derive(Debug, Clone, Copy, PartialEq, Eq, Structural)]
pub enum ParseError {
    /// The input ended before the item was complete.
    Incomplete,
    /// A fixed marker byte did not hold the expected value.
    Tag,
    /// A byte that gives the width of a length field held an unsupported width.
    LengthValue,
    /// A kind, marker or size byte held a value that the format does not allow.
    Verify,
    /// A value carried an unknown type byte.
    Fail,
    /// An index of a property patch carried an unsupported width (an unrecoverable error).
    Digit,
}

/// Why an item could not be encoded.
#[derive(Debug, Clone, Copy, PartialEq, Eq, Structural)]
pub enum WriteError {
    /// A string or an array is too long for a 16-bit length field.
    ValueTooLong,
    /// An index does not fit the 16-bit index encoding.
    IndexTooLarge,
}

/// The outcome of decoding a prefix of some input, as a specification.
///
/// `Done(consumed, value)`: the first `consumed` bytes encode `value`.
/// `Error(e)`: the input is rejected with `e`.
/// `Panics`: decoding is undefined on this input (a length that would underflow, or a byte
/// for which the format has no case); the decoding functions leave such inputs out.
pub enum Outcome<T> {
    Done(nat, T),
    Error(ParseError),
    Panics,
}

impl<T> Outcome<T> {
    /// Whether decoding is undefined on the input.
    pub open spec fn panics(self) -> bool {
        self is Panics
    }
}

} // verus!

verus! {

/// The outcome `o` of decoding the rest of an input, after `k` bytes that decoded to `vs`.
pub open spec fn after<T>(k: nat, vs: Seq<T>, o: Outcome<Seq<T>>) -> Outcome<Seq<T>> {
    match o {
        Outcome::Done(m, ws) => Outcome::Done(k + m, vs + ws),
        Outcome::Error(e) => Outcome::Error(e),
        Outcome::Panics => Outcome::Panics,
    }
}

/// What a decoder that may meet an input on which decoding is undefined returns: the item
/// with the remaining input, an error, or the report that the input is one of those.
pub enum Decoded<'a, T> {
    Done(&'a [u8], T),
    Error(ParseError),
    Aborts,
}

/// `d` is what a decoder returns for the outcome `o` on input `s`.
pub open spec fn decoded_as<T: View>(s: Seq<u8>, d: Decoded<T>, o: Outcome<T::V>) -> bool {
    match o {
        Outcome::Done(k, v) => {
            &&& d is Done
            &&& k <= s.len()
            &&& d->Done_0@ == s.subrange(k as int, s.len() as int)
            &&& d->Done_1@ == v
        },
        Outcome::Error(e) => d is Error && d->Error_0 == e,
        Outcome::Panics => d is Aborts,
    }
}

} // verus!

verus! {

/// Two successive steps of reading items combine into one.
pub proof fn lemma_after_after<T>(k1: nat, s1: Seq<T>, k2: nat, s2: Seq<T>, o: Outcome<Seq<T>>)
    ensures
        after(k1, s1, after(k2, s2, o)) == after(k1 + k2, s1 + s2, o),
{
    match o {
        Outcome::Done(m, ws) => {
            assert(s1 + (s2 + ws) =~= (s1 + s2) + ws);
        },
        _ => {},
    }
}

/// Reading nothing changes nothing.
pub proof fn lemma_after_nothing<T>(o: Outcome<Seq<T>>)
    ensures
        after(0, Seq::<T>::empty(), o) == o,
{
    match o {
        Outcome::Done(m, ws) => {
            assert(Seq::<T>::empty() + ws =~= ws);
        },
        _ => {},
    }
}

} // verus!

verus! {

/// The outcome `o` of decoding the rest of an input, after `k` more bytes.
pub open spec fn shifted<T>(k: nat, o: Outcome<T>) -> Outcome<T> {
    match o {
        Outcome::Done(m, v) => Outcome::Done(k + m, v),
        Outcome::Error(e) => Outcome::Error(e),
        Outcome::Panics => Outcome::Panics,
    }
}

} // verus!

verus! {

/// Errors of the device layer.
#[derive(Debug)]
pub enum UsbError {
    /// The HID layer failed (its message).
    Hid(String),
    /// An I/O operation failed (its message).
    Io(String),
    /// A frame or packet could not be decoded.
    FrameParse(ParseError),
    /// A packet could not be encoded.
    ProtocolWrite(WriteError),
    /// A property patch was refused.
    PropertyError(crate::protocol::types::composite::PatchError),
    /// The device did not answer in time.
    Timeout,
    /// The device sent a packet that only the host sends (a handshake).
    UnexpectedPacket,
}

} // verus!
