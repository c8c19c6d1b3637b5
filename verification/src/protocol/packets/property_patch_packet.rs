//! Property patches: one property of the state tree set to a new value.
//!
//! Wire format: the packet id 1, a byte that is always 1 (most likely the width of the
//! following count), the number of indices, the index path, the property name
//! (NUL-terminated) and the value.

use crate::error::{after, lemma_after_after, lemma_after_nothing, Decoded, Outcome, ParseError, WriteError};
use crate::protocol::Parseable;
use crate::protocol::types::c_string::{
    lemma_c_string_roundtrip, parse_c_string, parsed_as, spec_c_string, spec_c_string_bytes,
    write_c_string, lemma_c_string_done,
};
use crate::protocol::types::composite::suffix_after;
use crate::protocol::types::indices::{
    lemma_indices_roundtrip, parse_indices, spec_index_bytes, spec_indices, spec_indices_bytes,
    write_indices,
};
use crate::protocol::types::value::{
    decode_value, lemma_value_roundtrip, spec_value, spec_value_bytes, value_as_read,
    value_text_nul_free, SpecValue, Value,
};
use crate::wire::{drop, lemma_u16_roundtrip, parse_tag, spec_tag, u16_at, u16_bytes};
use vstd::prelude::*;
use vstd::utf8::encode_utf8;

verus! {

/// The packet id of a property patch.
pub const PACKET_ID: u8 = 1u8;

/// A property patch: the path of child indices to an object, a property name and the new
/// value.
#[derive(Debug)]
pub struct PropertyPatchPacket {
    indices: Vec<usize>,
    name: String,
    value: Value,
}

/// The model of a property patch.
pub struct SpecPatchPacket {
    pub indices: Seq<usize>,
    pub name: Seq<char>,
    pub value: SpecValue,
}

impl View for PropertyPatchPacket {
    type V = SpecPatchPacket;

    closed spec fn view(&self) -> SpecPatchPacket {
        SpecPatchPacket { indices: self.indices@, name: self.name@, value: self.value@ }
    }
}

/// A property patch at the start of `s`.
pub open spec fn spec_patch_packet(s: Seq<u8>) -> Outcome<SpecPatchPacket> {
    if s.len() < 1 {
        Outcome::Error(ParseError::Incomplete)
    } else if s[0] != PACKET_ID {
        Outcome::Error(ParseError::Tag)
    } else {
        {
            let s2 = drop(s, 2);
            if s.len() < 2 || s2.len() < 1 {
                Outcome::Error(ParseError::Incomplete)
            } else {
                match spec_indices(drop(s2, 1), s2[0] as nat, ParseError::Digit) {
                    Outcome::Done(k1, xs) => crate::error::shifted(
                        3 + k1,
                        spec_patch_tail(drop(s2, 1 + k1), xs),
                    ),
                    Outcome::Error(e) => Outcome::Error(e),
                    Outcome::Panics => Outcome::Panics,
                }
            }
        }
    }
}

/// The name and value of a property patch with the index path `xs`.
pub open spec fn spec_patch_tail(s: Seq<u8>, xs: Seq<usize>) -> Outcome<SpecPatchPacket> {
    match spec_c_string(s) {
        Outcome::Done(k2, name) => match spec_value(drop(s, k2)) {
            Outcome::Done(k3, v) => Outcome::Done(k2 + k3, SpecPatchPacket { indices: xs, name, value: v }),
            Outcome::Error(e) => Outcome::Error(e),
            Outcome::Panics => Outcome::Panics,
        },
        Outcome::Error(e) => Outcome::Error(e),
        Outcome::Panics => Outcome::Panics,
    }
}

/// What encoding a patch writes: `Ok(bytes)`, or the error with the bytes written before it
/// (an index that does not fit 16 bits, or a value too long to encode). The index count is
/// written as a single byte (the number of indices modulo 256).
pub open spec fn spec_patch_packet_bytes(p: SpecPatchPacket) -> Result<Seq<u8>, (WriteError, Seq<u8>)> {
    let head = seq![PACKET_ID, 1u8, (p.indices.len() as usize) as u8];
    let (ib, ok) = spec_indices_bytes(p.indices);
    if !ok {
        Err((WriteError::IndexTooLarge, head + ib))
    } else {
        let named = head + ib + spec_c_string_bytes(p.name);
        match spec_value_bytes(p.value) {
            Some(vb) => Ok(named + vb),
            None => Err((WriteError::ValueTooLong, named)),
        }
    }
}

impl PropertyPatchPacket {
    /// A patch of the property `name` of the object that `indices` lead to.
    pub fn new(indices: Vec<usize>, name: String, value: Value) -> (p: PropertyPatchPacket)
        ensures
            p@ == (SpecPatchPacket { indices: indices@, name: name@, value: value@ }),
    {
        PropertyPatchPacket { indices, name, value }
    }

    /// The path of child indices.
    pub fn get_indices(&self) -> (r: &Vec<usize>)
        ensures
            r@ == self@.indices,
    {
        &self.indices
    }

    /// The property name.
    pub fn get_name(&self) -> (r: &String)
        ensures
            r@ == self@.name,
    {
        &self.name
    }

    /// The new value.
    pub fn get_value(&self) -> (r: &Value)
        ensures
            r@ == self@.value,
    {
        &self.value
    }

    /// Splits the patch into its path, name and value.
    pub fn into_parts(self) -> (r: (Vec<usize>, String, Value))
        ensures
            r.0@ == self@.indices,
            r.1@ == self@.name,
            r.2@ == self@.value,
    {
        (self.indices, self.name, self.value)
    }

    /// Appends the encoding of the patch. On an error the bytes written before it stay.
    pub fn write_to(&self, writer: &mut Vec<u8>) -> (res: Result<(), WriteError>)
        ensures
            match spec_patch_packet_bytes(self@) {
                Ok(b) => res is Ok && final(writer)@ == old(writer)@ + b,
                Err((e, b)) => res == Err::<(), WriteError>(e) && final(writer)@ == old(writer)@ + b,
            },
    {
        let ghost start = writer@;
        writer.push(PACKET_ID);
        writer.push(1u8);
        writer.push(self.indices.len() as u8);
        let ghost after_head = writer@;
        let r = write_indices(writer, &self.indices);
        if r.is_err() {
            proof {
                assert(writer@ =~= start + (seq![PACKET_ID, 1u8, (self.indices@.len() as usize) as u8]
                    + spec_indices_bytes(self.indices@).0));
            }
            return Err(WriteError::IndexTooLarge);
        }
        let _ = write_c_string(writer, &self.name);
        let ghost named = writer@;
        let r = self.value.write_to(writer);
        proof {
            let head = seq![PACKET_ID, 1u8, (self.indices@.len() as usize) as u8];
            assert(named =~= start + (head + spec_indices_bytes(self.indices@).0 + spec_c_string_bytes(self.name@)));
            if r is Ok {
                assert(writer@ =~= start + (head + spec_indices_bytes(self.indices@).0
                    + spec_c_string_bytes(self.name@) + spec_value_bytes(self.value@)->Some_0));
            }
        }
        r
    }
}

/// Decodes a property patch, or reports that `data` is one of the inputs on which decoding
/// is undefined (a value on which value decoding is undefined).
#[verifier::rlimit(40)]
pub fn decode_patch_packet<'a>(data: &'a [u8]) -> (res: Decoded<'a, PropertyPatchPacket>)
    ensures
        crate::error::decoded_as(data@, res, spec_patch_packet(data@)),
{
    let ghost s = data@;
    if data.len() < 1 {
        return Decoded::Error(ParseError::Incomplete);
    }
    if data[0] != PACKET_ID {
        return Decoded::Error(ParseError::Tag);
    }
    let s1 = vstd::slice::slice_subrange(data, 1, data.len());
    if s1.len() < 1 {
        return Decoded::Error(ParseError::Incomplete);
    }
    let s2 = vstd::slice::slice_subrange(s1, 1, s1.len());
    if s2.len() < 1 {
        return Decoded::Error(ParseError::Incomplete);
    }
    let n = s2[0] as usize;
    let s2b = vstd::slice::slice_subrange(s2, 1, s2.len());
    proof {
        assert(drop(s, 2) =~= s2@);
        assert(drop(s2@, 1) =~= s2b@);
    }
    let (s3, indices) = match parse_indices(s2b, n, ParseError::Digit) {
        Ok(r) => r,
        Err(e) => {
            return Decoded::Error(e);
        },
    };
    proof {
        assert(drop(s2@, (1 + (s2b@.len() - s3@.len())) as nat) =~= s3@);
    }
    match decode_patch_tail(s3, indices) {
        Decoded::Done(rest, p) => {
            proof {
                assert(rest@ =~= s.subrange((s.len() - rest@.len()) as int, s.len() as int));
            }
            Decoded::Done(rest, p)
        },
        Decoded::Error(e) => Decoded::Error(e),
        Decoded::Aborts => Decoded::Aborts,
    }
}

fn decode_patch_tail<'a>(data: &'a [u8], indices: Vec<usize>) -> (res: Decoded<'a, PropertyPatchPacket>)
    ensures
        crate::error::decoded_as(data@, res, spec_patch_tail(data@, indices@)),
{
    let (s4, name) = match parse_c_string(data) {
        Ok(r) => r,
        Err(e) => {
            return Decoded::Error(e);
        },
    };
    proof {
        lemma_c_string_done(data@);
        assert(drop(data@, (data@.len() - s4@.len()) as nat) =~= s4@);
    }
    match decode_value(s4) {
        Decoded::Done(rest, value) => {
            proof {
                assert(rest@ =~= data@.subrange((data@.len() - rest@.len()) as int, data@.len() as int));
            }
            Decoded::Done(rest, PropertyPatchPacket { indices, name, value })
        },
        Decoded::Error(e) => Decoded::Error(e),
        Decoded::Aborts => Decoded::Aborts,
    }
}

impl Parseable for PropertyPatchPacket {
    open spec fn parse_defined(data: Seq<u8>) -> bool {
        !spec_patch_packet(data).panics()
    }

    /// The packet id, and at least the two bytes that follow it.
    fn can_parse(data: &[u8]) -> (r: bool)
        ensures
            r == (data@.len() >= 3 && data@[0] == PACKET_ID),
    {
        data.len() >= 3 && data[0] == PACKET_ID
    }

    fn parse(data: &[u8]) -> (res: Result<(&[u8], PropertyPatchPacket), ParseError>)
        ensures
            parsed_as(data@, res, spec_patch_packet(data@)),
    {
        match decode_patch_packet(data) {
            Decoded::Done(rest, p) => Ok((rest, p)),
            Decoded::Error(e) => Err(e),
            Decoded::Aborts => Err(ParseError::Fail),
        }
    }
}

} // verus!

verus! {

/// Law: decoding the encoding of a property patch gives the patch back (the value as
/// [`value_as_read`] reads it), whatever follows it. Left out: more than 255 indices (the
/// count byte wraps), and a name or string value with a NUL character.
#[verifier::spinoff_prover]
pub proof fn lemma_patch_packet_roundtrip(p: SpecPatchPacket, rest: Seq<u8>)
    requires
        spec_patch_packet_bytes(p) is Ok,
        p.indices.len() <= 255,
        !p.name.contains('\0'),
        value_text_nul_free(p.value),
    ensures
        spec_patch_packet(spec_patch_packet_bytes(p)->Ok_0 + rest) == Outcome::Done(
            spec_patch_packet_bytes(p)->Ok_0.len(),
            SpecPatchPacket { indices: p.indices, name: p.name, value: value_as_read(p.value) },
        ),
{
    let b = spec_patch_packet_bytes(p)->Ok_0;
    let s = b + rest;
    let ib = spec_indices_bytes(p.indices).0;
    let cb = spec_c_string_bytes(p.name);
    let vb = spec_value_bytes(p.value)->Some_0;
    let n = p.indices.len();
    assert(b == seq![PACKET_ID, 1u8, (n as usize) as u8] + ib + cb + vb);
    assert(((n as usize) as u8) as nat == n);
    let s2 = drop(s, 2);
    assert(s2 =~= seq![(n as usize) as u8] + (ib + (cb + vb + rest)));
    assert(drop(s2, 1) =~= ib + (cb + vb + rest));
    lemma_indices_roundtrip(p.indices, cb + vb + rest, 0, ParseError::Digit);
    assert(spec_indices(cb + vb + rest, 0, ParseError::Digit) == Outcome::<Seq<usize>>::Done(0, seq![]));
    assert(p.indices + Seq::<usize>::empty() =~= p.indices);
    assert(drop(s2, 1 + ib.len()) =~= cb + (vb + rest));
    lemma_c_string_roundtrip(p.name, vb + rest);
    assert(drop(cb + (vb + rest), cb.len()) =~= vb + rest);
    assert(cb.len() == encode_utf8(p.name).len() + 1);
    lemma_value_roundtrip(p.value, rest);
}

} // verus!

verus! {

/// Law: an encoded patch starts with the packet id 1, the byte 1 and the number of indices,
/// holds the index path and the NUL-terminated name, and ends with the encoding of the value
/// exactly as the value encoder writes it.
pub proof fn lemma_patch_packet_layout(p: SpecPatchPacket)
    requires
        spec_patch_packet_bytes(p) is Ok,
    ensures
        ({
            let b = spec_patch_packet_bytes(p)->Ok_0;
            let vb = spec_value_bytes(p.value)->Some_0;
            &&& spec_value_bytes(p.value) is Some
            &&& spec_indices_bytes(p.indices).1
            &&& b == seq![1u8, 1u8, (p.indices.len() as usize) as u8] + spec_indices_bytes(p.indices).0
                + spec_c_string_bytes(p.name) + vb
            &&& b.skip(b.len() - vb.len()) == vb
        }),
{
    let b = spec_patch_packet_bytes(p)->Ok_0;
    let vb = spec_value_bytes(p.value)->Some_0;
    assert(b.skip(b.len() - vb.len()) =~= vb);
}

} // verus!
