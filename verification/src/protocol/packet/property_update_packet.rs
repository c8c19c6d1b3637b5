//! Property updates in the framed packet format.
//!
//! Wire format: the packet id 1, a byte that must be 1 (most likely the width of the following
//! count), the number of indices, the index path, the property name (NUL-terminated) and the
//! value. An index with an unsupported width is rejected with [`ParseError::Verify`].

use crate::error::{decoded_as, shifted, Decoded, Outcome, ParseError, UsbError};
use crate::protocol::packet::RodeCasterPacket;
use crate::protocol::packets::property_patch_packet::{spec_patch_packet_bytes, spec_patch_tail, SpecPatchPacket};
use crate::protocol::types::c_string::{
    lemma_c_string_done, lemma_c_string_roundtrip, parse_c_string, parsed_as, spec_c_string_bytes,
    write_c_string,
};
use crate::protocol::types::indices::{
    lemma_indices_roundtrip, parse_indices, spec_indices, spec_indices_bytes, write_indices,
};
use crate::protocol::types::value::{
    decode_value, lemma_value_roundtrip, spec_value_bytes, value_as_read, value_text_nul_free, Value,
};
use crate::wire::drop;
use vstd::prelude::*;
use vstd::utf8::encode_utf8;

verus! {

/// The packet id of a property update.
pub const PACKET_ID: u8 = 1u8;

/// A property update: the path of child indices to an object, a property name and the new
/// value.
#[derive(Debug)]
pub struct PropertyUpdatePacket {
    pub indices: Vec<usize>,
    pub name: String,
    pub value: Value,
}

impl View for PropertyUpdatePacket {
    type V = SpecPatchPacket;

    open spec fn view(&self) -> SpecPatchPacket {
        SpecPatchPacket { indices: self.indices@, name: self.name@, value: self.value@ }
    }
}

/// A property update at the start of `s`.
pub open spec fn spec_update_packet(s: Seq<u8>) -> Outcome<SpecPatchPacket> {
    if s.len() < 1 {
        Outcome::Error(ParseError::Incomplete)
    } else if s[0] != PACKET_ID {
        Outcome::Error(ParseError::Tag)
    } else if s.len() < 2 {
        Outcome::Error(ParseError::Incomplete)
    } else if s[1] != 1u8 {
        Outcome::Error(ParseError::Tag)
    } else if s.len() < 3 {
        Outcome::Error(ParseError::Incomplete)
    } else {
        match spec_indices(drop(s, 3), s[2] as nat, ParseError::Verify) {
            Outcome::Done(k1, xs) => shifted(3 + k1, spec_patch_tail(drop(s, 3 + k1), xs)),
            Outcome::Error(e) => Outcome::Error(e),
            Outcome::Panics => Outcome::Panics,
        }
    }
}

fn tail<'a>(data: &'a [u8], k: usize) -> (r: &'a [u8])
    requires
        k <= data@.len(),
    ensures
        r@ == drop(data@, k as nat),
{
    vstd::slice::slice_subrange(data, k, data.len())
}

/// Decodes a property update, or reports that `data` is one of the inputs on which decoding
/// is undefined (a value on which value decoding is undefined).
pub fn decode_update_packet<'a>(data: &'a [u8]) -> (res: Decoded<'a, PropertyUpdatePacket>)
    ensures
        decoded_as(data@, res, spec_update_packet(data@)),
{
    let ghost s = data@;
    if data.len() < 1 {
        return Decoded::Error(ParseError::Incomplete);
    }
    if data[0] != PACKET_ID {
        return Decoded::Error(ParseError::Tag);
    }
    if data.len() < 2 {
        return Decoded::Error(ParseError::Incomplete);
    }
    if data[1] != 1u8 {
        return Decoded::Error(ParseError::Tag);
    }
    if data.len() < 3 {
        return Decoded::Error(ParseError::Incomplete);
    }
    let n = data[2] as usize;
    let s3 = tail(data, 3);
    let (s4, indices) = match parse_indices(s3, n, ParseError::Verify) {
        Ok(r) => r,
        Err(e) => {
            return Decoded::Error(e);
        },
    };
    let ghost k1 = (s3@.len() - s4@.len()) as nat;
    proof {
        assert(drop(s, 3 + k1) =~= s4@);
    }
    let (s5, name) = match parse_c_string(s4) {
        Ok(r) => r,
        Err(e) => {
            return Decoded::Error(e);
        },
    };
    proof {
        lemma_c_string_done(s4@);
        assert(drop(s4@, (s4@.len() - s5@.len()) as nat) =~= s5@);
    }
    match decode_value(s5) {
        Decoded::Done(rest, value) => {
            proof {
                assert(rest@ =~= s.subrange((s.len() - rest@.len()) as int, s.len() as int));
            }
            Decoded::Done(rest, PropertyUpdatePacket { indices, name, value })
        },
        Decoded::Error(e) => Decoded::Error(e),
        Decoded::Aborts => Decoded::Aborts,
    }
}

impl RodeCasterPacket for PropertyUpdatePacket {
    open spec fn from_bytes_defined(bytes: Seq<u8>) -> bool {
        !spec_update_packet(bytes).panics()
    }

    fn from_bytes(bytes: &[u8]) -> (res: Result<(&[u8], PropertyUpdatePacket), ParseError>)
        ensures
            parsed_as(bytes@, res, spec_update_packet(bytes@)),
    {
        match decode_update_packet(bytes) {
            Decoded::Done(rest, p) => Ok((rest, p)),
            Decoded::Error(e) => Err(e),
            Decoded::Aborts => Err(ParseError::Fail),
        }
    }
}

impl PropertyUpdatePacket {
    /// The encoding of the update (the same bytes as a property patch with the same parts).
    pub fn to_bytes(&self) -> (res: Result<Vec<u8>, UsbError>)
        ensures
            match spec_patch_packet_bytes(self@) {
                Ok(b) => res is Ok && res->Ok_0@ == b,
                Err((e, _)) => res matches Err(UsbError::ProtocolWrite(e2)) && e2 == e,
            },
    {
        let mut bytes: Vec<u8> = Vec::new();
        bytes.push(PACKET_ID);
        bytes.push(1u8);
        bytes.push(self.indices.len() as u8);
        if let Err(e) = write_indices(&mut bytes, &self.indices) {
            return Err(UsbError::ProtocolWrite(e));
        }
        let _ = write_c_string(&mut bytes, &self.name);
        let ghost named = bytes@;
        match self.value.write_to(&mut bytes) {
            Ok(()) => {
                proof {
                    let head = seq![PACKET_ID, 1u8, (self.indices@.len() as usize) as u8];
                    assert(bytes@ =~= head + spec_indices_bytes(self.indices@).0
                        + spec_c_string_bytes(self.name@) + spec_value_bytes(self.value@)->Some_0);
                }
                Ok(bytes)
            },
            Err(e) => Err(UsbError::ProtocolWrite(e)),
        }
    }
}

} // verus!

verus! {

/// Law: decoding the bytes of a property update gives the update back (the value as
/// [`value_as_read`] reads it), whatever follows it. Left out: more than 255 indices (the
/// count byte wraps), and a name or string value with a NUL character.
#[verifier::spinoff_prover]
pub proof fn lemma_update_packet_roundtrip(p: SpecPatchPacket, rest: Seq<u8>)
    requires
        spec_patch_packet_bytes(p) is Ok,
        p.indices.len() <= 255,
        !p.name.contains('\0'),
        value_text_nul_free(p.value),
    ensures
        spec_update_packet(spec_patch_packet_bytes(p)->Ok_0 + rest) == Outcome::Done(
            spec_patch_packet_bytes(p)->Ok_0.len(),
            SpecPatchPacket { indices: p.indices, name: p.name, value: value_as_read(p.value) },
        ),
{
    let b = spec_patch_packet_bytes(p)->Ok_0;
    let s = b + rest;
    let ib = spec_indices_bytes(p.indices).0;
    let cb = spec_c_string_bytes(p.name);
    let vb = spec_value_bytes(p.value)->Some_0;
    let n = p.indices.len();
    assert(b == seq![PACKET_ID, 1u8, (n as usize) as u8] + ib + cb + vb);
    assert(((n as usize) as u8) as nat == n);
    assert(drop(s, 3) =~= ib + (cb + vb + rest));
    lemma_indices_roundtrip(p.indices, cb + vb + rest, 0, ParseError::Verify);
    assert(spec_indices(cb + vb + rest, 0, ParseError::Verify) == Outcome::<Seq<usize>>::Done(0, seq![]));
    assert(p.indices + Seq::<usize>::empty() =~= p.indices);
    assert(drop(s, 3 + ib.len()) =~= cb + (vb + rest));
    lemma_c_string_roundtrip(p.name, vb + rest);
    assert(drop(cb + (vb + rest), cb.len()) =~= vb + rest);
    assert(cb.len() == encode_utf8(p.name).len() + 1);
    lemma_value_roundtrip(p.value, rest);
}

} // verus!
