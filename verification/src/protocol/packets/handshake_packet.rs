//! The handshake that opens communication with a device.

use crate::error::{Outcome, ParseError};
use crate::protocol::Parseable;
use crate::protocol::types::c_string::parsed_as;
use crate::wire::{parse_tag, spec_tag};
use vstd::prelude::*;

verus! {

/// The four bytes that the host sends to start communication.
pub open spec fn spec_handshake_payload() -> Seq<u8> {
    seq![0xADu8, 0x10u8, 0xA7u8, 0xB0u8]
}

/// The handshake packet; it carries nothing but its fixed bytes.
#[derive(Clone, Copy, Debug, Default)]
pub struct HandshakePacket {}

impl View for HandshakePacket {
    type V = ();

    open spec fn view(&self) -> () {
        ()
    }
}

fn payload() -> (r: [u8; 4])
    ensures
        r@ == spec_handshake_payload(),
{
    let r: [u8; 4] = [0xADu8, 0x10u8, 0xA7u8, 0xB0u8];
    assert(r@ =~= spec_handshake_payload());
    r
}

impl Parseable for HandshakePacket {
    open spec fn parse_defined(data: Seq<u8>) -> bool {
        true
    }

    /// Exactly the handshake bytes.
    fn can_parse(data: &[u8]) -> (r: bool)
        ensures
            r == (data@ == spec_handshake_payload()),
    {
        let p = payload();
        if data.len() != 4 {
            return false;
        }
        let mut i: usize = 0;
        while i < 4
            invariant
                data@.len() == 4,
                p@ == spec_handshake_payload(),
                i <= 4,
                forall|j: int| 0 <= j < i ==> data@[j] == p@[j],
            decreases 4 - i,
        {
            if data[i] != p[i] {
                return false;
            }
            i = i + 1;
        }
        assert(data@ =~= spec_handshake_payload());
        true
    }

    fn parse(data: &[u8]) -> (res: Result<(&[u8], HandshakePacket), ParseError>)
        ensures
            parsed_as(data@, res, spec_tag(data@, spec_handshake_payload())),
    {
        let p = payload();
        match parse_tag(data, p.as_slice()) {
            Ok(rest) => Ok((rest, HandshakePacket {})),
            Err(e) => Err(e),
        }
    }
}

impl HandshakePacket {
    /// Appends the handshake bytes.
    pub fn write_to(&self, writer: &mut Vec<u8>)
        ensures
            final(writer)@ == old(writer)@ + spec_handshake_payload(),
    {
        let p = payload();
        writer.extend_from_slice(p.as_slice());
    }
}

} // verus!
