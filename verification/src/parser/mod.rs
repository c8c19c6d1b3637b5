//! A second decoder of the device protocol: field values, single field updates and state
//! reports, dispatched on the first byte of a packet.

pub mod common;
pub mod status_report;
pub mod single_field_update;
pub mod decoders_agree;
pub mod field_laws;

use crate::error::{decoded_as, shifted, Decoded, Outcome, ParseError};
use crate::protocol::types::c_string::parsed_as;
use crate::wire::drop;
use single_field_update::{decode_single_field_update, spec_single_field_update, SingleFieldUpdate, SpecSingleFieldUpdate};
use status_report::{decode_struct_component, spec_struct_component, SpecStructComponent, StructComponent};
use vstd::prelude::*;

verus! {

/// A packet of the device protocol, by its kind byte.
#[derive(Debug)]
pub enum RodeCasterPacket {
    SingleFieldUpdate(SingleFieldUpdate),
    StatusReport(StructComponent),
}

/// The model of a [`RodeCasterPacket`].
pub enum SpecRodeCasterPacket {
    SingleFieldUpdate(SpecSingleFieldUpdate),
    StatusReport(SpecStructComponent),
}

impl View for RodeCasterPacket {
    type V = SpecRodeCasterPacket;

    open spec fn view(&self) -> SpecRodeCasterPacket {
        match self {
            RodeCasterPacket::SingleFieldUpdate(u) => SpecRodeCasterPacket::SingleFieldUpdate(u@),
            RodeCasterPacket::StatusReport(c) => SpecRodeCasterPacket::StatusReport(c@),
        }
    }
}

/// A packet at the start of `s`: kind 1 a single field update, kind 2 a state report.
pub open spec fn spec_rodecaster_packet(s: Seq<u8>) -> Outcome<SpecRodeCasterPacket> {
    if s.len() < 1 {
        Outcome::Error(ParseError::Incomplete)
    } else if s[0] == 1u8 {
        match spec_single_field_update(drop(s, 1)) {
            Outcome::Done(k, u) => Outcome::Done(1 + k, SpecRodeCasterPacket::SingleFieldUpdate(u)),
            Outcome::Error(e) => Outcome::Error(e),
            Outcome::Panics => Outcome::Panics,
        }
    } else if s[0] == 2u8 {
        match spec_struct_component(drop(s, 1)) {
            Outcome::Done(k, c) => Outcome::Done(1 + k, SpecRodeCasterPacket::StatusReport(c)),
            Outcome::Error(e) => Outcome::Error(e),
            Outcome::Panics => Outcome::Panics,
        }
    } else {
        Outcome::Error(ParseError::Verify)
    }
}

/// Decodes a packet, or reports that `input` is one of the inputs on which decoding is
/// undefined.
#[verifier::spinoff_prover]
pub fn decode_rodecaster_packet<'a>(input: &'a [u8]) -> (res: Decoded<'a, RodeCasterPacket>)
    ensures
        decoded_as(input@, res, spec_rodecaster_packet(input@)),
{
    if input.len() < 1 {
        return Decoded::Error(ParseError::Incomplete);
    }
    let kind = input[0];
    let body = vstd::slice::slice_subrange(input, 1, input.len());
    proof {
        assert(drop(input@, 1) =~= body@);
    }
    if kind == 1u8 {
        match decode_single_field_update(body) {
            Decoded::Done(rest, u) => {
                proof {
                    assert(rest@ =~= input@.subrange((input@.len() - rest@.len()) as int, input@.len() as int));
                }
                Decoded::Done(rest, RodeCasterPacket::SingleFieldUpdate(u))
            },
            Decoded::Error(e) => Decoded::Error(e),
            Decoded::Aborts => Decoded::Aborts,
        }
    } else if kind == 2u8 {
        match decode_struct_component(body) {
            Decoded::Done(rest, c) => {
                proof {
                    assert(rest@ =~= input@.subrange((input@.len() - rest@.len()) as int, input@.len() as int));
                }
                Decoded::Done(rest, RodeCasterPacket::StatusReport(c))
            },
            Decoded::Error(e) => Decoded::Error(e),
            Decoded::Aborts => Decoded::Aborts,
        }
    } else {
        Decoded::Error(ParseError::Verify)
    }
}

/// Decodes a packet of the device protocol.
pub fn parse_rodecaster_packet(input: &[u8]) -> (res: Result<(&[u8], RodeCasterPacket), ParseError>)
    requires
        !spec_rodecaster_packet(input@).panics(),
    ensures
        parsed_as(input@, res, spec_rodecaster_packet(input@)),
{
    match decode_rodecaster_packet(input) {
        Decoded::Done(rest, p) => Ok((rest, p)),
        Decoded::Error(e) => Err(e),
        Decoded::Aborts => Err(ParseError::Fail),
    }
}

} // verus!
