//! Single field updates: one field of the device state set to a new value.
//!
//! Wire format (after the packet kind): a byte that is always 1, the number of indices, the
//! index path, the field name (NUL-terminated) and the field value.

use crate::error::{decoded_as, shifted, Decoded, Outcome, ParseError};
use crate::parser::common::{decode_field_value, spec_field_value, FieldValue, SpecFieldValue};
use crate::protocol::types::c_string::{lemma_c_string_done, parse_c_string, parsed_as, spec_c_string};
use crate::protocol::types::indices::{parse_indices, spec_indices};
use crate::wire::drop;
use vstd::prelude::*;

verus! {

/// A single field update: the path of child indices, the field name and the new value.
#[derive(Debug, PartialEq)]
pub struct SingleFieldUpdate {
    pub indices: Vec<usize>,
    pub field_name: String,
    pub field_value: FieldValue,
}

/// The model of a [`SingleFieldUpdate`].
pub struct SpecSingleFieldUpdate {
    pub indices: Seq<usize>,
    pub field_name: Seq<char>,
    pub field_value: SpecFieldValue,
}

impl View for SingleFieldUpdate {
    type V = SpecSingleFieldUpdate;

    open spec fn view(&self) -> SpecSingleFieldUpdate {
        SpecSingleFieldUpdate {
            indices: self.indices@,
            field_name: self.field_name@,
            field_value: self.field_value@,
        }
    }
}

/// The name and value of an update with the index path `xs`.
pub open spec fn spec_update_tail(s: Seq<u8>, xs: Seq<usize>) -> Outcome<SpecSingleFieldUpdate> {
    match spec_c_string(s) {
        Outcome::Done(k1, name) => match spec_field_value(drop(s, k1)) {
            Outcome::Done(k2, v) => Outcome::Done(
                k1 + k2,
                SpecSingleFieldUpdate { indices: xs, field_name: name, field_value: v },
            ),
            Outcome::Error(e) => Outcome::Error(e),
            Outcome::Panics => Outcome::Panics,
        },
        Outcome::Error(e) => Outcome::Error(e),
        Outcome::Panics => Outcome::Panics,
    }
}

/// A single field update at the start of `s`.
pub open spec fn spec_single_field_update(s: Seq<u8>) -> Outcome<SpecSingleFieldUpdate> {
    if s.len() < 1 {
        Outcome::Error(ParseError::Incomplete)
    } else if s[0] != 1u8 {
        Outcome::Error(ParseError::Tag)
    } else if s.len() < 2 {
        Outcome::Error(ParseError::Incomplete)
    } else {
        match spec_indices(drop(s, 2), s[1] as nat, ParseError::Verify) {
            Outcome::Done(k, xs) => shifted(2 + k, spec_update_tail(drop(s, 2 + k), xs)),
            Outcome::Error(e) => Outcome::Error(e),
            Outcome::Panics => Outcome::Panics,
        }
    }
}

fn decode_update_tail<'a>(data: &'a [u8], indices: Vec<usize>) -> (res: Decoded<'a, SingleFieldUpdate>)
    ensures
        decoded_as(data@, res, spec_update_tail(data@, indices@)),
{
    let (s1, field_name) = match parse_c_string(data) {
        Ok(r) => r,
        Err(e) => {
            return Decoded::Error(e);
        },
    };
    proof {
        lemma_c_string_done(data@);
        assert(drop(data@, (data@.len() - s1@.len()) as nat) =~= s1@);
    }
    match decode_field_value(s1) {
        Decoded::Done(rest, field_value) => {
            proof {
                assert(rest@ =~= data@.subrange((data@.len() - rest@.len()) as int, data@.len() as int));
            }
            Decoded::Done(rest, SingleFieldUpdate { indices, field_name, field_value })
        },
        Decoded::Error(e) => Decoded::Error(e),
        Decoded::Aborts => Decoded::Aborts,
    }
}

/// Decodes a single field update, or reports that `input` is one of the inputs on which
/// decoding is undefined (a field value on which it is undefined).
pub fn decode_single_field_update<'a>(input: &'a [u8]) -> (res: Decoded<'a, SingleFieldUpdate>)
    ensures
        decoded_as(input@, res, spec_single_field_update(input@)),
{
    if input.len() < 1 {
        return Decoded::Error(ParseError::Incomplete);
    }
    if input[0] != 1u8 {
        return Decoded::Error(ParseError::Tag);
    }
    if input.len() < 2 {
        return Decoded::Error(ParseError::Incomplete);
    }
    let count = input[1] as usize;
    let s2 = vstd::slice::slice_subrange(input, 2, input.len());
    proof {
        assert(drop(input@, 2) =~= s2@);
    }
    let (s3, indices) = match parse_indices(s2, count, ParseError::Verify) {
        Ok(r) => r,
        Err(e) => {
            return Decoded::Error(e);
        },
    };
    proof {
        assert(drop(input@, (2 + (s2@.len() - s3@.len())) as nat) =~= s3@);
    }
    match decode_update_tail(s3, indices) {
        Decoded::Done(rest, u) => {
            proof {
                assert(rest@ =~= input@.subrange((input@.len() - rest@.len()) as int, input@.len() as int));
            }
            Decoded::Done(rest, u)
        },
        Decoded::Error(e) => Decoded::Error(e),
        Decoded::Aborts => Decoded::Aborts,
    }
}

/// Decodes a single field update.
pub fn parse_single_field_update(input: &[u8]) -> (res: Result<(&[u8], SingleFieldUpdate), ParseError>)
    requires
        !spec_single_field_update(input@).panics(),
    ensures
        parsed_as(input@, res, spec_single_field_update(input@)),
{
    match decode_single_field_update(input) {
        Decoded::Done(rest, u) => Ok((rest, u)),
        Decoded::Error(e) => Err(e),
        Decoded::Aborts => Err(ParseError::Fail),
    }
}

} // verus!
