//! Field values and NUL-terminated strings.
//!
//! A field value is a width byte for its length (1: `u8`, 2: little-endian `u16`), the length
//! (the type byte and the payload), the type byte and the payload. Unlike the value decoder
//! of the protocol module, this decoder checks the length of fixed-size payloads; it leaves
//! an unknown type byte, and a length of 0 where it subtracts the type byte, undefined.

use crate::error::{after, decoded_as, Decoded, Outcome, ParseError};
use crate::protocol::types::c_string::{parse_c_string, parsed_as, spec_c_string};
use crate::wire::{drop, read_u16_le, read_u32_le, read_u64_le, u16_at, u32_at, u64_at};
use vstd::prelude::*;

verus! {

/// A field value. Floating-point values are held as their IEEE 754 bit pattern
/// (`f64::to_bits`).
#[derive(Debug, PartialEq)]
pub enum FieldValue {
    Unknown1,
    U32(u32),
    True,
    False,
    F64(u64),
    String(String),
    Double(u64),
    Unknown2,
    Struct(Vec<FieldValue>),
}

/// The model of a [`FieldValue`].
pub enum SpecFieldValue {
    Unknown1,
    U32(u32),
    True,
    False,
    F64(u64),
    Str(Seq<char>),
    Double(u64),
    Unknown2,
    Struct(Seq<SpecFieldValue>),
}

impl View for FieldValue {
    type V = SpecFieldValue;

    open spec fn view(&self) -> SpecFieldValue {
        field_model(*self)
    }
}

/// The model of a field value.
pub open spec fn field_model(v: FieldValue) -> SpecFieldValue
    decreases v,
{
    match v {
        FieldValue::Unknown1 => SpecFieldValue::Unknown1,
        FieldValue::U32(x) => SpecFieldValue::U32(x),
        FieldValue::True => SpecFieldValue::True,
        FieldValue::False => SpecFieldValue::False,
        FieldValue::F64(x) => SpecFieldValue::F64(x),
        FieldValue::String(s) => SpecFieldValue::Str(s@),
        FieldValue::Double(x) => SpecFieldValue::Double(x),
        FieldValue::Unknown2 => SpecFieldValue::Unknown2,
        FieldValue::Struct(vs) => SpecFieldValue::Struct(fields_view(vs@)),
    }
}

/// The models of a sequence of field values.
pub open spec fn fields_view(vs: Seq<FieldValue>) -> Seq<SpecFieldValue>
    decreases vs,
{
    if vs.len() == 0 {
        seq![]
    } else {
        fields_view(vs.drop_last()).push(field_model(vs.last()))
    }
}

proof fn lemma_fields_view_push(vs: Seq<FieldValue>, v: FieldValue)
    ensures
        fields_view(vs.push(v)) == fields_view(vs).push(v@),
{
    assert(vs.push(v).drop_last() =~= vs);
}

/// The header of a field value: `(declared length, type byte)`.
pub open spec fn spec_field_header(s: Seq<u8>) -> Outcome<(nat, u8)> {
    if s.len() < 1 {
        Outcome::Error(ParseError::Incomplete)
    } else if s[0] == 1u8 {
        if s.len() < 3 {
            Outcome::Error(ParseError::Incomplete)
        } else {
            Outcome::Done(3, (s[1] as nat, s[2]))
        }
    } else if s[0] == 2u8 {
        if s.len() < 4 {
            Outcome::Error(ParseError::Incomplete)
        } else {
            Outcome::Done(4, (u16_at(s, 1) as nat, s[3]))
        }
    } else {
        Outcome::Error(ParseError::Verify)
    }
}

/// A fixed-size payload of `size` bytes, checked against the declared length.
pub open spec fn spec_fixed_payload(s: Seq<u8>, length: nat, size: nat) -> Outcome<()> {
    if length == 0 {
        Outcome::Panics
    } else if length - 1 != size {
        Outcome::Error(ParseError::Verify)
    } else if s.len() < size {
        Outcome::Error(ParseError::Incomplete)
    } else {
        Outcome::Done(size, ())
    }
}

/// The payload of a field value with the given declared length and type byte.
pub open spec fn spec_field_body(s: Seq<u8>, length: nat, value_type: u8) -> Outcome<SpecFieldValue>
    decreases s.len(), 2nat, 0nat,
{
    if value_type == 1u8 {
        match spec_fixed_payload(s, length, 4) {
            Outcome::Done(_, _) => Outcome::Done(4, SpecFieldValue::U32(u32_at(s, 0))),
            Outcome::Error(e) => Outcome::Error(e),
            Outcome::Panics => Outcome::Panics,
        }
    } else if value_type == 2u8 {
        Outcome::Done(0, SpecFieldValue::True)
    } else if value_type == 3u8 {
        Outcome::Done(0, SpecFieldValue::False)
    } else if value_type == 4u8 || value_type == 6u8 {
        match spec_fixed_payload(s, length, 8) {
            Outcome::Done(_, _) => Outcome::Done(
                8,
                if value_type == 4u8 {
                    SpecFieldValue::F64(u64_at(s, 0))
                } else {
                    SpecFieldValue::Double(u64_at(s, 0))
                },
            ),
            Outcome::Error(e) => Outcome::Error(e),
            Outcome::Panics => Outcome::Panics,
        }
    } else if value_type == 5u8 {
        match spec_c_string(s) {
            Outcome::Done(k, t) => Outcome::Done(k, SpecFieldValue::Str(t)),
            Outcome::Error(e) => Outcome::Error(e),
            Outcome::Panics => Outcome::Panics,
        }
    } else if value_type == 8u8 {
        if length == 0 {
            Outcome::Panics
        } else {
            match spec_field_elems(s, (length - 1) as nat) {
                Outcome::Done(k, vs) => Outcome::Done(k, SpecFieldValue::Struct(vs)),
                Outcome::Error(e) => Outcome::Error(e),
                Outcome::Panics => Outcome::Panics,
            }
        }
    } else {
        Outcome::Panics
    }
}

/// The members of a struct value: field values are read while `remaining` bytes of the
/// declared length are left.
pub open spec fn spec_field_elems(s: Seq<u8>, remaining: nat) -> Outcome<Seq<SpecFieldValue>>
    decreases s.len(), 1nat, remaining,
{
    if remaining == 0 {
        Outcome::Done(0, seq![])
    } else {
        match spec_field_header(s) {
            Outcome::Done(h, (l, t)) => match spec_field_body(drop(s, h), l, t) {
                Outcome::Done(j, v) => if h + j > remaining {
                    Outcome::Panics
                } else {
                    after(
                        h + j,
                        seq![v],
                        spec_field_elems(drop(s, h + j), (remaining - (h + j)) as nat),
                    )
                },
                Outcome::Error(e) => Outcome::Error(e),
                Outcome::Panics => Outcome::Panics,
            },
            Outcome::Error(e) => Outcome::Error(e),
            Outcome::Panics => Outcome::Panics,
        }
    }
}

/// A field value at the start of `s`.
pub open spec fn spec_field_value(s: Seq<u8>) -> Outcome<SpecFieldValue> {
    match spec_field_header(s) {
        Outcome::Done(h, (l, t)) => match spec_field_body(drop(s, h), l, t) {
            Outcome::Done(j, v) => Outcome::Done(h + j, v),
            Outcome::Error(e) => Outcome::Error(e),
            Outcome::Panics => Outcome::Panics,
        },
        Outcome::Error(e) => Outcome::Error(e),
        Outcome::Panics => Outcome::Panics,
    }
}

proof fn lemma_field_elems_step(s: Seq<u8>, remaining: nat)
    requires
        remaining > 0,
    ensures
        spec_field_elems(s, remaining) == match spec_field_value(s) {
            Outcome::Done(k, v) => if k > remaining {
                Outcome::Panics
            } else {
                after(k, seq![v], spec_field_elems(drop(s, k), (remaining - k) as nat))
            },
            Outcome::Error(e) => Outcome::Error(e),
            Outcome::Panics => Outcome::Panics,
        },
{
}

fn parse_field_header(data: &[u8]) -> (res: Result<(usize, usize, u8), ParseError>)
    ensures
        match spec_field_header(data@) {
            Outcome::Done(h, (l, t)) => res == Ok::<(usize, usize, u8), ParseError>(
                (h as usize, l as usize, t),
            ),
            Outcome::Error(e) => res == Err::<(usize, usize, u8), ParseError>(e),
            Outcome::Panics => false,
        },
{
    if data.len() < 1 {
        Err(ParseError::Incomplete)
    } else if data[0] == 1u8 {
        if data.len() < 3 {
            Err(ParseError::Incomplete)
        } else {
            Ok((3, data[1] as usize, data[2]))
        }
    } else if data[0] == 2u8 {
        if data.len() < 4 {
            Err(ParseError::Incomplete)
        } else {
            Ok((4, read_u16_le(data, 1) as usize, data[3]))
        }
    } else {
        Err(ParseError::Verify)
    }
}

fn check_fixed_payload(data: &[u8], length: usize, size: usize) -> (res: Decoded<'static, ()>)
    ensures
        match spec_fixed_payload(data@, length as nat, size as nat) {
            Outcome::Done(_, _) => res is Done,
            Outcome::Error(e) => res is Error && res->Error_0 == e,
            Outcome::Panics => res is Aborts,
        },
{
    if length == 0 {
        Decoded::Aborts
    } else if length - 1 != size {
        Decoded::Error(ParseError::Verify)
    } else if data.len() < size {
        Decoded::Error(ParseError::Incomplete)
    } else {
        Decoded::Done(&[], ())
    }
}

fn parse_field_body<'a>(data: &'a [u8], length: usize, value_type: u8) -> (res: Decoded<'a, FieldValue>)
    ensures
        decoded_as(data@, res, spec_field_body(data@, length as nat, value_type)),
    decreases data@.len(), 1nat,
{
    let ghost s = data@;
    if value_type == 1u8 {
        match check_fixed_payload(data, length, 4) {
            Decoded::Done(_, _) => {
                let x = read_u32_le(data, 0);
                Decoded::Done(vstd::slice::slice_subrange(data, 4, data.len()), FieldValue::U32(x))
            },
            Decoded::Error(e) => Decoded::Error(e),
            Decoded::Aborts => Decoded::Aborts,
        }
    } else if value_type == 2u8 {
        proof {
            assert(s.subrange(0, s.len() as int) =~= s);
        }
        Decoded::Done(data, FieldValue::True)
    } else if value_type == 3u8 {
        proof {
            assert(s.subrange(0, s.len() as int) =~= s);
        }
        Decoded::Done(data, FieldValue::False)
    } else if value_type == 4u8 || value_type == 6u8 {
        match check_fixed_payload(data, length, 8) {
            Decoded::Done(_, _) => {
                let x = read_u64_le(data, 0);
                let rest = vstd::slice::slice_subrange(data, 8, data.len());
                if value_type == 4u8 {
                    Decoded::Done(rest, FieldValue::F64(x))
                } else {
                    Decoded::Done(rest, FieldValue::Double(x))
                }
            },
            Decoded::Error(e) => Decoded::Error(e),
            Decoded::Aborts => Decoded::Aborts,
        }
    } else if value_type == 5u8 {
        match parse_c_string(data) {
            Ok((rest, text)) => Decoded::Done(rest, FieldValue::String(text)),
            Err(e) => Decoded::Error(e),
        }
    } else if value_type == 8u8 {
        if length == 0 {
            return Decoded::Aborts;
        }
        let mut remaining: usize = length - 1;
        let mut cur: &'a [u8] = data;
        let mut values: Vec<FieldValue> = Vec::new();
        proof {
            assert(s.subrange(0, s.len() as int) =~= s);
            assert(fields_view(values@) =~= seq![]);
            crate::error::lemma_after_nothing(spec_field_elems(s, remaining as nat));
        }
        while remaining > 0
            invariant
                s == data@,
                value_type == 8u8,
                length > 0,
                cur@.len() <= s.len(),
                cur@ == s.subrange(s.len() - cur@.len(), s.len() as int),
                spec_field_elems(s, (length - 1) as nat) == after(
                    (s.len() - cur@.len()) as nat,
                    fields_view(values@),
                    spec_field_elems(cur@, remaining as nat),
                ),
            decreases remaining,
        {
            let ghost c = cur@;
            let ghost vs = fields_view(values@);
            proof {
                lemma_field_elems_step(c, remaining as nat);
            }
            match parse_field_inner(cur) {
                Decoded::Done(next, v) => {
                    let k = cur.len() - next.len();
                    if k > remaining {
                        return Decoded::Aborts;
                    }
                    let ghost vv = v@;
                    let ghost v_copy = v;
                    let ghost old_values = values@;
                    remaining = remaining - k;
                    values.push(v);
                    cur = next;
                    proof {
                        lemma_fields_view_push(old_values, v_copy);
                        assert(fields_view(values@) =~= vs + seq![vv]);
                        assert(drop(c, k as nat) =~= cur@);
                        assert(cur@ =~= s.subrange(s.len() - cur@.len(), s.len() as int));
                        crate::error::lemma_after_after(
                            (s.len() - c.len()) as nat,
                            vs,
                            k as nat,
                            seq![vv],
                            spec_field_elems(cur@, remaining as nat),
                        );
                    }
                },
                Decoded::Error(e) => {
                    return Decoded::Error(e);
                },
                Decoded::Aborts => {
                    return Decoded::Aborts;
                },
            }
        }
        proof {
            match spec_field_elems(s, (length - 1) as nat) {
                Outcome::Done(m, ws) => {
                    assert(ws =~= fields_view(values@));
                },
                _ => {},
            }
        }
        Decoded::Done(cur, FieldValue::Struct(values))
    } else {
        Decoded::Aborts
    }
}

fn parse_field_inner<'a>(data: &'a [u8]) -> (res: Decoded<'a, FieldValue>)
    ensures
        decoded_as(data@, res, spec_field_value(data@)),
    decreases data@.len(), 0nat,
{
    match parse_field_header(data) {
        Ok((h, length, value_type)) => {
            let body = vstd::slice::slice_subrange(data, h, data.len());
            proof {
                assert(drop(data@, h as nat) =~= body@);
            }
            match parse_field_body(body, length, value_type) {
                Decoded::Done(rest, v) => {
                    proof {
                        assert(rest@ =~= data@.subrange(
                            data@.len() - rest@.len(),
                            data@.len() as int,
                        ));
                    }
                    Decoded::Done(rest, v)
                },
                Decoded::Error(e) => Decoded::Error(e),
                Decoded::Aborts => Decoded::Aborts,
            }
        },
        Err(e) => Decoded::Error(e),
    }
}

/// Decodes a field value, or reports that `input` is one of the inputs on which decoding
/// is undefined (an unknown type byte, a declared length of 0 where the type byte is
/// subtracted, or struct members that overrun the declared length).
pub fn decode_field_value<'a>(input: &'a [u8]) -> (res: Decoded<'a, FieldValue>)
    ensures
        decoded_as(input@, res, spec_field_value(input@)),
{
    parse_field_inner(input)
}

/// Decodes a field value.
pub fn parse_field_value(input: &[u8]) -> (res: Result<(&[u8], FieldValue), ParseError>)
    requires
        !spec_field_value(input@).panics(),
    ensures
        parsed_as(input@, res, spec_field_value(input@)),
{
    match parse_field_inner(input) {
        Decoded::Done(rest, v) => Ok((rest, v)),
        Decoded::Error(e) => Err(e),
        Decoded::Aborts => Err(ParseError::Fail),
    }
}

/// Reads a NUL-terminated string (the terminator is consumed, not returned).
pub fn parse_null_terminated_string(input: &[u8]) -> (res: Result<(&[u8], String), ParseError>)
    ensures
        parsed_as(input@, res, spec_c_string(input@)),
{
    parse_c_string(input)
}

} // verus!
