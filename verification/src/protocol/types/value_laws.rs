//! The type bytes of encoded values, and what the value decoder reads for each of them.

use crate::error::Outcome;
use crate::protocol::types::c_string::{lemma_c_string_roundtrip, spec_c_string_bytes};
use crate::protocol::types::value::{spec_framed, spec_value, spec_value_bytes, spec_values_bytes, SpecValue};
use crate::wire::{drop, lemma_u16_roundtrip, lemma_u32_roundtrip, lemma_u64_roundtrip, u16_at, u16_bytes, u32_at, u32_bytes, u64_at, u64_bytes};
use vstd::prelude::*;
use vstd::utf8::encode_utf8;

verus! {

/// The type byte of each kind of value: 1 a `u32`, 2 true, 3 false, 4 an `F64`, 5 a string,
/// 6 a `Double`, 8 an array.
pub open spec fn type_byte(v: SpecValue) -> u8 {
    match v {
        SpecValue::U32(_) => 1u8,
        SpecValue::Bool(b) => if b { 2u8 } else { 3u8 },
        SpecValue::F64(_) => 4u8,
        SpecValue::Str(_) => 5u8,
        SpecValue::Double(_) => 6u8,
        SpecValue::Array(_) => 8u8,
    }
}

/// `b` is a value header: a width byte 1 with a one-byte length, or 2 with a little-endian
/// `u16` length, the length counting the type byte and all that follows it, then the type
/// byte `t`.
pub open spec fn header_says(b: Seq<u8>, t: u8) -> bool {
    ||| (b.len() >= 3 && b[0] == 1u8 && b[1] as int == b.len() - 2 && b[2] == t)
    ||| (b.len() >= 4 && b[0] == 2u8 && u16_at(b, 1) as int == b.len() - 3 && b[3] == t)
}

proof fn lemma_framed_says(p: Seq<u8>, t: u8)
    requires
        spec_framed(p, t) is Some,
    ensures
        header_says(spec_framed(p, t)->Some_0, t),
{
    let b = spec_framed(p, t)->Some_0;
    let n = p.len() + 1;
    if n > 255 {
        lemma_u16_roundtrip(n as u16);
        assert(u16_at(b, 1) == u16_at(u16_bytes(n as u16), 0));
    }
}

/// Law: every encoded value starts with a header whose length counts the type byte and the
/// payload, and whose type byte is that of the value's kind ([`type_byte`]).
pub proof fn lemma_value_encoding_header(v: SpecValue)
    requires
        spec_value_bytes(v) is Some,
    ensures
        header_says(spec_value_bytes(v)->Some_0, type_byte(v)),
{
    match v {
        SpecValue::Str(t) => lemma_framed_says(spec_c_string_bytes(t), 5u8),
        SpecValue::Array(vs) => lemma_framed_says(spec_values_bytes(vs)->Some_0, 8u8),
        _ => {},
    }
}

/// Law: the payloads of the fixed-size kinds are the little-endian bytes of the number: a
/// `u32` in four bytes, either floating-point kind in eight (its bit pattern), a boolean in
/// none.
pub proof fn lemma_value_encoding_payload(v: SpecValue)
    requires
        v is U32 || v is Bool || v is F64 || v is Double,
    ensures
        spec_value_bytes(v) is Some,
        v matches SpecValue::U32(x) ==> spec_value_bytes(v)->Some_0.skip(3) == u32_bytes(x),
        v matches SpecValue::F64(x) ==> spec_value_bytes(v)->Some_0.skip(3) == u64_bytes(x),
        v matches SpecValue::Double(x) ==> spec_value_bytes(v)->Some_0.skip(3) == u64_bytes(x),
        v is Bool ==> spec_value_bytes(v)->Some_0.len() == 3,
{
    match v {
        SpecValue::U32(x) => assert(spec_value_bytes(v)->Some_0.skip(3) =~= u32_bytes(x)),
        SpecValue::F64(x) => assert(spec_value_bytes(v)->Some_0.skip(3) =~= u64_bytes(x)),
        SpecValue::Double(x) => assert(spec_value_bytes(v)->Some_0.skip(3) =~= u64_bytes(x)),
        _ => {},
    }
}

/// Law: the type byte of a value selects what the value decoder reads. After the header
/// `1, length, type`: type 1 is a `u32` of four little-endian bytes, 2 true and 3 false, 4 and
/// 6 a floating-point value of eight little-endian bytes (both read as `F64`), 5 a
/// NUL-terminated string; the value ends where its payload ends, whatever follows.
pub proof fn lemma_value_type_bytes(x: u32, y: u64, text: Seq<char>, len: u8, rest: Seq<u8>)
    requires
        !text.contains('\0'),
    ensures
        spec_value(seq![1u8, len, 1u8] + u32_bytes(x) + rest) == Outcome::Done(7, SpecValue::U32(x)),
        spec_value(seq![1u8, len, 2u8] + rest) == Outcome::Done(3, SpecValue::Bool(true)),
        spec_value(seq![1u8, len, 3u8] + rest) == Outcome::Done(3, SpecValue::Bool(false)),
        spec_value(seq![1u8, len, 4u8] + u64_bytes(y) + rest) == Outcome::Done(11, SpecValue::F64(y)),
        spec_value(seq![1u8, len, 6u8] + u64_bytes(y) + rest) == Outcome::Done(11, SpecValue::F64(y)),
        spec_value(seq![1u8, len, 5u8] + spec_c_string_bytes(text) + rest) == Outcome::Done(
            (4 + encode_utf8(text).len()) as nat,
            SpecValue::Str(text),
        ),
{
    let s1 = seq![1u8, len, 1u8] + u32_bytes(x) + rest;
    assert(drop(s1, 3) =~= u32_bytes(x) + rest);
    lemma_u32_roundtrip(x);
    let d1 = drop(s1, 3);
    assert(d1[0] == u32_bytes(x)[0] && d1[1] == u32_bytes(x)[1] && d1[2] == u32_bytes(x)[2] && d1[3] == u32_bytes(x)[3]);
    lemma_u64_roundtrip(y);
    let s4 = seq![1u8, len, 4u8] + u64_bytes(y) + rest;
    assert(drop(s4, 3).subrange(0, 8) =~= u64_bytes(y).subrange(0, 8));
    let s6 = seq![1u8, len, 6u8] + u64_bytes(y) + rest;
    assert(drop(s6, 3).subrange(0, 8) =~= u64_bytes(y).subrange(0, 8));
    let s5 = seq![1u8, len, 5u8] + spec_c_string_bytes(text) + rest;
    assert(drop(s5, 3) =~= spec_c_string_bytes(text) + rest);
    lemma_c_string_roundtrip(text, rest);
}

} // verus!
