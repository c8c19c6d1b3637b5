//! What the field decoder reads from the wire, type byte by type byte, and how it reads the
//! values that the value encoder writes.

use crate::error::Outcome;
use crate::parser::common::{spec_field_value, SpecFieldValue};
use crate::protocol::types::c_string::{lemma_c_string_roundtrip, spec_c_string_bytes};
use crate::protocol::types::value::{spec_value_bytes, SpecValue};
use crate::wire::{drop, lemma_u16_roundtrip, lemma_u32_roundtrip, lemma_u64_roundtrip, u16_at, u16_bytes, u32_at, u32_bytes, u64_at, u64_bytes};
use crate::parser::status_report::{spec_field_properties, spec_struct_component, SpecStructComponent};
use crate::protocol::types::c_string::spec_c_string;
use crate::protocol::types::composite::pairs_map;
use crate::protocol::types::object_laws::{spec_object_bytes, spec_properties_bytes};
use crate::error::ParseError;
use crate::parser::single_field_update::{spec_single_field_update, SpecSingleFieldUpdate};
use crate::protocol::types::indices::{lemma_indices_roundtrip, spec_indices, spec_indices_bytes};
use vstd::prelude::*;
use vstd::utf8::encode_utf8;

verus! {

/// Eight bytes at the front of `s` are read as the `u64` they encode.
proof fn lemma_u64_front(y: u64, rest: Seq<u8>)
    ensures
        u64_at(u64_bytes(y) + rest, 0) == y,
{
    lemma_u64_roundtrip(y);
    assert((u64_bytes(y) + rest).subrange(0, 8) =~= u64_bytes(y).subrange(0, 8));
}

/// Four bytes at the front of `s` are read as the `u32` they encode.
proof fn lemma_u32_front(x: u32, rest: Seq<u8>)
    ensures
        u32_at(u32_bytes(x) + rest, 0) == x,
{
    lemma_u32_roundtrip(x);
    let s = u32_bytes(x) + rest;
    assert(s[0] == u32_bytes(x)[0] && s[1] == u32_bytes(x)[1] && s[2] == u32_bytes(x)[2] && s[3] == u32_bytes(x)[3]);
}

/// Law: the type byte of a field value selects its variant. After the header `1, length,
/// type`: type 1 is a `u32` of four little-endian bytes (length 5), 2 is true and 3 false
/// (length 1), 4 is an `F64` and 6 a `Double` of eight little-endian bytes (length 9), 5 a
/// NUL-terminated string; the value ends where its payload ends, whatever follows.
pub proof fn lemma_field_value_type_bytes(x: u32, y: u64, text: Seq<char>, len: u8, rest: Seq<u8>)
    requires
        !text.contains('\0'),
    ensures
        spec_field_value(seq![1u8, 5u8, 1u8] + u32_bytes(x) + rest) == Outcome::Done(7, SpecFieldValue::U32(x)),
        spec_field_value(seq![1u8, 1u8, 2u8] + rest) == Outcome::Done(3, SpecFieldValue::True),
        spec_field_value(seq![1u8, 1u8, 3u8] + rest) == Outcome::Done(3, SpecFieldValue::False),
        spec_field_value(seq![1u8, 9u8, 4u8] + u64_bytes(y) + rest) == Outcome::Done(11, SpecFieldValue::F64(y)),
        spec_field_value(seq![1u8, 9u8, 6u8] + u64_bytes(y) + rest) == Outcome::Done(11, SpecFieldValue::Double(y)),
        spec_field_value(seq![1u8, len, 5u8] + spec_c_string_bytes(text) + rest) == Outcome::Done(
            (4 + encode_utf8(text).len()) as nat,
            SpecFieldValue::Str(text),
        ),
{
    let s1 = seq![1u8, 5u8, 1u8] + u32_bytes(x) + rest;
    assert(drop(s1, 3) =~= u32_bytes(x) + rest);
    lemma_u32_front(x, rest);
    let s4 = seq![1u8, 9u8, 4u8] + u64_bytes(y) + rest;
    assert(drop(s4, 3) =~= u64_bytes(y) + rest);
    let s6 = seq![1u8, 9u8, 6u8] + u64_bytes(y) + rest;
    assert(drop(s6, 3) =~= u64_bytes(y) + rest);
    lemma_u64_front(y, rest);
    let s5 = seq![1u8, len, 5u8] + spec_c_string_bytes(text) + rest;
    assert(drop(s5, 3) =~= spec_c_string_bytes(text) + rest);
    lemma_c_string_roundtrip(text, rest);
}

/// Law: the two forms of the length field say the same: a field value whose length is written
/// as a little-endian `u16` after the width byte 2 decodes as the one whose length is written
/// as a byte after the width byte 1, one byte further on.
pub proof fn lemma_field_value_wide_length(len: u8, t: u8, body: Seq<u8>)
    ensures
        spec_field_value(seq![2u8] + u16_bytes(len as u16) + seq![t] + body) == match spec_field_value(
            seq![1u8, len, t] + body,
        ) {
            Outcome::Done(k, v) => Outcome::Done(k + 1, v),
            Outcome::Error(e) => Outcome::Error(e),
            Outcome::Panics => Outcome::<SpecFieldValue>::Panics,
        },
{
    let w = seq![2u8] + u16_bytes(len as u16) + seq![t] + body;
    let n = seq![1u8, len, t] + body;
    lemma_u16_roundtrip(len as u16);
    assert(u16_at(w, 1) == u16_at(u16_bytes(len as u16), 0));
    assert(drop(w, 4) =~= body);
    assert(drop(n, 3) =~= body);
}

/// The field value that the field decoder names a value of the protocol module: the same
/// number or text, a boolean as `True` or `False`, the two floating-point kinds each as
/// itself (`F64` for type byte 4, `Double` for type byte 6).
pub open spec fn field_of(v: SpecValue) -> SpecFieldValue {
    match v {
        SpecValue::U32(x) => SpecFieldValue::U32(x),
        SpecValue::Bool(b) => if b { SpecFieldValue::True } else { SpecFieldValue::False },
        SpecValue::F64(x) => SpecFieldValue::F64(x),
        SpecValue::Double(x) => SpecFieldValue::Double(x),
        SpecValue::Str(t) => SpecFieldValue::Str(t),
        SpecValue::Array(_) => SpecFieldValue::Unknown2,
    }
}

/// The field decoder reads the encoding of a string (without a NUL character) as that string.
proof fn lemma_field_reads_text(t: Seq<char>, rest: Seq<u8>)
    requires
        !t.contains('\0'),
        spec_value_bytes(SpecValue::Str(t)) is Some,
    ensures
        spec_field_value(spec_value_bytes(SpecValue::Str(t))->Some_0 + rest) == Outcome::Done(
            spec_value_bytes(SpecValue::Str(t))->Some_0.len(),
            SpecFieldValue::Str(t),
        ),
{
    let b = spec_value_bytes(SpecValue::Str(t))->Some_0;
    let p = spec_c_string_bytes(t);
    let n = p.len() + 1;
    lemma_c_string_roundtrip(t, rest);
    if n <= 255 {
        lemma_field_value_type_bytes(0, 0, t, n as u8, rest);
        assert(b + rest =~= seq![1u8, n as u8, 5u8] + p + rest);
    } else {
        let w = b + rest;
        lemma_u16_roundtrip(n as u16);
        assert(w =~= seq![2u8] + u16_bytes(n as u16) + seq![5u8] + (p + rest));
        assert(u16_at(w, 1) == u16_at(u16_bytes(n as u16), 0));
        assert(drop(w, 4) =~= p + rest);
    }
}

/// Law: the field decoder reads what the value encoder writes for a number, a boolean, a
/// floating-point value of either kind or a string (without a NUL character) as that same
/// value, and takes exactly its encoding, whatever follows.
pub proof fn lemma_field_reads_encoded_value(v: SpecValue, rest: Seq<u8>)
    requires
        !(v is Array),
        v matches SpecValue::Str(t) ==> !t.contains('\0'),
        spec_value_bytes(v) is Some,
    ensures
        spec_field_value(spec_value_bytes(v)->Some_0 + rest) == Outcome::Done(
            spec_value_bytes(v)->Some_0.len(),
            field_of(v),
        ),
{
    match v {
        SpecValue::U32(x) => lemma_field_reads_u32(x, rest),
        SpecValue::Bool(x) => lemma_field_reads_bool(x, rest),
        SpecValue::F64(x) => lemma_field_reads_f64(x, rest),
        SpecValue::Double(x) => lemma_field_reads_double(x, rest),
        SpecValue::Str(t) => lemma_field_reads_text(t, rest),
        SpecValue::Array(_) => {},
    }
}

proof fn lemma_field_reads_u32(x: u32, rest: Seq<u8>)
    ensures
        spec_field_value(spec_value_bytes(SpecValue::U32(x))->Some_0 + rest) == Outcome::Done(7, SpecFieldValue::U32(x)),
        spec_value_bytes(SpecValue::U32(x))->Some_0.len() == 7,
{
    lemma_field_value_type_bytes(x, 0, seq![], 0, rest);
    assert(spec_value_bytes(SpecValue::U32(x))->Some_0 + rest =~= seq![1u8, 5u8, 1u8] + u32_bytes(x) + rest);
}

proof fn lemma_field_reads_bool(x: bool, rest: Seq<u8>)
    ensures
        spec_field_value(spec_value_bytes(SpecValue::Bool(x))->Some_0 + rest) == Outcome::Done(
            3,
            if x { SpecFieldValue::True } else { SpecFieldValue::False },
        ),
        spec_value_bytes(SpecValue::Bool(x))->Some_0.len() == 3,
{
    lemma_field_value_type_bytes(0, 0, seq![], 0, rest);
}

proof fn lemma_field_reads_f64(x: u64, rest: Seq<u8>)
    ensures
        spec_field_value(spec_value_bytes(SpecValue::F64(x))->Some_0 + rest) == Outcome::Done(11, SpecFieldValue::F64(x)),
        spec_value_bytes(SpecValue::F64(x))->Some_0.len() == 11,
{
    lemma_field_value_type_bytes(0, x, seq![], 0, rest);
    assert(spec_value_bytes(SpecValue::F64(x))->Some_0 + rest =~= seq![1u8, 9u8, 4u8] + u64_bytes(x) + rest);
}

proof fn lemma_field_reads_double(x: u64, rest: Seq<u8>)
    ensures
        spec_field_value(spec_value_bytes(SpecValue::Double(x))->Some_0 + rest) == Outcome::Done(11, SpecFieldValue::Double(x)),
        spec_value_bytes(SpecValue::Double(x))->Some_0.len() == 11,
{
    lemma_field_value_type_bytes(0, x, seq![], 0, rest);
    assert(spec_value_bytes(SpecValue::Double(x))->Some_0 + rest =~= seq![1u8, 9u8, 6u8] + u64_bytes(x) + rest);
}

/// Properties that the field decoder reads back: names without a NUL character, values that
/// are not arrays, with no NUL character in a text and short enough to encode.
pub open spec fn field_properties_writable(ps: Seq<(Seq<char>, SpecValue)>) -> bool {
    forall|i: int|
        0 <= i < ps.len() ==> !(#[trigger] ps[i]).0.contains('\0') && !(ps[i].1 is Array)
            && (ps[i].1 matches SpecValue::Str(t) ==> !t.contains('\0')) && spec_value_bytes(ps[i].1) is Some
}

/// The properties as the field decoder names them.
pub open spec fn properties_as_fields(ps: Seq<(Seq<char>, SpecValue)>) -> Seq<(Seq<char>, SpecFieldValue)> {
    ps.map_values(|p: (Seq<char>, SpecValue)| (p.0, field_of(p.1)))
}

proof fn lemma_field_writable_tail(ps: Seq<(Seq<char>, SpecValue)>)
    requires
        ps.len() > 0,
        field_properties_writable(ps),
    ensures
        field_properties_writable(ps.drop_first()),
        !ps[0].0.contains('\0'),
        !(ps[0].1 is Array),
        ps[0].1 matches SpecValue::Str(t) ==> !t.contains('\0'),
        spec_value_bytes(ps[0].1) is Some,
{
    assert forall|i: int| 0 <= i < ps.drop_first().len() implies !(#[trigger] ps.drop_first()[i]).0.contains('\0')
        && !(ps.drop_first()[i].1 is Array) && (ps.drop_first()[i].1 matches SpecValue::Str(t) ==> !t.contains('\0'))
        && spec_value_bytes(ps.drop_first()[i].1) is Some by {
        assert(ps.drop_first()[i] == ps[i + 1]);
    }
    assert(ps[0] == ps[0]);
}

/// One property of a state report: its name, then the field value that its value was
/// written as.
proof fn lemma_one_field_property(name: Seq<char>, v: SpecValue, tail: Seq<u8>)
    requires
        !name.contains('\0'),
        !(v is Array),
        v matches SpecValue::Str(t) ==> !t.contains('\0'),
        spec_value_bytes(v) is Some,
    ensures
        ({
            let c = spec_c_string_bytes(name);
            let b = spec_value_bytes(v)->Some_0;
            let s = c + b + tail;
            &&& spec_c_string(s) == Outcome::Done(c.len(), name)
            &&& spec_field_value(drop(s, c.len())) == Outcome::Done(b.len(), field_of(v))
            &&& drop(s, c.len() + b.len()) == tail
        }),
{
    let c = spec_c_string_bytes(name);
    let b = spec_value_bytes(v)->Some_0;
    let s = c + b + tail;
    lemma_c_string_roundtrip(name, b + tail);
    assert(s =~= c + (b + tail));
    assert(drop(s, c.len()) =~= b + tail);
    lemma_field_reads_encoded_value(v, tail);
    assert(drop(s, c.len() + b.len()) =~= tail);
}

/// Law: reading `n` properties of a state report over the bytes of `n` properties gives each
/// name with the field value that its value was written as, and takes exactly those bytes,
/// whatever follows.
#[verifier::rlimit(60)]
pub proof fn lemma_field_properties_read_back(ps: Seq<(Seq<char>, SpecValue)>, rest: Seq<u8>)
    requires
        field_properties_writable(ps),
    ensures
        spec_field_properties(spec_properties_bytes(ps) + rest, ps.len()) == Outcome::Done(
            spec_properties_bytes(ps).len(),
            properties_as_fields(ps),
        ),
    decreases ps.len(),
{
    if ps.len() == 0 {
        assert(properties_as_fields(ps) =~= seq![]);
    } else {
        lemma_field_writable_tail(ps);
        let t = ps.drop_first();
        lemma_field_properties_read_back(t, rest);
        let tail = spec_properties_bytes(t) + rest;
        let s = spec_properties_bytes(ps) + rest;
        assert(s =~= spec_c_string_bytes(ps[0].0) + spec_value_bytes(ps[0].1)->Some_0 + tail);
        lemma_one_field_property(ps[0].0, ps[0].1, tail);
        assert(properties_as_fields(ps) =~= seq![(ps[0].0, field_of(ps[0].1))] + properties_as_fields(t));
    }
}

/// Law: a state report entity without children is decoded with its name and with each
/// property holding the field value that its value was written as (a later property of a
/// name replacing an earlier one), whatever follows.
#[verifier::rlimit(60)]
pub proof fn lemma_report_entity_properties(name: Seq<char>, ps: Seq<(Seq<char>, SpecValue)>, rest: Seq<u8>)
    requires
        !name.contains('\0'),
        ps.len() <= 255,
        field_properties_writable(ps),
    ensures
        spec_struct_component(spec_object_bytes(name, ps) + rest) == Outcome::Done(
            spec_object_bytes(name, ps).len(),
            SpecStructComponent { name, properties: pairs_map(properties_as_fields(ps)), children: seq![] },
        ),
{
    let c = spec_c_string_bytes(name);
    let p = spec_properties_bytes(ps);
    let s = spec_object_bytes(name, ps) + rest;
    lemma_c_string_roundtrip(name, seq![1u8, ps.len() as u8] + p + seq![0u8] + rest);
    assert(s =~= c + (seq![1u8, ps.len() as u8] + p + seq![0u8] + rest));
    let s1 = drop(s, c.len());
    assert(s1 =~= seq![1u8, ps.len() as u8] + p + seq![0u8] + rest);
    let b = drop(s1, 1);
    assert(b =~= seq![ps.len() as u8] + p + seq![0u8] + rest);
    assert(drop(b, 1) =~= p + (seq![0u8] + rest));
    lemma_field_properties_read_back(ps, seq![0u8] + rest);
    assert(drop(b, 1 + p.len()) =~= seq![0u8] + rest);
}

/// The bytes of a single field update: the tag 1, the number of indices, the index path, the
/// field name as a NUL-terminated string and the encoding of the value.
pub open spec fn spec_update_bytes(xs: Seq<usize>, name: Seq<char>, v: SpecValue) -> Seq<u8> {
    seq![1u8, xs.len() as u8] + spec_indices_bytes(xs).0 + spec_c_string_bytes(name) + spec_value_bytes(v)->Some_0
}

/// Law: a single field update is decoded with the index path, the field name and the field
/// value that it was written with, whatever follows.
pub proof fn lemma_single_field_update_read_back(xs: Seq<usize>, name: Seq<char>, v: SpecValue, rest: Seq<u8>)
    requires
        xs.len() <= 255,
        spec_indices_bytes(xs).1,
        !name.contains('\0'),
        !(v is Array),
        v matches SpecValue::Str(t) ==> !t.contains('\0'),
        spec_value_bytes(v) is Some,
    ensures
        spec_single_field_update(spec_update_bytes(xs, name, v) + rest) == Outcome::Done(
            spec_update_bytes(xs, name, v).len(),
            SpecSingleFieldUpdate { indices: xs, field_name: name, field_value: field_of(v) },
        ),
{
    let ib = spec_indices_bytes(xs).0;
    let c = spec_c_string_bytes(name);
    let b = spec_value_bytes(v)->Some_0;
    let s = spec_update_bytes(xs, name, v) + rest;
    let tail = c + b + rest;
    assert(drop(s, 2) =~= ib + tail);
    lemma_indices_roundtrip(xs, tail, 0, ParseError::Verify);
    assert(spec_indices(tail, 0, ParseError::Verify) == Outcome::Done(0, Seq::<usize>::empty()));
    assert(xs + Seq::<usize>::empty() =~= xs);
    assert(drop(s, 2 + ib.len()) =~= tail);
    lemma_one_field_property(name, v, rest);
}

} // verus!
