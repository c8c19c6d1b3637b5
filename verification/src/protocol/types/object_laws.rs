//! What the state object decoders make of the properties on the wire: each property holds
//! what value decoding gives for its bytes.

use crate::error::{after, Outcome};
use crate::protocol::types::c_string::{lemma_c_string_roundtrip, spec_c_string_bytes};
use crate::protocol::types::composite::{pairs_map, spec_composite, spec_properties, CompositeType, SpecComposite};
use crate::protocol::types::structured::{spec_structured, spec_structured_properties, SpecStructured};
use crate::protocol::types::value::{lemma_value_roundtrip, spec_value_bytes, value_as_read, value_text_nul_free, SpecValue};
use crate::wire::drop;
use vstd::prelude::*;

verus! {

/// Properties that can be written: names and texts without a NUL character, values short
/// enough to encode.
pub open spec fn properties_writable(ps: Seq<(Seq<char>, SpecValue)>) -> bool {
    forall|i: int|
        0 <= i < ps.len() ==> !(#[trigger] ps[i]).0.contains('\0') && value_text_nul_free(ps[i].1)
            && spec_value_bytes(ps[i].1) is Some
}

/// The bytes of a list of properties: each name as a NUL-terminated string followed by the
/// encoding of its value, in order.
pub open spec fn spec_properties_bytes(ps: Seq<(Seq<char>, SpecValue)>) -> Seq<u8>
    decreases ps.len(),
{
    if ps.len() == 0 {
        seq![]
    } else {
        spec_c_string_bytes(ps[0].0) + spec_value_bytes(ps[0].1)->Some_0 + spec_properties_bytes(
            ps.drop_first(),
        )
    }
}

/// The properties as decoding gives them back: each value as value decoding reads it.
pub open spec fn properties_as_read(ps: Seq<(Seq<char>, SpecValue)>) -> Seq<(Seq<char>, SpecValue)> {
    ps.map_values(|p: (Seq<char>, SpecValue)| (p.0, value_as_read(p.1)))
}

proof fn lemma_writable_tail(ps: Seq<(Seq<char>, SpecValue)>)
    requires
        ps.len() > 0,
        properties_writable(ps),
    ensures
        properties_writable(ps.drop_first()),
        !ps[0].0.contains('\0'),
        value_text_nul_free(ps[0].1),
        spec_value_bytes(ps[0].1) is Some,
{
    assert forall|i: int| 0 <= i < ps.drop_first().len() implies !(#[trigger] ps.drop_first()[i]).0.contains('\0')
        && value_text_nul_free(ps.drop_first()[i].1) && spec_value_bytes(ps.drop_first()[i].1) is Some by {
        assert(ps.drop_first()[i] == ps[i + 1]);
    }
    assert(ps[0] == ps[0]);
}

/// One property: its name, then the value that value decoding reads from its bytes.
proof fn lemma_one_property(name: Seq<char>, v: SpecValue, tail: Seq<u8>) -> (k: nat)
    requires
        !name.contains('\0'),
        value_text_nul_free(v),
        spec_value_bytes(v) is Some,
    ensures
        k == spec_c_string_bytes(name).len(),
        ({
            let s = spec_c_string_bytes(name) + spec_value_bytes(v)->Some_0 + tail;
            &&& crate::protocol::types::c_string::spec_c_string(s) == Outcome::Done(k, name)
            &&& crate::protocol::types::value::spec_value(drop(s, k)) == Outcome::Done(
                spec_value_bytes(v)->Some_0.len(),
                value_as_read(v),
            )
            &&& drop(s, k + spec_value_bytes(v)->Some_0.len()) == tail
        }),
{
    let c = spec_c_string_bytes(name);
    let b = spec_value_bytes(v)->Some_0;
    let s = c + b + tail;
    lemma_c_string_roundtrip(name, b + tail);
    assert(c + b + tail =~= c + (b + tail));
    assert(drop(s, c.len()) =~= b + tail);
    lemma_value_roundtrip(v, tail);
    assert(drop(s, c.len() + b.len()) =~= tail);
    c.len()
}

/// Law: reading `n` properties over the bytes of `n` writable properties gives each name
/// with the value that value decoding reads from its bytes, and takes exactly those bytes,
/// whatever follows.
pub proof fn lemma_properties_read_back(ps: Seq<(Seq<char>, SpecValue)>, rest: Seq<u8>)
    requires
        properties_writable(ps),
    ensures
        spec_properties(spec_properties_bytes(ps) + rest, ps.len()) == Outcome::Done(
            spec_properties_bytes(ps).len(),
            properties_as_read(ps),
        ),
        spec_structured_properties(spec_properties_bytes(ps) + rest, ps.len()) == Outcome::Done(
            spec_properties_bytes(ps).len(),
            properties_as_read(ps),
        ),
    decreases ps.len(),
{
    if ps.len() == 0 {
        assert(properties_as_read(ps) =~= seq![]);
    } else {
        lemma_writable_tail(ps);
        let t = ps.drop_first();
        lemma_properties_read_back(t, rest);
        let tail = spec_properties_bytes(t) + rest;
        let k1 = lemma_one_property(ps[0].0, ps[0].1, tail);
        let s = spec_properties_bytes(ps) + rest;
        assert(s =~= spec_c_string_bytes(ps[0].0) + spec_value_bytes(ps[0].1)->Some_0 + tail);
        assert(properties_as_read(ps) =~= seq![(ps[0].0, value_as_read(ps[0].1))] + properties_as_read(t));
    }
}

/// The bytes of a state object with the given properties and no children: its name, the kind
/// byte 1 (an object), the number of properties, the properties, and a zero byte.
pub open spec fn spec_object_bytes(name: Seq<char>, ps: Seq<(Seq<char>, SpecValue)>) -> Seq<u8> {
    spec_c_string_bytes(name) + seq![1u8, ps.len() as u8] + spec_properties_bytes(ps) + seq![0u8]
}

/// Law: a state object without children is decoded with its name, and with each property
/// holding what value decoding reads from its bytes (a later property of a name replacing an
/// earlier one), by both state object decoders, whatever follows.
pub proof fn lemma_object_properties(name: Seq<char>, ps: Seq<(Seq<char>, SpecValue)>, rest: Seq<u8>)
    requires
        !name.contains('\0'),
        ps.len() <= 255,
        properties_writable(ps),
    ensures
        spec_composite(spec_object_bytes(name, ps) + rest) == Outcome::Done(
            spec_object_bytes(name, ps).len(),
            SpecComposite {
                name,
                composite_type: CompositeType::Object,
                has_children: false,
                properties: pairs_map(properties_as_read(ps)),
                children: seq![],
            },
        ),
        spec_structured(spec_object_bytes(name, ps) + rest) == Outcome::Done(
            spec_object_bytes(name, ps).len(),
            SpecStructured { name, properties: pairs_map(properties_as_read(ps)), children: seq![] },
        ),
{
    let c = spec_c_string_bytes(name);
    let p = spec_properties_bytes(ps);
    let s = spec_object_bytes(name, ps) + rest;
    lemma_c_string_roundtrip(name, seq![1u8, ps.len() as u8] + p + seq![0u8] + rest);
    assert(s =~= c + (seq![1u8, ps.len() as u8] + p + seq![0u8] + rest));
    let s1 = drop(s, c.len());
    assert(s1 =~= seq![1u8, ps.len() as u8] + p + seq![0u8] + rest);
    let b = drop(s1, 1);
    assert(b =~= seq![ps.len() as u8] + p + seq![0u8] + rest);
    assert(drop(b, 1) =~= p + (seq![0u8] + rest));
    lemma_properties_read_back(ps, seq![0u8] + rest);
    assert(drop(b, 1 + p.len()) =~= seq![0u8] + rest);
}

} // verus!
