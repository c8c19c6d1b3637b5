//! The device state tree.
//!
//! Wire format of a state object: its name (a NUL-terminated string), a kind byte
//! (0: collection, 1: object), then
//! - for a collection: a byte giving the width of the child count (0: no children,
//!   1: `u8`, 2: little-endian `u16`), the count, and the children;
//! - for an object: a `u8` property count, the properties (a name and a value each), a byte
//!   that is non-zero where children follow, and then a `u8` child count and the children.

use crate::error::{after, decoded_as, lemma_after_nothing, shifted, Decoded, Outcome, ParseError};
use crate::protocol::Parseable;
use crate::protocol::types::c_string::{parse_c_string, parsed_as, spec_c_string, lemma_c_string_done};
use crate::protocol::types::property_map::PropertyMap;
use crate::protocol::types::value::{decode_value, same_kind, spec_value, SpecValue, Value};
use crate::wire::{drop, read_u16_le, u16_at};
use vstd::prelude::*;

verus! {

/// The kind of a state object.
#[derive(Clone, Copy, Debug, PartialEq, Eq, Structural)]
pub enum CompositeType {
    /// Holds properties and may hold children.
    Object,
    /// Holds children only.
    Collection,
}

impl Default for CompositeType {
    fn default() -> (r: CompositeType)
        ensures
            r == CompositeType::Object,
    {
        CompositeType::Object
    }
}

/// A state object: a collection of children, or an object with properties that may have
/// children.
#[derive(Debug)]
pub struct Composite {
    pub name: String,
    pub composite_type: CompositeType,
    pub has_children: bool,
    pub properties: PropertyMap<Value>,
    pub children: Vec<Composite>,
}

impl Default for Composite {
    /// An object with an empty name, no properties and no children.
    fn default() -> (r: Composite)
        ensures
            r@ == (SpecComposite {
                name: Seq::empty(),
                composite_type: CompositeType::Object,
                has_children: false,
                properties: Map::empty(),
                children: Seq::empty(),
            }),
    {
        let r = Composite {
            name: String::new(),
            composite_type: CompositeType::default(),
            has_children: false,
            properties: PropertyMap::new(),
            children: Vec::new(),
        };
        proof {
            assert(composites_view(r.children@) =~= Seq::<SpecComposite>::empty());
        }
        r
    }
}

/// The model of a state object.
pub struct SpecComposite {
    pub name: Seq<char>,
    pub composite_type: CompositeType,
    pub has_children: bool,
    pub properties: Map<Seq<char>, SpecValue>,
    pub children: Seq<SpecComposite>,
}

impl View for Composite {
    type V = SpecComposite;

    open spec fn view(&self) -> SpecComposite {
        composite_model(*self)
    }
}

/// The model of a state object.
pub open spec fn composite_model(c: Composite) -> SpecComposite
    decreases c,
{
    SpecComposite {
        name: c.name@,
        composite_type: c.composite_type,
        has_children: c.has_children,
        properties: c.properties@,
        children: composites_view(c.children@),
    }
}

/// The models of a sequence of state objects.
pub open spec fn composites_view(cs: Seq<Composite>) -> Seq<SpecComposite>
    decreases cs,
{
    if cs.len() == 0 {
        seq![]
    } else {
        composites_view(cs.drop_last()).push(composite_model(cs.last()))
    }
}

/// The models of a sequence of state objects, element by element.
pub proof fn lemma_composites_view(cs: Seq<Composite>)
    ensures
        composites_view(cs).len() == cs.len(),
        forall|i: int| 0 <= i < cs.len() ==> #[trigger] composites_view(cs)[i] == cs[i]@,
    decreases cs.len(),
{
    if cs.len() > 0 {
        lemma_composites_view(cs.drop_last());
    }
}

/// The models of a sequence with one more state object.
pub proof fn lemma_composites_view_push(cs: Seq<Composite>, c: Composite)
    ensures
        composites_view(cs.push(c)) == composites_view(cs).push(c@),
{
    assert(cs.push(c).drop_last() =~= cs);
}

// ---------------------------------------------------------------------------------------------
// Decoding
// ---------------------------------------------------------------------------------------------

/// A child count: a width byte (0: none, 1: `u8`, 2: little-endian `u16`) and the count.
pub open spec fn spec_child_count(s: Seq<u8>) -> Outcome<nat> {
    if s.len() < 1 {
        Outcome::Error(ParseError::Incomplete)
    } else if s[0] == 0u8 {
        Outcome::Done(1, 0)
    } else if s[0] == 1u8 {
        if s.len() < 2 {
            Outcome::Error(ParseError::Incomplete)
        } else {
            Outcome::Done(2, s[1] as nat)
        }
    } else if s[0] == 2u8 {
        if s.len() < 3 {
            Outcome::Error(ParseError::Incomplete)
        } else {
            Outcome::Done(3, u16_at(s, 1) as nat)
        }
    } else {
        Outcome::Error(ParseError::LengthValue)
    }
}

/// Reads a child count: `(bytes taken, count)`.
pub fn parse_child_count(data: &[u8]) -> (res: Result<(usize, usize), ParseError>)
    ensures
        match spec_child_count(data@) {
            Outcome::Done(h, n) => res == Ok::<(usize, usize), ParseError>((h as usize, n as usize)),
            Outcome::Error(e) => res == Err::<(usize, usize), ParseError>(e),
            Outcome::Panics => false,
        },
{
    if data.len() < 1 {
        Err(ParseError::Incomplete)
    } else if data[0] == 0u8 {
        Ok((1, 0))
    } else if data[0] == 1u8 {
        if data.len() < 2 {
            Err(ParseError::Incomplete)
        } else {
            Ok((2, data[1] as usize))
        }
    } else if data[0] == 2u8 {
        if data.len() < 3 {
            Err(ParseError::Incomplete)
        } else {
            Ok((3, read_u16_le(data, 1) as usize))
        }
    } else {
        Err(ParseError::LengthValue)
    }
}

/// `n` properties: a name and a value each, in order.
pub open spec fn spec_properties(s: Seq<u8>, n: nat) -> Outcome<Seq<(Seq<char>, SpecValue)>>
    decreases n,
{
    if n == 0 {
        Outcome::Done(0, seq![])
    } else {
        match spec_c_string(s) {
            Outcome::Done(k1, name) => match spec_value(drop(s, k1)) {
                Outcome::Done(k2, v) => after(
                    k1 + k2,
                    seq![(name, v)],
                    spec_properties(drop(s, k1 + k2), (n - 1) as nat),
                ),
                Outcome::Error(e) => Outcome::Error(e),
                Outcome::Panics => Outcome::Panics,
            },
            Outcome::Error(e) => Outcome::Error(e),
            Outcome::Panics => Outcome::Panics,
        }
    }
}

/// The map that setting the properties one after the other gives (a later property of the
/// same name replaces an earlier one).
pub open spec fn pairs_map<V>(ps: Seq<(Seq<char>, V)>) -> Map<Seq<char>, V>
    decreases ps.len(),
{
    if ps.len() == 0 {
        Map::empty()
    } else {
        pairs_map(ps.drop_last()).insert(ps.last().0, ps.last().1)
    }
}

/// A state object at the start of `s`: its name, its kind byte and the rest of it.
pub open spec fn spec_composite(s: Seq<u8>) -> Outcome<SpecComposite>
    decreases s.len(), 0nat, 0nat,
{
    match spec_c_string(s) {
        Outcome::Done(k, name) => {
            let s1 = drop(s, k);
            if s1.len() < 1 {
                Outcome::Error(ParseError::Incomplete)
            } else if s1[0] == 0u8 {
                shifted(k + 1, spec_collection_body(drop(s1, 1), name))
            } else if s1[0] == 1u8 {
                shifted(k + 1, spec_object_body(drop(s1, 1), name))
            } else {
                Outcome::Error(ParseError::Verify)
            }
        },
        Outcome::Error(e) => Outcome::Error(e),
        Outcome::Panics => Outcome::Panics,
    }
}

/// The rest of a collection after its kind byte: a child count and the children.
pub open spec fn spec_collection_body(s: Seq<u8>, name: Seq<char>) -> Outcome<SpecComposite>
    decreases s.len(), 2nat, 0nat,
{
    match spec_child_count(s) {
        Outcome::Done(h, count) => match spec_composites(drop(s, h), count) {
            Outcome::Done(m, cs) => Outcome::Done(
                h + m,
                SpecComposite {
                    name,
                    composite_type: CompositeType::Collection,
                    has_children: true,
                    properties: Map::empty(),
                    children: cs,
                },
            ),
            Outcome::Error(e) => Outcome::Error(e),
            Outcome::Panics => Outcome::Panics,
        },
        Outcome::Error(e) => Outcome::Error(e),
        Outcome::Panics => Outcome::Panics,
    }
}

/// The rest of an object after its kind byte: a property count, the properties, a byte that
/// is non-zero where children follow, then a child count and the children.
pub open spec fn spec_object_body(s: Seq<u8>, name: Seq<char>) -> Outcome<SpecComposite>
    decreases s.len(), 2nat, 0nat,
{
    if s.len() < 1 {
        Outcome::Error(ParseError::Incomplete)
    } else {
        match spec_properties(drop(s, 1), s[0] as nat) {
            Outcome::Done(pk, ps) => {
                let s3 = drop(s, 1 + pk);
                if s3.len() < 1 {
                    Outcome::Error(ParseError::Incomplete)
                } else if s3[0] != 0u8 {
                    let s4 = drop(s3, 1);
                    if s4.len() < 1 {
                        Outcome::Error(ParseError::Incomplete)
                    } else {
                        match spec_composites(drop(s4, 1), s4[0] as nat) {
                            Outcome::Done(m, cs) => Outcome::Done(
                                1 + pk + 1 + 1 + m,
                                SpecComposite {
                                    name,
                                    composite_type: CompositeType::Object,
                                    has_children: true,
                                    properties: pairs_map(ps),
                                    children: cs,
                                },
                            ),
                            Outcome::Error(e) => Outcome::Error(e),
                            Outcome::Panics => Outcome::Panics,
                        }
                    }
                } else {
                    Outcome::Done(
                        1 + pk + 1,
                        SpecComposite {
                            name,
                            composite_type: CompositeType::Object,
                            has_children: false,
                            properties: pairs_map(ps),
                            children: seq![],
                        },
                    )
                }
            },
            Outcome::Error(e) => Outcome::Error(e),
            Outcome::Panics => Outcome::Panics,
        }
    }
}

/// `n` state objects, one after the other.
pub open spec fn spec_composites(s: Seq<u8>, n: nat) -> Outcome<Seq<SpecComposite>>
    decreases s.len(), 1nat, n,
{
    if n == 0 {
        Outcome::Done(0, seq![])
    } else {
        match spec_composite(s) {
            Outcome::Done(k, c) => after(k, seq![c], spec_composites(drop(s, k), (n - 1) as nat)),
            Outcome::Error(e) => Outcome::Error(e),
            Outcome::Panics => Outcome::Panics,
        }
    }
}

} // verus!

verus! {

/// The map that setting one more property gives.
pub proof fn lemma_pairs_map_push<V>(ps: Seq<(Seq<char>, V)>, p: (Seq<char>, V))
    ensures
        pairs_map(ps.push(p)) == pairs_map(ps).insert(p.0, p.1),
{
    assert(ps.push(p).drop_last() =~= ps);
}

/// `rest` is the part of `s` after its first `k` bytes.
pub open spec fn suffix_after(s: Seq<u8>, rest: Seq<u8>, k: nat) -> bool {
    k <= s.len() && rest == s.subrange(k as int, s.len() as int)
}

fn tail<'a>(data: &'a [u8], k: usize) -> (r: &'a [u8])
    requires
        k <= data@.len(),
    ensures
        r@ == drop(data@, k as nat),
        r@ == data@.subrange(k as int, data@.len() as int),
{
    vstd::slice::slice_subrange(data, k, data.len())
}

/// Reads `n` properties into a map; the ghost result is the sequence of properties read.
fn parse_properties<'a>(data: &'a [u8], n: usize) -> (res: (
    Decoded<'a, PropertyMap<Value>>,
    Ghost<Seq<(Seq<char>, SpecValue)>>,
))
    ensures
        match spec_properties(data@, n as nat) {
            Outcome::Done(k, ps) => {
                &&& res.0 is Done
                &&& suffix_after(data@, res.0->Done_0@, k)
                &&& res.0->Done_1@ == pairs_map(ps)
                &&& res.1@ == ps
            },
            Outcome::Error(e) => res.0 is Error && res.0->Error_0 == e,
            Outcome::Panics => res.0 is Aborts,
        },
{
    let mut cur: &'a [u8] = data;
    let mut map = PropertyMap::new();
    let mut i: usize = 0;
    let ghost mut ps: Seq<(Seq<char>, SpecValue)> = seq![];
    proof {
        assert(data@.subrange(0, data@.len() as int) =~= data@);
        lemma_after_nothing(spec_properties(data@, n as nat));
    }
    while i < n
        invariant
            i <= n,
            cur@.len() <= data@.len(),
            cur@ == data@.subrange(data@.len() - cur@.len(), data@.len() as int),
            spec_properties(data@, n as nat) == after(
                (data@.len() - cur@.len()) as nat,
                ps,
                spec_properties(cur@, (n - i) as nat),
            ),
            map@ == pairs_map(ps),
        decreases n - i,
    {
        let ghost c = cur@;
        match parse_c_string(cur) {
            Ok((r1, name)) => {
                match decode_value(r1) {
                    Decoded::Done(r2, v) => {
                        let ghost k1 = (c.len() - r1@.len()) as nat;
                        let ghost k2 = (r1@.len() - r2@.len()) as nat;
                        proof {
                            assert(drop(c, k1) =~= r1@);
                            assert(drop(c, k1 + k2) =~= r2@);
                            lemma_after_after_props(
                                (data@.len() - c.len()) as nat,
                                ps,
                                k1 + k2,
                                seq![(name@, v@)],
                                spec_properties(r2@, (n - i - 1) as nat),
                            );
                            lemma_pairs_map_push(ps, (name@, v@));
                            assert(ps + seq![(name@, v@)] =~= ps.push((name@, v@)));
                        }
                        let ghost p = (name@, v@);
                        map.insert(name, v);
                        proof {
                            ps = ps.push(p);
                        }
                        cur = r2;
                        i = i + 1;
                        proof {
                            assert(cur@ =~= data@.subrange(data@.len() - cur@.len(), data@.len() as int));
                        }
                    },
                    Decoded::Error(e) => {
                        proof {
                            assert(drop(c, (c.len() - r1@.len()) as nat) =~= r1@);
                        }
                        return (Decoded::Error(e), Ghost(Seq::empty()));
                    },
                    Decoded::Aborts => {
                        proof {
                            assert(drop(c, (c.len() - r1@.len()) as nat) =~= r1@);
                        }
                        return (Decoded::Aborts, Ghost(Seq::empty()));
                    },
                }
            },
            Err(e) => {
                return (Decoded::Error(e), Ghost(Seq::empty()));
            },
        }
    }
    proof {
        match spec_properties(cur@, 0) {
            Outcome::Done(m, ws) => {
                assert(ps + ws =~= ps);
            },
            _ => {},
        }
    }
    (Decoded::Done(cur, map), Ghost(ps))
}

proof fn lemma_after_after_props(
    k1: nat,
    s1: Seq<(Seq<char>, SpecValue)>,
    k2: nat,
    s2: Seq<(Seq<char>, SpecValue)>,
    o: Outcome<Seq<(Seq<char>, SpecValue)>>,
)
    ensures
        after(k1, s1, after(k2, s2, o)) == after(k1 + k2, s1 + s2, o),
{
    crate::error::lemma_after_after(k1, s1, k2, s2, o);
}

} // verus!

verus! {

proof fn lemma_after_after_composites(
    k1: nat,
    s1: Seq<SpecComposite>,
    k2: nat,
    s2: Seq<SpecComposite>,
    o: Outcome<Seq<SpecComposite>>,
)
    ensures
        after(k1, s1, after(k2, s2, o)) == after(k1 + k2, s1 + s2, o),
{
    crate::error::lemma_after_after(k1, s1, k2, s2, o);
}

/// Reads `n` state objects, one after the other.
#[verifier::spinoff_prover]
fn parse_composites<'a>(data: &'a [u8], n: usize) -> (res: (Decoded<'a, Vec<Composite>>))
    ensures
        match spec_composites(data@, n as nat) {
            Outcome::Done(k, cs) => {
                &&& res is Done
                &&& suffix_after(data@, res->Done_0@, k)
                &&& composites_view(res->Done_1@) == cs
            },
            Outcome::Error(e) => res is Error && res->Error_0 == e,
            Outcome::Panics => res is Aborts,
        },
    decreases data@.len(), 1nat,
{
    let mut cur: &'a [u8] = data;
    let mut children: Vec<Composite> = Vec::new();
    let mut i: usize = 0;
    proof {
        assert(data@.subrange(0, data@.len() as int) =~= data@);
        lemma_after_nothing(spec_composites(data@, n as nat));
        assert(composites_view(children@) =~= seq![]);
    }
    while i < n
        invariant
            i <= n,
            cur@.len() <= data@.len(),
            cur@ == data@.subrange(data@.len() - cur@.len(), data@.len() as int),
            spec_composites(data@, n as nat) == after(
                (data@.len() - cur@.len()) as nat,
                composites_view(children@),
                spec_composites(cur@, (n - i) as nat),
            ),
        decreases n - i,
    {
        let ghost c = cur@;
        match parse_composite_inner(cur) {
            Decoded::Done(next, child) => {
                let ghost k = (c.len() - next@.len()) as nat;
                let ghost cv = child@;
                let ghost old_children = children@;
                proof {
                    assert(drop(c, k) =~= next@);
                    lemma_after_after_composites(
                        (data@.len() - c.len()) as nat,
                        composites_view(old_children),
                        k,
                        seq![cv],
                        spec_composites(next@, (n - i - 1) as nat),
                    );
                    lemma_composites_view_push(old_children, child);
                    assert(composites_view(old_children) + seq![cv] =~= composites_view(old_children).push(cv));
                }
                children.push(child);
                cur = next;
                i = i + 1;
                proof {
                    assert(cur@ =~= data@.subrange(data@.len() - cur@.len(), data@.len() as int));
                }
            },
            Decoded::Error(e) => {
                return Decoded::Error(e);
            },
            Decoded::Aborts => {
                return Decoded::Aborts;
            },
        }
    }
    proof {
        match spec_composites(cur@, 0) {
            Outcome::Done(m, ws) => {
                assert(composites_view(children@) + ws =~= composites_view(children@));
            },
            _ => {},
        }
    }
    Decoded::Done(cur, children)
}

#[verifier::spinoff_prover]
fn parse_composite_inner<'a>(data: &'a [u8]) -> (res: Decoded<'a, Composite>)
    ensures
        decoded_as(data@, res, spec_composite(data@)),
    decreases data@.len(), 0nat,
{
    let ghost s = data@;
    let (s1, name) = match parse_c_string(data) {
        Ok(r) => r,
        Err(e) => {
            return Decoded::Error(e);
        },
    };
    let ghost k = (s.len() - s1@.len()) as nat;
    proof {
        lemma_c_string_done(s);
        assert(drop(s, k) =~= s1@);
    }
    if s1.len() < 1 {
        return Decoded::Error(ParseError::Incomplete);
    }
    let kind = s1[0];
    let s2 = tail(s1, 1);
    let body = if kind == 0u8 {
        parse_collection_body(s2, name)
    } else if kind == 1u8 {
        parse_object_body(s2, name)
    } else {
        return Decoded::Error(ParseError::Verify);
    };
    match body {
        Decoded::Done(rest, c) => {
            proof {
                assert(rest@ =~= s.subrange((s.len() - rest@.len()) as int, s.len() as int));
            }
            Decoded::Done(rest, c)
        },
        Decoded::Error(e) => Decoded::Error(e),
        Decoded::Aborts => Decoded::Aborts,
    }
}

fn parse_collection_body<'a>(data: &'a [u8], name: String) -> (res: Decoded<'a, Composite>)
    ensures
        decoded_as(data@, res, spec_collection_body(data@, name@)),
    decreases data@.len(), 2nat,
{
    let ghost s = data@;
    let (h, count) = match parse_child_count(data) {
        Ok(r) => r,
        Err(e) => {
            return Decoded::Error(e);
        },
    };
    let s2 = tail(data, h);
    match parse_composites(s2, count) {
        Decoded::Done(rest, children) => {
            proof {
                assert(rest@ =~= s.subrange((s.len() - rest@.len()) as int, s.len() as int));
            }
            let properties = PropertyMap::new();
            let c = Composite {
                name,
                composite_type: CompositeType::Collection,
                has_children: true,
                properties,
                children,
            };
            Decoded::Done(rest, c)
        },
        Decoded::Error(e) => Decoded::Error(e),
        Decoded::Aborts => Decoded::Aborts,
    }
}

#[verifier::spinoff_prover]
fn parse_object_body<'a>(data: &'a [u8], name: String) -> (res: Decoded<'a, Composite>)
    ensures
        decoded_as(data@, res, spec_object_body(data@, name@)),
    decreases data@.len(), 2nat,
{
    let ghost s = data@;
    if data.len() < 1 {
        return Decoded::Error(ParseError::Incomplete);
    }
    let n = data[0] as usize;
    let s2b = tail(data, 1);
    let (pres, Ghost(ps)) = parse_properties(s2b, n);
    let (s3, properties) = match pres {
        Decoded::Done(r, m) => (r, m),
        Decoded::Error(e) => {
            return Decoded::Error(e);
        },
        Decoded::Aborts => {
            return Decoded::Aborts;
        },
    };
    let ghost pk = (s2b@.len() - s3@.len()) as nat;
    proof {
        assert(drop(s, 1 + pk) =~= s3@);
    }
    if s3.len() < 1 {
        return Decoded::Error(ParseError::Incomplete);
    }
    if s3[0] != 0u8 {
        let s4 = tail(s3, 1);
        if s4.len() < 1 {
            return Decoded::Error(ParseError::Incomplete);
        }
        let count = s4[0] as usize;
        let s4b = tail(s4, 1);
        match parse_composites(s4b, count) {
            Decoded::Done(rest, children) => {
                proof {
                    assert(rest@ =~= s.subrange((s.len() - rest@.len()) as int, s.len() as int));
                }
                let c = Composite {
                    name,
                    composite_type: CompositeType::Object,
                    has_children: true,
                    properties,
                    children,
                };
                Decoded::Done(rest, c)
            },
            Decoded::Error(e) => Decoded::Error(e),
            Decoded::Aborts => Decoded::Aborts,
        }
    } else {
        let rest = tail(s3, 1);
        proof {
            assert(rest@ =~= s.subrange((s.len() - rest@.len()) as int, s.len() as int));
        }
        let children: Vec<Composite> = Vec::new();
        proof {
            assert(composites_view(children@) =~= seq![]);
        }
        let c = Composite {
            name,
            composite_type: CompositeType::Object,
            has_children: false,
            properties,
            children,
        };
        Decoded::Done(rest, c)
    }
}

} // verus!

verus! {

/// Decodes a state object, or reports that `data` is one of the inputs on which decoding
/// is undefined (a value inside it on which value decoding is undefined).
pub fn decode_composite<'a>(data: &'a [u8]) -> (res: Decoded<'a, Composite>)
    ensures
        decoded_as(data@, res, spec_composite(data@)),
{
    parse_composite_inner(data)
}

impl Parseable for Composite {
    open spec fn parse_defined(data: Seq<u8>) -> bool {
        !spec_composite(data).panics()
    }

    /// A state object needs at least a terminator for an empty name, a kind byte and a count
    /// byte.
    fn can_parse(data: &[u8]) -> (r: bool)
        ensures
            r == (data@.len() >= 3),
    {
        data.len() >= 3
    }

    fn parse(data: &[u8]) -> (res: Result<(&[u8], Composite), ParseError>)
        ensures
            parsed_as(data@, res, spec_composite(data@)),
    {
        match parse_composite_inner(data) {
            Decoded::Done(rest, c) => Ok((rest, c)),
            Decoded::Error(e) => Err(e),
            Decoded::Aborts => Err(ParseError::Fail),
        }
    }
}

/// The kind byte of a state object: 0 collection, 1 object.
pub open spec fn spec_composite_type(s: Seq<u8>) -> Outcome<CompositeType> {
    if s.len() < 1 {
        Outcome::Error(ParseError::Incomplete)
    } else if s[0] == 0u8 {
        Outcome::Done(1, CompositeType::Collection)
    } else if s[0] == 1u8 {
        Outcome::Done(1, CompositeType::Object)
    } else {
        Outcome::Error(ParseError::Verify)
    }
}

impl View for CompositeType {
    type V = CompositeType;

    open spec fn view(&self) -> CompositeType {
        *self
    }
}

impl Parseable for CompositeType {
    open spec fn parse_defined(data: Seq<u8>) -> bool {
        true
    }

    /// The kind needs one byte.
    fn can_parse(data: &[u8]) -> (r: bool)
        ensures
            r == (data@.len() >= 1),
    {
        data.len() >= 1
    }

    fn parse(data: &[u8]) -> (res: Result<(&[u8], CompositeType), ParseError>)
        ensures
            parsed_as(data@, res, spec_composite_type(data@)),
    {
        if data.len() < 1 {
            Err(ParseError::Incomplete)
        } else if data[0] == 0u8 {
            Ok((tail(data, 1), CompositeType::Collection))
        } else if data[0] == 1u8 {
            Ok((tail(data, 1), CompositeType::Object))
        } else {
            Err(ParseError::Verify)
        }
    }
}

} // verus!

verus! {

/// Why a property patch was refused.
#[derive(Debug)]
pub enum PatchError {
    /// The property exists with a value of another type.
    TypeMismatch { property: String },
    /// The object addressed has no property of that name.
    UnknownProperty { property: String, composite: String },
    /// The object addressed has no child at that index.
    ChildIndexOutOfBounds { composite: String, index: usize },
}

/// The model of a [`PatchError`].
pub enum SpecPatchError {
    TypeMismatch { property: Seq<char> },
    UnknownProperty { property: Seq<char>, composite: Seq<char> },
    ChildIndexOutOfBounds { composite: Seq<char>, index: usize },
}

impl View for PatchError {
    type V = SpecPatchError;

    open spec fn view(&self) -> SpecPatchError {
        match self {
            PatchError::TypeMismatch { property } => SpecPatchError::TypeMismatch {
                property: property@,
            },
            PatchError::UnknownProperty { property, composite } => SpecPatchError::UnknownProperty {
                property: property@,
                composite: composite@,
            },
            PatchError::ChildIndexOutOfBounds { composite, index } =>
                SpecPatchError::ChildIndexOutOfBounds { composite: composite@, index: *index },
        }
    }
}

/// Setting the property `name` of the object that `path` leads to (child indices, from the
/// root) to `v`: the property must exist and hold a value of the same type.
pub open spec fn spec_apply_patch(
    c: SpecComposite,
    path: Seq<usize>,
    name: Seq<char>,
    v: SpecValue,
) -> Result<SpecComposite, SpecPatchError>
    decreases path.len(),
{
    if path.len() == 0 {
        if c.properties.contains_key(name) {
            if same_kind(c.properties[name], v) {
                Ok(SpecComposite { properties: c.properties.insert(name, v), ..c })
            } else {
                Err(SpecPatchError::TypeMismatch { property: name })
            }
        } else {
            Err(SpecPatchError::UnknownProperty { property: name, composite: c.name })
        }
    } else {
        let i = path[0];
        if i < c.children.len() {
            match spec_apply_patch(c.children[i as int], path.drop_first(), name, v) {
                Ok(child) => Ok(SpecComposite { children: c.children.update(i as int, child), ..c }),
                Err(e) => Err(e),
            }
        } else {
            Err(SpecPatchError::ChildIndexOutOfBounds { composite: c.name, index: i })
        }
    }
}

/// The property `name` of the object that `path` leads to, if both exist.
pub open spec fn property_at(c: SpecComposite, path: Seq<usize>, name: Seq<char>) -> Option<
    SpecValue,
>
    decreases path.len(),
{
    if path.len() == 0 {
        if c.properties.contains_key(name) {
            Some(c.properties[name])
        } else {
            None
        }
    } else if path[0] < c.children.len() {
        property_at(c.children[path[0] as int], path.drop_first(), name)
    } else {
        None
    }
}

/// The models of a sequence of state objects with one of them replaced.
pub proof fn lemma_composites_view_update(cs: Seq<Composite>, i: int, c: Composite)
    requires
        0 <= i < cs.len(),
    ensures
        composites_view(cs.update(i, c)) == composites_view(cs).update(i, c@),
{
    lemma_composites_view(cs);
    lemma_composites_view(cs.update(i, c));
    assert(composites_view(cs.update(i, c)) =~= composites_view(cs).update(i, c@));
}

fn same_kind_exec(a: &Value, b: &Value) -> (r: bool)
    ensures
        r == same_kind(a@, b@),
{
    match (a, b) {
        (Value::U32(_), Value::U32(_)) => true,
        (Value::Bool(_), Value::Bool(_)) => true,
        (Value::F64(_), Value::F64(_)) => true,
        (Value::String(_), Value::String(_)) => true,
        (Value::Double(_), Value::Double(_)) => true,
        (Value::Array(_), Value::Array(_)) => true,
        _ => false,
    }
}

impl Composite {
    /// The name of the object.
    pub fn get_name(&self) -> (r: &String)
        ensures
            r@ == self.name@,
    {
        &self.name
    }

    /// The kind of the object.
    pub fn get_composite_type(&self) -> (r: &CompositeType)
        ensures
            *r == self.composite_type,
    {
        &self.composite_type
    }

    /// The properties of the object, for reading or changing.
    pub fn properties(&mut self) -> (r: &mut PropertyMap<Value>)
        ensures
            *r == old(self).properties,
            final(self).properties == *final(r),
            final(self).name == old(self).name,
            final(self).composite_type == old(self).composite_type,
            final(self).has_children == old(self).has_children,
            final(self).children == old(self).children,
    {
        &mut self.properties
    }

    /// The children of the object, for reading or changing.
    pub fn children(&mut self) -> (r: &mut Vec<Composite>)
        ensures
            *r == old(self).children,
            final(self).children == *final(r),
            final(self).name == old(self).name,
            final(self).composite_type == old(self).composite_type,
            final(self).has_children == old(self).has_children,
            final(self).properties == old(self).properties,
    {
        &mut self.children
    }

    fn apply_patch_at(&mut self, indices: &[usize], name: String, value: Value) -> (res: Result<
        (),
        PatchError,
    >)
        ensures
            match spec_apply_patch(old(self)@, indices@, name@, value@) {
                Ok(c) => res is Ok && final(self)@ == c,
                Err(e) => res is Err && res->Err_0@ == e && final(self)@ == old(self)@,
            },
        decreases indices@.len(),
    {
        if indices.len() == 0 {
            match self.properties.get(&name) {
                Some(existing) => {
                    if !same_kind_exec(existing, &value) {
                        return Err(PatchError::TypeMismatch { property: name });
                    }
                },
                None => {
                    return Err(
                        PatchError::UnknownProperty { property: name, composite: self.name.clone() },
                    );
                },
            }
            self.properties.insert(name, value);
            Ok(())
        } else {
            let i = indices[0];
            proof {
                lemma_composites_view(self.children@);
            }
            if i >= self.children.len() {
                return Err(
                    PatchError::ChildIndexOutOfBounds { composite: self.name.clone(), index: i },
                );
            }
            let ghost old_children = self.children@;
            let rest = vstd::slice::slice_subrange(indices, 1, indices.len());
            proof {
                assert(rest@ =~= indices@.drop_first());
            }
            let r = self.children[i].apply_patch_at(rest, name, value);
            proof {
                lemma_composites_view(old_children);
                lemma_composites_view_update(old_children, i as int, self.children@[i as int]);
                assert(self.children@ == old_children.update(i as int, self.children@[i as int]));
                if r is Err {
                    assert(self.children@ =~= old_children.update(i as int, self.children@[i as int]));
                    assert(composites_view(self.children@) =~= composites_view(old_children));
                }
            }
            r
        }
    }

    /// Sets the property `name` of the object that `indices` lead to (child indices, from
    /// this object) to `value`. The property must exist and hold a value of the same type;
    /// otherwise the patch is refused and the object is left unchanged.
    pub fn apply_patch(&mut self, indices: Vec<usize>, name: String, value: Value) -> (res: Result<
        (),
        crate::error::UsbError,
    >)
        ensures
            match spec_apply_patch(old(self)@, indices@, name@, value@) {
                Ok(c) => res is Ok && final(self)@ == c,
                Err(e) => res matches Err(crate::error::UsbError::PropertyError(pe)) && pe@ == e
                    && final(self)@ == old(self)@,
            },
    {
        match self.apply_patch_at(indices.as_slice(), name, value) {
            Ok(()) => Ok(()),
            Err(e) => Err(crate::error::UsbError::PropertyError(e)),
        }
    }
}

} // verus!

verus! {

/// Law: a patch is accepted exactly when the property it addresses exists and holds a value
/// of the same type.
pub proof fn lemma_patch_accepted_iff(c: SpecComposite, path: Seq<usize>, name: Seq<char>, v: SpecValue)
    ensures
        spec_apply_patch(c, path, name, v) is Ok <==> (property_at(c, path, name) matches Some(
            current,
        ) && same_kind(current, v)),
    decreases path.len(),
{
    if path.len() > 0 && path[0] < c.children.len() {
        lemma_patch_accepted_iff(c.children[path[0] as int], path.drop_first(), name, v);
    }
}

/// Law: after an accepted patch, the property it addressed holds the new value.
pub proof fn lemma_patch_then_read(c: SpecComposite, path: Seq<usize>, name: Seq<char>, v: SpecValue)
    requires
        spec_apply_patch(c, path, name, v) is Ok,
    ensures
        property_at(spec_apply_patch(c, path, name, v)->Ok_0, path, name) == Some(v),
    decreases path.len(),
{
    if path.len() > 0 {
        lemma_patch_then_read(c.children[path[0] as int], path.drop_first(), name, v);
    }
}

/// Law: an accepted patch leaves every other property as it was.
pub proof fn lemma_patch_frame(
    c: SpecComposite,
    path: Seq<usize>,
    name: Seq<char>,
    v: SpecValue,
    other_path: Seq<usize>,
    other_name: Seq<char>,
)
    requires
        spec_apply_patch(c, path, name, v) is Ok,
        other_path != path || other_name != name,
    ensures
        property_at(spec_apply_patch(c, path, name, v)->Ok_0, other_path, other_name) == property_at(
            c,
            other_path,
            other_name,
        ),
    decreases path.len(),
{
    let c2 = spec_apply_patch(c, path, name, v)->Ok_0;
    if path.len() == 0 {
        if other_path.len() == 0 {
            assert(other_name != name) by {
                assert(other_path =~= path);
            }
        }
    } else {
        let i = path[0];
        if other_path.len() > 0 && other_path[0] == i {
            assert(other_path.drop_first() != path.drop_first() || other_name != name) by {
                if other_path.drop_first() == path.drop_first() {
                    assert(other_path =~= seq![i] + other_path.drop_first());
                    assert(path =~= seq![i] + path.drop_first());
                }
            }
            lemma_patch_frame(
                c.children[i as int],
                path.drop_first(),
                name,
                v,
                other_path.drop_first(),
                other_name,
            );
        }
    }
}

} // verus!
