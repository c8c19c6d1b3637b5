//! State reports as a tree of components whose children are grouped by name.
//!
//! Wire format of a component: its name (NUL-terminated), a kind byte, then
//! - kind 0 (collection): a width byte for the child count (0: no children, 1: `u8`,
//!   2: little-endian `u16`), the count and the children;
//! - kind 1 (entity): a `u8` property count, the properties (a name and a field value each),
//!   a close byte (0: end of the component, 1: a `u8` child count and the children follow).
//!
//! Decoding is undefined on any other kind, width or close byte.

use crate::error::{after, decoded_as, lemma_after_after, lemma_after_nothing, shifted, Decoded, Outcome, ParseError};
use crate::parser::common::{decode_field_value, spec_field_value, FieldValue, SpecFieldValue};
use crate::protocol::types::c_string::{lemma_c_string_done, parse_c_string, parsed_as, spec_c_string};
use crate::protocol::types::composite::{lemma_pairs_map_push, pairs_map, suffix_after};
use crate::protocol::types::property_map::PropertyMap;
use crate::wire::{drop, read_u16_le, u16_at};
use crate::protocol::types::groups::{
    group_add, group_children, group_names_unique, lemma_group_add_unique, lemma_group_children_push,
    Named,
};
use vstd::prelude::*;

verus! {

/// A component of a state report.
#[derive(Debug)]
pub struct StructComponent {
    pub name: String,
    pub properties: PropertyMap<FieldValue>,
    /// The children grouped by name: each name once, in the order of its first child; each
    /// group in the order of its children.
    pub children: Vec<(String, Vec<StructComponent>)>,
}

/// The model of a [`StructComponent`].
pub struct SpecStructComponent {
    pub name: Seq<char>,
    pub properties: Map<Seq<char>, SpecFieldValue>,
    pub children: Seq<(Seq<char>, Seq<SpecStructComponent>)>,
}

impl View for StructComponent {
    type V = SpecStructComponent;

    open spec fn view(&self) -> SpecStructComponent {
        component_model(*self)
    }
}

/// The model of a component.
pub open spec fn component_model(c: StructComponent) -> SpecStructComponent
    decreases c,
{
    SpecStructComponent {
        name: c.name@,
        properties: c.properties@,
        children: groups_view(c.children@),
    }
}

/// The models of groups of components.
pub open spec fn groups_view(gs: Seq<(String, Vec<StructComponent>)>) -> Seq<
    (Seq<char>, Seq<SpecStructComponent>),
>
    decreases gs,
{
    if gs.len() == 0 {
        seq![]
    } else {
        groups_view(gs.drop_last()).push((gs.last().0@, components_view(gs.last().1@)))
    }
}

/// The models of a sequence of components.
pub open spec fn components_view(cs: Seq<StructComponent>) -> Seq<SpecStructComponent>
    decreases cs,
{
    if cs.len() == 0 {
        seq![]
    } else {
        components_view(cs.drop_last()).push(component_model(cs.last()))
    }
}

} // verus!

verus! {

proof fn lemma_components_view(cs: Seq<StructComponent>)
    ensures
        components_view(cs).len() == cs.len(),
        forall|i: int| 0 <= i < cs.len() ==> #[trigger] components_view(cs)[i] == cs[i]@,
    decreases cs.len(),
{
    if cs.len() > 0 {
        lemma_components_view(cs.drop_last());
    }
}

proof fn lemma_groups_view(gs: Seq<(String, Vec<StructComponent>)>)
    ensures
        groups_view(gs).len() == gs.len(),
        forall|i: int|
            0 <= i < gs.len() ==> #[trigger] groups_view(gs)[i] == (
                gs[i].0@,
                components_view(gs[i].1@),
            ),
    decreases gs.len(),
{
    if gs.len() > 0 {
        lemma_groups_view(gs.drop_last());
    }
}

impl Named for SpecStructComponent {
    open spec fn group_name(self) -> Seq<char> {
        self.name
    }
}

/// Adds `child` to its group in `groups`.
fn add_to_group(groups: &mut Vec<(String, Vec<StructComponent>)>, child: StructComponent)
    requires
        group_names_unique(groups_view(old(groups)@)),
    ensures
        groups_view(final(groups)@) == group_add(groups_view(old(groups)@), child@),
        group_names_unique(groups_view(final(groups)@)),
{
    let ghost gs = groups@;
    let ghost cv = child@;
    proof {
        lemma_groups_view(gs);
        lemma_group_add_unique(groups_view(gs), cv);
    }
    let mut i: usize = 0;
    while i < groups.len()
        invariant
            groups@ == gs,
            gs == old(groups)@,
            cv == child@,
            i <= gs.len(),
            groups_view(gs).len() == gs.len(),
            forall|j: int|
                0 <= j < gs.len() ==> #[trigger] groups_view(gs)[j] == (
                    gs[j].0@,
                    components_view(gs[j].1@),
                ),
            group_names_unique(groups_view(gs)),
            forall|j: int| 0 <= j < i ==> gs[j].0@ != cv.name,
        decreases gs.len() - i,
    {
        if groups[i].0 == child.name {
            proof {
                assert(groups_view(gs)[i as int].0 == cv.name);
                let k = choose|k: int|
                    0 <= k < groups_view(gs).len() && groups_view(gs)[k].0 == cv.name;
                assert(k == i);
            }
            let ghost old_group = gs[i as int];
            groups[i].1.push(child);
            proof {
                let ng = groups@[i as int];
                assert(ng.0 == old_group.0);
                assert(ng.1@ == old_group.1@.push(child));
                assert(ng.1@.drop_last() =~= old_group.1@);
                assert(groups@ == gs.update(i as int, ng));
                lemma_groups_view(groups@);
                assert(groups_view(groups@) =~= groups_view(gs).update(
                    i as int,
                    (groups_view(gs)[i as int].0, groups_view(gs)[i as int].1.push(cv)),
                ));
                let gv = groups_view(gs);
                assert(exists|k: int| 0 <= k < gv.len() && gv[k].0 == cv.name);
                let k = choose|k: int| 0 <= k < gv.len() && gv[k].0 == cv.name;
                assert(k == i);
                assert(group_add(gv, cv) == gv.update(k, (gv[k].0, gv[k].1.push(cv))));
            }
            return;
        }
        i = i + 1;
    }
    let name = child.name.clone();
    let mut group: Vec<StructComponent> = Vec::new();
    group.push(child);
    proof {
        assert(group@.drop_last() =~= Seq::<StructComponent>::empty());
        assert(group@.last()@ == cv);
        assert(components_view(Seq::<StructComponent>::empty()) =~= seq![]);
        assert(components_view(group@) =~= seq![cv]);
    }
    groups.push((name, group));
    proof {
        assert(groups@.drop_last() =~= gs);
    }
}

} // verus!

verus! {

/// `n` properties of an entity: a name and a field value each, in order.
pub open spec fn spec_field_properties(s: Seq<u8>, n: nat) -> Outcome<Seq<(Seq<char>, SpecFieldValue)>>
    decreases n,
{
    if n == 0 {
        Outcome::Done(0, seq![])
    } else {
        match spec_c_string(s) {
            Outcome::Done(k1, name) => match spec_field_value(drop(s, k1)) {
                Outcome::Done(k2, v) => after(
                    k1 + k2,
                    seq![(name, v)],
                    spec_field_properties(drop(s, k1 + k2), (n - 1) as nat),
                ),
                Outcome::Error(e) => Outcome::Error(e),
                Outcome::Panics => Outcome::Panics,
            },
            Outcome::Error(e) => Outcome::Error(e),
            Outcome::Panics => Outcome::Panics,
        }
    }
}

/// A component at the start of `s`.
pub open spec fn spec_struct_component(s: Seq<u8>) -> Outcome<SpecStructComponent>
    decreases s.len(), 0nat, 0nat,
{
    match spec_c_string(s) {
        Outcome::Done(k, name) => {
            let s1 = drop(s, k);
            if s1.len() < 1 {
                Outcome::Error(ParseError::Incomplete)
            } else if s1[0] == 0u8 {
                shifted(k + 1, spec_component_collection(drop(s1, 1), name))
            } else if s1[0] == 1u8 {
                shifted(k + 1, spec_component_entity(drop(s1, 1), name))
            } else {
                Outcome::Panics
            }
        },
        Outcome::Error(e) => Outcome::Error(e),
        Outcome::Panics => Outcome::Panics,
    }
}

/// The rest of a collection after its kind byte.
pub open spec fn spec_component_collection(s: Seq<u8>, name: Seq<char>) -> Outcome<SpecStructComponent>
    decreases s.len(), 2nat, 0nat,
{
    let count: Outcome<nat> = if s.len() < 1 {
        Outcome::Error(ParseError::Incomplete)
    } else if s[0] == 0u8 {
        Outcome::Done(1, 0)
    } else if s[0] == 1u8 {
        if s.len() < 2 {
            Outcome::Error(ParseError::Incomplete)
        } else {
            Outcome::Done(2, s[1] as nat)
        }
    } else if s[0] == 2u8 {
        if s.len() < 3 {
            Outcome::Error(ParseError::Incomplete)
        } else {
            Outcome::Done(3, u16_at(s, 1) as nat)
        }
    } else {
        Outcome::Panics
    };
    match count {
        Outcome::Done(h, n) => match spec_component_list(drop(s, h), n) {
            Outcome::Done(m, cs) => Outcome::Done(
                h + m,
                SpecStructComponent { name, properties: Map::empty(), children: group_children(cs) },
            ),
            Outcome::Error(e) => Outcome::Error(e),
            Outcome::Panics => Outcome::Panics,
        },
        Outcome::Error(e) => Outcome::Error(e),
        Outcome::Panics => Outcome::Panics,
    }
}

/// The rest of an entity after its kind byte.
pub open spec fn spec_component_entity(s: Seq<u8>, name: Seq<char>) -> Outcome<SpecStructComponent>
    decreases s.len(), 2nat, 0nat,
{
    if s.len() < 1 {
        Outcome::Error(ParseError::Incomplete)
    } else {
        match spec_field_properties(drop(s, 1), s[0] as nat) {
            Outcome::Done(pk, ps) => {
                let s3 = drop(s, 1 + pk);
                if s3.len() < 1 {
                    Outcome::Error(ParseError::Incomplete)
                } else if s3[0] == 0u8 {
                    Outcome::Done(
                        1 + pk + 1,
                        SpecStructComponent { name, properties: pairs_map(ps), children: seq![] },
                    )
                } else if s3[0] == 1u8 {
                    let s4 = drop(s3, 1);
                    if s4.len() < 1 {
                        Outcome::Error(ParseError::Incomplete)
                    } else {
                        match spec_component_list(drop(s4, 1), s4[0] as nat) {
                            Outcome::Done(m, cs) => Outcome::Done(
                                1 + pk + 1 + 1 + m,
                                SpecStructComponent {
                                    name,
                                    properties: pairs_map(ps),
                                    children: group_children(cs),
                                },
                            ),
                            Outcome::Error(e) => Outcome::Error(e),
                            Outcome::Panics => Outcome::Panics,
                        }
                    }
                } else {
                    Outcome::Panics
                }
            },
            Outcome::Error(e) => Outcome::Error(e),
            Outcome::Panics => Outcome::Panics,
        }
    }
}

/// `n` components, one after the other.
pub open spec fn spec_component_list(s: Seq<u8>, n: nat) -> Outcome<Seq<SpecStructComponent>>
    decreases s.len(), 1nat, n,
{
    if n == 0 {
        Outcome::Done(0, seq![])
    } else {
        match spec_struct_component(s) {
            Outcome::Done(k, c) => after(k, seq![c], spec_component_list(drop(s, k), (n - 1) as nat)),
            Outcome::Error(e) => Outcome::Error(e),
            Outcome::Panics => Outcome::Panics,
        }
    }
}

} // verus!

verus! {

fn tail<'a>(data: &'a [u8], k: usize) -> (r: &'a [u8])
    requires
        k <= data@.len(),
    ensures
        r@ == drop(data@, k as nat),
        r@ == data@.subrange(k as int, data@.len() as int),
{
    vstd::slice::slice_subrange(data, k, data.len())
}

fn parse_field_properties<'a>(data: &'a [u8], n: usize) -> (res: (
    Decoded<'a, PropertyMap<FieldValue>>,
    Ghost<Seq<(Seq<char>, SpecFieldValue)>>,
))
    ensures
        match spec_field_properties(data@, n as nat) {
            Outcome::Done(k, ps) => {
                &&& res.0 is Done
                &&& suffix_after(data@, res.0->Done_0@, k)
                &&& res.0->Done_1@ == pairs_map(ps)
            },
            Outcome::Error(e) => res.0 is Error && res.0->Error_0 == e,
            Outcome::Panics => res.0 is Aborts,
        },
{
    let mut cur: &'a [u8] = data;
    let mut map = PropertyMap::new();
    let mut i: usize = 0;
    let ghost mut ps: Seq<(Seq<char>, SpecFieldValue)> = seq![];
    proof {
        assert(data@.subrange(0, data@.len() as int) =~= data@);
        lemma_after_nothing(spec_field_properties(data@, n as nat));
    }
    while i < n
        invariant
            i <= n,
            cur@.len() <= data@.len(),
            cur@ == data@.subrange(data@.len() - cur@.len(), data@.len() as int),
            spec_field_properties(data@, n as nat) == after(
                (data@.len() - cur@.len()) as nat,
                ps,
                spec_field_properties(cur@, (n - i) as nat),
            ),
            map@ == pairs_map(ps),
        decreases n - i,
    {
        let ghost c = cur@;
        match parse_c_string(cur) {
            Ok((r1, name)) => {
                proof {
                    assert(drop(c, (c.len() - r1@.len()) as nat) =~= r1@);
                }
                match decode_field_value(r1) {
                    Decoded::Done(r2, v) => {
                        let ghost k = (c.len() - r2@.len()) as nat;
                        let ghost p = (name@, v@);
                        proof {
                            assert(drop(c, k) =~= r2@);
                            lemma_after_after(
                                (data@.len() - c.len()) as nat,
                                ps,
                                k,
                                seq![p],
                                spec_field_properties(r2@, (n - i - 1) as nat),
                            );
                            lemma_pairs_map_push(ps, p);
                            assert(ps + seq![p] =~= ps.push(p));
                        }
                        map.insert(name, v);
                        proof {
                            ps = ps.push(p);
                        }
                        cur = r2;
                        i = i + 1;
                        proof {
                            assert(cur@ =~= data@.subrange(data@.len() - cur@.len(), data@.len() as int));
                        }
                    },
                    Decoded::Error(e) => {
                        return (Decoded::Error(e), Ghost(Seq::empty()));
                    },
                    Decoded::Aborts => {
                        return (Decoded::Aborts, Ghost(Seq::empty()));
                    },
                }
            },
            Err(e) => {
                return (Decoded::Error(e), Ghost(Seq::empty()));
            },
        }
    }
    proof {
        match spec_field_properties(cur@, 0) {
            Outcome::Done(m, ws) => {
                assert(ps + ws =~= ps);
            },
            _ => {},
        }
    }
    (Decoded::Done(cur, map), Ghost(ps))
}

fn parse_component_list<'a>(data: &'a [u8], n: usize) -> (res: Decoded<
    'a,
    Vec<(String, Vec<StructComponent>)>,
>)
    ensures
        match spec_component_list(data@, n as nat) {
            Outcome::Done(k, cs) => {
                &&& res is Done
                &&& suffix_after(data@, res->Done_0@, k)
                &&& groups_view(res->Done_1@) == group_children(cs)
            },
            Outcome::Error(e) => res is Error && res->Error_0 == e,
            Outcome::Panics => res is Aborts,
        },
    decreases data@.len(), 1nat,
{
    let mut cur: &'a [u8] = data;
    let mut groups: Vec<(String, Vec<StructComponent>)> = Vec::new();
    let mut i: usize = 0;
    let ghost mut cs: Seq<SpecStructComponent> = seq![];
    proof {
        assert(data@.subrange(0, data@.len() as int) =~= data@);
        lemma_after_nothing(spec_component_list(data@, n as nat));
        assert(groups_view(groups@) =~= seq![]);
    }
    while i < n
        invariant
            i <= n,
            cur@.len() <= data@.len(),
            cur@ == data@.subrange(data@.len() - cur@.len(), data@.len() as int),
            spec_component_list(data@, n as nat) == after(
                (data@.len() - cur@.len()) as nat,
                cs,
                spec_component_list(cur@, (n - i) as nat),
            ),
            groups_view(groups@) == group_children(cs),
            group_names_unique(groups_view(groups@)),
        decreases n - i,
    {
        let ghost c = cur@;
        match parse_component_inner(cur) {
            Decoded::Done(next, child) => {
                let ghost k = (c.len() - next@.len()) as nat;
                let ghost cv = child@;
                proof {
                    assert(drop(c, k) =~= next@);
                    lemma_after_after(
                        (data@.len() - c.len()) as nat,
                        cs,
                        k,
                        seq![cv],
                        spec_component_list(next@, (n - i - 1) as nat),
                    );
                    lemma_group_children_push(cs, cv);
                    assert(cs + seq![cv] =~= cs.push(cv));
                }
                add_to_group(&mut groups, child);
                proof {
                    cs = cs.push(cv);
                }
                cur = next;
                i = i + 1;
                proof {
                    assert(cur@ =~= data@.subrange(data@.len() - cur@.len(), data@.len() as int));
                }
            },
            Decoded::Error(e) => {
                return Decoded::Error(e);
            },
            Decoded::Aborts => {
                return Decoded::Aborts;
            },
        }
    }
    proof {
        match spec_component_list(cur@, 0) {
            Outcome::Done(m, ws) => {
                assert(cs + ws =~= cs);
            },
            _ => {},
        }
    }
    Decoded::Done(cur, groups)
}

#[verifier::spinoff_prover]
fn parse_component_inner<'a>(data: &'a [u8]) -> (res: Decoded<'a, StructComponent>)
    ensures
        decoded_as(data@, res, spec_struct_component(data@)),
    decreases data@.len(), 0nat,
{
    let ghost s = data@;
    let (s1, name) = match parse_c_string(data) {
        Ok(r) => r,
        Err(e) => {
            return Decoded::Error(e);
        },
    };
    let ghost k = (s.len() - s1@.len()) as nat;
    proof {
        lemma_c_string_done(s);
        assert(drop(s, k) =~= s1@);
    }
    if s1.len() < 1 {
        return Decoded::Error(ParseError::Incomplete);
    }
    let kind = s1[0];
    let s2 = tail(s1, 1);
    let body = if kind == 0u8 {
        parse_component_collection(s2, name)
    } else if kind == 1u8 {
        parse_component_entity(s2, name)
    } else {
        return Decoded::Aborts;
    };
    match body {
        Decoded::Done(rest, c) => {
            proof {
                assert(rest@ =~= s.subrange((s.len() - rest@.len()) as int, s.len() as int));
            }
            Decoded::Done(rest, c)
        },
        Decoded::Error(e) => Decoded::Error(e),
        Decoded::Aborts => Decoded::Aborts,
    }
}

fn parse_component_collection<'a>(data: &'a [u8], name: String) -> (res: Decoded<'a, StructComponent>)
    ensures
        decoded_as(data@, res, spec_component_collection(data@, name@)),
    decreases data@.len(), 2nat,
{
    let ghost s = data@;
    if data.len() < 1 {
        return Decoded::Error(ParseError::Incomplete);
    }
    let (h, count): (usize, usize) = if data[0] == 0u8 {
        (1, 0)
    } else if data[0] == 1u8 {
        if data.len() < 2 {
            return Decoded::Error(ParseError::Incomplete);
        }
        (2, data[1] as usize)
    } else if data[0] == 2u8 {
        if data.len() < 3 {
            return Decoded::Error(ParseError::Incomplete);
        }
        (3, read_u16_le(data, 1) as usize)
    } else {
        return Decoded::Aborts;
    };
    let s2 = tail(data, h);
    match parse_component_list(s2, count) {
        Decoded::Done(rest, children) => {
            proof {
                assert(rest@ =~= s.subrange((s.len() - rest@.len()) as int, s.len() as int));
            }
            let properties = PropertyMap::new();
            Decoded::Done(rest, StructComponent { name, properties, children })
        },
        Decoded::Error(e) => Decoded::Error(e),
        Decoded::Aborts => Decoded::Aborts,
    }
}

#[verifier::rlimit(40)]
fn parse_component_entity<'a>(data: &'a [u8], name: String) -> (res: Decoded<'a, StructComponent>)
    ensures
        decoded_as(data@, res, spec_component_entity(data@, name@)),
    decreases data@.len(), 2nat,
{
    let ghost s = data@;
    if data.len() < 1 {
        return Decoded::Error(ParseError::Incomplete);
    }
    let n = data[0] as usize;
    let s2b = tail(data, 1);
    let (pres, Ghost(ps)) = parse_field_properties(s2b, n);
    let (s3, properties) = match pres {
        Decoded::Done(r, m) => (r, m),
        Decoded::Error(e) => {
            return Decoded::Error(e);
        },
        Decoded::Aborts => {
            return Decoded::Aborts;
        },
    };
    proof {
        assert(drop(s, (1 + (s2b@.len() - s3@.len())) as nat) =~= s3@);
    }
    if s3.len() < 1 {
        return Decoded::Error(ParseError::Incomplete);
    }
    if s3[0] == 0u8 {
        let rest = tail(s3, 1);
        proof {
            assert(rest@ =~= s.subrange((s.len() - rest@.len()) as int, s.len() as int));
        }
        let children: Vec<(String, Vec<StructComponent>)> = Vec::new();
        proof {
            assert(groups_view(children@) =~= seq![]);
        }
        Decoded::Done(rest, StructComponent { name, properties, children })
    } else if s3[0] == 1u8 {
        let s4 = tail(s3, 1);
        if s4.len() < 1 {
            return Decoded::Error(ParseError::Incomplete);
        }
        let count = s4[0] as usize;
        let s4b = tail(s4, 1);
        match parse_component_list(s4b, count) {
            Decoded::Done(rest, children) => {
                proof {
                    assert(rest@ =~= s.subrange((s.len() - rest@.len()) as int, s.len() as int));
                }
                Decoded::Done(rest, StructComponent { name, properties, children })
            },
            Decoded::Error(e) => Decoded::Error(e),
            Decoded::Aborts => Decoded::Aborts,
        }
    } else {
        Decoded::Aborts
    }
}

/// Decodes a component, or reports that `input` is one of the inputs on which decoding
/// is undefined (an unsupported kind, width or close byte, or such a field value).
pub fn decode_struct_component<'a>(input: &'a [u8]) -> (res: Decoded<'a, StructComponent>)
    ensures
        decoded_as(input@, res, spec_struct_component(input@)),
{
    parse_component_inner(input)
}

/// Decodes a component of a state report.
pub fn parse_struct_component(input: &[u8]) -> (res: Result<(&[u8], StructComponent), ParseError>)
    requires
        !spec_struct_component(input@).panics(),
    ensures
        parsed_as(input@, res, spec_struct_component(input@)),
{
    match parse_component_inner(input) {
        Decoded::Done(rest, c) => Ok((rest, c)),
        Decoded::Error(e) => Err(e),
        Decoded::Aborts => Err(ParseError::Fail),
    }
}

} // verus!
