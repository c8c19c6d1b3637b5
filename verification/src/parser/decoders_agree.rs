//! The two decoders of the state tree read the same wire format: a state report decoded as
//! [`StructComponent`](crate::parser::status_report::StructComponent) and as
//! [`Composite`](crate::protocol::types::composite::Composite) takes the same bytes, has the
//! same name and property names, and as many children (grouped by name in the first).

use crate::error::Outcome;
use crate::parser::common::{spec_field_body, spec_field_elems, spec_field_header, spec_field_value};
use crate::protocol::types::groups::{group_add, group_children, Named};
use crate::parser::status_report::{
    spec_component_collection, spec_component_entity, spec_component_list,
    spec_field_properties, spec_struct_component, SpecStructComponent,
};
use crate::protocol::types::c_string::spec_c_string;
use crate::protocol::types::composite::{
    pairs_map, spec_child_count, spec_collection_body, spec_composite, spec_composites, spec_object_body,
    spec_properties, SpecComposite,
};
use crate::protocol::types::value::{spec_value, spec_value_body, spec_value_elems, spec_value_header};
use crate::wire::drop;
use vstd::prelude::*;

verus! {

/// The names of a sequence of named items, in order.
pub open spec fn names<V>(ps: Seq<(Seq<char>, V)>) -> Seq<Seq<char>> {
    ps.map_values(|p: (Seq<char>, V)| p.0)
}

/// The number of children in groups of children.
pub open spec fn group_total(gs: Seq<(Seq<char>, Seq<SpecStructComponent>)>) -> nat
    decreases gs.len(),
{
    if gs.len() == 0 {
        0
    } else {
        group_total(gs.drop_last()) + gs.last().1.len()
    }
}

proof fn lemma_group_total_push(gs: Seq<(Seq<char>, Seq<SpecStructComponent>)>, g: (Seq<char>, Seq<SpecStructComponent>))
    ensures
        group_total(gs.push(g)) == group_total(gs) + g.1.len(),
{
    assert(gs.push(g).drop_last() =~= gs);
}

proof fn lemma_group_total_update(
    gs: Seq<(Seq<char>, Seq<SpecStructComponent>)>,
    i: int,
    g: (Seq<char>, Seq<SpecStructComponent>),
)
    requires
        0 <= i < gs.len(),
    ensures
        group_total(gs.update(i, g)) == group_total(gs) - gs[i].1.len() + g.1.len(),
    decreases gs.len(),
{
    if i == gs.len() - 1 {
        assert(gs.update(i, g).drop_last() =~= gs.drop_last());
    } else {
        lemma_group_total_update(gs.drop_last(), i, g);
        assert(gs.update(i, g).drop_last() =~= gs.drop_last().update(i, g));
    }
}

/// Grouping children by name keeps every child: the groups hold as many children as there
/// were.
pub proof fn lemma_group_children_total(cs: Seq<SpecStructComponent>)
    ensures
        group_total(group_children(cs)) == cs.len(),
    decreases cs.len(),
{
    if cs.len() > 0 {
        lemma_group_children_total(cs.drop_last());
        let gs = group_children(cs.drop_last());
        let c = cs.last();
        if exists|i: int| 0 <= i < gs.len() && gs[i].0 == c.group_name() {
            let i = choose|i: int| 0 <= i < gs.len() && gs[i].0 == c.group_name();
            lemma_group_total_update(gs, i, (gs[i].0, gs[i].1.push(c)));
        } else {
            lemma_group_total_push(gs, (c.name, seq![c]));
        }
        assert(group_children(cs) == group_add(gs, c));
    }
}

proof fn lemma_pairs_map_keys<V>(ps: Seq<(Seq<char>, V)>, k: Seq<char>)
    ensures
        pairs_map(ps).dom().contains(k) <==> names(ps).contains(k),
    decreases ps.len(),
{
    if ps.len() > 0 {
        let init = ps.drop_last();
        lemma_pairs_map_keys(init, k);
        assert(names(ps) =~= names(init).push(ps.last().0));
        if names(init).contains(k) {
            let j = choose|j: int| 0 <= j < names(init).len() && names(init)[j] == k;
            assert(names(ps)[j] == k);
        }
        if names(ps).contains(k) {
            let j = choose|j: int| 0 <= j < names(ps).len() && names(ps)[j] == k;
            if j < init.len() {
                assert(names(init)[j] == k);
            }
        }
        if k == ps.last().0 {
            assert(names(ps)[ps.len() - 1] == k);
        }
        assert(pairs_map(ps) == pairs_map(init).insert(ps.last().0, ps.last().1));
    } else {
        assert(names(ps) =~= Seq::<Seq<char>>::empty());
    }
}

/// A value and a field value read from the same bytes take the same number of bytes.
proof fn lemma_value_field_len(s: Seq<u8>)
    ensures
        match (spec_value(s), spec_field_value(s)) {
            (Outcome::Done(k1, _), Outcome::Done(k2, _)) => k1 == k2,
            _ => true,
        },
{
    match (spec_value_header(s), spec_field_header(s)) {
        (Outcome::Done(h, (l, t)), Outcome::Done(_, _)) => {
            lemma_value_field_body(drop(s, h), l, t);
        },
        _ => {},
    }
}

proof fn lemma_value_field_body(s: Seq<u8>, l: nat, t: u8)
    ensures
        match (spec_value_body(s, l, t), spec_field_body(s, l, t)) {
            (Outcome::Done(j1, _), Outcome::Done(j2, _)) => j1 == j2,
            _ => true,
        },
    decreases s.len(), 2nat, 0nat,
{
    if t == 8u8 && l > 0 {
        lemma_value_field_elems(s, (l - 1) as nat);
    }
}

proof fn lemma_value_field_elems(s: Seq<u8>, r: nat)
    ensures
        match (spec_value_elems(s, r), spec_field_elems(s, r)) {
            (Outcome::Done(k1, _), Outcome::Done(k2, _)) => k1 == k2,
            _ => true,
        },
    decreases s.len(), 1nat, r,
{
    if r > 0 {
        match (spec_value_header(s), spec_field_header(s)) {
            (Outcome::Done(h, (l, t)), Outcome::Done(_, _)) => {
                lemma_value_field_body(drop(s, h), l, t);
                match (spec_value_body(drop(s, h), l, t), spec_field_body(drop(s, h), l, t)) {
                    (Outcome::Done(j, _), Outcome::Done(_, _)) => {
                        if h + j <= r {
                            lemma_value_field_elems(drop(s, h + j), (r - (h + j)) as nat);
                        }
                    },
                    _ => {},
                }
            },
            _ => {},
        }
    }
}

/// Properties read by both decoders take the same bytes and have the same names.
proof fn lemma_properties_agree(s: Seq<u8>, n: nat)
    ensures
        match (spec_properties(s, n), spec_field_properties(s, n)) {
            (Outcome::Done(k1, ps), Outcome::Done(k2, fs)) => k1 == k2 && names(ps) == names(fs),
            _ => true,
        },
    decreases n,
{
    if n == 0 {
        assert(names(Seq::<(Seq<char>, crate::protocol::types::value::SpecValue)>::empty()) =~= names(
            Seq::<(Seq<char>, crate::parser::common::SpecFieldValue)>::empty(),
        ));
    } else {
        match spec_c_string(s) {
            Outcome::Done(k1, name) => {
                lemma_value_field_len(drop(s, k1));
                match (spec_value(drop(s, k1)), spec_field_value(drop(s, k1))) {
                    (Outcome::Done(k2, v), Outcome::Done(_, f)) => {
                        let rest = drop(s, k1 + k2);
                        lemma_properties_agree(rest, (n - 1) as nat);
                        match (spec_properties(rest, (n - 1) as nat), spec_field_properties(rest, (n - 1) as nat)) {
                            (Outcome::Done(_, ps), Outcome::Done(_, fs)) => {
                                assert(names(seq![(name, v)] + ps) =~= seq![name] + names(ps));
                                assert(names(seq![(name, f)] + fs) =~= seq![name] + names(fs));
                            },
                            _ => {},
                        }
                    },
                    _ => {},
                }
            },
            _ => {},
        }
    }
}

/// What both decoders agree on for one object: the bytes taken, the name, the property names
/// and the number of children.
pub open spec fn trees_agree(a: Outcome<SpecStructComponent>, b: Outcome<SpecComposite>) -> bool {
    match (a, b) {
        (Outcome::Done(k1, x), Outcome::Done(k2, y)) => {
            &&& k1 == k2
            &&& x.name == y.name
            &&& x.properties.dom() == y.properties.dom()
            &&& group_total(x.children) == y.children.len()
        },
        _ => true,
    }
}

/// What both decoders agree on for `n` objects: the bytes taken and the number of objects.
pub open spec fn lists_agree(a: Outcome<Seq<SpecStructComponent>>, b: Outcome<Seq<SpecComposite>>, n: nat) -> bool {
    match (a, b) {
        (Outcome::Done(k1, xs), Outcome::Done(k2, ys)) => k1 == k2 && xs.len() == n && ys.len() == n,
        _ => true,
    }
}

proof fn lemma_trees_agree(s: Seq<u8>)
    ensures
        trees_agree(spec_struct_component(s), spec_composite(s)),
    decreases s.len(), 0nat, 0nat,
{
    match spec_c_string(s) {
        Outcome::Done(k, name) => {
            let s1 = drop(s, k);
            if s1.len() >= 1 {
                if s1[0] == 0u8 {
                    lemma_collections_agree(drop(s1, 1), name);
                } else if s1[0] == 1u8 {
                    lemma_objects_agree(drop(s1, 1), name);
                }
            }
        },
        _ => {},
    }
}

proof fn lemma_collections_agree(t: Seq<u8>, name: Seq<char>)
    ensures
        trees_agree(spec_component_collection(t, name), spec_collection_body(t, name)),
    decreases t.len(), 2nat, 0nat,
{
    match spec_child_count(t) {
        Outcome::Done(h, n) => {
            lemma_lists_agree(drop(t, h), n);
            match (spec_component_list(drop(t, h), n), spec_composites(drop(t, h), n)) {
                (Outcome::Done(_, cs), Outcome::Done(_, _)) => {
                    lemma_group_children_total(cs);
                    assert(Map::<Seq<char>, crate::parser::common::SpecFieldValue>::empty().dom() =~= Map::<
                        Seq<char>,
                        crate::protocol::types::value::SpecValue,
                    >::empty().dom());
                },
                _ => {},
            }
        },
        _ => {},
    }
}

proof fn lemma_objects_agree(t: Seq<u8>, name: Seq<char>)
    ensures
        trees_agree(spec_component_entity(t, name), spec_object_body(t, name)),
    decreases t.len(), 2nat, 0nat,
{
    if t.len() >= 1 {
        let n = t[0] as nat;
        lemma_properties_agree(drop(t, 1), n);
        match (spec_field_properties(drop(t, 1), n), spec_properties(drop(t, 1), n)) {
            (Outcome::Done(pk, fs), Outcome::Done(_, ps)) => {
                assert(pairs_map(fs).dom() =~= pairs_map(ps).dom()) by {
                    assert forall|key: Seq<char>| pairs_map(fs).dom().contains(key) == pairs_map(ps).dom().contains(key) by {
                        lemma_pairs_map_keys(fs, key);
                        lemma_pairs_map_keys(ps, key);
                    }
                }
                let s3 = drop(t, 1 + pk);
                if s3.len() >= 1 {
                    if s3[0] == 0u8 {
                        assert(group_total(seq![]) == 0);
                    } else if s3[0] == 1u8 {
                        let s4 = drop(s3, 1);
                        if s4.len() >= 1 {
                            lemma_lists_agree(drop(s4, 1), s4[0] as nat);
                            match (spec_component_list(drop(s4, 1), s4[0] as nat), spec_composites(drop(s4, 1), s4[0] as nat)) {
                                (Outcome::Done(_, cs), Outcome::Done(_, _)) => {
                                    lemma_group_children_total(cs);
                                },
                                _ => {},
                            }
                        }
                    }
                }
            },
            _ => {},
        }
    }
}

proof fn lemma_lists_agree(t: Seq<u8>, n: nat)
    ensures
        lists_agree(spec_component_list(t, n), spec_composites(t, n), n),
    decreases t.len(), 1nat, n,
{
    if n > 0 {
        lemma_trees_agree(t);
        match (spec_struct_component(t), spec_composite(t)) {
            (Outcome::Done(k, x), Outcome::Done(_, y)) => {
                lemma_lists_agree(drop(t, k), (n - 1) as nat);
            },
            _ => {},
        }
    }
}

/// Law: a state report that both decoders read is read alike: both take the same bytes,
/// give the same name and the same property names, and the children grouped by name are as
/// many as the children in order.
pub proof fn lemma_report_decoders_agree(s: Seq<u8>)
    ensures
        match (spec_struct_component(s), spec_composite(s)) {
            (Outcome::Done(k1, x), Outcome::Done(k2, y)) => {
                &&& k1 == k2
                &&& x.name == y.name
                &&& x.properties.dom() == y.properties.dom()
                &&& group_total(x.children) == y.children.len()
            },
            _ => true,
        },
{
    lemma_trees_agree(s);
}

} // verus!
