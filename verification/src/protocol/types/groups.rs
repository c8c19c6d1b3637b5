//! Children grouped by name, in the order of each name's first child.

use vstd::prelude::*;

verus! {

/// An item that is grouped by its name.
pub trait Named {
    /// The name that the item is grouped by.
    spec fn group_name(self) -> Seq<char>;
}

/// No name occurs twice among the groups.
pub open spec fn group_names_unique<C>(gs: Seq<(Seq<char>, Seq<C>)>) -> bool {
    forall|i: int, j: int| 0 <= i < gs.len() && 0 <= j < gs.len() && i != j ==> gs[i].0 != gs[j].0
}

/// Adds a child to its group: to the group of its name where there is one, else to a new
/// group at the end.
pub open spec fn group_add<C: Named>(gs: Seq<(Seq<char>, Seq<C>)>, c: C) -> Seq<(Seq<char>, Seq<C>)> {
    if exists|i: int| 0 <= i < gs.len() && gs[i].0 == c.group_name() {
        let i = choose|i: int| 0 <= i < gs.len() && gs[i].0 == c.group_name();
        gs.update(i, (gs[i].0, gs[i].1.push(c)))
    } else {
        gs.push((c.group_name(), seq![c]))
    }
}

/// The groups that adding the children one after the other gives.
pub open spec fn group_children<C: Named>(cs: Seq<C>) -> Seq<(Seq<char>, Seq<C>)>
    decreases cs.len(),
{
    if cs.len() == 0 {
        seq![]
    } else {
        group_add(group_children(cs.drop_last()), cs.last())
    }
}

/// Adding a child keeps the group names unique.
pub proof fn lemma_group_add_unique<C: Named>(gs: Seq<(Seq<char>, Seq<C>)>, c: C)
    requires
        group_names_unique(gs),
    ensures
        group_names_unique(group_add(gs, c)),
{
}

/// Grouping one more child adds it to the groups of the others.
pub proof fn lemma_group_children_push<C: Named>(cs: Seq<C>, c: C)
    ensures
        group_children(cs.push(c)) == group_add(group_children(cs), c),
{
    assert(cs.push(c).drop_last() =~= cs);
}

/// The groups of any sequence of children have unique names.
pub proof fn lemma_group_children_unique<C: Named>(cs: Seq<C>)
    ensures
        group_names_unique(group_children(cs)),
    decreases cs.len(),
{
    if cs.len() > 0 {
        lemma_group_children_unique(cs.drop_last());
        lemma_group_add_unique(group_children(cs.drop_last()), cs.last());
    }
}

} // verus!
