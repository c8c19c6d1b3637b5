//! The named properties of a state object.

use vstd::prelude::*;

verus! {

/// Named property values; a name occurs at most once.
#[derive(Debug)]
pub struct PropertyMap<V> {
    entries: Vec<(String, V)>,
}

/// No name occurs twice among `es`.
pub open spec fn names_unique<V>(es: Seq<(String, V)>) -> bool {
    forall|i: int, j: int| 0 <= i < es.len() && 0 <= j < es.len() && i != j ==> es[i].0@ != es[j].0@
}

/// The map from names to value models that `es` holds.
pub open spec fn entries_map<V: View>(es: Seq<(String, V)>) -> Map<Seq<char>, V::V>
    decreases es.len(),
{
    if es.len() == 0 {
        Map::empty()
    } else {
        entries_map(es.drop_last()).insert(es.last().0@, es.last().1@)
    }
}

/// With unique names, the map has exactly the names of `es`, each with its value.
pub proof fn lemma_entries_map<V: View>(es: Seq<(String, V)>)
    requires
        names_unique(es),
    ensures
        entries_map(es).dom().finite(),
        entries_map(es).dom().len() == es.len(),
        forall|k: Seq<char>| #[trigger]
            entries_map(es).contains_key(k) <==> exists|i: int| 0 <= i < es.len() && es[i].0@ == k,
        forall|i: int| 0 <= i < es.len() ==> #[trigger] entries_map(es)[es[i].0@] == es[i].1@,
    decreases es.len(),
{
    if es.len() > 0 {
        let init = es.drop_last();
        assert(names_unique(init));
        lemma_entries_map(init);
        let k = es.last().0@;
        assert(!entries_map(init).contains_key(k)) by {
            if entries_map(init).contains_key(k) {
                let i = choose|i: int| 0 <= i < init.len() && init[i].0@ == k;
                assert(es[i].0@ == es[es.len() - 1].0@);
            }
        }
        assert forall|k2: Seq<char>| #[trigger]
            entries_map(es).contains_key(k2) <==> exists|i: int| 0 <= i < es.len() && es[i].0@ == k2 by {
            if entries_map(es).contains_key(k2) && k2 != k {
                let i = choose|i: int| 0 <= i < init.len() && init[i].0@ == k2;
                assert(es[i].0@ == k2);
            }
            if exists|i: int| 0 <= i < es.len() && es[i].0@ == k2 {
                let i = choose|i: int| 0 <= i < es.len() && es[i].0@ == k2;
                if i < es.len() - 1 {
                    assert(init[i].0@ == k2);
                }
            }
        }
        assert forall|i: int| 0 <= i < es.len() implies #[trigger] entries_map(es)[es[i].0@] == es[i].1@ by {
            if i < es.len() - 1 {
                assert(init[i] == es[i]);
                assert(es[i].0@ != k);
            }
        }
    }
}

impl<V: View> View for PropertyMap<V> {
    type V = Map<Seq<char>, V::V>;

    closed spec fn view(&self) -> Map<Seq<char>, V::V> {
        entries_map(self.entries@)
    }
}

impl<V> PropertyMap<V> {
    #[verifier::type_invariant]
    spec fn wf(self) -> bool {
        names_unique(self.entries@)
    }
}

impl<V: View> PropertyMap<V> {
    /// An empty map.
    pub fn new() -> (m: PropertyMap<V>)
        ensures
            m@ == Map::<Seq<char>, V::V>::empty(),
    {
        PropertyMap { entries: Vec::new() }
    }

    /// The number of properties.
    pub fn len(&self) -> (n: usize)
        ensures
            self@.dom().finite(),
            n == self@.len(),
    {
        proof {
            use_type_invariant(self);
            lemma_entries_map(self.entries@);
        }
        self.entries.len()
    }

    fn find(&self, name: &String) -> (r: Option<usize>)
        ensures
            match r {
                Some(i) => i < self.entries@.len() && self.entries@[i as int].0@ == name@,
                None => forall|i: int| 0 <= i < self.entries@.len() ==> self.entries@[i].0@ != name@,
            },
    {
        let mut i: usize = 0;
        while i < self.entries.len()
            invariant
                i <= self.entries@.len(),
                forall|j: int| 0 <= j < i ==> self.entries@[j].0@ != name@,
            decreases self.entries@.len() - i,
        {
            if self.entries[i].0 == *name {
                return Some(i);
            }
            i = i + 1;
        }
        None
    }

    /// The value of the named property, if there is one.
    pub fn get(&self, name: &String) -> (r: Option<&V>)
        ensures
            match r {
                Some(v) => self@.contains_key(name@) && v@ == self@[name@],
                None => !self@.contains_key(name@),
            },
    {
        proof {
            use_type_invariant(self);
            lemma_entries_map(self.entries@);
        }
        match self.find(name) {
            Some(i) => Some(&self.entries[i].1),
            None => None,
        }
    }

    /// Whether the named property exists.
    pub fn contains_key(&self, name: &String) -> (r: bool)
        ensures
            r == self@.contains_key(name@),
    {
        proof {
            use_type_invariant(self);
            lemma_entries_map(self.entries@);
        }
        self.find(name).is_some()
    }

    /// Sets the named property, adding it where it does not exist.
    pub fn insert(&mut self, name: String, value: V)
        ensures
            final(self)@ == old(self)@.insert(name@, value@),
    {
        proof {
            use_type_invariant(&*self);
            lemma_entries_map(self.entries@);
        }
        let ghost old_entries = self.entries@;
        let ghost k = name@;
        let ghost v = value@;
        match self.find(&name) {
            Some(i) => {
                let ghost new_entries = old_entries.update(i as int, (name, value));
                assert(names_unique(new_entries)) by {
                    assert forall|a: int, b: int|
                        0 <= a < new_entries.len() && 0 <= b < new_entries.len() && a != b implies new_entries[a].0@
                        != new_entries[b].0@ by {
                        if a == i {
                            assert(old_entries[b].0@ != old_entries[a].0@);
                        } else if b == i {
                            assert(old_entries[a].0@ != old_entries[b].0@);
                        }
                    }
                }
                let mut es: Vec<(String, V)> = Vec::new();
                std::mem::swap(&mut es, &mut self.entries);
                es.set(i, (name, value));
                self.entries = es;
                proof {
                    assert(self.entries@ == new_entries);
                    lemma_entries_map(new_entries);
                    assert forall|key: Seq<char>| #[trigger] entries_map(new_entries).contains_key(key)
                        == entries_map(old_entries).insert(k, v).contains_key(key) by {
                        if exists|j: int| 0 <= j < old_entries.len() && old_entries[j].0@ == key {
                            let j = choose|j: int| 0 <= j < old_entries.len() && old_entries[j].0@ == key;
                            if j == i {
                                assert(new_entries[j].0@ == key);
                            } else {
                                assert(new_entries[j].0@ == key);
                            }
                        }
                        if exists|j: int| 0 <= j < new_entries.len() && new_entries[j].0@ == key {
                            let j = choose|j: int| 0 <= j < new_entries.len() && new_entries[j].0@ == key;
                            if j != i {
                                assert(old_entries[j].0@ == key);
                            }
                        }
                    }
                    assert forall|key: Seq<char>| #[trigger] entries_map(new_entries).contains_key(key)
                        implies entries_map(new_entries)[key] == entries_map(old_entries).insert(k, v)[key] by {
                        let j = choose|j: int| 0 <= j < new_entries.len() && new_entries[j].0@ == key;
                        if j != i {
                            assert(old_entries[j] == new_entries[j]);
                        }
                    }
                    assert(entries_map(new_entries) =~= entries_map(old_entries).insert(k, v));
                }
            },
            None => {
                let ghost new_entries = old_entries.push((name, value));
                assert(names_unique(new_entries)) by {
                    assert forall|a: int, b: int|
                        0 <= a < new_entries.len() && 0 <= b < new_entries.len() && a != b implies new_entries[a].0@
                        != new_entries[b].0@ by {
                        if a == old_entries.len() {
                            assert(old_entries[b].0@ != k);
                        } else if b == old_entries.len() {
                            assert(old_entries[a].0@ != k);
                        } else {
                            assert(old_entries[a] == new_entries[a]);
                            assert(old_entries[b] == new_entries[b]);
                        }
                    }
                }
                let mut es: Vec<(String, V)> = Vec::new();
                std::mem::swap(&mut es, &mut self.entries);
                es.push((name, value));
                self.entries = es;
                proof {
                    assert(self.entries@ == new_entries);
                    assert(new_entries.drop_last() =~= old_entries);
                }
            },
        }
    }
}

} // verus!
