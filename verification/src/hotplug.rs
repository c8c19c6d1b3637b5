//! Hot-plug bookkeeping: comparing the devices found by a scan with the devices known so far.
//!
//! A scan finds a list of devices. Each found device that is not known yet is attached; each
//! known device that was not found is removed. The known list then holds the known devices
//! that are still there, followed by the attached ones.

use vstd::prelude::*;

verus! {

/// A device identifier whose view says which device it names: two identifiers name the same
/// device exactly when their views are equal.
pub trait DeviceKey: View + Sized {
    /// Whether `self` and `other` name the same device.
    fn same_device(&self, other: &Self) -> (r: bool)
        ensures
            r == (self@ == other@),
    ;

    /// A copy of the identifier.
    fn duplicate(&self) -> (r: Self)
        ensures
            r == *self,
    ;
}

/// The views of a sequence of identifiers.
pub open spec fn views<T: View>(s: Seq<T>) -> Seq<T::V> {
    s.map_values(|t: T| t@)
}

/// The elements of `s` that do not occur in `other`, in order.
pub open spec fn missing_from<V>(s: Seq<V>, other: Seq<V>) -> Seq<V> {
    s.filter(|x: V| !other.contains(x))
}

/// The first occurrence of each element of `s`, in order.
pub open spec fn first_occurrences<V>(s: Seq<V>) -> Seq<V>
    decreases s.len(),
{
    if s.len() == 0 {
        seq![]
    } else {
        let r = first_occurrences(s.drop_last());
        if r.contains(s.last()) {
            r
        } else {
            r.push(s.last())
        }
    }
}

/// The devices that a scan attaches: the found devices that are not known, each one once
/// where `once` is set, else as often as the scan found it.
pub open spec fn spec_attached<V>(known: Seq<V>, found: Seq<V>, once: bool) -> Seq<V> {
    if once {
        first_occurrences(missing_from(found, known))
    } else {
        missing_from(found, known)
    }
}

/// The devices that a scan removes: the known devices that it did not find.
pub open spec fn spec_removed<V>(known: Seq<V>, found: Seq<V>) -> Seq<V> {
    missing_from(known, found)
}

/// The known devices after a scan: the known and the attached devices, without the removed
/// ones.
pub open spec fn spec_synced<V>(known: Seq<V>, found: Seq<V>, once: bool) -> Seq<V> {
    missing_from(known + spec_attached(known, found, once), spec_removed(known, found))
}

/// The model of a hot-plug event: the kind and the device it names.
pub enum SpecHotPlugEvent<K> {
    Attached(K),
    Removed(K),
}

/// One attach event per device, in order.
pub open spec fn attach_events<K>(ks: Seq<K>) -> Seq<SpecHotPlugEvent<K>> {
    Seq::new(ks.len(), |i: int| SpecHotPlugEvent::Attached(ks[i]))
}

/// One remove event per device, in order.
pub open spec fn remove_events<K>(ks: Seq<K>) -> Seq<SpecHotPlugEvent<K>> {
    Seq::new(ks.len(), |i: int| SpecHotPlugEvent::Removed(ks[i]))
}

/// The events of a scan: one per attached device, then one per removed device, in order.
pub open spec fn spec_events<K>(attached: Seq<K>, removed: Seq<K>) -> Seq<SpecHotPlugEvent<K>> {
    attach_events(attached) + remove_events(removed)
}

/// The outcome of comparing a scan with the known devices.
pub struct DeviceSync<T> {
    /// The known devices after the scan.
    pub known: Vec<T>,
    /// The devices attached, in order.
    pub attached: Vec<T>,
    /// The devices removed, in order.
    pub removed: Vec<T>,
}

/// The views of a sequence without its first elements.
pub proof fn lemma_views_skip<T: View>(s: Seq<T>, k: int)
    requires
        0 <= k <= s.len(),
    ensures
        views(s.skip(k)) == views(s).skip(k),
        views(s).len() == s.len(),
        forall|i: int| 0 <= i < s.len() ==> #[trigger] views(s)[i] == s[i]@,
{
    assert(views(s.skip(k)) =~= views(s).skip(k));
}

pub proof fn lemma_views_push<T: View>(s: Seq<T>, t: T)
    ensures
        views(s.push(t)) == views(s).push(t@),
{
    assert(views(s.push(t)) =~= views(s).push(t@));
}

proof fn lemma_missing_from_push<V>(s: Seq<V>, x: V, other: Seq<V>)
    ensures
        missing_from(s.push(x), other) == if other.contains(x) {
            missing_from(s, other)
        } else {
            missing_from(s, other).push(x)
        },
{
    s.lemma_filter_push(x, |y: V| !other.contains(y));
}

/// Whether `d` names one of the devices of `list`.
fn contains_device<T: DeviceKey>(list: &Vec<T>, d: &T) -> (r: bool)
    ensures
        r == views(list@).contains(d@),
{
    let mut i: usize = 0;
    while i < list.len()
        invariant
            i <= list@.len(),
            forall|j: int| 0 <= j < i ==> list@[j]@ != d@,
        decreases list@.len() - i,
    {
        if list[i].same_device(d) {
            proof {
                assert(views(list@)[i as int] == d@);
            }
            return true;
        }
        i = i + 1;
    }
    proof {
        if views(list@).contains(d@) {
            let j = choose|j: int| 0 <= j < views(list@).len() && views(list@)[j] == d@;
            assert(list@[j]@ == d@);
        }
    }
    false
}

/// The elements of `s` that do not name a device of `other`, copied in order.
fn copy_missing<T: DeviceKey>(s: &Vec<T>, other: &Vec<T>) -> (r: Vec<T>)
    ensures
        views(r@) == missing_from(views(s@), views(other@)),
        forall|k: int| 0 <= k < r@.len() ==> s@.contains(#[trigger] r@[k]),
{
    let mut r: Vec<T> = Vec::new();
    let mut i: usize = 0;
    proof {
        assert(views(s@).take(0) =~= Seq::<T::V>::empty());
        reveal(Seq::filter);
        assert(views(r@) =~= missing_from(views(s@).take(0), views(other@)));
    }
    while i < s.len()
        invariant
            i <= s@.len(),
            views(r@) == missing_from(views(s@).take(i as int), views(other@)),
            forall|k: int| 0 <= k < r@.len() ==> s@.contains(#[trigger] r@[k]),
        decreases s@.len() - i,
    {
        let present = contains_device(other, &s[i]);
        proof {
            assert(views(s@).take(i + 1) =~= views(s@).take(i as int).push(s@[i as int]@));
            lemma_missing_from_push(views(s@).take(i as int), s@[i as int]@, views(other@));
        }
        if !present {
            let d = s[i].duplicate();
            proof {
                lemma_views_push(r@, d);
                assert(s@[i as int] == d);
            }
            r.push(d);
        }
        i = i + 1;
    }
    proof {
        assert(views(s@).take(s@.len() as int) =~= views(s@));
    }
    r
}

/// The devices of `found` that do not name a known device, each one once where `once` is set.
fn copy_attached<T: DeviceKey>(known: &Vec<T>, found: &Vec<T>, once: bool) -> (r: Vec<T>)
    ensures
        views(r@) == spec_attached(views(known@), views(found@), once),
        forall|k: int| 0 <= k < r@.len() ==> found@.contains(#[trigger] r@[k]),
        forall|k: int| 0 <= k < r@.len() ==> !views(known@).contains(#[trigger] r@[k]@),
{
    let ghost k = views(known@);
    let mut r: Vec<T> = Vec::new();
    let mut i: usize = 0;
    proof {
        assert(views(found@).take(0) =~= Seq::<T::V>::empty());
        reveal(Seq::filter);
        assert(views(r@) =~= spec_attached(k, views(found@).take(0), once));
    }
    while i < found.len()
        invariant
            i <= found@.len(),
            k == views(known@),
            views(r@) == spec_attached(k, views(found@).take(i as int), once),
            forall|j: int| 0 <= j < r@.len() ==> found@.contains(#[trigger] r@[j]),
            forall|j: int| 0 <= j < r@.len() ==> !k.contains(#[trigger] r@[j]@),
        decreases found@.len() - i,
    {
        let ghost f = views(found@).take(i as int);
        let ghost x = found@[i as int]@;
        let known_already = contains_device(known, &found[i]);
        let attached_already = once && contains_device(&r, &found[i]);
        proof {
            assert(views(found@).take(i + 1) =~= f.push(x));
            lemma_missing_from_push(f, x, k);
            let m = missing_from(f, k);
            if !k.contains(x) {
                assert(m.push(x).drop_last() =~= m);
            }
        }
        if !known_already && !attached_already {
            let d = found[i].duplicate();
            proof {
                lemma_views_push(r@, d);
                assert(found@[i as int] == d);
            }
            r.push(d);
        }
        i = i + 1;
    }
    proof {
        assert(views(found@).take(found@.len() as int) =~= views(found@));
    }
    r
}

/// Compares the devices that a scan found with the known ones: which devices are attached,
/// which are removed, and the known devices after the scan. Where `once` is set a device that
/// the scan found more than once is attached once.
pub fn sync_devices<T: DeviceKey>(known: &Vec<T>, found: &Vec<T>, once: bool) -> (r: DeviceSync<T>)
    ensures
        views(r.attached@) == spec_attached(views(known@), views(found@), once),
        views(r.removed@) == spec_removed(views(known@), views(found@)),
        views(r.known@) == spec_synced(views(known@), views(found@), once),
        forall|k: int| 0 <= k < r.attached@.len() ==> found@.contains(#[trigger] r.attached@[k]),
        forall|k: int| 0 <= k < r.removed@.len() ==> known@.contains(#[trigger] r.removed@[k]),
        forall|k: int|
            0 <= k < r.known@.len() ==> known@.contains(#[trigger] r.known@[k]) || found@.contains(
                r.known@[k],
            ),
        forall|k: int|
            0 <= k < r.known@.len() ==> if views(known@).contains(#[trigger] r.known@[k]@) {
                known@.contains(r.known@[k])
            } else {
                found@.contains(r.known@[k])
            },
{
    let attached = copy_attached(known, found, once);
    let removed = copy_missing(known, found);
    let mut all: Vec<T> = Vec::new();
    let mut i: usize = 0;
    while i < known.len()
        invariant
            i <= known@.len(),
            views(all@) == views(known@).take(i as int),
            forall|k: int| 0 <= k < all@.len() ==> known@.contains(#[trigger] all@[k]),
            forall|k: int| 0 <= k < all@.len() ==> views(known@).contains(#[trigger] all@[k]@),
        decreases known@.len() - i,
    {
        let d = known[i].duplicate();
        proof {
            assert(known@[i as int] == d);
            lemma_views_skip(known@, 0);
            assert(views(known@)[i as int] == d@);
            lemma_views_push(all@, d);
            assert(views(known@).take(i + 1) =~= views(known@).take(i as int).push(d@));
        }
        all.push(d);
        i = i + 1;
    }
    let mut j: usize = 0;
    proof {
        assert(views(known@).take(known@.len() as int) =~= views(known@));
        assert(views(attached@).take(0) =~= Seq::<T::V>::empty());
        assert(views(all@) =~= views(known@) + views(attached@).take(0));
    }
    while j < attached.len()
        invariant
            j <= attached@.len(),
            views(all@) == views(known@) + views(attached@).take(j as int),
            forall|k: int| 0 <= k < all@.len() ==> known@.contains(#[trigger] all@[k]) || found@.contains(all@[k]),
            forall|k: int| 0 <= k < attached@.len() ==> found@.contains(#[trigger] attached@[k]),
            forall|k: int| 0 <= k < attached@.len() ==> !views(known@).contains(#[trigger] attached@[k]@),
            forall|k: int|
                0 <= k < all@.len() ==> if views(known@).contains(#[trigger] all@[k]@) {
                    known@.contains(all@[k])
                } else {
                    found@.contains(all@[k])
                },
        decreases attached@.len() - j,
    {
        let d = attached[j].duplicate();
        proof {
            assert(attached@[j as int] == d);
            assert(found@.contains(attached@[j as int]));
            assert(!views(known@).contains(attached@[j as int]@));
            lemma_views_push(all@, d);
            assert(views(known@) + views(attached@).take(j + 1) =~= (views(known@) + views(
                attached@,
            ).take(j as int)).push(d@));
        }
        all.push(d);
        j = j + 1;
    }
    proof {
        assert(views(attached@).take(attached@.len() as int) =~= views(attached@));
    }
    let synced = copy_missing(&all, &removed);
    proof {
        assert forall|k: int| 0 <= k < synced@.len() implies known@.contains(#[trigger] synced@[k]) || found@.contains(
            synced@[k],
        ) by {
            assert(all@.contains(synced@[k]));
            let m = choose|m: int| 0 <= m < all@.len() && all@[m] == synced@[k];
            assert(known@.contains(all@[m]) || found@.contains(all@[m]));
        }
        assert forall|k: int| 0 <= k < synced@.len() implies if views(known@).contains(#[trigger] synced@[k]@) {
            known@.contains(synced@[k])
        } else {
            found@.contains(synced@[k])
        } by {
            assert(all@.contains(synced@[k]));
            let m = choose|m: int| 0 <= m < all@.len() && all@[m] == synced@[k];
            assert(all@[m]@ == synced@[k]@);
        }
    }
    DeviceSync { known: synced, attached, removed }
}

} // verus!

verus! {

proof fn lemma_missing_from_contains<V>(s: Seq<V>, other: Seq<V>, x: V)
    ensures
        missing_from(s, other).contains(x) <==> (s.contains(x) && !other.contains(x)),
    decreases s.len(),
{
    if s.len() > 0 {
        lemma_missing_from_contains(s.drop_last(), other, x);
        lemma_missing_from_push(s.drop_last(), s.last(), other);
        assert(s.drop_last().push(s.last()) =~= s);
        assert(s.contains(x) <==> (s.drop_last().contains(x) || s.last() == x));
    } else {
        reveal(Seq::filter);
    }
}

proof fn lemma_first_occurrences_contains<V>(s: Seq<V>, x: V)
    ensures
        first_occurrences(s).contains(x) <==> s.contains(x),
    decreases s.len(),
{
    if s.len() > 0 {
        broadcast use vstd::seq_lib::group_seq_properties;

        lemma_first_occurrences_contains(s.drop_last(), x);
        assert(s.drop_last().push(s.last()) =~= s);
        assert(s.contains(x) <==> (s.drop_last().contains(x) || s.last() == x));
    }
}

proof fn lemma_attached_contains<V>(known: Seq<V>, found: Seq<V>, once: bool, x: V)
    ensures
        spec_attached(known, found, once).contains(x) <==> (found.contains(x) && !known.contains(x)),
{
    lemma_missing_from_contains(found, known, x);
    lemma_first_occurrences_contains(missing_from(found, known), x);
}

/// Law: after a scan the known devices are exactly the devices that the scan found.
pub proof fn lemma_synced_are_found<V>(known: Seq<V>, found: Seq<V>, once: bool, x: V)
    ensures
        spec_synced(known, found, once).contains(x) <==> found.contains(x),
{
    let a = spec_attached(known, found, once);
    let rm = spec_removed(known, found);
    lemma_missing_from_contains(known + a, rm, x);
    lemma_missing_from_contains(known, found, x);
    lemma_attached_contains(known, found, once, x);
    assert((known + a).contains(x) <==> (known.contains(x) || a.contains(x))) by {
        if (known + a).contains(x) {
            let i = choose|i: int| 0 <= i < (known + a).len() && (known + a)[i] == x;
            if i >= known.len() {
                assert(a[i - known.len()] == x);
            } else {
                assert(known[i] == x);
            }
        }
        if a.contains(x) {
            let i = choose|i: int| 0 <= i < a.len() && a[i] == x;
            assert((known + a)[known.len() + i] == x);
        }
        if known.contains(x) {
            let i = choose|i: int| 0 <= i < known.len() && known[i] == x;
            assert((known + a)[i] == x);
        }
    }
}

proof fn lemma_missing_from_none<V>(s: Seq<V>, other: Seq<V>)
    requires
        forall|x: V| s.contains(x) ==> other.contains(x),
    ensures
        missing_from(s, other) == Seq::<V>::empty(),
{
    if missing_from(s, other).len() > 0 {
        let x = missing_from(s, other)[0];
        assert(missing_from(s, other).contains(x));
        lemma_missing_from_contains(s, other, x);
    }
}

/// Law: a second scan that finds the same devices attaches and removes nothing, and leaves the
/// known devices as they are.
pub proof fn lemma_rescan_changes_nothing<V>(known: Seq<V>, found: Seq<V>, once: bool)
    ensures
        spec_attached(spec_synced(known, found, once), found, once) == Seq::<V>::empty(),
        spec_removed(spec_synced(known, found, once), found) == Seq::<V>::empty(),
        spec_synced(spec_synced(known, found, once), found, once) == spec_synced(known, found, once),
{
    let k2 = spec_synced(known, found, once);
    assert forall|x: V| found.contains(x) implies k2.contains(x) by {
        lemma_synced_are_found(known, found, once, x);
    }
    assert forall|x: V| k2.contains(x) implies found.contains(x) by {
        lemma_synced_are_found(known, found, once, x);
    }
    lemma_missing_from_none(found, k2);
    lemma_missing_from_none(k2, found);
    reveal(Seq::filter);
    assert(spec_attached(k2, found, once) =~= Seq::<V>::empty());
    assert(k2 + Seq::<V>::empty() =~= k2);
    assert forall|x: V| k2.contains(x) implies !Seq::<V>::empty().contains(x) by {}
    lemma_missing_from_all(k2, Seq::<V>::empty());
}

proof fn lemma_missing_from_all<V>(s: Seq<V>, other: Seq<V>)
    requires
        forall|x: V| s.contains(x) ==> !other.contains(x),
    ensures
        missing_from(s, other) == s,
    decreases s.len(),
{
    if s.len() == 0 {
        reveal(Seq::filter);
    } else {
        lemma_missing_from_all(s.drop_last(), other);
        lemma_missing_from_push(s.drop_last(), s.last(), other);
        assert(s.drop_last().push(s.last()) =~= s);
    }
}

} // verus!

verus! {

proof fn lemma_first_occurrences_unique<V>(s: Seq<V>)
    ensures
        first_occurrences(s).no_duplicates(),
    decreases s.len(),
{
    if s.len() > 0 {
        lemma_first_occurrences_unique(s.drop_last());
        let r = first_occurrences(s.drop_last());
        if !r.contains(s.last()) {
            assert forall|i: int, j: int|
                0 <= i < r.push(s.last()).len() && 0 <= j < r.push(s.last()).len() && i != j implies r.push(
                s.last(),
            )[i] != r.push(s.last())[j] by {
                if i < r.len() && j == r.len() {
                    assert(r.contains(r[i]));
                }
                if j < r.len() && i == r.len() {
                    assert(r.contains(r[j]));
                }
            }
        }
    }
}

proof fn lemma_missing_from_unique<V>(s: Seq<V>, other: Seq<V>)
    requires
        s.no_duplicates(),
    ensures
        missing_from(s, other).no_duplicates(),
    decreases s.len(),
{
    if s.len() == 0 {
        reveal(Seq::filter);
    } else {
        let init = s.drop_last();
        let x = s.last();
        assert(init.no_duplicates());
        lemma_missing_from_unique(init, other);
        lemma_missing_from_push(init, x, other);
        assert(init.push(x) =~= s);
        let m = missing_from(init, other);
        if !other.contains(x) {
            lemma_missing_from_contains(init, other, x);
            assert(!init.contains(x)) by {
                if init.contains(x) {
                    let k = choose|k: int| 0 <= k < init.len() && init[k] == x;
                    assert(s[k] == s[s.len() - 1]);
                }
            }
            assert forall|i: int, j: int|
                0 <= i < m.push(x).len() && 0 <= j < m.push(x).len() && i != j implies m.push(x)[i] != m.push(
                x,
            )[j] by {
                if i < m.len() && j == m.len() {
                    assert(m.contains(m[i]));
                }
                if j < m.len() && i == m.len() {
                    assert(m.contains(m[j]));
                }
            }
        }
    }
}

/// Law: where each found device is attached once, a known list without repeated devices
/// stays without repeated devices after a scan.
pub proof fn lemma_synced_unique<V>(known: Seq<V>, found: Seq<V>)
    requires
        known.no_duplicates(),
    ensures
        spec_synced(known, found, true).no_duplicates(),
{
    let a = spec_attached(known, found, true);
    lemma_first_occurrences_unique(missing_from(found, known));
    assert forall|i: int, j: int|
        0 <= i < (known + a).len() && 0 <= j < (known + a).len() && i != j implies (known + a)[i] != (known
        + a)[j] by {
        if i < known.len() && j >= known.len() {
            lemma_attached_contains(known, found, true, (known + a)[j]);
            assert(a.contains(a[j - known.len()]));
            assert(known.contains(known[i]));
        }
        if j < known.len() && i >= known.len() {
            lemma_attached_contains(known, found, true, (known + a)[i]);
            assert(a.contains(a[i - known.len()]));
            assert(known.contains(known[j]));
        }
    }
    lemma_missing_from_unique(known + a, spec_removed(known, found));
}

} // verus!

verus! {

/// The event of a scan about one device: attached or removed.
pub trait ScanEvent<T: View>: View<V = SpecHotPlugEvent<T::V>> + Sized {
    /// The event that `d` was attached.
    spec fn attached_event(d: T) -> Self;

    /// The event that `d` was removed.
    spec fn removed_event(d: T) -> Self;

    /// The events name the device and its kind.
    proof fn lemma_event_views(d: T)
        ensures
            Self::attached_event(d)@ == SpecHotPlugEvent::Attached(d@),
            Self::removed_event(d)@ == SpecHotPlugEvent::Removed(d@),
    ;

    /// Builds the event that `d` was attached.
    fn attached(d: T) -> (e: Self)
        ensures
            e == Self::attached_event(d),
    ;

    /// Builds the event that `d` was removed.
    fn removed(d: T) -> (e: Self)
        ensures
            e == Self::removed_event(d),
    ;
}

/// Builds the events of a scan: one per attached device, then one per removed device, in
/// order.
pub fn scan_events<T: View, E: ScanEvent<T>>(attached: Vec<T>, removed: Vec<T>) -> (r: Vec<E>)
    ensures
        r@.len() == attached@.len() + removed@.len(),
        forall|i: int| 0 <= i < attached@.len() ==> #[trigger] r@[i] == E::attached_event(attached@[i]),
        forall|i: int|
            0 <= i < removed@.len() ==> #[trigger] r@[attached@.len() + i] == E::removed_event(removed@[i]),
        views(r@) == spec_events(views(attached@), views(removed@)),
{
    let ghost full_a = attached@;
    let ghost full_r = removed@;
    let mut r: Vec<E> = Vec::new();
    let mut attached = attached;
    let mut removed = removed;
    proof {
        assert(attached@ =~= full_a.skip(0));
    }
    while attached.len() > 0
        invariant
            full_a.len() == r@.len() + attached@.len(),
            attached@ == full_a.skip(r@.len() as int),
            forall|i: int| 0 <= i < r@.len() ==> #[trigger] r@[i] == E::attached_event(full_a[i]),
        decreases attached@.len(),
    {
        let ghost n = r@.len();
        let ghost before = attached@;
        let d = attached.remove(0);
        proof {
            assert(d == full_a[n as int]);
            assert(attached@ =~= full_a.skip(n + 1int));
        }
        r.push(E::attached(d));
    }
    proof {
        assert(removed@ =~= full_r.skip(0));
    }
    while removed.len() > 0
        invariant
            r@.len() >= full_a.len(),
            full_r.len() == r@.len() - full_a.len() + removed@.len(),
            removed@ == full_r.skip(r@.len() - full_a.len()),
            forall|i: int| 0 <= i < full_a.len() ==> #[trigger] r@[i] == E::attached_event(full_a[i]),
            forall|i: int|
                0 <= i < r@.len() - full_a.len() ==> #[trigger] r@[full_a.len() + i] == E::removed_event(full_r[i]),
        decreases removed@.len(),
    {
        let ghost n = r@.len() - full_a.len();
        let d = removed.remove(0);
        proof {
            assert(d == full_r[n as int]);
            assert(removed@ =~= full_r.skip(n + 1int));
        }
        r.push(E::removed(d));
        proof {
            assert(r@[full_a.len() + n] == E::removed_event(full_r[n as int]));
        }
    }
    proof {
        let want = spec_events(views(full_a), views(full_r));
        lemma_views_skip(r@, 0);
        lemma_views_skip(full_a, 0);
        lemma_views_skip(full_r, 0);
        assert forall|i: int| 0 <= i < r@.len() implies #[trigger] views(r@)[i] == want[i] by {
            if i < full_a.len() {
                E::lemma_event_views(full_a[i]);
            } else {
                let j = i - full_a.len();
                assert(r@[full_a.len() + j] == E::removed_event(full_r[j]));
                E::lemma_event_views(full_r[j]);
            }
        }
        assert(views(r@) =~= want);
    }
    r
}

} // verus!
