//! The entry store as plain values: each label with its locations, in the order found.
use vstd::prelude::*;

verus! {

/// A location as plain values: chapter path, chapter name, and the number of the anchor.
pub type LocView = (Option<Seq<char>>, Seq<char>, nat);

/// An entry as plain values: its label and its locations, in the order they were found.
pub type EntryView = (Seq<char>, Seq<LocView>);

/// The labels of the entries, in order.
pub open spec fn entry_keys(es: Seq<EntryView>) -> Seq<Seq<char>> {
    es.map_values(|e: EntryView| e.0)
}

/// The last index of `k` in `ks`, or -1.
pub open spec fn key_index(ks: Seq<Seq<char>>, k: Seq<char>) -> int
    decreases ks.len(),
{
    if ks.len() == 0 {
        -1
    } else if ks.last() == k {
        ks.len() - 1
    } else {
        key_index(ks.drop_last(), k)
    }
}

/// `key_index` finds `k` where it is, and finds nothing only when `k` is absent.
pub proof fn lemma_key_index(ks: Seq<Seq<char>>, k: Seq<char>)
    ensures
        -1 <= key_index(ks, k) < ks.len(),
        key_index(ks, k) >= 0 ==> ks[key_index(ks, k)] == k,
        key_index(ks, k) < 0 ==> !ks.contains(k),
    decreases ks.len(),
{
    if ks.len() > 0 && ks.last() != k {
        lemma_key_index(ks.drop_last(), k);
        if key_index(ks, k) < 0 {
            assert forall|j: int| 0 <= j < ks.len() implies ks[j] != k by {
                if j < ks.len() - 1 {
                    assert(ks.drop_last()[j] == ks[j]);
                }
            }
        }
    }
}

/// The locations recorded for label `k`.
pub open spec fn locations_of(es: Seq<EntryView>, k: Seq<char>) -> Seq<LocView> {
    let j = key_index(entry_keys(es), k);
    if 0 <= j < es.len() {
        es[j].1
    } else {
        Seq::empty()
    }
}

/// The store after one more location for label `k`.
pub open spec fn add_location(es: Seq<EntryView>, k: Seq<char>, loc: LocView) -> Seq<EntryView> {
    let j = key_index(entry_keys(es), k);
    if 0 <= j < es.len() {
        es.update(j, (k, es[j].1.push(loc)))
    } else {
        es.push((k, seq![loc]))
    }
}

/// The store after recording, in order, each (label, anchor) found in one chapter.
pub open spec fn record_all(
    es: Seq<EntryView>,
    evs: Seq<(Seq<char>, nat)>,
    path: Option<Seq<char>>,
    name: Seq<char>,
) -> Seq<EntryView>
    decreases evs.len(),
{
    if evs.len() == 0 {
        es
    } else {
        add_location(
            record_all(es, evs.drop_last(), path, name),
            evs.last().0,
            (path, name, evs.last().1),
        )
    }
}

/// The number of locations in the store.
pub open spec fn location_count(es: Seq<EntryView>) -> int
    decreases es.len(),
{
    if es.len() == 0 {
        0
    } else {
        location_count(es.drop_last()) + es.last().1.len()
    }
}

proof fn lemma_count_update(es: Seq<EntryView>, j: int, e: EntryView)
    requires
        0 <= j < es.len(),
    ensures
        location_count(es.update(j, e)) == location_count(es) - es[j].1.len() + e.1.len(),
    decreases es.len(),
{
    let u = es.update(j, e);
    if j == es.len() - 1 {
        assert(u.drop_last() =~= es.drop_last());
    } else {
        assert(u.drop_last() =~= es.drop_last().update(j, e));
        lemma_count_update(es.drop_last(), j, e);
    }
}

/// Recording a location adds one to the number of locations in the store.
pub proof fn lemma_add_location_count(es: Seq<EntryView>, k: Seq<char>, loc: LocView)
    ensures
        location_count(add_location(es, k, loc)) == location_count(es) + 1,
{
    let j = key_index(entry_keys(es), k);
    if 0 <= j < es.len() {
        lemma_count_update(es, j, (k, es[j].1.push(loc)));
    } else {
        assert(es.push((k, seq![loc])).drop_last() =~= es);
    }
}

/// Recording the locations of a chapter adds exactly one location to the store for each.
pub proof fn lemma_record_all_count(
    es: Seq<EntryView>,
    evs: Seq<(Seq<char>, nat)>,
    path: Option<Seq<char>>,
    name: Seq<char>,
)
    ensures
        location_count(record_all(es, evs, path, name)) == location_count(es) + evs.len(),
    decreases evs.len(),
{
    if evs.len() > 0 {
        lemma_record_all_count(es, evs.drop_last(), path, name);
        lemma_add_location_count(
            record_all(es, evs.drop_last(), path, name),
            evs.last().0,
            (path, name, evs.last().1),
        );
    }
}

} // verus!
