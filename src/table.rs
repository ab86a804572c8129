//! Configuration tables from a label to another label.
use vstd::prelude::*;
use crate::text::same_chars;

verus! {

/// A table as pairs of character sequences.
pub open spec fn table_view(t: Seq<(Vec<char>, Vec<char>)>) -> Seq<(Seq<char>, Seq<char>)> {
    t.map_values(|p: (Vec<char>, Vec<char>)| (p.0@, p.1@))
}

/// The value for key `k`: the last pair that has it, as when the pairs are inserted in turn
/// into a map.
pub open spec fn lookup(t: Seq<(Seq<char>, Seq<char>)>, k: Seq<char>) -> Option<Seq<char>>
    decreases t.len(),
{
    if t.len() == 0 {
        None
    } else if t.last().0 == k {
        Some(t.last().1)
    } else {
        lookup(t.drop_last(), k)
    }
}

/// The keys of a table, in order.
pub open spec fn table_keys(t: Seq<(Seq<char>, Seq<char>)>) -> Seq<Seq<char>> {
    t.map_values(|p: (Seq<char>, Seq<char>)| p.0)
}

/// The label a lookup leads to: the table's value, or the label itself.
pub open spec fn resolve(t: Seq<(Seq<char>, Seq<char>)>, k: Seq<char>) -> Seq<char> {
    match lookup(t, k) {
        Some(v) => v,
        None => k,
    }
}

/// The index of the pair that gives the value for `k`, if any.
pub fn find_key(t: &Vec<(Vec<char>, Vec<char>)>, k: &Vec<char>) -> (r: Option<usize>)
    ensures
        match r {
            Some(j) => j < t@.len() && lookup(table_view(t@), k@) == Some(t@[j as int].1@),
            None => lookup(table_view(t@), k@) is None,
        },
{
    let mut j: usize = t.len();
    assert(t@.take(j as int) =~= t@);
    while j > 0
        invariant
            j <= t@.len(),
            lookup(table_view(t@), k@) == lookup(table_view(t@.take(j as int)), k@),
        decreases j,
    {
        let ghost tv = table_view(t@.take(j as int));
        assert(tv.drop_last() =~= table_view(t@.take(j - 1)));
        assert(tv.last() == (t@[j - 1].0@, t@[j - 1].1@));
        if same_chars(&t[j - 1].0, k) {
            return Some(j - 1);
        }
        j -= 1;
    }
    proof {
        assert(t@.take(0) =~= Seq::<(Vec<char>, Vec<char>)>::empty());
    }
    None
}

/// The value for key `k`, if any.
pub fn get_value(t: &Vec<(Vec<char>, Vec<char>)>, k: &Vec<char>) -> (r: Option<Vec<char>>)
    ensures
        match r {
            Some(v) => lookup(table_view(t@), k@) == Some(v@),
            None => lookup(table_view(t@), k@) is None,
        },
{
    match find_key(t, k) {
        Some(j) => Some(crate::text::copy_of(&t[j].1)),
        None => None,
    }
}

} // verus!
