//! The order of labels on the index page: by lower-case text without markup punctuation, and
//! labels equal in that form by their own text.
use vstd::prelude::*;
use vstd::relations::{sorted_by, total_ordering};
use crate::text::{lower_of, lowercase, copy_of, same_chars};

verus! {

/// Characters that do not count when labels are ordered.
pub open spec fn is_punct(c: char) -> bool {
    c == '_' || c == '*' || c == '{' || c == '}' || c == '`' || c == '[' || c == ']' || c == '@'
        || c == '\''
}

/// The text without those characters.
pub open spec fn strip_punct(t: Seq<char>) -> Seq<char>
    decreases t.len(),
{
    if t.len() == 0 {
        t
    } else if is_punct(t.last()) {
        strip_punct(t.drop_last())
    } else {
        strip_punct(t.drop_last()).push(t.last())
    }
}

/// What a label is ordered by first.
pub open spec fn sort_key(label: Seq<char>) -> Seq<char> {
    strip_punct(lower_of(label))
}

/// Lexicographic order by code point, which is the order of `str`'s bytes.
pub open spec fn lex_le(a: Seq<char>, b: Seq<char>) -> bool
    decreases a.len(),
{
    if a.len() == 0 {
        true
    } else if b.len() == 0 {
        false
    } else if a[0] != b[0] {
        a[0] < b[0]
    } else {
        lex_le(a.drop_first(), b.drop_first())
    }
}

/// The order of labels: by sort key, then by the label itself.
pub open spec fn label_le(a: Seq<char>, b: Seq<char>) -> bool {
    lex_le(sort_key(a), sort_key(b)) && (sort_key(a) == sort_key(b) ==> lex_le(a, b))
}

pub open spec fn label_order() -> spec_fn(Seq<char>, Seq<char>) -> bool {
    |a: Seq<char>, b: Seq<char>| label_le(a, b)
}

/// Labels in index order.
pub open spec fn sorted_labels(s: Seq<Seq<char>>) -> Seq<Seq<char>> {
    s.sort_by(label_order())
}

proof fn lemma_lex_total(a: Seq<char>, b: Seq<char>)
    ensures
        lex_le(a, b) || lex_le(b, a),
    decreases a.len(),
{
    if a.len() > 0 && b.len() > 0 {
        if a[0] == b[0] {
            lemma_lex_total(a.drop_first(), b.drop_first());
        }
    }
}

proof fn lemma_lex_antisym(a: Seq<char>, b: Seq<char>)
    requires
        lex_le(a, b),
        lex_le(b, a),
    ensures
        a == b,
    decreases a.len(),
{
    if a.len() == 0 {
        assert(b.len() == 0);
        assert(a =~= b);
    } else {
        assert(a[0] == b[0]);
        lemma_lex_antisym(a.drop_first(), b.drop_first());
        assert(a =~= seq![a[0]] + a.drop_first());
        assert(b =~= seq![b[0]] + b.drop_first());
    }
}

proof fn lemma_lex_trans(a: Seq<char>, b: Seq<char>, c: Seq<char>)
    requires
        lex_le(a, b),
        lex_le(b, c),
    ensures
        lex_le(a, c),
    decreases a.len(),
{
    if a.len() > 0 && b.len() > 0 && c.len() > 0 && a[0] == b[0] && b[0] == c[0] {
        lemma_lex_trans(a.drop_first(), b.drop_first(), c.drop_first());
    }
}

proof fn lemma_lex_refl(a: Seq<char>)
    ensures
        lex_le(a, a),
    decreases a.len(),
{
    if a.len() > 0 {
        lemma_lex_refl(a.drop_first());
    }
}

/// Labels are totally ordered, so that equal labels are the only ties.
pub proof fn lemma_label_order_total()
    ensures
        total_ordering(label_order()),
{
    let r = label_order();
    assert forall|x: Seq<char>| #[trigger] r(x, x) by {
        lemma_lex_refl(x);
        lemma_lex_refl(sort_key(x));
    }
    assert forall|x: Seq<char>, y: Seq<char>| #[trigger] r(x, y) && #[trigger] r(y, x) implies x
        == y by {
        lemma_lex_antisym(sort_key(x), sort_key(y));
        lemma_lex_antisym(x, y);
    }
    assert forall|x: Seq<char>, y: Seq<char>, z: Seq<char>| #[trigger] r(x, y) && #[trigger] r(
        y,
        z,
    ) implies r(x, z) by {
        lemma_lex_trans(sort_key(x), sort_key(y), sort_key(z));
        if sort_key(x) == sort_key(z) {
            lemma_lex_antisym(sort_key(x), sort_key(y));
            lemma_lex_trans(x, y, z);
        }
    }
    assert forall|x: Seq<char>, y: Seq<char>| #[trigger] r(x, y) || #[trigger] r(y, x) by {
        lemma_lex_total(sort_key(x), sort_key(y));
        lemma_lex_total(x, y);
        if sort_key(x) != sort_key(y) {
            if lex_le(sort_key(x), sort_key(y)) && lex_le(sort_key(y), sort_key(x)) {
                lemma_lex_antisym(sort_key(x), sort_key(y));
            }
        }
    }
}

/// Two sequences sorted by a total order that hold the same items are the same sequence.
pub proof fn lemma_sorted_unique<A>(a: Seq<A>, b: Seq<A>, leq: spec_fn(A, A) -> bool)
    requires
        total_ordering(leq),
        sorted_by(a, leq),
        sorted_by(b, leq),
        a.to_multiset() == b.to_multiset(),
    ensures
        a == b,
    decreases a.len(),
{
    broadcast use vstd::seq_lib::group_to_multiset_ensures;

    vstd::seq_lib::to_multiset_len(a);
    vstd::seq_lib::to_multiset_len(b);
    if a.len() == 0 {
        assert(a =~= b);
    } else {
        vstd::seq_lib::to_multiset_contains(a, a[0]);
        vstd::seq_lib::to_multiset_contains(b, a[0]);
        vstd::seq_lib::to_multiset_contains(a, b[0]);
        vstd::seq_lib::to_multiset_contains(b, b[0]);
        assert(a.contains(a[0]));
        assert(b.contains(b[0]));
        let ja = choose|j: int| 0 <= j < a.len() && a[j] == b[0];
        let jb = choose|j: int| 0 <= j < b.len() && b[j] == a[0];
        if ja > 0 {
            assert(leq(a[0], a[ja]));
        }
        if jb > 0 {
            assert(leq(b[0], b[jb]));
        }
        assert(leq(a[0], b[0]));
        assert(leq(b[0], a[0]));
        assert(a[0] == b[0]);
        vstd::seq_lib::to_multiset_remove(a, 0);
        vstd::seq_lib::to_multiset_remove(b, 0);
        assert(a.remove(0) =~= a.drop_first());
        assert(b.remove(0) =~= b.drop_first());
        lemma_sorted_unique(a.drop_first(), b.drop_first(), leq);
        assert(a =~= seq![a[0]] + a.drop_first());
        assert(b =~= seq![b[0]] + b.drop_first());
    }
}

/// Sorting labels gives one order for every arrangement of the same labels: any two
/// sequences that hold the same labels, the same number of times each, sort alike.
pub proof fn lemma_sort_deterministic(s1: Seq<Seq<char>>, s2: Seq<Seq<char>>)
    requires
        s1.to_multiset() == s2.to_multiset(),
    ensures
        sorted_labels(s1) == sorted_labels(s2),
{
    lemma_label_order_total();
    s1.lemma_sort_by_ensures(label_order());
    s2.lemma_sort_by_ensures(label_order());
    lemma_sorted_unique(sorted_labels(s1), sorted_labels(s2), label_order());
}

/// Whether `a` comes no later than `b` in code-point order.
pub fn lex_le_chars(a: &Vec<char>, b: &Vec<char>) -> (r: bool)
    ensures
        r == lex_le(a@, b@),
{
    let mut i: usize = 0;
    assert(a@.skip(0) =~= a@);
    assert(b@.skip(0) =~= b@);
    loop
        invariant
            0 <= i <= a@.len(),
            i <= b@.len(),
            lex_le(a@, b@) == lex_le(a@.skip(i as int), b@.skip(i as int)),
        decreases a@.len() - i,
    {
        if i == a.len() {
            return true;
        }
        if i == b.len() {
            return false;
        }
        assert(a@.skip(i as int)[0] == a@[i as int]);
        assert(b@.skip(i as int)[0] == b@[i as int]);
        if a[i] != b[i] {
            return a[i] < b[i];
        }
        assert(a@.skip(i as int).drop_first() =~= a@.skip(i + 1));
        assert(b@.skip(i as int).drop_first() =~= b@.skip(i + 1));
        i += 1;
    }
}

/// The sort key of a label.
pub fn sort_key_chars(label: &Vec<char>) -> (r: Vec<char>)
    ensures
        r@ == sort_key(label@),
{
    let t = lowercase(label);
    let mut out: Vec<char> = Vec::new();
    let mut i: usize = 0;
    assert(t@.take(0) =~= Seq::<char>::empty());
    while i < t.len()
        invariant
            0 <= i <= t@.len(),
            out@ == strip_punct(t@.take(i as int)),
        decreases t.len() - i,
    {
        assert(t@.take(i + 1).drop_last() =~= t@.take(i as int));
        let c = t[i];
        if !(c == '_' || c == '*' || c == '{' || c == '}' || c == '`' || c == '[' || c == ']' || c
            == '@' || c == '\'') {
            out.push(c);
        }
        i += 1;
    }
    assert(t@.take(i as int) =~= t@);
    out
}

/// Whether label `a` comes no later than label `b` on the index page.
pub fn label_le_chars(a: &Vec<char>, b: &Vec<char>) -> (r: bool)
    ensures
        r == label_le(a@, b@),
{
    let ka = sort_key_chars(a);
    let kb = sort_key_chars(b);
    if same_chars(&ka, &kb) {
        proof {
            lemma_lex_refl(ka@);
        }
        lex_le_chars(a, b)
    } else {
        lex_le_chars(&ka, &kb)
    }
}

pub open spec fn views(s: Seq<Vec<char>>) -> Seq<Seq<char>> {
    s.map_values(|v: Vec<char>| v@)
}

/// The labels in index order: sorted once by their own text, then stably by sort key.
pub fn sort_labels(v: &Vec<Vec<char>>) -> (r: Vec<Vec<char>>)
    ensures
        views(r@) == sorted_labels(views(v@)),
{
    let ghost leq = label_order();
    proof {
        lemma_label_order_total();
    }
    let mut out: Vec<Vec<char>> = Vec::new();
    let mut i: usize = 0;
    assert(views(v@).take(0) =~= Seq::<Seq<char>>::empty());
    assert(views(out@) =~= Seq::<Seq<char>>::empty());
    while i < v.len()
        invariant
            0 <= i <= v@.len(),
            total_ordering(leq),
            leq == label_order(),
            sorted_by(views(out@), leq),
            views(out@).to_multiset() == views(v@).take(i as int).to_multiset(),
        decreases v.len() - i,
    {
        let x = copy_of(&v[i]);
        let mut j: usize = out.len();
        while j > 0 && !label_le_chars(&out[j - 1], &x)
            invariant
                j <= out@.len(),
                forall|k: int| j <= k < out@.len() ==> !label_le(out@[k]@, x@),
            decreases j,
        {
            j -= 1;
        }
        let ghost before = views(out@);
        out.insert(j, x);
        proof {
            let now = views(out@);
            assert(now =~= before.insert(j as int, x@));
            assert forall|p: int, q: int| 0 <= p < q < now.len() implies #[trigger] leq(
                now[p],
                now[q],
            ) by {
                if q < j {
                    assert(leq(before[p], before[q]));
                } else if q == j {
                    assert(leq(before[j - 1], x@));
                    if p < j - 1 {
                        assert(leq(before[p], before[j - 1]));
                    }
                } else if p == j {
                    assert(!label_le(before[q - 1], x@));
                    assert(leq(x@, before[q - 1]) || leq(before[q - 1], x@));
                } else if p < j {
                    assert(leq(before[p], before[q - 1]));
                } else {
                    assert(leq(before[p - 1], before[q - 1]));
                }
            }
            vstd::seq_lib::to_multiset_insert(before, j as int, x@);
            assert(views(v@).take(i + 1) =~= views(v@).take(i as int).push(x@));
            vstd::seq_lib::to_multiset_build(views(v@).take(i as int), x@);
        }
        i += 1;
    }
    proof {
        assert(views(v@).take(i as int) =~= views(v@));
        views(v@).lemma_sort_by_ensures(leq);
        lemma_sorted_unique(views(out@), sorted_labels(views(v@)), leq);
    }
    out
}

} // verus!
