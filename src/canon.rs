//! Canonical index labels: markdown links reduced to their text, whitespace runs collapsed.
use vstd::prelude::*;
use crate::text::{chars_of, string_of, push_range};

verus! {

/// Unicode `White_Space` characters.
pub open spec fn is_ws(c: char) -> bool {
    let u = c as u32;
    (0x09 <= u <= 0x0D) || u == 0x20 || u == 0x85 || u == 0xA0 || u == 0x1680 || (0x2000 <= u
        <= 0x200A) || u == 0x2028 || u == 0x2029 || u == 0x202F || u == 0x205F || u == 0x3000
}

/// Whether `c` is a Unicode `White_Space` character.
pub fn is_whitespace(c: char) -> (r: bool)
    ensures
        r == is_ws(c),
{
    let u = c as u32;
    (0x09 <= u && u <= 0x0D) || u == 0x20 || u == 0x85 || u == 0xA0 || u == 0x1680 || (0x2000 <= u
        && u <= 0x200A) || u == 0x2028 || u == 0x2029 || u == 0x202F || u == 0x205F || u == 0x3000
}

/// The first index at or after `i` that holds `c`, or the length when there is none.
pub open spec fn find_from(s: Seq<char>, i: int, c: char) -> int
    decreases s.len() - i,
{
    if i < 0 || i >= s.len() {
        s.len() as int
    } else if s[i] == c {
        i
    } else {
        find_from(s, i + 1, c)
    }
}

pub proof fn lemma_find_from(s: Seq<char>, i: int, c: char)
    requires
        0 <= i <= s.len(),
    ensures
        i <= find_from(s, i, c) <= s.len(),
        find_from(s, i, c) < s.len() ==> s[find_from(s, i, c)] == c,
        forall|k: int| i <= k < find_from(s, i, c) ==> s[k] != c,
    decreases s.len() - i,
{
    if i < s.len() && s[i] != c {
        lemma_find_from(s, i + 1, c);
    }
}

/// The first index at or after `i` that holds `c`, or the length when there is none.
pub fn find_char(s: &Vec<char>, i: usize, c: char) -> (r: usize)
    requires
        i <= s@.len(),
    ensures
        r == find_from(s@, i as int, c),
{
    let mut k: usize = i;
    while k < s.len() && s[k] != c
        invariant
            i <= k <= s@.len(),
            find_from(s@, k as int, c) == find_from(s@, i as int, c),
        decreases s.len() - k,
    {
        k += 1;
    }
    k
}

/// Whether a markdown link `[text](dest)` starts at `i`: both parts are non-empty, the text
/// ends at the first `]` and the destination at the first `)`.
pub open spec fn link_at(s: Seq<char>, i: int) -> bool {
    let j = find_from(s, i + 1, ']');
    let k = find_from(s, j + 2, ')');
    0 <= i && i + 1 < j && j + 2 < k && k < s.len() && s[i] == '[' && s[j + 1] == '('
}

/// The text with every markdown link, found left to right from `i` without overlap, replaced
/// by its display text.
pub open spec fn delink_from(s: Seq<char>, i: int) -> Seq<char>
    decreases s.len() - i,
{
    if i < 0 || i >= s.len() {
        Seq::empty()
    } else if link_at(s, i) {
        let j = find_from(s, i + 1, ']');
        let k = find_from(s, j + 2, ')');
        s.subrange(i + 1, j) + delink_from(s, k + 1)
    } else {
        seq![s[i]] + delink_from(s, i + 1)
    }
}

pub open spec fn delink(s: Seq<char>) -> Seq<char> {
    delink_from(s, 0)
}

/// The text with each maximal run of whitespace replaced by one space.
pub open spec fn collapse(s: Seq<char>) -> Seq<char>
    decreases s.len(),
{
    if s.len() == 0 {
        Seq::empty()
    } else if is_ws(s.last()) {
        if s.len() >= 2 && is_ws(s[s.len() - 2]) {
            collapse(s.drop_last())
        } else {
            collapse(s.drop_last()).push(' ')
        }
    } else {
        collapse(s.drop_last()).push(s.last())
    }
}

/// The canonical label of markup text.
pub open spec fn canonical(s: Seq<char>) -> Seq<char> {
    collapse(delink(s))
}

/// No whitespace but single spaces.
pub open spec fn collapsed(t: Seq<char>) -> bool {
    forall|k: int|
        0 <= k < t.len() && #[trigger] is_ws(t[k]) ==> t[k] == ' ' && (k + 1 < t.len() ==> !is_ws(
            t[k + 1],
        ))
}

/// No markdown link starts anywhere in the text.
pub open spec fn no_link(t: Seq<char>) -> bool {
    forall|i: int| !#[trigger] link_at(t, i)
}

proof fn lemma_collapse_shape(s: Seq<char>)
    ensures
        collapsed(collapse(s)),
        s.len() == 0 <==> collapse(s).len() == 0,
        s.len() > 0 ==> (is_ws(s.last()) <==> is_ws(collapse(s).last())),
    decreases s.len(),
{
    if s.len() > 0 {
        lemma_collapse_shape(s.drop_last());
        let p = collapse(s.drop_last());
        assert(' ' as u32 == 0x20);
        if s.len() >= 2 {
            assert(s.drop_last().last() == s[s.len() - 2]);
        }
        assert forall|k: int|
            0 <= k < collapse(s).len() && #[trigger] is_ws(collapse(s)[k]) implies collapse(s)[k]
            == ' ' && (k + 1 < collapse(s).len() ==> !is_ws(collapse(s)[k + 1])) by {
            if k < p.len() {
                assert(collapse(s)[k] == p[k]);
            }
        }
    }
}

proof fn lemma_collapse_fixed(t: Seq<char>)
    requires
        collapsed(t),
    ensures
        collapse(t) == t,
    decreases t.len(),
{
    if t.len() > 0 {
        let d = t.drop_last();
        assert(collapsed(d)) by {
            assert forall|k: int| 0 <= k < d.len() && #[trigger] is_ws(d[k]) implies d[k] == ' '
                && (k + 1 < d.len() ==> !is_ws(d[k + 1])) by {
                assert(d[k] == t[k]);
                if k + 1 < d.len() {
                    assert(d[k + 1] == t[k + 1]);
                }
            }
        }
        lemma_collapse_fixed(d);
        if is_ws(t.last()) {
            assert(t[t.len() - 1] == ' ');
            if t.len() >= 2 {
                assert(!is_ws(t[t.len() - 2])) by {
                    if is_ws(t[t.len() - 2]) {
                        assert(!is_ws(t[(t.len() - 2) + 1]));
                    }
                }
            }
        }
        assert(t =~= d.push(t.last()));
    }
}

proof fn lemma_delink_plain(t: Seq<char>, i: int)
    requires
        no_link(t),
        0 <= i <= t.len(),
    ensures
        delink_from(t, i) == t.skip(i),
    decreases t.len() - i,
{
    if i < t.len() {
        assert(!link_at(t, i));
        lemma_delink_plain(t, i + 1);
        assert(t.skip(i) =~= seq![t[i]] + t.skip(i + 1));
    } else {
        assert(t.skip(i) =~= Seq::<char>::empty());
    }
}

/// A canonical label holds no whitespace but single spaces, never two in a row.
pub proof fn lemma_canonical_collapsed(s: Seq<char>)
    ensures
        collapsed(canonical(s)),
{
    lemma_collapse_shape(delink(s));
}

/// Canonicalizing a label that is already canonical changes nothing, unless that label
/// still holds a markdown link (as `[[a](b)](c)` does, whose canonical form is `[a](c)`).
pub proof fn lemma_canonical_idempotent(s: Seq<char>)
    requires
        no_link(canonical(s)),
    ensures
        canonical(canonical(s)) == canonical(s),
{
    let c = canonical(s);
    lemma_canonical_collapsed(s);
    lemma_delink_plain(c, 0);
    assert(c.skip(0) =~= c);
    lemma_collapse_fixed(c);
}

/// The markup text with every markdown link reduced to its display text.
pub fn delink_chars(s: &Vec<char>) -> (r: Vec<char>)
    ensures
        r@ == delink(s@),
{
    let mut out: Vec<char> = Vec::new();
    let mut i: usize = 0;
    while i < s.len()
        invariant
            0 <= i <= s@.len(),
            out@ + delink_from(s@, i as int) == delink(s@),
        decreases s.len() - i,
    {
        let j = find_char(s, i + 1, ']');
        proof {
            lemma_find_from(s@, i + 1, ']');
        }
        let mut linked = false;
        let mut k: usize = j;
        if s[i] == '[' && i + 1 < j && j < s.len() && s.len() - j > 2 && s[j + 1] == '(' {
            k = find_char(s, j + 2, ')');
            linked = j + 2 < k && k < s.len();
        }
        proof {
            lemma_find_from(s@, i + 1, ']');
            if j + 2 <= s@.len() {
                lemma_find_from(s@, j + 2, ')');
            }
        }
        if linked {
            assert(link_at(s@, i as int));
            let ghost before = out@;
            push_range(&mut out, s, i + 1, j);
            assert(before + delink_from(s@, i as int) == out@ + delink_from(s@, k + 1));
            i = k + 1;
        } else {
            assert(!link_at(s@, i as int));
            let ghost before = out@;
            out.push(s[i]);
            assert(before + delink_from(s@, i as int) =~= out@ + delink_from(s@, i + 1));
            i = i + 1;
        }
    }
    assert(out@ + Seq::<char>::empty() =~= out@);
    out
}

/// The text with each maximal run of whitespace replaced by one space.
pub fn collapse_chars(s: &Vec<char>) -> (r: Vec<char>)
    ensures
        r@ == collapse(s@),
{
    let mut out: Vec<char> = Vec::new();
    let mut i: usize = 0;
    let mut prev_ws = false;
    assert(s@.take(0) =~= Seq::<char>::empty());
    while i < s.len()
        invariant
            0 <= i <= s@.len(),
            out@ == collapse(s@.take(i as int)),
            prev_ws == (i > 0 && is_ws(s@[i - 1])),
        decreases s.len() - i,
    {
        let c = s[i];
        let w = is_whitespace(c);
        let ghost t = s@.take(i + 1);
        assert(t.drop_last() =~= s@.take(i as int));
        assert(t.last() == c);
        if i > 0 {
            assert(t[t.len() - 2] == s@[i - 1]);
        }
        if w {
            if !prev_ws {
                out.push(' ');
            }
        } else {
            out.push(c);
        }
        prev_ws = w;
        i += 1;
    }
    assert(s@.take(i as int) =~= s@);
    out
}

/// The canonical label of markup text.
pub fn canonical_chars(s: &Vec<char>) -> (r: Vec<char>)
    ensures
        r@ == canonical(s@),
{
    let d = delink_chars(s);
    collapse_chars(&d)
}

/// Convert index text to a canonical form suitable for inclusion in the index: each markdown
/// link becomes its text, and each run of whitespace one space.
pub fn canonicalize(s: &str) -> (r: String)
    ensures
        r@ == canonical(s@),
        collapsed(r@),
{
    let v = chars_of(s);
    let c = canonical_chars(&v);
    proof {
        lemma_canonical_collapsed(s@);
    }
    string_of(&c)
}

} // verus!
