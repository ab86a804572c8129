//! What scanning a chapter produces: the replaced text and the locations it records.
use vstd::prelude::*;
use crate::asciidoc::{asciidoc_text, protected};
use crate::canon::canonical;
use crate::scan::{
    escaped_at, escaped_end, markup_at, mode_at, content_at, content_end, shown, anchor_of,
};
use crate::table::{lookup, resolve};

verus! {

/// Which output an invocation produces, chosen by the renderer's name.
#[derive(Clone, Copy, PartialEq, Eq, Debug, Structural)]
pub enum Backend {
    /// The renderer is configured to get no index content.
    Skip,
    /// The AsciiDoc renderer, which builds the index itself from index terms.
    Delegate,
    /// Any other renderer: anchors in chapters, and an index page.
    Standard,
}

/// The index term that the AsciiDoc backend writes for a label.
pub open spec fn index_term(nest: Seq<(Seq<char>, Seq<char>)>, label: Seq<char>) -> Seq<char> {
    match lookup(nest, label) {
        Some(p) => protected(asciidoc_text(p)) + ",\""@ + asciidoc_text(label) + "\""@,
        None => protected(asciidoc_text(label)),
    }
}

/// The label under which the index span at `i` is recorded.
pub open spec fn span_label(see: Seq<(Seq<char>, Seq<char>)>, s: Seq<char>, i: int) -> Seq<
    char,
> {
    resolve(see, canonical(content_at(s, i)))
}

/// What replaces the index span at `i`, the `n`th of its chapter.
pub open spec fn replacement(
    see: Seq<(Seq<char>, Seq<char>)>,
    nest: Seq<(Seq<char>, Seq<char>)>,
    b: Backend,
    s: Seq<char>,
    i: int,
    n: nat,
) -> Seq<char> {
    let text = shown(mode_at(s, i), content_at(s, i));
    match b {
        Backend::Skip => text,
        Backend::Delegate => "indexterm:["@ + index_term(nest, span_label(see, s, i)) + "] "@
            + text,
        Backend::Standard => "<a name=\""@ + anchor_of(n) + "\"></a>"@ + text,
    }
}

/// A chapter's text from `i` on, scanned left to right: the text that replaces it, and the
/// (label, anchor number) of each location it records, the first numbered `n`.
pub open spec fn scan_from(
    see: Seq<(Seq<char>, Seq<char>)>,
    nest: Seq<(Seq<char>, Seq<char>)>,
    b: Backend,
    s: Seq<char>,
    i: int,
    n: nat,
) -> (Seq<char>, Seq<(Seq<char>, nat)>)
    decreases s.len() - i,
{
    if i < 0 || i >= s.len() {
        (Seq::empty(), Seq::empty())
    } else if escaped_at(s, i) {
        let r = scan_from(see, nest, b, s, escaped_end(s, i), n);
        (s.subrange(i + 1, escaped_end(s, i)) + r.0, r.1)
    } else if markup_at(s, i) {
        let e = content_end(s, i) + 2;
        if b == Backend::Standard {
            let r = scan_from(see, nest, b, s, e, n + 1);
            (replacement(see, nest, b, s, i, n) + r.0, seq![(span_label(see, s, i), n)] + r.1)
        } else {
            let r = scan_from(see, nest, b, s, e, n);
            (replacement(see, nest, b, s, i, n) + r.0, r.1)
        }
    } else {
        let r = scan_from(see, nest, b, s, i + 1, n);
        (seq![s[i]] + r.0, r.1)
    }
}

/// An escaped span passes through with its escape character dropped and records nothing:
/// scanning from it gives the span's own text, then what scanning after it gives.
pub proof fn lemma_escaped_span(
    see: Seq<(Seq<char>, Seq<char>)>,
    nest: Seq<(Seq<char>, Seq<char>)>,
    b: Backend,
    s: Seq<char>,
    i: int,
    n: nat,
)
    requires
        escaped_at(s, i),
    ensures
        scan_from(see, nest, b, s, i, n).0 == s.subrange(i + 1, escaped_end(s, i)) + scan_from(
            see,
            nest,
            b,
            s,
            escaped_end(s, i),
            n,
        ).0,
        scan_from(see, nest, b, s, i, n).1 == scan_from(see, nest, b, s, escaped_end(s, i), n).1,
{
}

/// A chapter that is one escaped span `\{{x}}`, where `x` holds no `}`, becomes `{{x}}` and
/// records no location.
pub proof fn lemma_escaped_chapter(
    see: Seq<(Seq<char>, Seq<char>)>,
    nest: Seq<(Seq<char>, Seq<char>)>,
    b: Backend,
    x: Seq<char>,
)
    requires
        !x.contains('}'),
    ensures
        scan_from(see, nest, b, "\\{{"@ + x + "}}"@, 0, 1).0 == "{{"@ + x + "}}"@,
        scan_from(see, nest, b, "\\{{"@ + x + "}}"@, 0, 1).1.len() == 0,
{
    reveal_strlit("\\{{");
    reveal_strlit("}}");
    reveal_strlit("{{");
    let s = "\\{{"@ + x + "}}"@;
    let t: int = 3 + x.len() as int;
    crate::canon::lemma_find_from(s, 3, '}');
    let j = crate::canon::find_from(s, 3, '}');
    assert(s[t] == '}');
    assert forall|k: int| 3 <= k < t implies s[k] != '}' by {
        assert(s[k] == x[k - 3]);
    }
    assert(j == t);
    assert(escaped_at(s, 0));
    assert(escaped_end(s, 0) == s.len());
    let e = scan_from(see, nest, b, s, s.len() as int, 1);
    assert(e.0.len() == 0 && e.1.len() == 0);
    assert(s.subrange(1, escaped_end(s, 0)) =~= "{{"@ + x + "}}"@);
    assert(scan_from(see, nest, b, s, 0, 1).0 =~= s.subrange(1, escaped_end(s, 0)) + e.0);
}

/// An index span gives exactly one location, numbered `n`, when the backend keeps locations;
/// scanning goes on after it with the next number.
pub proof fn lemma_index_span(
    see: Seq<(Seq<char>, Seq<char>)>,
    nest: Seq<(Seq<char>, Seq<char>)>,
    s: Seq<char>,
    i: int,
    n: nat,
)
    requires
        markup_at(s, i),
        !escaped_at(s, i),
    ensures
        scan_from(see, nest, Backend::Standard, s, i, n).1 == seq![(span_label(see, s, i), n)]
            + scan_from(see, nest, Backend::Standard, s, content_end(s, i) + 2, n + 1).1,
{
}

/// The locations that one scan records are numbered `n`, `n + 1`, ... in the order they are
/// found, so no two of a chapter share an anchor.
pub proof fn lemma_anchors_count_up(
    see: Seq<(Seq<char>, Seq<char>)>,
    nest: Seq<(Seq<char>, Seq<char>)>,
    b: Backend,
    s: Seq<char>,
    i: int,
    n: nat,
)
    ensures
        forall|k: int|
            0 <= k < scan_from(see, nest, b, s, i, n).1.len() ==> #[trigger] scan_from(
                see,
                nest,
                b,
                s,
                i,
                n,
            ).1[k].1 == n + k,
    decreases s.len() - i,
{
    if 0 <= i < s.len() {
        if escaped_at(s, i) {
            lemma_anchors_count_up(see, nest, b, s, escaped_end(s, i), n);
            assert(scan_from(see, nest, b, s, i, n).1 == scan_from(
                see,
                nest,
                b,
                s,
                escaped_end(s, i),
                n,
            ).1);
        } else if markup_at(s, i) {
            let e = content_end(s, i) + 2;
            if b == Backend::Standard {
                lemma_anchors_count_up(see, nest, b, s, e, n + 1);
                let r = scan_from(see, nest, b, s, e, n + 1).1;
                assert forall|k: int|
                    0 <= k < scan_from(see, nest, b, s, i, n).1.len() implies #[trigger] scan_from(
                    see,
                    nest,
                    b,
                    s,
                    i,
                    n,
                ).1[k].1 == n + k by {
                    if k > 0 {
                        assert(scan_from(see, nest, b, s, i, n).1[k] == r[k - 1]);
                    }
                }
            } else {
                lemma_anchors_count_up(see, nest, b, s, e, n);
                assert(scan_from(see, nest, b, s, i, n).1 == scan_from(see, nest, b, s, e, n).1);
            }
        } else {
            lemma_anchors_count_up(see, nest, b, s, i + 1, n);
            assert(scan_from(see, nest, b, s, i, n).1 == scan_from(see, nest, b, s, i + 1, n).1);
        }
    }
}

} // verus!
