//! Index terms for the AsciiDoc backend, which builds its own index.
use vstd::prelude::*;
use crate::text::{push_all, push_str, contains_seq, has_char, chars_of, occurs_in};

verus! {

/// The text without any `c`.
pub open spec fn without(t: Seq<char>, c: char) -> Seq<char>
    decreases t.len(),
{
    if t.len() == 0 {
        t
    } else if t.last() == c {
        without(t.drop_last(), c)
    } else {
        without(t.drop_last(), c).push(t.last())
    }
}

/// The text without leading `c`s.
pub open spec fn trim_front(t: Seq<char>, c: char) -> Seq<char>
    decreases t.len(),
{
    if t.len() > 0 && t[0] == c {
        trim_front(t.drop_first(), c)
    } else {
        t
    }
}

/// The text without trailing `c`s.
pub open spec fn trim_back(t: Seq<char>, c: char) -> Seq<char>
    decreases t.len(),
{
    if t.len() > 0 && t.last() == c {
        trim_back(t.drop_last(), c)
    } else {
        t
    }
}

/// The text without leading or trailing `c`s.
pub open spec fn trim(t: Seq<char>, c: char) -> Seq<char> {
    trim_back(trim_front(t, c), c)
}

/// How one character is written in HTML text.
pub open spec fn html_char(c: char) -> Seq<char> {
    if c == '<' {
        "&lt;"@
    } else if c == '>' {
        "&gt;"@
    } else if c == '&' {
        "&amp;"@
    } else {
        seq![c]
    }
}

/// The text with `<`, `>` and `&` written as HTML entities.
pub open spec fn html_escape(t: Seq<char>) -> Seq<char>
    decreases t.len(),
{
    if t.len() == 0 {
        t
    } else {
        html_escape(t.drop_last()) + html_char(t.last())
    }
}

/// Index text as an AsciiDoc index term: backticks dropped, surrounding `*` and `_` trimmed,
/// HTML special characters escaped.
pub open spec fn asciidoc_text(t: Seq<char>) -> Seq<char> {
    html_escape(trim(trim(without(t, '`'), '*'), '_'))
}

/// The term quoted when it holds a comma, then passed through when it holds `(C)`.
pub open spec fn protected(t: Seq<char>) -> Seq<char> {
    let q = if t.contains(',') {
        "\""@ + t + "\""@
    } else {
        t
    };
    if occurs_in(q, "(C)"@) {
        "pass:["@ + q + "]"@
    } else {
        q
    }
}

fn remove_char(t: &Vec<char>, c: char) -> (r: Vec<char>)
    ensures
        r@ == without(t@, c),
{
    let mut out: Vec<char> = Vec::new();
    let mut i: usize = 0;
    assert(t@.take(0) =~= Seq::<char>::empty());
    while i < t.len()
        invariant
            0 <= i <= t@.len(),
            out@ == without(t@.take(i as int), c),
        decreases t.len() - i,
    {
        assert(t@.take(i + 1).drop_last() =~= t@.take(i as int));
        if t[i] != c {
            out.push(t[i]);
        }
        i += 1;
    }
    assert(t@.take(i as int) =~= t@);
    out
}

fn trim_char(t: &Vec<char>, c: char) -> (r: Vec<char>)
    ensures
        r@ == trim(t@, c),
{
    let mut lo: usize = 0;
    assert(t@.skip(0) =~= t@);
    while lo < t.len() && t[lo] == c
        invariant
            0 <= lo <= t@.len(),
            trim_front(t@, c) == trim_front(t@.skip(lo as int), c),
        decreases t.len() - lo,
    {
        assert(t@.skip(lo + 1) =~= t@.skip(lo as int).drop_first());
        lo += 1;
    }
    let mut hi: usize = t.len();
    assert(trim_front(t@, c) == t@.subrange(lo as int, hi as int)) by {
        assert(t@.skip(lo as int) =~= t@.subrange(lo as int, hi as int));
    }
    while hi > lo && t[hi - 1] == c
        invariant
            lo <= hi <= t@.len(),
            trim(t@, c) == trim_back(t@.subrange(lo as int, hi as int), c),
        decreases hi,
    {
        assert(t@.subrange(lo as int, hi - 1) =~= t@.subrange(lo as int, hi as int).drop_last());
        hi -= 1;
    }
    crate::text::slice_of(t, lo, hi)
}

fn escape_html(t: &Vec<char>) -> (r: Vec<char>)
    ensures
        r@ == html_escape(t@),
{
    let mut out: Vec<char> = Vec::new();
    let mut i: usize = 0;
    assert(t@.take(0) =~= Seq::<char>::empty());
    while i < t.len()
        invariant
            0 <= i <= t@.len(),
            out@ == html_escape(t@.take(i as int)),
        decreases t.len() - i,
    {
        assert(t@.take(i + 1).drop_last() =~= t@.take(i as int));
        let c = t[i];
        if c == '<' {
            push_str(&mut out, "&lt;");
        } else if c == '>' {
            push_str(&mut out, "&gt;");
        } else if c == '&' {
            push_str(&mut out, "&amp;");
        } else {
            let ghost before = out@;
            out.push(c);
            assert(out@ =~= before + seq![c]);
        }
        i += 1;
    }
    assert(t@.take(i as int) =~= t@);
    out
}

/// Convert index text into a form suitable for AsciiDoc.
pub fn text_to_asciidoc(text: &Vec<char>) -> (r: Vec<char>)
    ensures
        r@ == asciidoc_text(text@),
{
    let a = remove_char(text, '`');
    let b = trim_char(&a, '*');
    let c = trim_char(&b, '_');
    escape_html(&c)
}

/// Protect a term from AsciiDoc interpretation: quotes round a term that holds a comma, so
/// that the comma does not nest it, and a pass-through macro round one that holds `(C)`.
pub fn asciidoc_protect(text: &mut Vec<char>)
    ensures
        final(text)@ == protected(old(text)@),
{
    if has_char(text, ',') {
        let mut q: Vec<char> = Vec::new();
        push_str(&mut q, "\"");
        push_all(&mut q, text);
        push_str(&mut q, "\"");
        *text = q;
    }
    let marker = chars_of("(C)");
    if contains_seq(text, &marker) {
        let mut p: Vec<char> = Vec::new();
        push_str(&mut p, "pass:[");
        push_all(&mut p, text);
        push_str(&mut p, "]");
        *text = p;
    }
}

} // verus!
