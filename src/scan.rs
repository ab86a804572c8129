//! The markup grammar: escaped spans `\{{...}}` and index spans `{{i:..}}`, `{{hi:..}}`,
//! `{{ii:..}}`, found left to right without overlap.
use vstd::prelude::*;
use crate::canon::{is_ws, is_whitespace, find_from, find_char, lemma_find_from};
use crate::text::{push_all, push_str, chars_of, string_of, slice_of};

verus! {

/// How the text of an index span shows in the chapter.
#[derive(Clone, Copy, PartialEq, Eq, Debug, Structural)]
pub enum Mode {
    /// `i`: shown as written.
    Visible,
    /// `hi`: not shown.
    Hidden,
    /// `ii`: shown in italics.
    Italic,
}

/// The index after a run of whitespace that starts at `i`.
pub open spec fn skip_ws_from(s: Seq<char>, i: int) -> int
    decreases s.len() - i,
{
    if i < 0 || i >= s.len() {
        s.len() as int
    } else if is_ws(s[i]) {
        skip_ws_from(s, i + 1)
    } else {
        i
    }
}

/// The first index at or after `i` where `}}` starts, or the length when there is none.
pub open spec fn close_from(s: Seq<char>, i: int) -> int
    decreases s.len() - i,
{
    if i < 0 || i + 1 >= s.len() {
        s.len() as int
    } else if s[i] == '}' && s[i + 1] == '}' {
        i
    } else {
        close_from(s, i + 1)
    }
}

/// Whether an escaped span `\{{` .. `}}` starts at `i`: it holds no `}` before its closing
/// braces.
pub open spec fn escaped_at(s: Seq<char>, i: int) -> bool {
    let j = find_from(s, i + 3, '}');
    0 <= i && i + 3 <= j && j + 1 < s.len() && s[i] == '\\' && s[i + 1] == '{' && s[i + 2] == '{'
        && s[j + 1] == '}'
}

/// The end of the escaped span that starts at `i`.
pub open spec fn escaped_end(s: Seq<char>, i: int) -> int {
    find_from(s, i + 3, '}') + 2
}

/// The length of the mode token after `{{` at `i`, with its `:` following: 2 for `hi` and
/// `ii`, 1 for `i`, 0 when there is none.
pub open spec fn mode_len(s: Seq<char>, i: int) -> int {
    if i + 5 <= s.len() && (s[i + 2] == 'h' || s[i + 2] == 'i') && s[i + 3] == 'i' && s[i + 4]
        == ':' {
        2
    } else if i + 4 <= s.len() && s[i + 2] == 'i' && s[i + 3] == ':' {
        1
    } else {
        0
    }
}

/// The mode of the index span at `i`.
pub open spec fn mode_at(s: Seq<char>, i: int) -> Mode {
    if mode_len(s, i) == 1 {
        Mode::Visible
    } else if s[i + 2] == 'h' {
        Mode::Hidden
    } else {
        Mode::Italic
    }
}

/// Where the content of the index span at `i` starts: after its separator and any whitespace.
pub open spec fn content_start(s: Seq<char>, i: int) -> int {
    skip_ws_from(s, i + 3 + mode_len(s, i))
}

/// Where the content of the index span at `i` ends: at the first `}}` after its start.
pub open spec fn content_end(s: Seq<char>, i: int) -> int {
    close_from(s, content_start(s, i))
}

/// Whether an index span `{{<mode>:<content>}}` starts at `i`.
pub open spec fn markup_at(s: Seq<char>, i: int) -> bool {
    0 <= i && i + 2 <= s.len() && s[i] == '{' && s[i + 1] == '{' && mode_len(s, i) > 0 && i + 3
        <= content_start(s, i) <= content_end(s, i) && content_end(s, i) + 2 <= s.len()
}

/// The raw content of the index span at `i`.
pub open spec fn content_at(s: Seq<char>, i: int) -> Seq<char> {
    s.subrange(content_start(s, i), content_end(s, i))
}

proof fn lemma_skip_ws_from(s: Seq<char>, i: int)
    requires
        0 <= i <= s.len(),
    ensures
        i <= skip_ws_from(s, i) <= s.len(),
    decreases s.len() - i,
{
    if i < s.len() && is_ws(s[i]) {
        lemma_skip_ws_from(s, i + 1);
    }
}

proof fn lemma_close_from(s: Seq<char>, i: int)
    requires
        0 <= i <= s.len(),
    ensures
        i <= close_from(s, i) <= s.len(),
        close_from(s, i) < s.len() ==> close_from(s, i) + 1 < s.len(),
    decreases s.len() - i,
{
    if i + 1 < s.len() && !(s[i] == '}' && s[i + 1] == '}') {
        lemma_close_from(s, i + 1);
    }
}

/// The end of the escaped span that starts at `i`, if one does.
pub fn escaped_span(s: &Vec<char>, i: usize) -> (r: Option<usize>)
    requires
        i < s@.len(),
    ensures
        match r {
            Some(e) => escaped_at(s@, i as int) && e == escaped_end(s@, i as int),
            None => !escaped_at(s@, i as int),
        },
{
    if s.len() - i < 3 || s[i] != '\\' || s[i + 1] != '{' || s[i + 2] != '{' {
        return None;
    }
    let j = find_char(s, i + 3, '}');
    proof {
        lemma_find_from(s@, i + 3, '}');
    }
    if j < s.len() && s.len() - j > 1 && s[j + 1] == '}' {
        Some(j + 2)
    } else {
        None
    }
}

fn skip_whitespace(s: &Vec<char>, i: usize) -> (r: usize)
    requires
        i <= s@.len(),
    ensures
        r == skip_ws_from(s@, i as int),
{
    let mut k: usize = i;
    while k < s.len() && is_whitespace(s[k])
        invariant
            i <= k <= s@.len(),
            skip_ws_from(s@, k as int) == skip_ws_from(s@, i as int),
        decreases s.len() - k,
    {
        k += 1;
    }
    k
}

fn find_close(s: &Vec<char>, i: usize) -> (r: usize)
    requires
        i <= s@.len(),
    ensures
        r == close_from(s@, i as int),
{
    let mut k: usize = i;
    while k < s.len() && s.len() - k > 1 && !(s[k] == '}' && s[k + 1] == '}')
        invariant
            i <= k <= s@.len(),
            close_from(s@, k as int) == close_from(s@, i as int),
        decreases s.len() - k,
    {
        k += 1;
    }
    if k < s.len() && s.len() - k > 1 {
        k
    } else {
        s.len()
    }
}

/// The mode, content start and content end of the index span that starts at `i`, if one
/// does.
pub fn markup_span(s: &Vec<char>, i: usize) -> (r: Option<(Mode, usize, usize)>)
    requires
        i < s@.len(),
    ensures
        match r {
            Some((m, cs, ce)) => markup_at(s@, i as int) && m == mode_at(s@, i as int) && cs
                == content_start(s@, i as int) && ce == content_end(s@, i as int),
            None => !markup_at(s@, i as int),
        },
{
    if s.len() - i < 4 || s[i] != '{' || s[i + 1] != '{' {
        return None;
    }
    let mut len: usize = 0;
    if s.len() - i >= 5 && (s[i + 2] == 'h' || s[i + 2] == 'i') && s[i + 3] == 'i' && s[i + 4]
        == ':' {
        len = 2;
    } else if s[i + 2] == 'i' && s[i + 3] == ':' {
        len = 1;
    }
    if len == 0 {
        return None;
    }
    let mode = if len == 1 {
        Mode::Visible
    } else if s[i + 2] == 'h' {
        Mode::Hidden
    } else {
        Mode::Italic
    };
    let cs = skip_whitespace(s, i + 3 + len);
    proof {
        lemma_skip_ws_from(s@, i + 3 + len);
    }
    let ce = find_close(s, cs);
    proof {
        lemma_close_from(s@, cs as int);
    }
    if ce < s.len() {
        Some((mode, cs, ce))
    } else {
        None
    }
}

/// The end of the index span that starts at `i`.
pub proof fn lemma_markup_end(s: Seq<char>, i: int)
    requires
        markup_at(s, i),
    ensures
        content_end(s, i) + 2 <= s.len(),
        i + 6 <= content_end(s, i) + 2,
{
    lemma_skip_ws_from(s, i + 3 + mode_len(s, i));
    lemma_close_from(s, content_start(s, i));
}

/// The text of an index span as the chapter shows it.
pub open spec fn shown(mode: Mode, content: Seq<char>) -> Seq<char> {
    match mode {
        Mode::Visible => content,
        Mode::Hidden => Seq::empty(),
        Mode::Italic => "*"@ + content + "*"@,
    }
}

/// Appends the text of an index span as the chapter shows it.
pub fn push_shown(out: &mut Vec<char>, mode: Mode, content: &Vec<char>)
    ensures
        final(out)@ == old(out)@ + shown(mode, content@),
{
    match mode {
        Mode::Visible => push_all(out, content),
        Mode::Hidden => {
            assert(out@ =~= out@ + Seq::<char>::empty());
        },
        Mode::Italic => {
            push_str(out, "*");
            push_all(out, content);
            push_str(out, "*");
        },
    }
}

/// Where the span found at `i` ends.
pub open spec fn span_end(s: Seq<char>, i: int) -> int {
    if escaped_at(s, i) {
        escaped_end(s, i)
    } else {
        content_end(s, i) + 2
    }
}

/// The starts of the spans found left to right from `i`.
pub open spec fn span_starts(s: Seq<char>, i: int) -> Seq<int>
    decreases s.len() - i,
{
    if i < 0 || i >= s.len() {
        Seq::empty()
    } else if escaped_at(s, i) || markup_at(s, i) {
        seq![i] + span_starts(s, span_end(s, i))
    } else {
        span_starts(s, i + 1)
    }
}

/// One span found in a text: the text it covers and, unless it is escaped, its mode token
/// and content.
pub struct MarkupMatch {
    /// The whole span, escape character included.
    pub matched: String,
    /// The mode token (`i`, `hi` or `ii`); none for an escaped span.
    pub viz: Option<String>,
    /// The content, without the whitespace after the separator; none for an escaped span.
    pub content: Option<String>,
}

/// Whether `m` is the span that starts at `i`.
pub open spec fn match_at(s: Seq<char>, i: int, m: MarkupMatch) -> bool {
    &&& m.matched@ == s.subrange(i, span_end(s, i))
    &&& if escaped_at(s, i) {
        m.viz is None && m.content is None
    } else {
        &&& m.viz matches Some(v) && v@ == s.subrange(i + 2, i + 2 + mode_len(s, i))
        &&& m.content matches Some(c) && c@ == content_at(s, i)
    }
}

/// The spans of a text, found left to right without overlap.
pub fn find_markup(text: &str) -> (r: Vec<MarkupMatch>)
    ensures
        r@.len() == span_starts(text@, 0).len(),
        forall|k: int|
            0 <= k < r@.len() ==> match_at(text@, #[trigger] span_starts(text@, 0)[k], r@[k]),
{
    let s = chars_of(text);
    let ghost total = span_starts(s@, 0);
    let ghost mut found: Seq<int> = Seq::empty();
    let mut r: Vec<MarkupMatch> = Vec::new();
    let mut i: usize = 0;
    while i < s.len()
        invariant
            0 <= i <= s@.len(),
            s@ == text@,
            found + span_starts(s@, i as int) == total,
            r@.len() == found.len(),
            forall|k: int| 0 <= k < r@.len() ==> match_at(s@, #[trigger] found[k], r@[k]),
        decreases s.len() - i,
    {
        let ghost rest = span_starts(s@, i as int);
        if let Some(e) = escaped_span(&s, i) {
            let m = MarkupMatch {
                matched: string_of(&slice_of(&s, i, e)),
                viz: None,
                content: None,
            };
            proof {
                assert(match_at(s@, i as int, m));
                assert(found.push(i as int) + span_starts(s@, e as int) =~= found + rest);
                found = found.push(i as int);
            }
            r.push(m);
            i = e;
        } else if let Some((mode, cs, ce)) = markup_span(&s, i) {
            proof {
                lemma_markup_end(s@, i as int);
            }
            let vlen: usize = if mode == Mode::Visible {
                1
            } else {
                2
            };
            let m = MarkupMatch {
                matched: string_of(&slice_of(&s, i, ce + 2)),
                viz: Some(string_of(&slice_of(&s, i + 2, i + 2 + vlen))),
                content: Some(string_of(&slice_of(&s, cs, ce))),
            };
            proof {
                assert(match_at(s@, i as int, m));
                assert(found.push(i as int) + span_starts(s@, ce + 2) =~= found + rest);
                found = found.push(i as int);
            }
            r.push(m);
            i = ce + 2;
        } else {
            i += 1;
        }
    }
    assert(found =~= found + Seq::<int>::empty());
    r
}

/// The decimal digit for `d`.
pub open spec fn digit(d: nat) -> char {
    if d == 0 {
        '0'
    } else if d == 1 {
        '1'
    } else if d == 2 {
        '2'
    } else if d == 3 {
        '3'
    } else if d == 4 {
        '4'
    } else if d == 5 {
        '5'
    } else if d == 6 {
        '6'
    } else if d == 7 {
        '7'
    } else if d == 8 {
        '8'
    } else {
        '9'
    }
}

/// `n` written in decimal.
pub open spec fn decimal(n: nat) -> Seq<char>
    decreases n,
{
    if n < 10 {
        seq![digit(n)]
    } else {
        decimal(n / 10).push(digit(n % 10))
    }
}

/// The anchor name for the `n`th index span of a chapter: `a` and at least three digits.
pub open spec fn anchor_of(n: nat) -> Seq<char> {
    let d = decimal(n);
    seq!['a'] + if d.len() >= 3 {
        d
    } else if d.len() == 2 {
        seq!['0'] + d
    } else {
        seq!['0', '0'] + d
    }
}

fn digit_char(d: usize) -> (c: char)
    requires
        d < 10,
    ensures
        c == digit(d as nat),
{
    if d == 0 {
        '0'
    } else if d == 1 {
        '1'
    } else if d == 2 {
        '2'
    } else if d == 3 {
        '3'
    } else if d == 4 {
        '4'
    } else if d == 5 {
        '5'
    } else if d == 6 {
        '6'
    } else if d == 7 {
        '7'
    } else if d == 8 {
        '8'
    } else {
        '9'
    }
}

/// `n` written in decimal.
pub fn decimal_chars(n: usize) -> (r: Vec<char>)
    ensures
        r@ == decimal(n as nat),
    decreases n,
{
    if n < 10 {
        let mut r: Vec<char> = Vec::new();
        r.push(digit_char(n));
        assert(r@ =~= seq![digit(n as nat)]);
        r
    } else {
        let mut r = decimal_chars(n / 10);
        r.push(digit_char(n % 10));
        r
    }
}

/// The anchor name for the `n`th index span of a chapter.
pub fn anchor_chars(n: usize) -> (r: Vec<char>)
    ensures
        r@ == anchor_of(n as nat),
{
    let d = decimal_chars(n);
    let mut r: Vec<char> = Vec::new();
    r.push('a');
    if d.len() == 2 {
        r.push('0');
    } else if d.len() < 2 {
        r.push('0');
        r.push('0');
    }
    push_all(&mut r, &d);
    assert(r@ =~= anchor_of(n as nat));
    r
}

} // verus!
