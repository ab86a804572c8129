use mdbook_index::{canonicalize, find_markup};

/// Command for a visible index entry.
const VISIBLE: &str = "i";
/// Command for a hidden index entry.
const HIDDEN: &str = "hi";
/// Command for a visible index entry, italicized.
const ITALIC: &str = "ii";
/// Escape character.
const ESCAPE_CHAR: char = '\\';

#[test]
fn test_canonicalize() {
    let cases = vec![
        ("abc", "abc"),
        ("ab cd", "ab cd"),
        ("ab    cd", "ab cd"),
        ("ab    cd", "ab cd"),
        ("ab  \tcd", "ab cd"),
        ("ab  \ncd", "ab cd"),
        ("`ab`", "`ab`"),
        ("[`ab`](somedest)", "`ab`"),
        ("[`ab`]", "[`ab`]"),
        ("[`ab    cd`](somedest)", "`ab cd`"),
    ];
    for (input, want) in cases {
        let got = canonicalize(input);
        assert_eq!(got, want, "Mismatch for input: {}", input);
    }
}

#[test]
fn test_matches() {
    let tests = [
        ("blah {{i:simple}} blah", VISIBLE, "simple"),
        ("blah{{i:simple}}blah", VISIBLE, "simple"),
        ("blah {{hi:simple}} blah", HIDDEN, "simple"),
        ("blah {{ii:simple}} blah", ITALIC, "simple"),
        (
            "blah {{i:[link](http://example.com)}} blah",
            VISIBLE,
            "[link](http://example.com)",
        ),
        ("blah {{i:*italic*}} blah", VISIBLE, "*italic*"),
        ("blah {{i:_italic_}} blah", VISIBLE, "_italic_"),
        ("blah {{i:`code`}} blah", VISIBLE, "`code`"),
        ("blah {{i:first}} blah {{hi:second}}", VISIBLE, "first"),
        ("blah {{i:interior space}} blah", VISIBLE, "interior space"),
        (
            "blah {{i:interior\nnewline}} blah",
            VISIBLE,
            "interior\nnewline",
        ),
        (
            "blah {{i:interior\tspace}} blah",
            VISIBLE,
            "interior\tspace",
        ),
        ("blah {{i: leading space}} blah", VISIBLE, "leading space"),
        (
            "blah {{i:trailing space }} blah",
            VISIBLE,
            "trailing space ",
        ),
        ("blah {{i:normal}} blah \\{{i:escaped}}", VISIBLE, "normal"),
    ];
    for (input, want_viz, want_content) in tests {
        let found = find_markup(input);
        let got = &found[0];
        let got_viz = got.viz.as_deref().unwrap();
        assert_eq!(got_viz, want_viz, "for input '{input}'");
        let got_content = got.content.as_deref().unwrap();
        assert_eq!(got_content, want_content, "for input '{input}'");
    }
}

#[test]
fn test_escaped_matches() {
    let tests = [
        "blah \\{{i:simple}} blah",
        "blah\\{{i:simple}}blah",
        "blah \\{{hi:simple}} blah",
        "blah \\{{ii:simple}} blah",
        "blah \\{{i:`code`}} blah",
        "blah \\{{i:interior space}} blah",
        "blah \\{{i:interior\nnewline}} blah",
        "blah \\{{i: leading space}} blah",
        "blah \\{{i:trailing space }} blah",
    ];
    for input in tests {
        let found = find_markup(input);
        let got = &found[0];
        assert!(
            got.matched.starts_with(ESCAPE_CHAR),
            "got {:?} for input '{}'",
            got.matched,
            input
        );
        assert!(got.viz.is_none(), "for input '{}'", input);
        assert!(got.content.is_none(), "for input '{}'", input);
    }
}

#[test]
fn test_escaped_and_unescaped() {
    let input = "blah \\{{i:escaped}} blah {{i:second}}";
    let found = find_markup(input);
    let mut iter = found.iter();
    let got1 = iter.next().unwrap();
    assert!(got1.matched.starts_with(ESCAPE_CHAR),);
    let got2 = iter.next().unwrap();
    let got2_viz = got2.viz.as_deref().unwrap();
    assert_eq!(got2_viz, VISIBLE);
    let got2_content = got2.content.as_deref().unwrap();
    assert_eq!(got2_content, "second");
}

#[test]
fn canonicalize_is_idempotent_on_examples() {
    for input in ["a  b", "[x  y](z)\tw", "\n lead", "trail \r\n", "[a](b) [c](d)"] {
        let once = canonicalize(input);
        assert_eq!(canonicalize(&once), once);
    }
    assert_eq!(canonicalize("[a](b) and [c](d)"), "a and c");
    assert_eq!(canonicalize("a\u{a0}\u{2003} b"), "a b");
}

#[test]
fn canonicalize_reprocesses_nothing() {
    assert_eq!(canonicalize("[[a](b)](c)"), "[a](c)");
    assert_eq!(canonicalize("[](x)"), "[](x)");
    assert_eq!(canonicalize("[a]()"), "[a]()");
}

#[test]
fn unclosed_and_unknown_markup_is_left_alone() {
    assert!(find_markup("{{i:never closed").is_empty());
    assert!(find_markup("{{x:nope}}").is_empty());
    assert!(find_markup("{{ih:nope}}").is_empty());
    let found = find_markup("\\{{i:a}b}}");
    assert_eq!(found.len(), 1);
    assert_eq!(found[0].matched, "{{i:a}b}}");
}

#[test]
fn content_stops_at_first_closing_braces() {
    let found = find_markup("{{i:a}b}} {{ii:\n c}}");
    assert_eq!(found.len(), 2);
    assert_eq!(found[0].content.as_deref(), Some("a}b"));
    assert_eq!(found[0].matched, "{{i:a}b}}");
    assert_eq!(found[1].viz.as_deref(), Some("ii"));
    assert_eq!(found[1].content.as_deref(), Some("c"));
}
