use mdbook_index::asciidoc::{asciidoc_protect, text_to_asciidoc};
use mdbook_index::Index;

const INDENT: &str = "&nbsp;&nbsp;&nbsp;&nbsp;&nbsp;&nbsp;";

fn pairs(items: &[(&str, &str)]) -> Vec<(String, String)> {
    items.iter().map(|(k, v)| (k.to_string(), v.to_string())).collect()
}

fn plain() -> Index {
    Index::new(None, vec![], vec![], false, false)
}

fn chars(s: &str) -> Vec<char> {
    s.chars().collect()
}

fn text(v: &[char]) -> String {
    v.iter().collect()
}

#[test]
fn case_variants_are_distinct_and_adjacent() {
    let mut ix = plain();
    ix.process_chapter("html", Some("a.md"), "A", "{{i:Foo}}");
    ix.process_chapter("html", Some("b.md"), "B", "{{i:foo}}");
    assert_eq!(
        ix.generate_index("html"),
        "# Index\n\nFoo, [1](a.md#a001)<br/>\nfoo, [1](b.md#a001)<br/>\n"
    );
}

#[test]
fn case_variants_keep_their_order_among_others() {
    let mut ix = plain();
    ix.process_chapter("html", Some("a.md"), "A", "{{i:foo}}");
    ix.process_chapter("html", Some("b.md"), "B", "{{i:Foo}}");
    ix.process_chapter("html", Some("c.md"), "C", "{{i:bar}} {{i:zoo}}");
    assert_eq!(
        ix.generate_index("html"),
        "# Index\n\nbar, [1](c.md#a001)<br/>\nFoo, [1](b.md#a001)<br/>\nfoo, [1](a.md#a001)<br/>\nzoo, [1](c.md#a002)<br/>\n"
    );
}

#[test]
fn ordering_ignores_case_and_punctuation() {
    let mut ix = plain();
    ix.process_chapter("html", None, "A", "{{i:Banana}} {{i:`apple`}} {{i:_cherry_}}");
    assert_eq!(
        ix.generate_index("html"),
        "# Index\n\n`apple`, 1<br/>\nBanana, 1<br/>\n_cherry_, 1<br/>\n"
    );
}

#[test]
fn sort_does_not_depend_on_discovery_order() {
    let mut a = plain();
    a.process_chapter("html", None, "A", "{{i:b}} {{i:B}} {{i:a}} {{i:_a_}}");
    let mut b = plain();
    b.process_chapter("html", None, "A", "{{i:_a_}} {{i:a}} {{i:B}} {{i:b}}");
    assert_eq!(a.generate_index("html"), b.generate_index("html"));
}

#[test]
fn see_instead_redirects_hidden_entry() {
    let mut ix = Index::new(None, pairs(&[("unit type", "`()`")]), vec![], false, false);
    let out = ix.process_chapter("html", Some("c.md"), "C", "x {{hi:unit type}} y");
    assert_eq!(out, "x <a name=\"a001\"></a> y");
    assert_eq!(
        ix.generate_index("html"),
        "# Index\n\n`()`, [1](c.md#a001)<br/>\nunit type, see `()`<br/>\n"
    );
}

#[test]
fn redirect_line_ignores_own_locations() {
    // "b" both redirects and, through "a", holds a location: it gets one redirect line.
    let mut ix = Index::new(None, pairs(&[("b", "c"), ("a", "b")]), vec![], false, false);
    ix.process_chapter("html", None, "A", "{{i:a}} {{i:c}}");
    assert_eq!(
        ix.generate_index("html"),
        "# Index\n\na, see b<br/>\nb, see c<br/>\nc, 1<br/>\n"
    );
}

#[test]
fn dangling_redirect_still_rendered() {
    let mut ix = Index::new(None, pairs(&[("x", "nowhere"), ("y", "here")]), vec![], false, false);
    ix.process_chapter("html", None, "A", "{{hi:here}}");
    assert_eq!(
        ix.dangling_redirects(),
        vec![("x".to_string(), "nowhere".to_string())]
    );
    assert_eq!(
        ix.generate_index("html"),
        "# Index\n\nhere, 1<br/>\nx, see nowhere<br/>\ny, see here<br/>\n"
    );
}

#[test]
fn nest_under_places_entry_beneath_parent() {
    let mut ix = Index::new(None, vec![], pairs(&[("generic type", "generics")]), false, false);
    ix.process_chapter("html", Some("g.md"), "G", "{{i:generics}} and {{i:generic type}}");
    assert_eq!(
        ix.generate_index("html"),
        format!("# Index\n\ngenerics, [1](g.md#a001)<br/>\n{INDENT}generic type, [1](g.md#a002)<br/>\n")
    );
}

#[test]
fn nested_entry_without_parent_is_dropped() {
    let mut ix = Index::new(None, vec![], pairs(&[("orphan", "missing")]), false, false);
    ix.process_chapter("html", None, "A", "{{i:orphan}} {{i:kept}}");
    assert_eq!(ix.generate_index("html"), "# Index\n\nkept, 1<br/>\n");
}

#[test]
fn suppress_head_strips_parent_prefix() {
    let nest = pairs(&[("testing, fuzz", "testing"), ("unit testing", "testing")]);
    let mut ix = Index::new(None, vec![], nest, false, true);
    ix.process_chapter("html", None, "A", "{{i:testing}} {{i:testing, fuzz}} {{i:unit testing}}");
    assert_eq!(
        ix.generate_index("html"),
        format!("# Index\n\ntesting, 1<br/>\n{INDENT}fuzz, 1<br/>\n{INDENT}unit testing, 1<br/>\n")
    );
}

#[test]
fn chapter_names_as_link_text() {
    let mut ix = Index::new(None, vec![], vec![], true, false);
    ix.process_chapter("html", Some("i.md"), "Intro", "{{i:x}}");
    ix.process_chapter("html", None, "Tools", "{{hi:x}}");
    assert_eq!(
        ix.generate_index("html"),
        format!("# Index\n\nx,<br/>\n{INDENT}[Intro](i.md#a001),<br/>\n{INDENT}Tools<br/>\n")
    );
}

#[test]
fn locations_numbered_in_discovery_order() {
    let mut ix = plain();
    let body = "{{i:w}} ".repeat(12);
    let out = ix.process_chapter("html", Some("p.md"), "P", &body);
    assert!(out.contains("<a name=\"a012\"></a>w"));
    let page = ix.generate_index("html");
    assert!(page.starts_with("# Index\n\nw, [1](p.md#a001), [2](p.md#a002)"));
    assert!(page.ends_with(", [12](p.md#a012)<br/>\n"));
}

#[test]
fn anchor_count_restarts_per_chapter() {
    let mut ix = plain();
    let a = ix.process_chapter("html", Some("a.md"), "A", "{{i:x}}{{ii:y}}");
    let b = ix.process_chapter("html", Some("b.md"), "B", "{{i:x}}");
    assert_eq!(a, "<a name=\"a001\"></a>x<a name=\"a002\"></a>*y*");
    assert_eq!(b, "<a name=\"a001\"></a>x");
}

#[test]
fn escaped_span_passes_through_without_entry() {
    let mut ix = plain();
    let out = ix.process_chapter("html", None, "A", "see \\{{i:x}} here");
    assert_eq!(out, "see {{i:x}} here");
    assert_eq!(ix.generate_index("html"), "# Index\n\n");
}

#[test]
fn escaped_then_unescaped_gets_first_anchor() {
    let mut ix = plain();
    let out = ix.process_chapter("html", None, "A", "\\{{i:x}} {{i:y}}");
    assert_eq!(out, "{{i:x}} <a name=\"a001\"></a>y");
}

#[test]
fn skipped_renderer_gets_plain_text_and_no_index() {
    let mut ix = Index::new(Some("X,pdf"), vec![], vec![], false, false);
    assert_eq!(ix.process_chapter("X", None, "A", "{{i:Foo}}"), "Foo");
    assert_eq!(ix.process_chapter("pdf", None, "A", "{{ii:Foo}} {{hi:Bar}}"), "*Foo* ");
    assert_eq!(ix.generate_index("X"), "");
    assert_eq!(ix.generate_index("html"), "# Index\n\n");
}

#[test]
fn asciidoc_backend_emits_index_terms() {
    let nest = pairs(&[("generic type", "generics")]);
    let mut ix = Index::new(None, vec![], nest, false, false);
    let out = ix.process_chapter(
        "asciidoc",
        None,
        "A",
        "{{i:a, b}} {{hi:generic type}} {{ii:`Vec<T>`}}",
    );
    assert_eq!(
        out,
        "indexterm:[\"a, b\"] a, b indexterm:[generics,\"generic type\"]  indexterm:[Vec&lt;T&gt;] *`Vec<T>`*"
    );
    assert_eq!(ix.generate_index("asciidoc"), "[index]\n== Index\n");
}

#[test]
fn asciidoc_text_and_protection() {
    assert_eq!(text(&text_to_asciidoc(&chars("*`a & b`*"))), "a &amp; b");
    assert_eq!(text(&text_to_asciidoc(&chars("__init__"))), "init");
    let mut t = chars("x (C), y");
    asciidoc_protect(&mut t);
    assert_eq!(text(&t), "pass:[\"x (C), y\"]");
    let mut u = chars("plain");
    asciidoc_protect(&mut u);
    assert_eq!(text(&u), "plain");
}

#[test]
fn supported_renderers() {
    assert!(Index::supports_renderer("html"));
    assert!(Index::supports_renderer(""));
    assert!(!Index::supports_renderer("not-supported"));
}
