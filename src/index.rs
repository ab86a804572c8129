//! The index: configuration, the entries collected from chapters, and the index page.
use vstd::prelude::*;
use crate::asciidoc::{text_to_asciidoc, asciidoc_protect};
use crate::canon::canonical_chars;
use crate::chapter::{Backend, index_term, span_label, replacement, scan_from};
use crate::page::{
    NEST_UNDER_INDENT, USE_NAMES_INDENT, location_text, separator, locations_text, top_level,
    nested_under, union_labels, dangling, split_commas, pairs_view,
};
use crate::scan::{
    decimal_chars, Mode, markup_at, mode_at, content_end, escaped_span, markup_span,
    lemma_markup_end, push_shown, anchor_chars,
};
use crate::store::{
    EntryView, LocView, entry_keys, key_index, lemma_key_index, locations_of, add_location,
    record_all,
};
use crate::table::{table_view, table_keys, lookup, get_value, find_key};
use crate::sort::{sorted_labels, sort_labels, views};
use crate::text::{chars_of, string_of, push_all, push_str, push_range, slice_of, same_chars, copy_of};

verus! {

/// Location of an index anchor in the source book.
pub struct Location {
    /// File in source book.
    path: Option<Vec<char>>,
    /// Chapter name in source book.
    name: Vec<char>,
    /// Number of the anchor within its chapter, counted from 1.
    anchor: usize,
}

pub open spec fn opt_view(p: Option<Vec<char>>) -> Option<Seq<char>> {
    match p {
        Some(v) => Some(v@),
        None => None,
    }
}

impl View for Location {
    type V = LocView;

    closed spec fn view(&self) -> LocView {
        (opt_view(self.path), self.name@, self.anchor as nat)
    }
}

/// The locations of one label.
pub struct Entry {
    label: Vec<char>,
    locations: Vec<Location>,
}

impl View for Entry {
    type V = EntryView;

    closed spec fn view(&self) -> EntryView {
        (self.label@, self.locations@.map_values(|l: Location| l@))
    }
}

pub open spec fn entries_view(es: Seq<Entry>) -> Seq<EntryView> {
    es.map_values(|e: Entry| e@)
}

/// A label that the nesting table places under another never appears among the top-level
/// labels of the page.
pub proof fn lemma_nested_not_top_level(
    nest: Seq<(Seq<char>, Seq<char>)>,
    labels: Seq<Seq<char>>,
    k: Seq<char>,
)
    requires
        lookup(nest, k) is Some,
    ensures
        !top_level(nest, labels).contains(k),
    decreases labels.len(),
{
    if labels.len() > 0 {
        lemma_nested_not_top_level(nest, labels.drop_last(), k);
        let p = top_level(nest, labels.drop_last());
        if lookup(nest, labels.last()) is None {
            assert forall|j: int| 0 <= j < p.len() + 1 implies p.push(labels.last())[j] != k by {
                if j < p.len() {
                    assert(p.push(labels.last())[j] == p[j]);
                }
            }
        }
    }
}

/// A redirected label shows as "label, see destination" and never with locations: its line
/// is the same whatever locations the store holds for it.
pub proof fn lemma_redirect_line(
    a: &Index,
    b: &Index,
    indent: Seq<char>,
    entry: Seq<char>,
    display: Seq<char>,
)
    requires
        a.see() == b.see(),
        lookup(a.see(), entry) is Some,
    ensures
        a.entry_line(indent, entry, display) == b.entry_line(indent, entry, display),
        a.entry_line(indent, entry, display) == indent + display + ", see "@ + lookup(
            a.see(),
            entry,
        ).unwrap() + "<br/>\n"@,
{
}

/// A pre-processor that tracks index entries.
pub struct Index {
    /// Renderers for which no indexing content should be emitted.
    skip_renderer: Vec<Vec<char>>,
    /// Index entries that redirect to a different entry.
    see_instead: Vec<(Vec<char>, Vec<char>)>,
    /// Index entries that should appear in the index as sub-entries underneath the specified
    /// top-level entry.
    nest_under: Vec<(Vec<char>, Vec<char>)>,
    /// Whether to skip a "head, " prefix in sub-entries where the prefix matches the top-level
    /// entry.
    suppress_head: bool,
    /// Emit chapter names as the link text in the generated index.
    use_chapter_names: bool,
    /// Index anchor locations for each (canonicalized) index entry.
    entries: Vec<Entry>,
}

impl Index {
    /// The renderers that get no index content.
    pub closed spec fn skips(&self) -> Seq<Seq<char>> {
        self.skip_renderer@.map_values(|v: Vec<char>| v@)
    }

    /// The redirect table.
    pub closed spec fn see(&self) -> Seq<(Seq<char>, Seq<char>)> {
        table_view(self.see_instead@)
    }

    /// The nesting table.
    pub closed spec fn nest(&self) -> Seq<(Seq<char>, Seq<char>)> {
        table_view(self.nest_under@)
    }

    pub closed spec fn suppresses_head(&self) -> bool {
        self.suppress_head
    }

    pub closed spec fn names_chapters(&self) -> bool {
        self.use_chapter_names
    }

    /// The entries collected so far.
    pub closed spec fn store(&self) -> Seq<EntryView> {
        entries_view(self.entries@)
    }

    /// Each label has one entry, so each location belongs to exactly one label.
    pub closed spec fn wf(&self) -> bool {
        entry_keys(self.store()).no_duplicates()
    }

    /// The backend that renderer `r` gets.
    pub closed spec fn backend(&self, r: Seq<char>) -> Backend {
        if self.skips().contains(r) {
            Backend::Skip
        } else if r == "asciidoc"@ {
            Backend::Delegate
        } else {
            Backend::Standard
        }
    }

    /// The same configuration.
    pub closed spec fn same_config(&self, other: &Index) -> bool {
        &&& self.skips() == other.skips()
        &&& self.see() == other.see()
        &&& self.nest() == other.nest()
        &&& self.suppress_head == other.suppress_head
        &&& self.use_chapter_names == other.use_chapter_names
    }

    /// One line of the index page: a redirect, or the label and its locations.
    pub closed spec fn entry_line(&self, indent: Seq<char>, entry: Seq<char>, display: Seq<char>) -> Seq<
        char,
    > {
        indent + match lookup(self.see(), entry) {
            Some(alt) => display + ", see "@ + alt,
            None => display + locations_text(
                locations_of(self.store(), entry),
                indent,
                self.use_chapter_names,
            ),
        } + "<br/>\n"@
    }

    /// How sub-entry `sub` shows under `entry`: without a leading "`entry`, " when heads are
    /// suppressed.
    pub closed spec fn subentry_text(&self, entry: Seq<char>, sub: Seq<char>) -> Seq<char> {
        let head = entry + ", "@;
        if self.suppress_head && head.is_prefix_of(sub) {
            sub.skip(head.len() as int)
        } else {
            sub
        }
    }

    /// Every label that gets a line: the labels with locations, then the redirected ones
    /// that are not among them yet.
    pub closed spec fn all_labels(&self) -> Seq<Seq<char>> {
        union_labels(entry_keys(self.store()), table_keys(self.see()))
    }

    /// The labels in page order.
    pub closed spec fn page_order(&self) -> Seq<Seq<char>> {
        sorted_labels(self.all_labels())
    }

    /// The lines of the sub-entries `subs` of `parent`.
    pub closed spec fn subs_text(&self, parent: Seq<char>, subs: Seq<Seq<char>>) -> Seq<char>
        decreases subs.len(),
    {
        if subs.len() == 0 {
            Seq::empty()
        } else {
            self.subs_text(parent, subs.drop_last()) + self.entry_line(
                NEST_UNDER_INDENT@,
                subs.last(),
                self.subentry_text(parent, subs.last()),
            )
        }
    }

    /// The lines of the top-level labels `tops`, each followed by its sub-entries.
    pub closed spec fn body_text(&self, tops: Seq<Seq<char>>) -> Seq<char>
        decreases tops.len(),
    {
        if tops.len() == 0 {
            Seq::empty()
        } else {
            self.body_text(tops.drop_last()) + self.entry_line(""@, tops.last(), tops.last())
                + self.subs_text(tops.last(), nested_under(self.nest(), self.page_order(), tops.last()))
        }
    }

    /// The index page for renderer `r`.
    pub closed spec fn index_page(&self, r: Seq<char>) -> Seq<char> {
        match self.backend(r) {
            Backend::Skip => Seq::empty(),
            Backend::Delegate => "[index]\n== Index\n"@,
            Backend::Standard => "# Index\n\n"@ + self.body_text(
                top_level(self.nest(), self.page_order()),
            ),
        }
    }

    /// Create a new preprocessor from its configuration: the renderers to skip as a
    /// comma-separated list, the redirect and nesting tables as pairs, and the two flags.
    pub fn new(
        skip_renderer: Option<&str>,
        see_instead: Vec<(String, String)>,
        nest_under: Vec<(String, String)>,
        use_chapter_names: bool,
        suppress_head: bool,
    ) -> (r: Index)
        ensures
            r.skips() == match skip_renderer {
                Some(s) => split_commas(s@),
                None => Seq::empty(),
            },
            r.see() == pairs_view(see_instead@),
            r.nest() == pairs_view(nest_under@),
            r.names_chapters() == use_chapter_names,
            r.suppresses_head() == suppress_head,
            r.store() == Seq::<EntryView>::empty(),
            r.wf(),
    {
        let skips = match skip_renderer {
            Some(s) => split_list(s),
            None => Vec::new(),
        };
        let ix = Index {
            skip_renderer: skips,
            see_instead: table_of(&see_instead),
            nest_under: table_of(&nest_under),
            suppress_head,
            use_chapter_names,
            entries: Vec::new(),
        };
        proof {
            assert(ix.skips() =~= match skip_renderer {
                Some(s) => split_commas(s@),
                None => Seq::empty(),
            });
            assert(ix.store() =~= Seq::<EntryView>::empty());
            assert(entry_keys(ix.store()) =~= Seq::<Seq<char>>::empty());
        }
        ix
    }

    /// Generate the display form of a sub-entry.
    fn subentry(&self, entry: &Vec<char>, sub: &Vec<char>) -> (r: Vec<char>)
        ensures
            r@ == self.subentry_text(entry@, sub@),
    {
        if self.suppress_head {
            let mut head = copy_of(entry);
            push_str(&mut head, ", ");
            if head.len() <= sub.len() {
                let start = slice_of(sub, 0, head.len());
                if same_chars(&start, &head) {
                    assert(head@.is_prefix_of(sub@)) by {
                        assert(sub@.subrange(0, head@.len() as int) == head@);
                    }
                    return slice_of(sub, head.len(), sub.len());
                }
            }
            assert(!head@.is_prefix_of(sub@)) by {
                if head@.is_prefix_of(sub@) {
                    assert(sub@.subrange(0, head@.len() as int) =~= head@);
                }
            }
        }
        copy_of(sub)
    }

    /// The index of the entry for `label`, if it has one.
    fn entry_index(&self, label: &Vec<char>) -> (r: Option<usize>)
        ensures
            match r {
                Some(j) => j < self.entries@.len() && key_index(entry_keys(self.store()), label@)
                    == j,
                None => key_index(entry_keys(self.store()), label@) < 0,
            },
    {
        let ghost ks = entry_keys(self.store());
        let mut j: usize = self.entries.len();
        assert(ks.take(j as int) =~= ks);
        while j > 0
            invariant
                j <= self.entries@.len(),
                ks == entry_keys(self.store()),
                key_index(ks, label@) == key_index(ks.take(j as int), label@),
            decreases j,
        {
            let ghost t = ks.take(j as int);
            assert(t.drop_last() =~= ks.take(j - 1));
            assert(t.last() == self.entries@[j - 1].label@);
            if same_chars(&self.entries[j - 1].label, label) {
                return Some(j - 1);
            }
            j -= 1;
        }
        assert(ks.take(0) =~= Seq::<Seq<char>>::empty());
        None
    }

    /// Appends the locations of the entry for `entry`.
    fn append_locations(&self, out: &mut Vec<char>, indent: &Vec<char>, entry: &Vec<char>)
        ensures
            final(out)@ == old(out)@ + locations_text(
                locations_of(self.store(), entry@),
                indent@,
                self.use_chapter_names,
            ),
    {
        match self.entry_index(entry) {
            None => {
                assert(out@ =~= out@ + Seq::<char>::empty());
            },
            Some(j) => {
                let locs = &self.entries[j].locations;
                let ghost lv = locs@.map_values(|l: Location| l@);
                assert(lv == locations_of(self.store(), entry@));
                let ghost start = out@;
                let mut k: usize = 0;
                assert(lv.take(0) =~= Seq::<LocView>::empty());
                while k < locs.len()
                    invariant
                        0 <= k <= locs@.len(),
                        lv == locs@.map_values(|l: Location| l@),
                        out@ == start + locations_text(lv.take(k as int), indent@, self.use_chapter_names),
                    decreases locs.len() - k,
                {
                    let ghost t = lv.take(k + 1);
                    assert(t.drop_last() =~= lv.take(k as int));
                    assert(t.last() == locs@[k as int]@);
                    push_location(out, &locs[k], k + 1, indent, self.use_chapter_names);
                    assert(out@ =~= start + locations_text(t, indent@, self.use_chapter_names));
                    k += 1;
                }
                assert(lv.take(k as int) =~= lv);
            },
        }
    }

    /// Append an entry to the generated index.
    fn append_entry(
        &self,
        out: &mut Vec<char>,
        indent: &Vec<char>,
        entry: &Vec<char>,
        entry_display: &Vec<char>,
    )
        ensures
            final(out)@ == old(out)@ + self.entry_line(indent@, entry@, entry_display@),
    {
        let ghost start = out@;
        push_all(out, indent);
        match get_value(&self.see_instead, entry) {
            Some(alt) => {
                push_all(out, entry_display);
                push_str(out, ", see ");
                push_all(out, &alt);
            },
            None => {
                push_all(out, entry_display);
                self.append_locations(out, indent, entry);
            },
        }
        push_str(out, "<br/>\n");
        assert(out@ =~= start + self.entry_line(indent@, entry@, entry_display@));
    }

    /// Every label that gets a line, as character vectors.
    fn label_list(&self) -> (r: Vec<Vec<char>>)
        ensures
            views(r@) == self.all_labels(),
    {
        let mut keys: Vec<Vec<char>> = Vec::new();
        let mut i: usize = 0;
        assert(views(keys@) =~= entry_keys(self.store()).take(0));
        while i < self.entries.len()
            invariant
                0 <= i <= self.entries@.len(),
                views(keys@) == entry_keys(self.store()).take(i as int),
            decreases self.entries.len() - i,
        {
            assert(entry_keys(self.store())[i as int] == self.entries@[i as int].label@);
            let c = copy_of(&self.entries[i].label);
            let ghost before = keys@;
            keys.push(c);
            assert(views(keys@) =~= views(before).push(c@));
            assert(entry_keys(self.store()).take(i + 1) =~= entry_keys(self.store()).take(i as int).push(c@));
            i += 1;
        }
        assert(entry_keys(self.store()).take(i as int) =~= entry_keys(self.store()));
        let ghost ek = views(keys@);
        let mut k: usize = 0;
        assert(table_keys(self.see()).take(0) =~= Seq::<Seq<char>>::empty());
        while k < self.see_instead.len()
            invariant
                0 <= k <= self.see_instead@.len(),
                ek == entry_keys(self.store()),
                views(keys@) == union_labels(ek, table_keys(self.see()).take(k as int)),
            decreases self.see_instead.len() - k,
        {
            assert(table_keys(self.see())[k as int] == self.see_instead@[k as int].0@);
            let c = copy_of(&self.see_instead[k].0);
            assert(table_keys(self.see()).take(k + 1) =~= table_keys(self.see()).take(k as int).push(c@));
            assert(table_keys(self.see()).take(k + 1).drop_last() =~= table_keys(self.see()).take(k as int));
            if !has_label(&keys, &c) {
                let ghost before = keys@;
                keys.push(c);
                assert(views(keys@) =~= views(before).push(c@));
            }
            k += 1;
        }
        assert(table_keys(self.see()).take(k as int) =~= table_keys(self.see()));
        keys
    }

    /// Appends the lines of the sub-entries of `parent`.
    fn append_subs(&self, out: &mut Vec<char>, sorted: &Vec<Vec<char>>, parent: &Vec<char>)
        requires
            views(sorted@) == self.page_order(),
        ensures
            final(out)@ == old(out)@ + self.subs_text(
                parent@,
                nested_under(self.nest(), self.page_order(), parent@),
            ),
    {
        let ghost start = out@;
        let ghost order = views(sorted@);
        let indent = chars_of(NEST_UNDER_INDENT);
        let mut u: usize = 0;
        assert(order.take(0) =~= Seq::<Seq<char>>::empty());
        while u < sorted.len()
            invariant
                0 <= u <= sorted@.len(),
                order == views(sorted@),
                indent@ == NEST_UNDER_INDENT@,
                out@ == start + self.subs_text(parent@, nested_under(self.nest(), order.take(u as int), parent@)),
            decreases sorted.len() - u,
        {
            let ghost t = order.take(u + 1);
            assert(t.drop_last() =~= order.take(u as int));
            let sub = &sorted[u];
            let head = get_value(&self.nest_under, sub);
            let is_sub = match &head {
                Some(h) => same_chars(h, parent),
                None => false,
            };
            assert(t.last() == sub@);
            let ghost prev = nested_under(self.nest(), order.take(u as int), parent@);
            if is_sub {
                let display = self.subentry(parent, sub);
                self.append_entry(out, &indent, sub, &display);
                assert(nested_under(self.nest(), t, parent@) == prev.push(sub@));
                assert(prev.push(sub@).drop_last() =~= prev);
            } else {
                assert(nested_under(self.nest(), t, parent@) == prev);
            }
            u += 1;
        }
        assert(order.take(u as int) =~= order);
    }

    /// Generate the index page.
    pub fn generate_index(&self, renderer: &str) -> (r: String)
        ensures
            r@ == self.index_page(renderer@),
    {
        let rv = chars_of(renderer);
        match self.backend_for(&rv) {
            Backend::Skip => {
                let e: Vec<char> = Vec::new();
                return string_of(&e);
            },
            Backend::Delegate => {
                let mut d: Vec<char> = Vec::new();
                push_str(&mut d, "[index]\n== Index\n");
                assert(d@ =~= "[index]\n== Index\n"@);
                return string_of(&d);
            },
            Backend::Standard => {},
        }
        let mut out: Vec<char> = Vec::new();
        push_str(&mut out, "# Index\n\n");
        let ghost start = out@;
        assert(start =~= "# Index\n\n"@);
        // Sort by the label itself and then, stably, by its lower-case form without
        // punctuation, so that labels equal but for case always come in the same order.
        let keys = self.label_list();
        let sorted = sort_labels(&keys);
        let ghost order = views(sorted@);
        let empty: Vec<char> = Vec::new();
        let mut t: usize = 0;
        assert(order.take(0) =~= Seq::<Seq<char>>::empty());
        while t < sorted.len()
            invariant
                0 <= t <= sorted@.len(),
                order == views(sorted@),
                order == self.page_order(),
                empty@ == Seq::<char>::empty(),
                out@ == start + self.body_text(top_level(self.nest(), order.take(t as int))),
            decreases sorted.len() - t,
        {
            let ghost tk = order.take(t + 1);
            assert(tk.drop_last() =~= order.take(t as int));
            let entry = &sorted[t];
            assert(tk.last() == entry@);
            let ghost prev = top_level(self.nest(), order.take(t as int));
            match find_key(&self.nest_under, entry) {
                Some(_) => {
                    assert(top_level(self.nest(), tk) == prev);
                },
                None => {
                    proof {
                        assert(""@ =~= empty@) by {
                            reveal_strlit("");
                        }
                    }
                    self.append_entry(&mut out, &empty, entry, entry);
                    self.append_subs(&mut out, &sorted, entry);
                    assert(top_level(self.nest(), tk) == prev.push(entry@));
                    assert(prev.push(entry@).drop_last() =~= prev);
                    assert(out@ =~= start + self.body_text(top_level(self.nest(), tk)));
                },
            }
            t += 1;
        }
        assert(order.take(t as int) =~= order);
        string_of(&out)
    }

    /// The redirects, as (label, destination), whose destination has no entry of its own.
    pub fn dangling_redirects(&self) -> (r: Vec<(String, String)>)
        ensures
            pairs_view(r@) == dangling(self.see(), self.store()),
    {
        let mut r: Vec<(String, String)> = Vec::new();
        let mut k: usize = 0;
        assert(self.see().take(0) =~= Seq::<(Seq<char>, Seq<char>)>::empty());
        assert(pairs_view(r@) =~= Seq::<(Seq<char>, Seq<char>)>::empty());
        while k < self.see_instead.len()
            invariant
                0 <= k <= self.see_instead@.len(),
                pairs_view(r@) == dangling(self.see().take(k as int), self.store()),
            decreases self.see_instead.len() - k,
        {
            let ghost t = self.see().take(k + 1);
            assert(t.drop_last() =~= self.see().take(k as int));
            assert(t.last() == (self.see_instead@[k as int].0@, self.see_instead@[k as int].1@));
            if self.entry_index(&self.see_instead[k].1).is_none() {
                let pair = (string_of(&self.see_instead[k].0), string_of(&self.see_instead[k].1));
                let ghost before = r@;
                r.push(pair);
                assert(pairs_view(r@) =~= pairs_view(before).push((pair.0@, pair.1@)));
            }
            k += 1;
        }
        assert(self.see().take(k as int) =~= self.see());
        r
    }

    /// Indicate whether a renderer is supported: every one is but `not-supported`.
    pub fn supports_renderer(renderer: &str) -> (r: bool)
        ensures
            r == (renderer@ != "not-supported"@),
    {
        let v = chars_of(renderer);
        let n = chars_of("not-supported");
        !same_chars(&v, &n)
    }

    fn backend_for(&self, renderer: &Vec<char>) -> (r: Backend)
        ensures
            r == self.backend(renderer@),
    {
        let mut j: usize = 0;
        while j < self.skip_renderer.len()
            invariant
                0 <= j <= self.skip_renderer@.len(),
                forall|k: int| 0 <= k < j ==> self.skips()[k] != renderer@,
            decreases self.skip_renderer.len() - j,
        {
            if same_chars(&self.skip_renderer[j], renderer) {
                assert(self.skips()[j as int] == renderer@);
                return Backend::Skip;
            }
            j += 1;
        }
        let a = chars_of("asciidoc");
        if same_chars(renderer, &a) {
            Backend::Delegate
        } else {
            Backend::Standard
        }
    }

    /// Records one more location under `label`.
    fn add_location(&mut self, label: Vec<char>, loc: Location)
        requires
            old(self).wf(),
        ensures
            final(self).store() == add_location(old(self).store(), label@, loc@),
            final(self).same_config(old(self)),
            final(self).wf(),
    {
        let ghost es = self.store();
        let mut j: usize = self.entries.len();
        assert(entry_keys(es).take(j as int) =~= entry_keys(es));
        while j > 0
            invariant
                j <= self.entries@.len(),
                es == self.store(),
                es == old(self).store(),
                self.same_config(old(self)),
                self.wf(),
                key_index(entry_keys(es), label@) == key_index(entry_keys(es).take(j as int), label@),
            decreases j,
        {
            let ghost ks = entry_keys(es).take(j as int);
            assert(ks.drop_last() =~= entry_keys(es).take(j - 1));
            assert(ks.last() == self.entries@[j - 1].label@);
            if same_chars(&self.entries[j - 1].label, &label) {
                let ghost old_entries = self.entries@;
                let mut e = self.entries.remove(j - 1);
                let ghost e0 = e;
                e.locations.push(loc);
                proof {
                    assert(e@.1 =~= e0@.1.push(loc@));
                }
                self.entries.insert(j - 1, e);
                proof {
                    assert(self.entries@ =~= old_entries.update(j - 1, e));
                    assert(key_index(entry_keys(es), label@) == j - 1);
                    assert(self.store() =~= add_location(es, label@, loc@));
                    assert(entry_keys(self.store()) =~= entry_keys(es));
                }
                return;
            }
            j -= 1;
        }
        assert(entry_keys(es).take(0) =~= Seq::<Seq<char>>::empty());
        let mut locations: Vec<Location> = Vec::new();
        locations.push(loc);
        let ghost old_entries = self.entries@;
        let e = Entry { label, locations };
        proof {
            assert(e@.1 =~= seq![loc@]);
        }
        self.entries.push(e);
        proof {
            assert(key_index(entry_keys(es), label@) == -1);
            assert(self.store() =~= add_location(es, label@, loc@));
            lemma_key_index(entry_keys(es), label@);
            assert(entry_keys(self.store()) =~= entry_keys(es).push(label@));
        }
    }

    /// Process a chapter, emitting index anchors and accumulating the index information.
    pub fn process_chapter(
        &mut self,
        renderer: &str,
        path: Option<&str>,
        name: &str,
        content: &str,
    ) -> (r: String)
        requires
            old(self).wf(),
        ensures
            r@ == scan_from(
                old(self).see(),
                old(self).nest(),
                old(self).backend(renderer@),
                content@,
                0,
                1,
            ).0,
            final(self).store() == record_all(
                old(self).store(),
                scan_from(
                    old(self).see(),
                    old(self).nest(),
                    old(self).backend(renderer@),
                    content@,
                    0,
                    1,
                ).1,
                match path {
                    Some(p) => Some(p@),
                    None => None,
                },
                name@,
            ),
            final(self).same_config(old(self)),
            final(self).wf(),
    {
        let ghost see = self.see();
        let ghost nest = self.nest();
        let ghost es0 = self.store();
        let rv = chars_of(renderer);
        let b = self.backend_for(&rv);
        let s = chars_of(content);
        let path_chars: Option<Vec<char>> = match path {
            Some(p) => Some(chars_of(p)),
            None => None,
        };
        let ghost pv = opt_view(path_chars);
        let name_chars = chars_of(name);
        let ghost total = scan_from(see, nest, b, s@, 0, 1);
        let ghost mut evs: Seq<(Seq<char>, nat)> = Seq::empty();
        let mut out: Vec<char> = Vec::new();
        let mut count: usize = 1;
        let mut i: usize = 0;
        while i < s.len()
            invariant
                0 <= i <= s@.len(),
                1 <= count <= i + 1,
                see == self.see(),
                nest == self.nest(),
                b == self.backend(renderer@),
                pv == opt_view(path_chars),
                out@ + scan_from(see, nest, b, s@, i as int, count as nat).0 == total.0,
                evs + scan_from(see, nest, b, s@, i as int, count as nat).1 == total.1,
                self.store() == record_all(es0, evs, pv, name_chars@),
                self.same_config(old(self)),
                self.wf(),
            decreases s.len() - i,
        {
            let ghost rest = scan_from(see, nest, b, s@, i as int, count as nat);
            if let Some(e) = escaped_span(&s, i) {
                let ghost before = out@;
                push_range(&mut out, &s, i + 1, e);
                assert(before + rest.0 =~= out@ + scan_from(see, nest, b, s@, e as int, count as nat).0);
                i = e;
            } else if let Some((mode, cs, ce)) = markup_span(&s, i) {
                proof {
                    lemma_markup_end(s@, i as int);
                }
                let ghost before = out@;
                self.emit_span(&mut out, b, &s, i, mode, cs, ce, count, &path_chars, &name_chars);
                if b == Backend::Standard {
                    let ghost ev = (span_label(see, s@, i as int), count as nat);
                    proof {
                        assert((evs.push(ev)).drop_last() =~= evs);
                        assert(evs.push(ev) + scan_from(see, nest, b, s@, ce + 2, (count + 1) as nat).1
                            =~= evs + rest.1);
                        evs = evs.push(ev);
                    }
                    count += 1;
                }
                assert(before + rest.0 =~= out@ + scan_from(
                    see,
                    nest,
                    b,
                    s@,
                    ce + 2,
                    count as nat,
                ).0);
                i = ce + 2;
            } else {
                let ghost before = out@;
                out.push(s[i]);
                assert(before + rest.0 =~= out@ + scan_from(see, nest, b, s@, i + 1, count as nat).0);
                i += 1;
            }
        }
        assert(out@ =~= out@ + Seq::<char>::empty());
        assert(evs =~= evs + Seq::<(Seq<char>, nat)>::empty());
        string_of(&out)
    }

    /// Writes what replaces the index span at `i`, the `count`th of its chapter, and records
    /// its location when the backend keeps them.
    fn emit_span(
        &mut self,
        out: &mut Vec<char>,
        b: Backend,
        s: &Vec<char>,
        i: usize,
        mode: Mode,
        cs: usize,
        ce: usize,
        count: usize,
        path_chars: &Option<Vec<char>>,
        name_chars: &Vec<char>,
    )
        requires
            markup_at(s@, i as int),
            mode == mode_at(s@, i as int),
            cs == crate::scan::content_start(s@, i as int),
            ce == content_end(s@, i as int),
            old(self).wf(),
        ensures
            final(out)@ == old(out)@ + replacement(
                old(self).see(),
                old(self).nest(),
                b,
                s@,
                i as int,
                count as nat,
            ),
            final(self).store() == if b == Backend::Standard {
                add_location(
                    old(self).store(),
                    span_label(old(self).see(), s@, i as int),
                    (opt_view(*path_chars), name_chars@, count as nat),
                )
            } else {
                old(self).store()
            },
            final(self).same_config(old(self)),
            final(self).wf(),
    {
        let raw = slice_of(s, cs, ce);
        let canon = canonical_chars(&raw);
        let label = match get_value(&self.see_instead, &canon) {
            Some(d) => d,
            None => canon,
        };
        assert(label@ == span_label(self.see(), s@, i as int));
        match b {
            Backend::Skip => {
                push_shown(out, mode, &raw);
            },
            Backend::Delegate => {
                let term = self.index_term(&label);
                push_str(out, "indexterm:[");
                push_all(out, &term);
                push_str(out, "] ");
                push_shown(out, mode, &raw);
            },
            Backend::Standard => {
                let anchor = anchor_chars(count);
                push_str(out, "<a name=\"");
                push_all(out, &anchor);
                push_str(out, "\"></a>");
                push_shown(out, mode, &raw);
                let loc = Location {
                    path: match path_chars {
                        Some(p) => Some(copy_of(p)),
                        None => None,
                    },
                    name: copy_of(name_chars),
                    anchor: count,
                };
                self.add_location(label, loc);
            },
        }
    }

    /// The AsciiDoc index term for a label, nested under its configured parent if it has one.
    fn index_term(&self, label: &Vec<char>) -> (r: Vec<char>)
        ensures
            r@ == index_term(self.nest(), label@),
    {
        let mut entry = text_to_asciidoc(label);
        match get_value(&self.nest_under, label) {
            Some(parent) => {
                let mut head = text_to_asciidoc(&parent);
                asciidoc_protect(&mut head);
                let mut r: Vec<char> = Vec::new();
                push_all(&mut r, &head);
                push_str(&mut r, ",\"");
                push_all(&mut r, &entry);
                push_str(&mut r, "\"");
                assert(r@ =~= index_term(self.nest(), label@));
                r
            },
            None => {
                asciidoc_protect(&mut entry);
                entry
            },
        }
    }
}

/// Whether `k` is among the labels `v`.
fn has_label(v: &Vec<Vec<char>>, k: &Vec<char>) -> (r: bool)
    ensures
        r == views(v@).contains(k@),
{
    let mut j: usize = 0;
    while j < v.len()
        invariant
            0 <= j <= v@.len(),
            forall|i: int| 0 <= i < j ==> views(v@)[i] != k@,
        decreases v.len() - j,
    {
        if same_chars(&v[j], k) {
            assert(views(v@)[j as int] == k@);
            return true;
        }
        j += 1;
    }
    false
}

/// Appends one location of an entry, the `idx`th, with the separator before it.
fn push_location(out: &mut Vec<char>, loc: &Location, idx: usize, indent: &Vec<char>, names: bool)
    ensures
        final(out)@ == old(out)@ + separator(indent@, names) + location_text(loc@, idx as nat, names),
{
    let ghost start = out@;
    if names {
        push_str(out, ",<br/>\n");
        push_all(out, indent);
        push_str(out, USE_NAMES_INDENT);
    } else {
        push_str(out, ", ");
    }
    let ghost mid = out@;
    assert(mid =~= start + separator(indent@, names));
    let text = if names {
        copy_of(&loc.name)
    } else {
        decimal_chars(idx)
    };
    match &loc.path {
        Some(p) => {
            push_str(out, "[");
            push_all(out, &text);
            push_str(out, "](");
            push_all(out, p);
            push_str(out, "#");
            let a = anchor_chars(loc.anchor);
            push_all(out, &a);
            push_str(out, ")");
        },
        None => {
            push_all(out, &text);
        },
    }
    assert(out@ =~= mid + location_text(loc@, idx as nat, names));
}

/// The renderers named in a comma-separated list.
fn split_list(s: &str) -> (r: Vec<Vec<char>>)
    ensures
        views(r@) == split_commas(s@),
{
    let v = chars_of(s);
    let mut pieces: Vec<Vec<char>> = Vec::new();
    let mut cur: Vec<char> = Vec::new();
    let mut i: usize = 0;
    assert(v@.take(0) =~= Seq::<char>::empty());
    assert(views(pieces@).push(cur@) =~= split_commas(v@.take(0)));
    while i < v.len()
        invariant
            0 <= i <= v@.len(),
            views(pieces@).push(cur@) == split_commas(v@.take(i as int)),
        decreases v.len() - i,
    {
        assert(v@.take(i + 1).drop_last() =~= v@.take(i as int));
        let ghost p = split_commas(v@.take(i as int));
        if v[i] == ',' {
            let done = cur;
            pieces.push(done);
            cur = Vec::new();
            assert(views(pieces@).push(cur@) =~= p.push(Seq::empty()));
        } else {
            cur.push(v[i]);
            assert(views(pieces@).push(cur@) =~= p.update(p.len() - 1, p.last().push(v@[i as int])));
        }
        i += 1;
    }
    assert(v@.take(i as int) =~= v@);
    pieces.push(cur);
    pieces
}

/// A table of character sequences from pairs of strings.
fn table_of(t: &Vec<(String, String)>) -> (r: Vec<(Vec<char>, Vec<char>)>)
    ensures
        table_view(r@) == pairs_view(t@),
{
    let mut r: Vec<(Vec<char>, Vec<char>)> = Vec::new();
    let mut i: usize = 0;
    while i < t.len()
        invariant
            0 <= i <= t@.len(),
            table_view(r@) == pairs_view(t@.take(i as int)),
        decreases t.len() - i,
    {
        let k = chars_of(t[i].0.as_str());
        let v = chars_of(t[i].1.as_str());
        r.push((k, v));
        assert(pairs_view(t@.take(i + 1)) =~= pairs_view(t@.take(i as int)).push((t@[i as int].0@, t@[i as int].1@)));
        assert(table_view(r@) =~= pairs_view(t@.take(i as int)).push((t@[i as int].0@, t@[i as int].1@)));
        i += 1;
    }
    assert(t@.take(i as int) =~= t@);
    r
}

proof fn lemma_union_no_duplicates(ks: Seq<Seq<char>>, extra: Seq<Seq<char>>)
    requires
        ks.no_duplicates(),
    ensures
        union_labels(ks, extra).no_duplicates(),
    decreases extra.len(),
{
    if extra.len() > 0 {
        lemma_union_no_duplicates(ks, extra.drop_last());
        let p = union_labels(ks, extra.drop_last());
        if !p.contains(extra.last()) {
            let q = p.push(extra.last());
            assert forall|i: int, j: int| 0 <= i < q.len() && 0 <= j < q.len() && i != j implies q[i]
                != q[j] by {
                if i < p.len() && j < p.len() {
                    assert(q[i] == p[i] && q[j] == p[j]);
                } else if i < p.len() {
                    assert(q[i] == p[i]);
                } else if j < p.len() {
                    assert(q[j] == p[j]);
                }
            }
        }
    }
}

impl Index {
    /// Every label of the index page comes once in page order, so it gets exactly one line.
    pub proof fn lemma_page_order_unique(&self)
        requires
            self.wf(),
        ensures
            self.page_order().no_duplicates(),
    {
        let all = self.all_labels();
        lemma_union_no_duplicates(entry_keys(self.store()), table_keys(self.see()));
        crate::sort::lemma_label_order_total();
        all.lemma_sort_by_ensures(crate::sort::label_order());
        all.lemma_multiset_has_no_duplicates();
        self.page_order().lemma_multiset_has_no_duplicates_conv();
    }
}

} // verus!
