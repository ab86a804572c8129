//! The layout of the index page as plain values.
use vstd::prelude::*;
use crate::scan::{anchor_of, decimal};
use crate::store::{EntryView, LocView, entry_keys, key_index};
use crate::table::lookup;

verus! {

/// Indentation for a nest-under entry.
pub const NEST_UNDER_INDENT: &'static str = "&nbsp;&nbsp;&nbsp;&nbsp;&nbsp;&nbsp;";

/// Indentation for the locations of an entry when they are listed by chapter name.
pub const USE_NAMES_INDENT: &'static str = "&nbsp;&nbsp;&nbsp;&nbsp;&nbsp;&nbsp;";

/// How one location shows on the index page, as the `idx`th of its entry (from 1): a link
/// to its anchor when its chapter has a path, else bare text.
pub open spec fn location_text(loc: LocView, idx: nat, names: bool) -> Seq<char> {
    let text = if names {
        loc.1
    } else {
        decimal(idx)
    };
    match loc.0 {
        Some(p) => "["@ + text + "]("@ + p + "#"@ + anchor_of(loc.2) + ")"@,
        None => text,
    }
}

/// What comes before each location of an entry.
pub open spec fn separator(indent: Seq<char>, names: bool) -> Seq<char> {
    if names {
        ",<br/>\n"@ + indent + USE_NAMES_INDENT@
    } else {
        ", "@
    }
}

/// The locations of an entry as the index page lists them.
pub open spec fn locations_text(locs: Seq<LocView>, indent: Seq<char>, names: bool) -> Seq<char>
    decreases locs.len(),
{
    if locs.len() == 0 {
        Seq::empty()
    } else {
        locations_text(locs.drop_last(), indent, names) + separator(indent, names) + location_text(
            locs.last(),
            locs.len() as nat,
            names,
        )
    }
}

/// The labels, in order, that are not nested under another.
pub open spec fn top_level(nest: Seq<(Seq<char>, Seq<char>)>, labels: Seq<Seq<char>>) -> Seq<
    Seq<char>,
>
    decreases labels.len(),
{
    if labels.len() == 0 {
        labels
    } else if lookup(nest, labels.last()) is None {
        top_level(nest, labels.drop_last()).push(labels.last())
    } else {
        top_level(nest, labels.drop_last())
    }
}

/// The labels, in order, that are nested under `parent`.
pub open spec fn nested_under(
    nest: Seq<(Seq<char>, Seq<char>)>,
    labels: Seq<Seq<char>>,
    parent: Seq<char>,
) -> Seq<Seq<char>>
    decreases labels.len(),
{
    if labels.len() == 0 {
        labels
    } else if lookup(nest, labels.last()) == Some(parent) {
        nested_under(nest, labels.drop_last(), parent).push(labels.last())
    } else {
        nested_under(nest, labels.drop_last(), parent)
    }
}

/// The labels `ks`, followed by those of `extra` that are not among the labels before them.
pub open spec fn union_labels(ks: Seq<Seq<char>>, extra: Seq<Seq<char>>) -> Seq<Seq<char>>
    decreases extra.len(),
{
    if extra.len() == 0 {
        ks
    } else {
        let p = union_labels(ks, extra.drop_last());
        if p.contains(extra.last()) {
            p
        } else {
            p.push(extra.last())
        }
    }
}

/// The redirects of `see` whose destination has no locations in `es`.
pub open spec fn dangling(see: Seq<(Seq<char>, Seq<char>)>, es: Seq<EntryView>) -> Seq<
    (Seq<char>, Seq<char>),
>
    decreases see.len(),
{
    if see.len() == 0 {
        see
    } else if key_index(entry_keys(es), see.last().1) < 0 {
        dangling(see.drop_last(), es).push(see.last())
    } else {
        dangling(see.drop_last(), es)
    }
}

/// The renderers named in a comma-separated list.
pub open spec fn split_commas(s: Seq<char>) -> Seq<Seq<char>>
    decreases s.len(),
{
    if s.len() == 0 {
        seq![Seq::empty()]
    } else {
        let p = split_commas(s.drop_last());
        if s.last() == ',' {
            p.push(Seq::empty())
        } else {
            p.update(p.len() - 1, p.last().push(s.last()))
        }
    }
}

pub open spec fn pairs_view(t: Seq<(String, String)>) -> Seq<(Seq<char>, Seq<char>)> {
    t.map_values(|p: (String, String)| (p.0@, p.1@))
}

} // verus!
