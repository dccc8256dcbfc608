//! Submitted and stored documents, and the saturation pipeline that turns a
//! stored document into a rendered page plus diagnostics.

use crate::markdown::{
    chars_of, event_kind, html_of, kind_of, markdown_events, parse_markdown, render_html,
    string_of, EventKind, LinkKind, is_unresolved, link_kind, link_kind_of,
};
use crate::page::{
    footnote_entries, footnote_insert, keys_unique, key_index, lemma_key_index,
    lemma_put_entry_unique, new_footnote_table, put_entry, Html, Page,
};
use crate::timestamp::{iso_date, Timestamp};
use indexmap::{IndexMap, IndexSet};
use pulldown_cmark::Event;
use std::collections::VecDeque;
use vstd::prelude::*;

verus! {

/// A document as the persistent store holds it.
#[derive(Debug)]
pub struct DbPage {
    pub slug: String,
    pub draft: Option<bool>,
    pub published: Timestamp,
    pub title: Option<String>,
    pub last_updated: Option<Timestamp>,
    pub author: Option<String>,
    pub markdown_content: Option<String>,
}

/// A non-fatal finding of saturation.
#[derive(Clone, Debug)]
pub enum ValidateError {
    /// A footnote is referenced but never defined.
    UnknownFootnote(String),
    /// A footnote is defined but never referenced.
    UnreferencedFootnote(String),
    /// A reference-style link whose target is not defined.
    UnknownLink(String),
}

/// The value of a diagnostic.
pub enum Diagnostic {
    UnknownFootnote(Seq<char>),
    UnreferencedFootnote(Seq<char>),
    UnknownLink(Seq<char>),
}

impl View for ValidateError {
    type V = Diagnostic;

    open spec fn view(&self) -> Diagnostic {
        match self {
            ValidateError::UnknownFootnote(l) => Diagnostic::UnknownFootnote(l@),
            ValidateError::UnreferencedFootnote(l) => Diagnostic::UnreferencedFootnote(l@),
            ValidateError::UnknownLink(u) => Diagnostic::UnknownLink(u@),
        }
    }
}

pub open spec fn strs(v: Seq<String>) -> Seq<Seq<char>> {
    v.map_values(|s: String| s@)
}

pub open spec fn diags(v: Seq<ValidateError>) -> Seq<Diagnostic> {
    v.map_values(|d: ValidateError| d@)
}

pub open spec fn open_defs(v: Seq<(String, Vec<Event<'static>>)>) -> Seq<(Seq<char>, Seq<Event<'static>>)> {
    v.map_values(|p: (String, Vec<Event<'static>>)| (p.0@, p.1@))
}

/// The markdown text of a document; a missing body is empty.
pub open spec fn body_of(md: Option<String>) -> Seq<char> {
    match md {
        Some(s) => s@,
        None => Seq::empty(),
    }
}

/// A link destination that names another page: it starts with `@`.
pub open spec fn is_internal(dest: Seq<char>) -> bool {
    dest.len() > 0 && dest[0] == '@'
}

/// The slugs of the internal links, in order, duplicates kept.
pub open spec fn linked_slugs_of(evs: Seq<Event<'static>>) -> Seq<Seq<char>>
    decreases evs.len(),
{
    if evs.len() == 0 {
        Seq::empty()
    } else {
        let prev = linked_slugs_of(evs.drop_last());
        let k = kind_of(evs.last());
        if k is Link && is_internal(k->dest@) {
            prev.push(k->dest@.drop_first())
        } else {
            prev
        }
    }
}

/// One `UnknownLink` per unresolved external link, in order.
pub open spec fn link_diagnostics(evs: Seq<Event<'static>>) -> Seq<Diagnostic>
    decreases evs.len(),
{
    if evs.len() == 0 {
        Seq::empty()
    } else {
        let prev = link_diagnostics(evs.drop_last());
        let k = kind_of(evs.last());
        if k is Link && !is_internal(k->dest@) && is_unresolved(link_kind_of(k->link_type)) {
            prev.push(Diagnostic::UnknownLink(k->dest@))
        } else {
            prev
        }
    }
}

/// The labels of footnote references, in order of first reference.
pub open spec fn footnote_refs(evs: Seq<Event<'static>>) -> Seq<Seq<char>>
    decreases evs.len(),
{
    if evs.len() == 0 {
        Seq::empty()
    } else {
        let prev = footnote_refs(evs.drop_last());
        let k = kind_of(evs.last());
        if k is FootnoteReference && !prev.contains(k->FootnoteReference_0@) {
            prev.push(k->FootnoteReference_0@)
        } else {
            prev
        }
    }
}

/// The state of the pass that strips footnote definitions out of the main
/// stream: the main stream so far, the definitions closed so far (label and
/// events, a later definition of a label replacing an earlier one in place),
/// and the stack of definitions still open.
pub struct Split {
    pub main: Seq<Event<'static>>,
    pub defs: Seq<(Seq<char>, Seq<Event<'static>>)>,
    pub open: Seq<(Seq<char>, Seq<Event<'static>>)>,
}

pub open spec fn split_step(s: Split, e: Event<'static>) -> Split {
    let k = kind_of(e);
    if k is FootnoteDefinitionStart {
        Split { main: s.main, defs: s.defs, open: s.open.push((k->FootnoteDefinitionStart_0@, seq![e])) }
    } else if s.open.len() == 0 {
        Split { main: s.main.push(e), defs: s.defs, open: s.open }
    } else if k is FootnoteDefinitionEnd {
        let top = s.open.last();
        Split {
            main: s.main,
            defs: put_entry(s.defs, top.0, top.1.push(e)),
            open: s.open.drop_last(),
        }
    } else {
        let top = s.open.last();
        Split { main: s.main, defs: s.defs, open: s.open.drop_last().push((top.0, top.1.push(e))) }
    }
}

pub open spec fn split(evs: Seq<Event<'static>>) -> Split
    decreases evs.len(),
{
    if evs.len() == 0 {
        Split { main: Seq::empty(), defs: Seq::empty(), open: Seq::empty() }
    } else {
        split_step(split(evs.drop_last()), evs.last())
    }
}

/// The footnote entries of the referenced labels that are defined, in
/// reference order.
pub open spec fn referenced_entries(
    refs: Seq<Seq<char>>,
    defs: Seq<(Seq<char>, Seq<Event<'static>>)>,
) -> Seq<(Seq<char>, Seq<char>)>
    decreases refs.len(),
{
    if refs.len() == 0 {
        Seq::empty()
    } else {
        let prev = referenced_entries(refs.drop_last(), defs);
        let i = key_index(defs, refs.last());
        if i >= 0 {
            prev.push((refs.last(), html_of(defs[i].1)))
        } else {
            prev
        }
    }
}

/// One `UnknownFootnote` per referenced label that is not defined.
pub open spec fn unknown_footnotes(
    refs: Seq<Seq<char>>,
    defs: Seq<(Seq<char>, Seq<Event<'static>>)>,
) -> Seq<Diagnostic>
    decreases refs.len(),
{
    if refs.len() == 0 {
        Seq::empty()
    } else {
        let prev = unknown_footnotes(refs.drop_last(), defs);
        if key_index(defs, refs.last()) < 0 {
            prev.push(Diagnostic::UnknownFootnote(refs.last()))
        } else {
            prev
        }
    }
}

/// The definitions that no reference names, in definition order.
pub open spec fn unreferenced_entries(
    refs: Seq<Seq<char>>,
    defs: Seq<(Seq<char>, Seq<Event<'static>>)>,
) -> Seq<(Seq<char>, Seq<char>)>
    decreases defs.len(),
{
    if defs.len() == 0 {
        Seq::empty()
    } else {
        let prev = unreferenced_entries(refs, defs.drop_last());
        if !refs.contains(defs.last().0) {
            prev.push((defs.last().0, html_of(defs.last().1)))
        } else {
            prev
        }
    }
}

/// One `UnreferencedFootnote` per definition that no reference names.
pub open spec fn unreferenced_footnotes(
    refs: Seq<Seq<char>>,
    defs: Seq<(Seq<char>, Seq<Event<'static>>)>,
) -> Seq<Diagnostic>
    decreases defs.len(),
{
    if defs.len() == 0 {
        Seq::empty()
    } else {
        let prev = unreferenced_footnotes(refs, defs.drop_last());
        if !refs.contains(defs.last().0) {
            prev.push(Diagnostic::UnreferencedFootnote(defs.last().0))
        } else {
            prev
        }
    }
}

/// The footnote table of an event stream: referenced definitions in order of
/// first reference, then the unreferenced ones in definition order.
pub open spec fn footnote_table(evs: Seq<Event<'static>>) -> Seq<(Seq<char>, Seq<char>)> {
    let refs = footnote_refs(evs);
    let defs = split(evs).defs;
    referenced_entries(refs, defs) + unreferenced_entries(refs, defs)
}

/// The diagnostics of an event stream: unresolved links in order, then
/// undefined footnotes in reference order, then unreferenced footnotes in
/// definition order.
pub open spec fn diagnostics(evs: Seq<Event<'static>>) -> Seq<Diagnostic> {
    let refs = footnote_refs(evs);
    let defs = split(evs).defs;
    link_diagnostics(evs) + unknown_footnotes(refs, defs) + unreferenced_footnotes(refs, defs)
}

/// The events of a document's body.
pub open spec fn document_events(md: Option<String>) -> Seq<Event<'static>> {
    markdown_events(body_of(md))
}

/// The labels of a label set, in insertion order.
pub uninterp spec fn label_entries(s: IndexSet<String>) -> Seq<Seq<char>>;

/// The definitions of a pending-definition map, label and events, in
/// insertion order.
pub uninterp spec fn pending_entries(m: IndexMap<String, Vec<Event<'static>>>) -> Seq<(Seq<char>, Seq<Event<'static>>)>;

/// Relies on IndexSet::new: an empty set.
#[verifier::external_body]
fn new_label_set() -> (r: IndexSet<String>)
    ensures
        label_entries(r) == Seq::<Seq<char>>::empty(),
{
    IndexSet::new()
}

/// Relies on IndexSet::insert: a label not yet present is appended and
/// `true` returned; otherwise the set is left as it is and `false` returned.
#[verifier::external_body]
fn label_set_insert(s: &mut IndexSet<String>, k: String) -> (r: bool)
    ensures
        r == !label_entries(*old(s)).contains(k@),
        label_entries(*final(s)) == if r {
            label_entries(*old(s)).push(k@)
        } else {
            label_entries(*old(s))
        },
{
    s.insert(k)
}

/// Relies on IndexSet::contains: whether the label is present.
#[verifier::external_body]
fn label_set_contains(s: &IndexSet<String>, k: &String) -> (r: bool)
    ensures
        r == label_entries(*s).contains(k@),
{
    s.contains(k)
}

/// Relies on IndexSet::len: the number of labels.
#[verifier::external_body]
fn label_set_len(s: &IndexSet<String>) -> (r: usize)
    ensures
        r == label_entries(*s).len(),
{
    s.len()
}

/// Relies on IndexSet::get_index: the label at a position, if any.
#[verifier::external_body]
fn label_set_get_index(s: &IndexSet<String>, i: usize) -> (r: Option<&String>)
    ensures
        match r {
            Some(k) => i < label_entries(*s).len() && k@ == label_entries(*s)[i as int],
            None => i >= label_entries(*s).len(),
        },
{
    s.get_index(i)
}

/// Relies on IndexMap::new: an empty map.
#[verifier::external_body]
fn new_pending() -> (r: IndexMap<String, Vec<Event<'static>>>)
    ensures
        pending_entries(r) == Seq::<(Seq<char>, Seq<Event<'static>>)>::empty(),
{
    IndexMap::new()
}

/// Relies on IndexMap::insert: a new key is appended, an existing key keeps
/// its position and takes the new value.
#[verifier::external_body]
fn pending_insert(m: &mut IndexMap<String, Vec<Event<'static>>>, k: String, v: Vec<Event<'static>>)
    ensures
        pending_entries(*final(m)) == put_entry(pending_entries(*old(m)), k@, v@),
{
    m.insert(k, v);
}

/// Relies on IndexMap::get: the value of the entry with the key, if any.
#[verifier::external_body]
fn pending_get<'a>(m: &'a IndexMap<String, Vec<Event<'static>>>, k: &String) -> (r: Option<&'a Vec<Event<'static>>>)
    ensures
        match r {
            Some(v) => key_index(pending_entries(*m), k@) >= 0 && v@ == pending_entries(
                *m,
            )[key_index(pending_entries(*m), k@)].1,
            None => key_index(pending_entries(*m), k@) < 0,
        },
{
    m.get(k)
}

/// Relies on IndexMap::len: the number of entries.
#[verifier::external_body]
fn pending_len(m: &IndexMap<String, Vec<Event<'static>>>) -> (r: usize)
    ensures
        r == pending_entries(*m).len(),
{
    m.len()
}

/// Relies on IndexMap::get_index: the entry at a position, if any.
#[verifier::external_body]
fn pending_get_index<'a>(m: &'a IndexMap<String, Vec<Event<'static>>>, i: usize) -> (r: Option<(&'a String, &'a Vec<Event<'static>>)>)
    ensures
        match r {
            Some((k, v)) => i < pending_entries(*m).len() && k@ == pending_entries(*m)[i as int].0
                && v@ == pending_entries(*m)[i as int].1,
            None => i >= pending_entries(*m).len(),
        },
{
    m.get_index(i)
}

/// Whether a link was written in a reference form whose label is undefined.
fn is_unresolved_link(k: LinkKind) -> (r: bool)
    ensures
        r == is_unresolved(k),
{
    match k {
        LinkKind::ReferenceUnknown | LinkKind::CollapsedUnknown | LinkKind::ShortcutUnknown => true,
        _ => false,
    }
}

/// The slug an internal link names, or `None` for a link to elsewhere.
fn internal_target(dest: &String) -> (r: Option<String>)
    ensures
        match r {
            Some(s) => is_internal(dest@) && s@ == dest@.drop_first(),
            None => !is_internal(dest@),
        },
{
    let mut cs = chars_of(dest);
    if cs.len() > 0 && cs[0] == '@' {
        cs.remove(0);
        assert(cs@ =~= dest@.drop_first());
        Some(string_of(cs))
    } else {
        None
    }
}

/// The forward pass: classifies links, records footnote references, and
/// moves each footnote definition out of the main stream into a buffer of
/// its own, keyed by label.
fn strip_definitions(events: VecDeque<Event<'static>>) -> (r: (
    Vec<Event<'static>>,
    IndexMap<String, Vec<Event<'static>>>,
    IndexSet<String>,
    Vec<String>,
    Vec<ValidateError>,
))
    ensures
        r.0@ == split(events@).main,
        pending_entries(r.1) == split(events@).defs,
        keys_unique(pending_entries(r.1)),
        label_entries(r.2) == footnote_refs(events@),
        label_entries(r.2).no_duplicates(),
        strs(r.3@) == linked_slugs_of(events@),
        diags(r.4@) == link_diagnostics(events@),
{
    let ghost all = events@;
    let ghost mut done: Seq<Event<'static>> = Seq::empty();
    let mut queue = events;
    let mut main: Vec<Event<'static>> = Vec::new();
    let mut defs = new_pending();
    let mut open: Vec<(String, Vec<Event<'static>>)> = Vec::new();
    let mut refs = new_label_set();
    let mut slugs: Vec<String> = Vec::new();
    let mut errors: Vec<ValidateError> = Vec::new();
    assert(all =~= done + queue@);
    while queue.len() > 0
        invariant
            all == done + queue@,
            main@ == split(done).main,
            pending_entries(defs) == split(done).defs,
            open_defs(open@) == split(done).open,
            keys_unique(pending_entries(defs)),
            label_entries(refs) == footnote_refs(done),
            label_entries(refs).no_duplicates(),
            strs(slugs@) == linked_slugs_of(done),
            diags(errors@) == link_diagnostics(done),
        decreases queue@.len(),
    {
        let e = queue.pop_front().unwrap();
        let ghost prev = done;
        proof {
            done = done.push(e);
            assert(done.drop_last() =~= prev);
            assert(all =~= done + queue@);
        }
        let k = event_kind(&e);
        match &k {
            EventKind::Link { dest, link_type } => {
                match internal_target(dest) {
                    Some(slug) => {
                        slugs.push(slug);
                        assert(strs(slugs@) =~= linked_slugs_of(done));
                    },
                    None => {
                        if is_unresolved_link(link_kind(link_type)) {
                            errors.push(ValidateError::UnknownLink(dest.clone()));
                            assert(diags(errors@) =~= link_diagnostics(done));
                        }
                    },
                }
            },
            EventKind::FootnoteReference(label) => {
                label_set_insert(&mut refs, label.clone());
            },
            _ => {},
        }
        assert(strs(slugs@) =~= linked_slugs_of(done));
        assert(diags(errors@) =~= link_diagnostics(done));
        assert(label_entries(refs) =~= footnote_refs(done));
        let is_end = matches!(k, EventKind::FootnoteDefinitionEnd);
        match k {
            EventKind::FootnoteDefinitionStart(label) => {
                let mut body: Vec<Event<'static>> = Vec::new();
                body.push(e);
                open.push((label, body));
                assert(open_defs(open@) =~= split(done).open);
            },
            _ => {
                if open.len() == 0 {
                    main.push(e);
                } else if is_end {
                    let ghost open_before = open@;
                    let (label, mut body) = open.pop().unwrap();
                    proof {
                        assert(open_defs(open_before).last() == (label@, body@));
                        assert(open_defs(open@) =~= open_defs(open_before).drop_last());
                    }
                    body.push(e);
                    proof {
                        lemma_put_entry_unique(pending_entries(defs), label@, body@);
                    }
                    pending_insert(&mut defs, label, body);
                    assert(open_defs(open@) =~= split(done).open);
                } else {
                    let ghost open_before = open@;
                    let (label, mut body) = open.pop().unwrap();
                    proof {
                        assert(open_defs(open_before).last() == (label@, body@));
                        assert(open_defs(open@) =~= open_defs(open_before).drop_last());
                    }
                    body.push(e);
                    open.push((label, body));
                    assert(open_defs(open@) =~= split(done).open);
                }
            },
        }
    }
    assert(done =~= all);
    (main, defs, refs, slugs, errors)
}

/// Matches references to definitions: the referenced definitions are
/// rendered into the table in reference order, an undefined reference is
/// reported, and then each unreferenced definition is reported and still
/// rendered into the table.
fn reconcile(
    refs: &IndexSet<String>,
    defs: &IndexMap<String, Vec<Event<'static>>>,
    errors: &mut Vec<ValidateError>,
) -> (r: IndexMap<String, Html>)
    requires
        keys_unique(pending_entries(*defs)),
        label_entries(*refs).no_duplicates(),
    ensures
        footnote_entries(r) == referenced_entries(label_entries(*refs), pending_entries(*defs))
            + unreferenced_entries(label_entries(*refs), pending_entries(*defs)),
        diags(final(errors)@) == diags(old(errors)@) + unknown_footnotes(label_entries(*refs), pending_entries(*defs))
            + unreferenced_footnotes(label_entries(*refs), pending_entries(*defs)),
{
    let ghost rs = label_entries(*refs);
    let ghost ps = pending_entries(*defs);
    let ghost start = diags(errors@);
    let mut table = new_footnote_table();
    let n = label_set_len(refs);
    let mut i: usize = 0;
    assert(rs.subrange(0, 0) =~= Seq::<Seq<char>>::empty());
    assert(start + Seq::<Diagnostic>::empty() =~= start);
    while i < n
        invariant
            rs == label_entries(*refs),
            ps == pending_entries(*defs),
            n == rs.len(),
            i <= n,
            rs.no_duplicates(),
            keys_unique(ps),
            footnote_entries(table) == referenced_entries(rs.subrange(0, i as int), ps),
            diags(errors@) == start + unknown_footnotes(rs.subrange(0, i as int), ps),
            keys_unique(footnote_entries(table)),
            forall|t: int|
                0 <= t < footnote_entries(table).len() ==> rs.subrange(0, i as int).contains(
                    #[trigger] footnote_entries(table)[t].0,
                ),
        decreases n - i,
    {
        let ghost before = footnote_entries(table);
        let ghost errs_before = diags(errors@);
        if let Some(label) = label_set_get_index(refs, i) {
            proof {
                assert(rs.subrange(0, i + 1).drop_last() =~= rs.subrange(0, i as int));
                assert(rs.subrange(0, i + 1).last() == label@);
                lemma_key_index(ps, label@);
                lemma_key_index(before, label@);
                assert forall|t: int| 0 <= t < before.len() implies before[t].0 != label@ by {
                    let u = choose|u: int| 0 <= u < i && rs.subrange(0, i as int)[u] == before[t].0;
                    assert(rs[u] == before[t].0);
                    assert(rs[i as int] == label@);
                }
            }
            match pending_get(defs, label) {
                Some(body) => {
                    footnote_insert(&mut table, label.clone(), Html(render_html(body)));
                    proof {
                        let now = footnote_entries(table);
                        assert(now == before.push((label@, html_of(ps[key_index(ps, label@)].1))));
                        assert forall|t: int| 0 <= t < now.len() implies rs.subrange(0, i + 1).contains(
                            #[trigger] now[t].0,
                        ) by {
                            if t < before.len() {
                                let u = choose|u: int| 0 <= u < i && rs.subrange(0, i as int)[u] == before[t].0;
                                assert(rs.subrange(0, i + 1)[u] == now[t].0);
                            } else {
                                assert(rs.subrange(0, i + 1)[i as int] == now[t].0);
                            }
                        }
                    }
                },
                None => {
                    errors.push(ValidateError::UnknownFootnote(label.clone()));
                    proof {
                        assert(diags(errors@) =~= errs_before.push(Diagnostic::UnknownFootnote(label@)));
                        let now = footnote_entries(table);
                        assert forall|t: int| 0 <= t < now.len() implies rs.subrange(0, i + 1).contains(
                            #[trigger] now[t].0,
                        ) by {
                            let u = choose|u: int| 0 <= u < i && rs.subrange(0, i as int)[u] == now[t].0;
                            assert(rs.subrange(0, i + 1)[u] == now[t].0);
                        }
                    }
                },
            }
        }
        i += 1;
    }
    assert(rs.subrange(0, i as int) =~= rs);
    let ghost referenced = footnote_entries(table);
    let ghost errs_mid = diags(errors@);
    let m = pending_len(defs);
    let mut j: usize = 0;
    assert(ps.subrange(0, 0) =~= Seq::<(Seq<char>, Seq<Event<'static>>)>::empty());
    assert(referenced + Seq::<(Seq<char>, Seq<char>)>::empty() =~= referenced);
    assert(errs_mid + Seq::<Diagnostic>::empty() =~= errs_mid);
    while j < m
        invariant
            rs == label_entries(*refs),
            ps == pending_entries(*defs),
            m == ps.len(),
            j <= m,
            keys_unique(ps),
            referenced == referenced_entries(rs, ps),
            errs_mid == start + unknown_footnotes(rs, ps),
            footnote_entries(table) == referenced + unreferenced_entries(rs, ps.subrange(0, j as int)),
            diags(errors@) == errs_mid + unreferenced_footnotes(rs, ps.subrange(0, j as int)),
            keys_unique(footnote_entries(table)),
            forall|t: int|
                0 <= t < footnote_entries(table).len() ==> rs.contains(
                    #[trigger] footnote_entries(table)[t].0,
                ) || exists|u: int| 0 <= u < j && ps[u].0 == footnote_entries(table)[t].0,
        decreases m - j,
    {
        let ghost before = footnote_entries(table);
        let ghost errs_before = diags(errors@);
        proof {
            assert(ps.subrange(0, j + 1).drop_last() =~= ps.subrange(0, j as int));
            assert(ps.subrange(0, j + 1).last() == ps[j as int]);
        }
        if let Some((label, body)) = pending_get_index(defs, j) {
            if !label_set_contains(refs, label) {
                errors.push(ValidateError::UnreferencedFootnote(label.clone()));
                proof {
                    lemma_key_index(before, label@);
                    assert forall|t: int| 0 <= t < before.len() implies before[t].0 != label@ by {
                        if !rs.contains(before[t].0) {
                            let u = choose|u: int| 0 <= u < j && ps[u].0 == before[t].0;
                            assert(ps[u].0 != ps[j as int].0);
                        }
                    }
                }
                footnote_insert(&mut table, label.clone(), Html(render_html(body)));
                proof {
                    let now = footnote_entries(table);
                    assert(now == before.push((ps[j as int].0, html_of(ps[j as int].1))));
                    assert(referenced + unreferenced_entries(rs, ps.subrange(0, j + 1)) =~= now);
                    assert(diags(errors@) =~= errs_before.push(Diagnostic::UnreferencedFootnote(label@)));
                    assert(errs_mid + unreferenced_footnotes(rs, ps.subrange(0, j + 1)) =~= diags(errors@));
                    assert forall|t: int|
                        0 <= t < now.len() implies rs.contains(#[trigger] now[t].0) || exists|u: int|
                            0 <= u < j + 1 && ps[u].0 == now[t].0 by {
                        if t == before.len() {
                            assert(ps[j as int].0 == now[t].0);
                        } else if !rs.contains(now[t].0) {
                            let u = choose|u: int| 0 <= u < j && ps[u].0 == before[t].0;
                            assert(ps[u].0 == now[t].0);
                        }
                    }
                }
            } else {
                proof {
                    assert(referenced + unreferenced_entries(rs, ps.subrange(0, j + 1)) =~= footnote_entries(table));
                    assert(errs_mid + unreferenced_footnotes(rs, ps.subrange(0, j + 1)) =~= diags(errors@));
                }
            }
        }
        j += 1;
    }
    assert(ps.subrange(0, j as int) =~= ps);
    assert(diags(errors@) =~= start + unknown_footnotes(rs, ps) + unreferenced_footnotes(rs, ps));
    table
}

/// `page` is the rendering of the stored document `row`: metadata copied,
/// the draft flag defaulting to false, content rendered from the main stream,
/// and the linked slugs and footnote table of the body.
pub open spec fn renders_as(row: DbPage, page: Page) -> bool {
    let evs = document_events(row.markdown_content);
    &&& page.slug == row.slug
    &&& page.published == row.published
    &&& page.draft == (row.draft == Some(true))
    &&& page.title == row.title
    &&& page.last_updated == row.last_updated
    &&& page.author == row.author
    &&& page.content@ == html_of(split(evs).main)
    &&& strs(page.linked_slugs@) == linked_slugs_of(evs)
    &&& footnote_entries(page.footnotes) == footnote_table(evs)
}

impl DbPage {
    /// Renders the document into a page and collects its diagnostics. Never
    /// fails: a missing body gives an empty page with no diagnostics.
    pub fn saturate(self) -> (r: (Page, Vec<ValidateError>))
        ensures
            renders_as(self, r.0),
            diags(r.1@) == diagnostics(document_events(self.markdown_content)),
            body_of(self.markdown_content).len() == 0 ==> {
                &&& r.0.content@.len() == 0
                &&& r.0.linked_slugs@.len() == 0
                &&& footnote_entries(r.0.footnotes).len() == 0
                &&& r.1@.len() == 0
            },
    {
        let events = match &self.markdown_content {
            Some(md) => parse_markdown(md.as_str()),
            None => {
                let empty = "";
                proof {
                    reveal_strlit("");
                    assert(empty@ =~= Seq::<char>::empty());
                }
                parse_markdown(empty)
            },
        };
        let ghost evs = events@;
        assert(evs == document_events(self.markdown_content));
        let (main, defs, refs, linked_slugs, mut errors) = strip_definitions(events);
        let content = render_html(&main);
        proof {
            if body_of(self.markdown_content).len() == 0 {
                assert(evs.len() == 0);
                assert(main@.len() == 0);
                assert(footnote_table(evs).len() == 0);
                assert(diagnostics(evs).len() == 0);
            }
        }
        let footnotes = reconcile(&refs, &defs, &mut errors);
        assert(diags(errors@) =~= diagnostics(evs));
        let draft = match self.draft {
            Some(d) => d,
            None => false,
        };
        let page = Page {
            slug: self.slug,
            published: self.published,
            draft,
            title: self.title,
            last_updated: self.last_updated,
            author: self.author,
            content: Html(content),
            linked_slugs,
            footnotes,
        };
        (page, errors)
    }
}

/// A document as an author submits it.
#[derive(Debug)]
pub struct PublishForm {
    pub published: Timestamp,
    pub title: Option<String>,
    pub author: Option<String>,
    pub markdown_content: Option<String>,
    pub draft: Option<bool>,
}

/// The URL-safe token the slug library makes of a text.
pub uninterp spec fn slug_of(s: Seq<char>) -> Seq<char>;

/// A URL-safe token: only `a-z`, `0-9` and `-`, never two `-` in a row, and
/// no `-` at either end.
pub open spec fn is_slug(s: Seq<char>) -> bool {
    &&& forall|i: int|
        0 <= i < s.len() ==> ('a' <= #[trigger] s[i] <= 'z') || ('0' <= s[i] <= '9') || s[i] == '-'
    &&& forall|i: int| 0 <= i < s.len() - 1 ==> !(#[trigger] s[i] == '-' && s[i + 1] == '-')
    &&& s.len() > 0 ==> s[0] != '-' && s[s.len() - 1] != '-'
}

/// Relies on slug::slugify: lowercased ASCII alphanumerics, runs of anything
/// else collapsed into one `-`, no `-` at either end; the result depends on
/// the text alone.
#[verifier::external_body]
fn slugify(s: &String) -> (r: String)
    ensures
        r@ == slug_of(s@),
        is_slug(r@),
{
    slug::slugify(s)
}

/// The text a slug is made from: the publish date, `-`, then the title.
pub open spec fn slug_source(published: Timestamp, title: Option<String>) -> Seq<char> {
    let t = match title {
        Some(t) => t@,
        None => Seq::empty(),
    };
    iso_date(published.year as int, published.month as int, published.day as int) + seq!['-'] + t
}

/// The slug of a submitted document.
pub open spec fn derived_slug(published: Timestamp, title: Option<String>) -> Seq<char> {
    slug_of(slug_source(published, title))
}

/// The slug of a document published at `published` under `title`.
pub fn derive_slug(published: &Timestamp, title: &Option<String>) -> (r: String)
    requires
        published.wf(),
    ensures
        r@ == derived_slug(*published, *title),
        is_slug(r@),
{
    let mut text = chars_of(&published.date_text());
    text.push('-');
    match title {
        Some(t) => {
            let mut rest = chars_of(t);
            text.append(&mut rest);
        },
        None => {},
    }
    assert(text@ =~= slug_source(*published, *title));
    slugify(&string_of(text))
}

impl PublishForm {
    /// The stored form of a submitted document, under its derived slug.
    pub fn into_page(self) -> (r: DbPage)
        requires
            self.published.wf(),
        ensures
            r.slug@ == derived_slug(self.published, self.title),
            is_slug(r.slug@),
            r.draft == self.draft,
            r.published == self.published,
            r.title == self.title,
            r.last_updated is None,
            r.author == self.author,
            r.markdown_content == self.markdown_content,
    {
        let slug = derive_slug(&self.published, &self.title);
        DbPage {
            slug,
            draft: self.draft,
            published: self.published,
            title: self.title,
            last_updated: None,
            author: self.author,
            markdown_content: self.markdown_content,
        }
    }
}

/// Saturation depends on the body alone: two documents with the same body
/// give the same content, linked slugs, footnote table and diagnostics.
pub proof fn lemma_saturation_deterministic(a: Option<String>, b: Option<String>)
    requires
        body_of(a) == body_of(b),
    ensures
        html_of(split(document_events(a)).main) == html_of(split(document_events(b)).main),
        linked_slugs_of(document_events(a)) == linked_slugs_of(document_events(b)),
        footnote_table(document_events(a)) == footnote_table(document_events(b)),
        diagnostics(document_events(a)) == diagnostics(document_events(b)),
{
}

/// `x` stands exactly once in `s`.
pub open spec fn occurs_once<T>(s: Seq<T>, x: T) -> bool {
    exists|i: int| 0 <= i < s.len() && s[i] == x && forall|j: int| 0 <= j < s.len() && s[j] == x ==> j == i
}

proof fn lemma_occurs_once_middle<T>(a: Seq<T>, b: Seq<T>, c: Seq<T>, x: T)
    requires
        !a.contains(x),
        occurs_once(b, x),
        !c.contains(x),
    ensures
        occurs_once(a + b + c, x),
{
    let s = a + b + c;
    let i = choose|i: int| 0 <= i < b.len() && b[i] == x && forall|j: int| 0 <= j < b.len() && b[j] == x ==> j == i;
    assert(s[a.len() + i] == x);
    assert forall|j: int| 0 <= j < s.len() && s[j] == x implies j == a.len() + i by {
        if j < a.len() {
            assert(a[j] == x);
        } else if j < a.len() + b.len() {
            assert(b[j - a.len()] == x);
        } else {
            assert(c[j - a.len() - b.len()] == x);
        }
    }
}

proof fn lemma_link_diagnostics_kind(evs: Seq<Event<'static>>)
    ensures
        forall|i: int| 0 <= i < link_diagnostics(evs).len() ==> (#[trigger] link_diagnostics(evs)[i]) is UnknownLink,
    decreases evs.len(),
{
    if evs.len() > 0 {
        lemma_link_diagnostics_kind(evs.drop_last());
    }
}

proof fn lemma_unknown_footnotes_kind(refs: Seq<Seq<char>>, defs: Seq<(Seq<char>, Seq<Event<'static>>)>)
    ensures
        forall|i: int| 0 <= i < unknown_footnotes(refs, defs).len() ==> (#[trigger] unknown_footnotes(refs, defs)[i]) is UnknownFootnote,
    decreases refs.len(),
{
    if refs.len() > 0 {
        lemma_unknown_footnotes_kind(refs.drop_last(), defs);
    }
}

proof fn lemma_unreferenced_footnotes_kind(refs: Seq<Seq<char>>, defs: Seq<(Seq<char>, Seq<Event<'static>>)>)
    ensures
        forall|i: int| 0 <= i < unreferenced_footnotes(refs, defs).len() ==> (#[trigger] unreferenced_footnotes(refs, defs)[i]) is UnreferencedFootnote,
    decreases defs.len(),
{
    if defs.len() > 0 {
        lemma_unreferenced_footnotes_kind(refs, defs.drop_last());
    }
}

proof fn lemma_footnote_refs_unique(evs: Seq<Event<'static>>)
    ensures
        footnote_refs(evs).no_duplicates(),
    decreases evs.len(),
{
    if evs.len() > 0 {
        lemma_footnote_refs_unique(evs.drop_last());
    }
}

proof fn lemma_split_defs_unique(evs: Seq<Event<'static>>)
    ensures
        keys_unique(split(evs).defs),
    decreases evs.len(),
{
    if evs.len() > 0 {
        let prev = split(evs.drop_last());
        lemma_split_defs_unique(evs.drop_last());
        if prev.open.len() > 0 {
            let top = prev.open.last();
            lemma_put_entry_unique(prev.defs, top.0, top.1.push(evs.last()));
        }
    }
}

proof fn lemma_unknown_once(refs: Seq<Seq<char>>, defs: Seq<(Seq<char>, Seq<Event<'static>>)>, l: Seq<char>)
    requires
        refs.no_duplicates(),
        key_index(defs, l) < 0,
    ensures
        refs.contains(l) ==> occurs_once(unknown_footnotes(refs, defs), Diagnostic::UnknownFootnote(l)),
        !refs.contains(l) ==> !unknown_footnotes(refs, defs).contains(Diagnostic::UnknownFootnote(l)),
    decreases refs.len(),
{
    if refs.len() > 0 {
        let p = refs.drop_last();
        let prev = unknown_footnotes(p, defs);
        let x = Diagnostic::UnknownFootnote(l);
        assert(p.no_duplicates()) by {
            assert forall|i: int, j: int| 0 <= i < p.len() && 0 <= j < p.len() && i != j implies p[i] != p[j] by {
                assert(p[i] == refs[i] && p[j] == refs[j]);
            }
        }
        lemma_unknown_once(p, defs, l);
        if refs.last() == l {
            assert(!p.contains(l)) by {
                if p.contains(l) {
                    let i = choose|i: int| 0 <= i < p.len() && p[i] == l;
                    assert(refs[i] == refs[refs.len() - 1]);
                }
            }
            let now = prev.push(x);
            assert(now[prev.len() as int] == x);
            assert forall|j: int| 0 <= j < now.len() && now[j] == x implies j == prev.len() by {
                if j < prev.len() {
                    assert(prev[j] == x);
                }
            }
        } else {
            assert(refs.contains(l) <==> p.contains(l)) by {
                if refs.contains(l) {
                    let i = choose|i: int| 0 <= i < refs.len() && refs[i] == l;
                    assert(p[i] == l);
                }
                if p.contains(l) {
                    let i = choose|i: int| 0 <= i < p.len() && p[i] == l;
                    assert(refs[i] == l);
                }
            }
            let now = unknown_footnotes(refs, defs);
            if key_index(defs, refs.last()) < 0 {
                assert(now == prev.push(Diagnostic::UnknownFootnote(refs.last())));
                if refs.contains(l) {
                    let i = choose|i: int| 0 <= i < prev.len() && prev[i] == x && forall|j: int| 0 <= j < prev.len() && prev[j] == x ==> j == i;
                    assert(now[i] == x);
                    assert forall|j: int| 0 <= j < now.len() && now[j] == x implies j == i by {
                        if j < prev.len() {
                            assert(prev[j] == x);
                        }
                    }
                } else {
                    assert forall|j: int| 0 <= j < now.len() implies now[j] != x by {
                        if j < prev.len() {
                            assert(prev[j] == now[j]);
                        }
                    }
                }
            }
        }
    }
}

proof fn lemma_unreferenced_once(refs: Seq<Seq<char>>, defs: Seq<(Seq<char>, Seq<Event<'static>>)>, l: Seq<char>)
    requires
        keys_unique(defs),
        !refs.contains(l),
    ensures
        key_index(defs, l) >= 0 ==> occurs_once(unreferenced_footnotes(refs, defs), Diagnostic::UnreferencedFootnote(l)),
        key_index(defs, l) >= 0 ==> unreferenced_entries(refs, defs).contains(
            (l, html_of(defs[key_index(defs, l)].1)),
        ),
        key_index(defs, l) < 0 ==> !unreferenced_footnotes(refs, defs).contains(Diagnostic::UnreferencedFootnote(l)),
    decreases defs.len(),
{
    if defs.len() > 0 {
        let p = defs.drop_last();
        let x = Diagnostic::UnreferencedFootnote(l);
        let prev = unreferenced_footnotes(refs, p);
        let now = unreferenced_footnotes(refs, defs);
        lemma_key_index(defs, l);
        lemma_key_index(p, l);
        lemma_unreferenced_once(refs, p, l);
        if defs.last().0 == l {
            assert(key_index(p, l) < 0) by {
                if key_index(p, l) >= 0 {
                    assert(defs[key_index(p, l)].0 == defs[defs.len() - 1].0);
                }
            }
            assert(now == prev.push(x));
            assert(now[prev.len() as int] == x);
            assert forall|j: int| 0 <= j < now.len() && now[j] == x implies j == prev.len() by {
                if j < prev.len() {
                    assert(prev[j] == x);
                }
            }
            let ents = unreferenced_entries(refs, defs);
            assert(ents[ents.len() - 1] == (l, html_of(defs[key_index(defs, l)].1)));
        } else {
            assert(key_index(defs, l) == key_index(p, l));
            if key_index(p, l) >= 0 {
                assert(defs[key_index(defs, l)] == p[key_index(p, l)]);
                let pe = unreferenced_entries(refs, p);
                let ents = unreferenced_entries(refs, defs);
                let i = choose|i: int| 0 <= i < pe.len() && pe[i] == (l, html_of(p[key_index(p, l)].1));
                assert(ents[i] == pe[i]);
            }
            if !refs.contains(defs.last().0) {
                assert(now == prev.push(Diagnostic::UnreferencedFootnote(defs.last().0)));
                if key_index(defs, l) >= 0 {
                    let i = choose|i: int| 0 <= i < prev.len() && prev[i] == x && forall|j: int| 0 <= j < prev.len() && prev[j] == x ==> j == i;
                    assert(now[i] == x);
                    assert forall|j: int| 0 <= j < now.len() && now[j] == x implies j == i by {
                        if j < prev.len() {
                            assert(prev[j] == x);
                        }
                    }
                } else {
                    assert forall|j: int| 0 <= j < now.len() implies now[j] != x by {
                        if j < prev.len() {
                            assert(prev[j] == now[j]);
                        }
                    }
                }
            }
        }
    }
}

proof fn lemma_referenced_keys_defined(refs: Seq<Seq<char>>, defs: Seq<(Seq<char>, Seq<Event<'static>>)>)
    ensures
        forall|t: int| 0 <= t < referenced_entries(refs, defs).len() ==> key_index(defs, (#[trigger] referenced_entries(refs, defs)[t]).0) >= 0,
    decreases refs.len(),
{
    if refs.len() > 0 {
        let prev = referenced_entries(refs.drop_last(), defs);
        let now = referenced_entries(refs, defs);
        lemma_referenced_keys_defined(refs.drop_last(), defs);
        assert forall|t: int| 0 <= t < now.len() implies key_index(defs, (#[trigger] now[t]).0) >= 0 by {
            if t < prev.len() {
                assert(now[t] == prev[t]);
            }
        }
    }
}

proof fn lemma_unreferenced_keys_defined(refs: Seq<Seq<char>>, defs: Seq<(Seq<char>, Seq<Event<'static>>)>)
    ensures
        forall|t: int| 0 <= t < unreferenced_entries(refs, defs).len() ==> key_index(defs, (#[trigger] unreferenced_entries(refs, defs)[t]).0) >= 0,
    decreases defs.len(),
{
    if defs.len() > 0 {
        let p = defs.drop_last();
        lemma_unreferenced_keys_defined(refs, p);
        lemma_key_index(defs, defs.last().0);
        assert forall|t: int| 0 <= t < unreferenced_entries(refs, p).len() implies key_index(defs, (#[trigger] unreferenced_entries(refs, p)[t]).0) >= 0 by {
            let k = unreferenced_entries(refs, p)[t].0;
            lemma_key_index(p, k);
            lemma_key_index(defs, k);
            if key_index(defs, k) < 0 {
                assert(defs[key_index(p, k)].0 != k);
            }
        }
    }
}

/// A footnote that is referenced but never defined is reported by exactly
/// one `UnknownFootnote`, and the footnote table has no entry for it.
pub proof fn lemma_undefined_footnote(evs: Seq<Event<'static>>, label: Seq<char>)
    requires
        footnote_refs(evs).contains(label),
        key_index(split(evs).defs, label) < 0,
    ensures
        occurs_once(diagnostics(evs), Diagnostic::UnknownFootnote(label)),
        forall|t: int| 0 <= t < footnote_table(evs).len() ==> (#[trigger] footnote_table(evs)[t]).0 != label,
{
    let refs = footnote_refs(evs);
    let defs = split(evs).defs;
    let x = Diagnostic::UnknownFootnote(label);
    lemma_footnote_refs_unique(evs);
    lemma_unknown_once(refs, defs, label);
    lemma_link_diagnostics_kind(evs);
    lemma_unreferenced_footnotes_kind(refs, defs);
    assert(!link_diagnostics(evs).contains(x)) by {
        if link_diagnostics(evs).contains(x) {
            let i = choose|i: int| 0 <= i < link_diagnostics(evs).len() && link_diagnostics(evs)[i] == x;
            assert(link_diagnostics(evs)[i] is UnknownLink);
        }
    }
    assert(!unreferenced_footnotes(refs, defs).contains(x)) by {
        if unreferenced_footnotes(refs, defs).contains(x) {
            let i = choose|i: int| 0 <= i < unreferenced_footnotes(refs, defs).len() && unreferenced_footnotes(refs, defs)[i] == x;
            assert(unreferenced_footnotes(refs, defs)[i] is UnreferencedFootnote);
        }
    }
    lemma_occurs_once_middle(link_diagnostics(evs), unknown_footnotes(refs, defs), unreferenced_footnotes(refs, defs), x);
    lemma_referenced_keys_defined(refs, defs);
    lemma_unreferenced_keys_defined(refs, defs);
    let a = referenced_entries(refs, defs);
    let b = unreferenced_entries(refs, defs);
    assert forall|t: int| 0 <= t < footnote_table(evs).len() implies (#[trigger] footnote_table(evs)[t]).0 != label by {
        if t < a.len() {
            assert(footnote_table(evs)[t] == a[t]);
        } else {
            assert(footnote_table(evs)[t] == b[t - a.len()]);
        }
    }
}

/// A footnote that is defined but never referenced is reported by exactly
/// one `UnreferencedFootnote`, and the footnote table still holds its
/// rendered definition.
pub proof fn lemma_unreferenced_footnote(evs: Seq<Event<'static>>, label: Seq<char>)
    requires
        !footnote_refs(evs).contains(label),
        key_index(split(evs).defs, label) >= 0,
    ensures
        occurs_once(diagnostics(evs), Diagnostic::UnreferencedFootnote(label)),
        footnote_table(evs).contains(
            (label, html_of(split(evs).defs[key_index(split(evs).defs, label)].1)),
        ),
{
    let refs = footnote_refs(evs);
    let defs = split(evs).defs;
    let x = Diagnostic::UnreferencedFootnote(label);
    lemma_split_defs_unique(evs);
    lemma_unreferenced_once(refs, defs, label);
    lemma_link_diagnostics_kind(evs);
    lemma_unknown_footnotes_kind(refs, defs);
    assert(!link_diagnostics(evs).contains(x)) by {
        if link_diagnostics(evs).contains(x) {
            let i = choose|i: int| 0 <= i < link_diagnostics(evs).len() && link_diagnostics(evs)[i] == x;
            assert(link_diagnostics(evs)[i] is UnknownLink);
        }
    }
    let l = link_diagnostics(evs);
    let u = unknown_footnotes(refs, defs);
    let r = unreferenced_footnotes(refs, defs);
    assert(!u.contains(x)) by {
        if u.contains(x) {
            let i = choose|i: int| 0 <= i < u.len() && u[i] == x;
            assert(u[i] is UnknownFootnote);
        }
    }
    assert(!(l + u).contains(x)) by {
        if (l + u).contains(x) {
            let i = choose|i: int| 0 <= i < (l + u).len() && (l + u)[i] == x;
            if i < l.len() {
                assert(l[i] == x);
            } else {
                assert(u[i - l.len()] == x);
            }
        }
    }
    lemma_occurs_once_middle(l + u, r, Seq::empty(), x);
    assert(l + u + r + Seq::<Diagnostic>::empty() =~= diagnostics(evs));
    let a = referenced_entries(refs, defs);
    let b = unreferenced_entries(refs, defs);
    let e = (label, html_of(defs[key_index(defs, label)].1));
    let i = choose|i: int| 0 <= i < b.len() && b[i] == e;
    assert(footnote_table(evs)[a.len() + i] == e);
}

/// The footnote table begins with the referenced, defined labels in order of
/// first reference, whatever the order of the definitions.
pub proof fn lemma_table_in_reference_order(evs: Seq<Event<'static>>)
    ensures
        ({
            let refs = footnote_refs(evs);
            let defs = split(evs).defs;
            let defined = refs.filter(|r: Seq<char>| key_index(defs, r) >= 0);
            &&& defined.len() <= footnote_table(evs).len()
            &&& forall|t: int| 0 <= t < defined.len() ==> (#[trigger] footnote_table(evs)[t]).0 == defined[t]
        }),
{
    let refs = footnote_refs(evs);
    let defs = split(evs).defs;
    lemma_referenced_follow_refs(refs, defs);
    let a = referenced_entries(refs, defs);
    assert forall|t: int| 0 <= t < a.len() implies (#[trigger] footnote_table(evs)[t]).0 == a[t].0 by {
        assert(footnote_table(evs)[t] == a[t]);
    }
}

proof fn lemma_referenced_follow_refs(refs: Seq<Seq<char>>, defs: Seq<(Seq<char>, Seq<Event<'static>>)>)
    ensures
        ({
            let defined = refs.filter(|r: Seq<char>| key_index(defs, r) >= 0);
            let a = referenced_entries(refs, defs);
            &&& a.len() == defined.len()
            &&& forall|t: int| 0 <= t < a.len() ==> (#[trigger] a[t]).0 == defined[t]
        }),
    decreases refs.len(),
{
    reveal(Seq::filter);
    if refs.len() > 0 {
        lemma_referenced_follow_refs(refs.drop_last(), defs);
    }
}

proof fn lemma_referenced_keys_agree(
    refs: Seq<Seq<char>>,
    da: Seq<(Seq<char>, Seq<Event<'static>>)>,
    db: Seq<(Seq<char>, Seq<Event<'static>>)>,
)
    requires
        forall|l: Seq<char>| key_index(da, l) >= 0 <==> key_index(db, l) >= 0,
    ensures
        referenced_entries(refs, da).len() == referenced_entries(refs, db).len(),
        forall|t: int|
            0 <= t < referenced_entries(refs, da).len() ==> (#[trigger] referenced_entries(refs, da)[t]).0
                == referenced_entries(refs, db)[t].0,
    decreases refs.len(),
{
    if refs.len() > 0 {
        lemma_referenced_keys_agree(refs.drop_last(), da, db);
        assert(key_index(da, refs.last()) >= 0 <==> key_index(db, refs.last()) >= 0);
    }
}

/// The order of the footnote table does not depend on the order of the
/// definitions: two event streams with the same references and the same
/// defined labels give tables that begin with the same referenced labels in
/// the same order.
pub proof fn lemma_table_order_ignores_definition_order(a: Seq<Event<'static>>, b: Seq<Event<'static>>)
    requires
        footnote_refs(a) == footnote_refs(b),
        forall|l: Seq<char>| key_index(split(a).defs, l) >= 0 <==> key_index(split(b).defs, l) >= 0,
    ensures
        ({
            let n = referenced_entries(footnote_refs(a), split(a).defs).len();
            &&& n == referenced_entries(footnote_refs(b), split(b).defs).len()
            &&& n <= footnote_table(a).len()
            &&& n <= footnote_table(b).len()
            &&& forall|t: int| 0 <= t < n ==> (#[trigger] footnote_table(a)[t]).0 == footnote_table(b)[t].0
        }),
{
    let refs = footnote_refs(a);
    let ea = referenced_entries(refs, split(a).defs);
    let eb = referenced_entries(refs, split(b).defs);
    lemma_referenced_keys_agree(refs, split(a).defs, split(b).defs);
    assert forall|t: int| 0 <= t < ea.len() implies (#[trigger] footnote_table(a)[t]).0 == footnote_table(b)[t].0 by {
        assert(footnote_table(a)[t] == ea[t]);
        assert(footnote_table(b)[t] == eb[t]);
    }
}

} // verus!
