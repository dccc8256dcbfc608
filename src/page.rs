//! Rendered pages and the diagnostics that accompany a render.

use crate::timestamp::Timestamp;
use indexmap::{IndexMap, IndexSet};
use vstd::prelude::*;

verus! {

#[verifier::external_type_specification]
#[verifier::external_body]
#[verifier::reject_recursive_types(K)]
#[verifier::reject_recursive_types(V)]
#[verifier::reject_recursive_types(S)]
pub struct ExIndexMap<K, V, S>(IndexMap<K, V, S>);

#[verifier::external_type_specification]
#[verifier::external_body]
#[verifier::reject_recursive_types(T)]
#[verifier::reject_recursive_types(S)]
pub struct ExIndexSet<T, S>(IndexSet<T, S>);

/// A fragment of rendered HTML.
#[derive(Clone, Debug)]
pub struct Html(pub String);

impl View for Html {
    type V = Seq<char>;

    open spec fn view(&self) -> Seq<char> {
        self.0@
    }
}

/// A published page: metadata, rendered content, the slugs it links to and
/// its footnote table (label to rendered HTML, in insertion order).
#[derive(Debug)]
pub struct Page {
    pub slug: String,
    pub published: Timestamp,
    pub draft: bool,
    pub title: Option<String>,
    pub last_updated: Option<Timestamp>,
    pub author: Option<String>,
    pub content: Html,
    pub linked_slugs: Vec<String>,
    pub footnotes: IndexMap<String, Html>,
}

/// A non-fatal finding of the markdown pass.
#[derive(Clone, Debug)]
pub enum MarkdownError {
    UnknownFootnote(String),
    UnreferencedFootnote(String),
    UnknownLink(String),
}

/// A finding about the pages a page links to.
#[derive(Clone, Debug)]
pub enum ContentError {
    UnknownSlug(String),
}

/// The entries of a footnote table, label and HTML, in insertion order.
pub uninterp spec fn footnote_entries(m: IndexMap<String, Html>) -> Seq<(Seq<char>, Seq<char>)>;

/// Where key `k` stands among the entries, or -1.
pub open spec fn key_index<V>(s: Seq<(Seq<char>, V)>, k: Seq<char>) -> int
    decreases s.len(),
{
    if s.len() == 0 {
        -1
    } else if s.last().0 == k {
        s.len() - 1
    } else {
        key_index(s.drop_last(), k)
    }
}

/// Insertion into an insertion-ordered map: a new key goes last, an existing
/// key keeps its place and takes the new value.
pub open spec fn put_entry<V>(s: Seq<(Seq<char>, V)>, k: Seq<char>, v: V) -> Seq<(Seq<char>, V)> {
    let i = key_index(s, k);
    if i < 0 {
        s.push((k, v))
    } else {
        s.update(i, (k, v))
    }
}

/// No key stands twice among the entries.
pub open spec fn keys_unique<V>(s: Seq<(Seq<char>, V)>) -> bool {
    forall|i: int, j: int| 0 <= i < j < s.len() ==> s[i].0 != s[j].0
}

pub proof fn lemma_key_index<V>(s: Seq<(Seq<char>, V)>, k: Seq<char>)
    ensures
        -1 <= key_index(s, k) < s.len(),
        key_index(s, k) >= 0 ==> s[key_index(s, k)].0 == k,
        key_index(s, k) < 0 <==> forall|i: int| 0 <= i < s.len() ==> s[i].0 != k,
    decreases s.len(),
{
    if s.len() > 0 {
        let p = s.drop_last();
        lemma_key_index(p, k);
        assert forall|i: int| 0 <= i < p.len() implies p[i] == s[i] by {}
    }
}

pub proof fn lemma_put_entry_unique<V>(s: Seq<(Seq<char>, V)>, k: Seq<char>, v: V)
    requires
        keys_unique(s),
    ensures
        keys_unique(put_entry(s, k, v)),
{
    lemma_key_index(s, k);
}

/// Relies on IndexMap::new: an empty map.
#[verifier::external_body]
pub(crate) fn new_footnote_table() -> (r: IndexMap<String, Html>)
    ensures
        footnote_entries(r) == Seq::<(Seq<char>, Seq<char>)>::empty(),
{
    IndexMap::new()
}

/// Relies on IndexMap::insert: a new key is appended, an existing key keeps
/// its position and takes the new value.
#[verifier::external_body]
pub(crate) fn footnote_insert(m: &mut IndexMap<String, Html>, k: String, v: Html)
    ensures
        footnote_entries(*final(m)) == put_entry(footnote_entries(*old(m)), k@, v@),
{
    m.insert(k, v);
}

} // verus!
