//! The slug cache: an insertion-ordered map from slug to rendered page, and
//! the decisions of the publish workflow that rest on it.

use crate::document::{renders_as, DbPage};
use crate::model::{ApiError, DbError};
use crate::page::{key_index, keys_unique, lemma_key_index, lemma_put_entry_unique, put_entry, Page};
use indexmap::IndexMap;
use vstd::prelude::*;

verus! {

/// The entries of a page map, slug and page, in insertion order.
pub uninterp spec fn cache_entries(m: IndexMap<String, Page>) -> Seq<(Seq<char>, Page)>;

/// Relies on IndexMap::new: an empty map.
#[verifier::external_body]
fn new_page_map() -> (r: IndexMap<String, Page>)
    ensures
        cache_entries(r) == Seq::<(Seq<char>, Page)>::empty(),
{
    IndexMap::new()
}

/// Relies on IndexMap::contains_key: whether some entry has the key.
#[verifier::external_body]
fn page_map_contains(m: &IndexMap<String, Page>, k: &String) -> (r: bool)
    ensures
        r == (key_index(cache_entries(*m), k@) >= 0),
{
    m.contains_key(k)
}

/// Relies on IndexMap::get: the value of the entry with the key, if any.
#[verifier::external_body]
fn page_map_get<'a>(m: &'a IndexMap<String, Page>, k: &String) -> (r: Option<&'a Page>)
    ensures
        match r {
            Some(p) => key_index(cache_entries(*m), k@) >= 0 && *p == cache_entries(
                *m,
            )[key_index(cache_entries(*m), k@)].1,
            None => key_index(cache_entries(*m), k@) < 0,
        },
{
    m.get(k)
}

/// Relies on IndexMap::insert: a new key is appended, an existing key keeps
/// its position and takes the new value.
#[verifier::external_body]
fn page_map_insert(m: &mut IndexMap<String, Page>, k: String, v: Page)
    ensures
        cache_entries(*final(m)) == put_entry(cache_entries(*old(m)), k@, v),
{
    m.insert(k, v);
}

/// Relies on IndexMap::values: the values in insertion order.
#[verifier::external_body]
fn page_map_values(m: &IndexMap<String, Page>) -> (r: Vec<&Page>)
    ensures
        r@.len() == cache_entries(*m).len(),
        forall|i: int| 0 <= i < r@.len() ==> *r@[i] == cache_entries(*m)[i].1,
{
    m.values().collect()
}

/// The pages of the site by slug, in insertion order.
pub struct SlugCache {
    pages: IndexMap<String, Page>,
}

/// How a write that passed the uniqueness check reaches the store.
#[derive(Clone, Copy, Debug, PartialEq, Eq)]
pub enum WriteAction {
    /// A new row.
    Insert,
    /// An update of the row with the slug.
    Update,
}

/// Whether `slug` has an entry.
pub open spec fn has_slug(entries: Seq<(Seq<char>, Page)>, slug: Seq<char>) -> bool {
    key_index(entries, slug) >= 0
}

/// The write a request may make: a create needs a free slug; an update of a
/// cached slug updates, and an update of a free slug falls back to a create.
pub open spec fn planned_write(
    entries: Seq<(Seq<char>, Page)>,
    slug: Seq<char>,
    update: bool,
) -> Option<WriteAction> {
    if !has_slug(entries, slug) {
        Some(WriteAction::Insert)
    } else if update {
        Some(WriteAction::Update)
    } else {
        None
    }
}

impl SlugCache {
    /// The entries, slug and page, in insertion order.
    pub closed spec fn entries(&self) -> Seq<(Seq<char>, Page)> {
        cache_entries(self.pages)
    }

    /// No slug has two entries.
    pub open spec fn wf(&self) -> bool {
        keys_unique(self.entries())
    }

    pub fn new() -> (r: Self)
        ensures
            r.entries() == Seq::<(Seq<char>, Page)>::empty(),
            r.wf(),
    {
        SlugCache { pages: new_page_map() }
    }

    pub fn len(&self) -> (r: usize)
        ensures
            r == self.entries().len(),
    {
        let pages = page_map_values(&self.pages);
        pages.len()
    }

    /// Whether a page with this slug is cached.
    pub fn contains(&self, slug: &String) -> (r: bool)
        ensures
            r == has_slug(self.entries(), slug@),
    {
        page_map_contains(&self.pages, slug)
    }

    /// The cached page with this slug.
    pub fn get(&self, slug: &String) -> (r: Option<&Page>)
        ensures
            match r {
                Some(p) => has_slug(self.entries(), slug@) && *p == self.entries()[key_index(
                    self.entries(),
                    slug@,
                )].1,
                None => !has_slug(self.entries(), slug@),
            },
    {
        page_map_get(&self.pages, slug)
    }

    /// Inserts or replaces the page under `slug`; a replaced page keeps its
    /// place in the order.
    pub fn insert(&mut self, slug: String, page: Page)
        requires
            old(self).wf(),
        ensures
            final(self).entries() == put_entry(old(self).entries(), slug@, page),
            final(self).wf(),
    {
        proof {
            lemma_put_entry_unique(self.entries(), slug@, page);
        }
        page_map_insert(&mut self.pages, slug, page);
    }

    /// Every cached page, in insertion order.
    pub fn list(&self) -> (r: Vec<&Page>)
        ensures
            r@.len() == self.entries().len(),
            forall|i: int| 0 <= i < r@.len() ==> *r@[i] == self.entries()[i].1,
    {
        page_map_values(&self.pages)
    }
}

/// Refuses a create whose slug is cached already.
pub fn ensure_slug_not_cached(cache: &SlugCache, db_page: &DbPage) -> (r: Result<(), ApiError>)
    ensures
        r is Ok <==> !has_slug(cache.entries(), db_page.slug@),
        match r {
            Err(ApiError::Database(DbError::SlugExists(s))) => s@ == db_page.slug@,
            Err(_) => false,
            Ok(_) => true,
        },
{
    if cache.contains(&db_page.slug) {
        return Err(ApiError::Database(DbError::SlugExists(db_page.slug.clone())));
    }
    Ok(())
}

/// Decides how a create (`update` false) or an update (`update` true) of
/// the page with `slug` reaches the store, or refuses it with a conflict.
pub fn plan_write(cache: &SlugCache, slug: &String, update: bool) -> (r: Result<WriteAction, ApiError>)
    ensures
        match r {
            Ok(a) => planned_write(cache.entries(), slug@, update) == Some(a),
            Err(ApiError::Database(DbError::SlugExists(s))) => planned_write(
                cache.entries(),
                slug@,
                update,
            ) is None && s@ == slug@,
            Err(_) => false,
        },
{
    if !cache.contains(slug) {
        Ok(WriteAction::Insert)
    } else if update {
        Ok(WriteAction::Update)
    } else {
        Err(ApiError::Database(DbError::SlugExists(slug.clone())))
    }
}

/// Records a page whose write to the store succeeded, under its own slug.
pub fn commit(cache: &mut SlugCache, page: Page)
    requires
        old(cache).wf(),
    ensures
        final(cache).entries() == put_entry(old(cache).entries(), page.slug@, page),
        final(cache).wf(),
{
    let slug = page.slug.clone();
    cache.insert(slug, page);
}

/// Ends a create or update once the store has answered: the page enters the
/// cache only when its write succeeded, so the cache never holds a page the
/// store lacks.
pub fn finish_write(cache: &mut SlugCache, page: Page, write_ok: bool)
    requires
        old(cache).wf(),
    ensures
        final(cache).wf(),
        write_ok ==> final(cache).entries() == put_entry(old(cache).entries(), page.slug@, page),
        !write_ok ==> final(cache).entries() == old(cache).entries(),
{
    if write_ok {
        commit(cache, page);
    }
}

/// Replays one stored row into the cache at startup: the row is saturated,
/// its diagnostics are dropped, and the page enters under the row's slug.
pub fn load_row(cache: &mut SlugCache, row: DbPage)
    requires
        old(cache).wf(),
    ensures
        final(cache).wf(),
        exists|p: Page|
            final(cache).entries() == put_entry(old(cache).entries(), row.slug@, p) && renders_as(row, p),
{
    let slug = row.slug.clone();
    let (page, _) = row.saturate();
    let ghost p = page;
    cache.insert(slug, page);
    assert(cache.entries() == put_entry(old(cache).entries(), row.slug@, p));
}

/// Of two creates of the same slug on a cache without it, serialized one
/// after the other, the first is allowed and the second meets a conflict; the
/// cache then holds exactly one entry for the slug.
pub proof fn lemma_create_conflicts_once(c: SlugCache, first: Page, second: Page)
    requires
        c.wf(),
        first.slug@ == second.slug@,
        !has_slug(c.entries(), first.slug@),
    ensures
        planned_write(c.entries(), first.slug@, false) == Some(WriteAction::Insert),
        planned_write(put_entry(c.entries(), first.slug@, first), second.slug@, false) is None,
        ({
            let after = put_entry(c.entries(), first.slug@, first);
            exists|i: int|
                0 <= i < after.len() && after[i].0 == first.slug@ && forall|j: int|
                    0 <= j < after.len() && after[j].0 == first.slug@ ==> j == i
        }),
{
    let s = first.slug@;
    let after = put_entry(c.entries(), s, first);
    lemma_key_index(c.entries(), s);
    lemma_put_entry_unique(c.entries(), s, first);
    lemma_key_index(after, s);
    let i = after.len() - 1;
    assert(after[i].0 == s);
    assert forall|j: int| 0 <= j < after.len() && after[j].0 == s implies j == i by {
        if j != i {
            assert(after[j] == c.entries()[j]);
        }
    }
}

/// A create followed by an update of the same slug leaves the update's page
/// as the one entry for the slug.
pub proof fn lemma_update_wins(c: SlugCache, created: Page, updated: Page)
    requires
        c.wf(),
        created.slug@ == updated.slug@,
    ensures
        planned_write(put_entry(c.entries(), created.slug@, created), updated.slug@, true)
            == Some(WriteAction::Update),
        ({
            let after = put_entry(
                put_entry(c.entries(), created.slug@, created),
                updated.slug@,
                updated,
            );
            &&& has_slug(after, updated.slug@)
            &&& after[key_index(after, updated.slug@)].1 == updated
            &&& forall|j: int|
                0 <= j < after.len() && after[j].0 == updated.slug@ ==> after[j].1 == updated
        }),
{
    let s = created.slug@;
    let mid = put_entry(c.entries(), s, created);
    lemma_key_index(c.entries(), s);
    lemma_put_entry_unique(c.entries(), s, created);
    lemma_key_index(mid, s);
    let after = put_entry(mid, s, updated);
    lemma_put_entry_unique(mid, s, updated);
    lemma_key_index(after, s);
    let k = key_index(mid, s);
    assert(mid[mid.len() - 1].0 == s || mid[key_index(c.entries(), s)].0 == s);
    assert(k >= 0);
    assert(after == mid.update(k, (s, updated)));
    assert forall|j: int| 0 <= j < after.len() && after[j].0 == s implies after[j].1 == updated by {
        if j != k {
            assert(after[j] == mid[j]);
            if j < k {
                assert(mid[j].0 != mid[k].0);
            } else {
                assert(mid[k].0 != mid[j].0);
            }
        }
    }
    assert(after[k].0 == s);
    if key_index(after, s) < 0 {
        assert(after[k].0 != s);
    }
    assert(after[key_index(after, s)].0 == s);
}

} // verus!
