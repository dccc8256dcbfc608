use blog::cache::{
    commit, ensure_slug_not_cached, finish_write, load_row, plan_write, SlugCache, WriteAction,
};
use blog::document::DbPage;
use blog::model::{ApiError, DbError};
use blog::page::Page;
use blog::timestamp::Timestamp;

fn row(slug: &str, body: &str) -> DbPage {
    DbPage {
        slug: slug.to_string(),
        draft: Some(false),
        published: Timestamp {
            year: 2024,
            month: 2,
            day: 29,
            hour: 12,
            minute: 30,
            second: 0,
            nanosecond: 0,
            offset_seconds: 3600,
        },
        title: None,
        last_updated: None,
        author: None,
        markdown_content: Some(body.to_string()),
    }
}

fn page(slug: &str, body: &str) -> Page {
    row(slug, body).saturate().0
}

fn is_conflict(r: &Result<impl std::fmt::Debug, ApiError>, slug: &str) -> bool {
    matches!(r, Err(ApiError::Database(DbError::SlugExists(s))) if s == slug)
}

#[test]
fn second_create_of_same_slug_conflicts() {
    let mut cache = SlugCache::new();
    let first = row("same", "one");
    assert!(ensure_slug_not_cached(&cache, &first).is_ok());
    assert_eq!(plan_write(&cache, &first.slug, false).unwrap(), WriteAction::Insert);
    commit(&mut cache, page("same", "one"));
    let second = row("same", "two");
    assert!(is_conflict(&ensure_slug_not_cached(&cache, &second), "same"));
    assert!(is_conflict(&plan_write(&cache, &second.slug, false), "same"));
    assert_eq!(cache.len(), 1);
}

#[test]
fn update_after_create_wins() {
    let mut cache = SlugCache::new();
    commit(&mut cache, page("post", "created"));
    assert_eq!(
        plan_write(&cache, &"post".to_string(), true).unwrap(),
        WriteAction::Update
    );
    commit(&mut cache, page("post", "updated"));
    assert_eq!(cache.len(), 1);
    let cached = cache.get(&"post".to_string()).unwrap();
    assert!(cached.content.0.contains("updated"));
    assert!(!cached.content.0.contains("created"));
}

#[test]
fn update_of_unknown_slug_falls_back_to_insert() {
    let cache = SlugCache::new();
    assert_eq!(
        plan_write(&cache, &"fresh".to_string(), true).unwrap(),
        WriteAction::Insert
    );
}

#[test]
fn listing_keeps_insertion_order() {
    let mut cache = SlugCache::new();
    commit(&mut cache, page("b", "bee"));
    commit(&mut cache, page("a", "ay"));
    commit(&mut cache, page("c", "see"));
    commit(&mut cache, page("a", "ay again"));
    let slugs: Vec<&str> = cache.list().iter().map(|p| p.slug.as_str()).collect();
    assert_eq!(slugs, vec!["b", "a", "c"]);
    assert!(cache.contains(&"c".to_string()));
    assert!(!cache.contains(&"d".to_string()));
    assert!(cache.get(&"d".to_string()).is_none());
}

#[test]
fn startup_replay_fills_cache_in_row_order() {
    let mut cache = SlugCache::new();
    load_row(&mut cache, row("first", "[x](@second)"));
    load_row(&mut cache, row("second", "text"));
    let listed = cache.list();
    assert_eq!(listed.len(), 2);
    assert_eq!(listed[0].slug, "first");
    assert_eq!(listed[0].linked_slugs, vec!["second".to_string()]);
    assert_eq!(listed[1].slug, "second");
}

#[test]
fn failed_write_leaves_cache_unchanged() {
    let mut cache = SlugCache::new();
    commit(&mut cache, page("kept", "old"));
    finish_write(&mut cache, page("lost", "never stored"), false);
    assert_eq!(cache.len(), 1);
    assert!(!cache.contains(&"lost".to_string()));
    finish_write(&mut cache, page("stored", "new"), true);
    assert_eq!(cache.len(), 2);
    assert!(cache.contains(&"stored".to_string()));
}
