use blog::document::{derive_slug, DbPage, PublishForm, ValidateError};
use blog::page::Page;
use blog::timestamp::Timestamp;

fn jan_fifth() -> Timestamp {
    Timestamp {
        year: 2024,
        month: 1,
        day: 5,
        hour: 0,
        minute: 0,
        second: 0,
        nanosecond: 0,
        offset_seconds: 0,
    }
}

fn stored(slug: &str, body: Option<&str>) -> DbPage {
    DbPage {
        slug: slug.to_string(),
        draft: None,
        published: jan_fifth(),
        title: Some("Hello World".to_string()),
        last_updated: None,
        author: Some("ann".to_string()),
        markdown_content: body.map(|b| b.to_string()),
    }
}

fn render(body: &str) -> (Page, Vec<ValidateError>) {
    stored("post", Some(body)).saturate()
}

fn labels(page: &Page) -> Vec<String> {
    page.footnotes.keys().cloned().collect()
}

fn describe(errors: &[ValidateError]) -> Vec<String> {
    errors
        .iter()
        .map(|e| match e {
            ValidateError::UnknownFootnote(l) => format!("unknown-footnote:{}", l),
            ValidateError::UnreferencedFootnote(l) => format!("unreferenced-footnote:{}", l),
            ValidateError::UnknownLink(u) => format!("unknown-link:{}", u),
        })
        .collect()
}

#[test]
fn slug_from_date_and_title() {
    let slug = derive_slug(&jan_fifth(), &Some("Hello World".to_string()));
    assert_eq!(slug, "2024-01-05-hello-world");
}

#[test]
fn slug_without_title_is_the_date() {
    assert_eq!(derive_slug(&jan_fifth(), &None), "2024-01-05");
}

#[test]
fn form_becomes_stored_page_under_derived_slug() {
    let form = PublishForm {
        published: jan_fifth(),
        title: Some("Hello World".to_string()),
        author: None,
        markdown_content: Some("hi".to_string()),
        draft: Some(true),
    };
    let row = form.into_page();
    assert_eq!(row.slug, "2024-01-05-hello-world");
    assert_eq!(row.draft, Some(true));
    assert_eq!(row.title.as_deref(), Some("Hello World"));
    assert!(row.last_updated.is_none());
    assert_eq!(row.markdown_content.as_deref(), Some("hi"));
}

#[test]
fn date_text_is_year_month_day() {
    assert_eq!(jan_fifth().date_text(), "2024-01-05");
}

#[test]
fn referenced_footnote_enters_table() {
    let (page, errors) = render("See [^a].\n\n[^a]: note.\n");
    assert_eq!(labels(&page), vec!["a".to_string()]);
    assert!(page.footnotes["a"].0.contains("<p>note.</p>"));
    assert!(errors.is_empty(), "{:?}", describe(&errors));
    assert!(!page.content.0.contains("note."));
}

#[test]
fn unreferenced_footnote_is_kept_and_reported() {
    let (page, errors) = render("[^b]: orphan.");
    assert_eq!(labels(&page), vec!["b".to_string()]);
    assert!(page.footnotes["b"].0.contains("orphan."));
    assert_eq!(describe(&errors), vec!["unreferenced-footnote:b".to_string()]);
}

#[test]
fn undefined_footnote_is_reported_once() {
    let (page, errors) = render("See [^z] and [^z] again.");
    assert!(page.footnotes.is_empty());
    assert_eq!(describe(&errors), vec!["unknown-footnote:z".to_string()]);
}

#[test]
fn internal_link_is_collected() {
    let (page, errors) = render("[link](@other-post)");
    assert_eq!(page.linked_slugs, vec!["other-post".to_string()]);
    assert!(errors.is_empty());
}

#[test]
fn internal_links_keep_source_order_and_duplicates() {
    let (page, _) = render("[a](@x) [b](https://example.org) [c](@y) [d](@x)");
    assert_eq!(
        page.linked_slugs,
        vec!["x".to_string(), "y".to_string(), "x".to_string()]
    );
}

#[test]
fn footnote_table_follows_reference_order() {
    let (page, errors) = render("One[^y] two[^x] three[^y].\n\n[^x]: ex.\n\n[^y]: why.\n");
    assert_eq!(labels(&page), vec!["y".to_string(), "x".to_string()]);
    assert!(errors.is_empty(), "{:?}", describe(&errors));
}

#[test]
fn unresolved_reference_link_is_reported() {
    let (page, errors) = render("see [nowhere] here");
    assert_eq!(describe(&errors), vec!["unknown-link:nowhere".to_string()]);
    assert!(page.linked_slugs.is_empty());
}

#[test]
fn saturation_is_deterministic() {
    let body = "A[^n] [x](@p) [gone]\n\n[^n]: first.\n\n[^m]: second.\n";
    let (first, first_errors) = render(body);
    let (second, second_errors) = render(body);
    assert_eq!(first.content.0, second.content.0);
    assert_eq!(first.linked_slugs, second.linked_slugs);
    assert_eq!(describe(&first_errors), describe(&second_errors));
    assert_eq!(labels(&first), labels(&second));
    assert_eq!(
        describe(&first_errors),
        vec!["unknown-link:gone".to_string(), "unreferenced-footnote:m".to_string()]
    );
}

#[test]
fn missing_body_gives_empty_page() {
    let (page, errors) = stored("empty", None).saturate();
    assert_eq!(page.content.0, "");
    assert!(page.linked_slugs.is_empty());
    assert!(page.footnotes.is_empty());
    assert!(errors.is_empty());
}

#[test]
fn metadata_is_copied_and_draft_defaults_to_false() {
    let (page, _) = render("# Title\n\nbody");
    assert_eq!(page.slug, "post");
    assert!(!page.draft);
    assert_eq!(page.title.as_deref(), Some("Hello World"));
    assert_eq!(page.author.as_deref(), Some("ann"));
    assert_eq!(page.published, jan_fifth());
    assert!(page.content.0.contains("<h1>Title</h1>"));
}

#[test]
fn definition_order_does_not_change_table_order() {
    let (first, _) = render("A[^y] B[^x].\n\n[^y]: why.\n\n[^x]: ex.\n");
    let (second, _) = render("A[^y] B[^x].\n\n[^x]: ex.\n\n[^y]: why.\n");
    assert_eq!(labels(&first), vec!["y".to_string(), "x".to_string()]);
    assert_eq!(labels(&first), labels(&second));
}

#[test]
fn collapsed_unresolved_link_is_reported_and_inline_is_not() {
    let (_, errors) = render("[gone][] and [there](https://example.org)");
    assert_eq!(describe(&errors), vec!["unknown-link:gone".to_string()]);
}

#[test]
fn defined_reference_link_is_not_reported() {
    let (_, errors) = render("[home]\n\n[home]: https://example.org\n");
    assert!(errors.is_empty(), "{:?}", describe(&errors));
}

#[test]
fn slug_collapses_punctuation_runs() {
    let slug = derive_slug(&jan_fifth(), &Some("  --Weird__Title!! ".to_string()));
    assert_eq!(slug, "2024-01-05-weird-title");
}

#[test]
fn timestamp_validity() {
    assert!(jan_fifth().is_valid());
    let mut t = jan_fifth();
    t.month = 2;
    t.day = 30;
    assert!(!t.is_valid());
    t.year = 2024;
    t.day = 29;
    assert!(t.is_valid());
    t.year = 2023;
    assert!(!t.is_valid());
    let mut u = jan_fifth();
    u.month = 13;
    assert!(!u.is_valid());
    let mut v = jan_fifth();
    v.year = 10_000;
    assert!(!v.is_valid());
}
