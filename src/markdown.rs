//! The markdown engine boundary: a document becomes a queue of engine events,
//! each event is classified into the few kinds the pipeline decides on, and a
//! run of events is rendered to HTML.

use pulldown_cmark::{BrokenLink, CowStr, Event, LinkType as T, Options, Parser, Tag, TagEnd};
use std::collections::VecDeque;
use vstd::prelude::*;

verus! {

#[verifier::external_type_specification]
#[verifier::external_body]
pub struct ExEvent<'a>(Event<'a>);

#[verifier::external_type_specification]
#[verifier::external_body]
pub struct ExLinkType(T);

/// How a link was written, one variant per form the engine tells apart.
#[derive(Clone, Copy, Debug, PartialEq, Eq)]
pub enum LinkKind {
    /// `[text](dest)`
    Inline,
    /// `[text][label]` with the label defined in the document
    Reference,
    /// `[text][label]` with the label undefined
    ReferenceUnknown,
    /// `[label][]` with the label defined
    Collapsed,
    /// `[label][]` with the label undefined
    CollapsedUnknown,
    /// `[label]` with the label defined
    Shortcut,
    /// `[label]` with the label undefined
    ShortcutUnknown,
    /// `<scheme:dest>`
    Autolink,
    /// `<user@host>`
    Email,
}

/// A link written in reference, collapsed or shortcut form whose label the
/// document does not define.
pub open spec fn is_unresolved(k: LinkKind) -> bool {
    k == LinkKind::ReferenceUnknown || k == LinkKind::CollapsedUnknown || k == LinkKind::ShortcutUnknown
}

/// What the pipeline needs to know of one engine event.
pub enum EventKind {
    /// The start of a link: its destination and how it was written.
    Link { dest: String, link_type: T },
    /// A reference to a footnote, by label.
    FootnoteReference(String),
    /// The start of a footnote definition, by label.
    FootnoteDefinitionStart(String),
    /// The end of a footnote definition.
    FootnoteDefinitionEnd,
    /// Any other event.
    Other,
}

/// The event stream the markdown engine produces for a document.
pub uninterp spec fn markdown_events(md: Seq<char>) -> Seq<Event<'static>>;

/// The kind of one engine event.
pub uninterp spec fn kind_of(e: Event<'static>) -> EventKind;

/// The HTML the engine renders for a run of events.
pub uninterp spec fn html_of(events: Seq<Event<'static>>) -> Seq<char>;

/// Relies on pulldown_cmark's `Parser` with every extension enabled and a
/// broken-link callback that resolves an undefined reference to its own label
/// with an empty title: the events depend on the text alone, and an empty
/// text gives no events.
#[verifier::external_body]
pub(crate) fn parse_markdown(md: &str) -> (r: VecDeque<Event<'static>>)
    ensures
        r@ == markdown_events(md@),
        md@.len() == 0 ==> r@.len() == 0,
{
    Parser::new_with_broken_link_callback(
        md,
        Options::all(),
        Some(|BrokenLink { reference, .. }| Some((reference, CowStr::Borrowed("")))),
    )
        .map(Event::into_static)
        .collect()
}

/// Relies on the shape of pulldown_cmark's `Event`: picks out link starts,
/// footnote references and the bounds of footnote definitions.
#[verifier::external_body]
pub(crate) fn event_kind(e: &Event<'static>) -> (k: EventKind)
    ensures
        k == kind_of(*e),
{
    match e {
        Event::Start(Tag::Link { link_type, dest_url, .. }) => {
            EventKind::Link { dest: dest_url.to_string(), link_type: *link_type }
        },
        Event::FootnoteReference(l) => EventKind::FootnoteReference(l.to_string()),
        Event::Start(Tag::FootnoteDefinition(l)) => EventKind::FootnoteDefinitionStart(l.to_string()),
        Event::End(TagEnd::FootnoteDefinition) => EventKind::FootnoteDefinitionEnd,
        _ => EventKind::Other,
    }
}

/// The form of a link as the library names it.
pub uninterp spec fn link_kind_of(t: T) -> LinkKind;

/// Relies on the variants of pulldown_cmark's `LinkType`, mapped one to one.
#[verifier::external_body]
pub(crate) fn link_kind(t: &T) -> (k: LinkKind)
    ensures
        k == link_kind_of(*t),
{
    match t {
        T::Inline => LinkKind::Inline,
        T::Reference => LinkKind::Reference,
        T::ReferenceUnknown => LinkKind::ReferenceUnknown,
        T::Collapsed => LinkKind::Collapsed,
        T::CollapsedUnknown => LinkKind::CollapsedUnknown,
        T::Shortcut => LinkKind::Shortcut,
        T::ShortcutUnknown => LinkKind::ShortcutUnknown,
        T::Autolink => LinkKind::Autolink,
        T::Email => LinkKind::Email,
    }
}

/// Relies on pulldown_cmark::html::push_html, which renders a run of events
/// into HTML appended to an empty string; no events write nothing.
#[verifier::external_body]
pub(crate) fn render_html(events: &Vec<Event<'static>>) -> (r: String)
    ensures
        r@ == html_of(events@),
        events@.len() == 0 ==> r@.len() == 0,
{
    let mut html = String::new();
    pulldown_cmark::html::push_html(&mut html, events.iter().cloned());
    html
}

/// Relies on `str::chars` collected into a `Vec`: the characters of `s` in order.
#[verifier::external_body]
pub(crate) fn chars_of(s: &String) -> (r: Vec<char>)
    ensures
        r@ == s@,
{
    s.chars().collect()
}

/// Relies on `String::from_iter` over characters: the string of `cs` in order.
#[verifier::external_body]
pub(crate) fn string_of(cs: Vec<char>) -> (r: String)
    ensures
        r@ == cs@,
{
    String::from_iter(cs)
}

} // verus!
