//! Outcomes of the publish workflow, as the transport layer sees them.

use crate::page::{ContentError, MarkdownError, Page};
use vstd::prelude::*;

verus! {

/// Why the store refused a write.
#[derive(Clone, Debug)]
pub enum DbError {
    /// A page with this slug exists already.
    SlugExists(String),
}

/// The outcome of a request, as handed to the transport layer.
#[derive(Debug)]
pub enum ApiError {
    Markdown(MarkdownError),
    Content(ContentError),
    Database(DbError),
    Publish(PublishResponse),
    InvalidJson(String),
    Sqlx(String),
}

/// A published page together with the findings about it.
#[derive(Debug)]
pub struct PublishResponse {
    pub page: Page,
    pub errors: Vec<ApiError>,
}

} // verus!
