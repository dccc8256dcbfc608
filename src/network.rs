//! The reply to a publish request.

use crate::document::ValidateError;
use crate::page::Page;
use vstd::prelude::*;

verus! {

/// A published page and the diagnostics of its render.
#[derive(Debug)]
pub struct PublishResponse<'page> {
    pub page: &'page Page,
    pub errors: Vec<ValidateError>,
}

} // verus!
