//! Transport payload wrappers: a value carried as JSON or as a form body.

use vstd::prelude::*;

verus! {

/// A value carried as a JSON body.
#[derive(Debug)]
pub struct MyJson<T>(pub T);

/// A value carried as a form body.
#[derive(Debug)]
pub struct MyForm<T>(pub T);

} // verus!
