//! Configuration values the library hands around.

use vstd::prelude::*;

verus! {

/// A filesystem path that was checked to exist, in canonical form.
#[derive(Clone, Debug)]
pub struct ValidPath(pub String);

impl ValidPath {
    /// The path as text.
    pub fn as_str(&self) -> (r: &str)
        ensures
            r@ == self.0@,
    {
        self.0.as_str()
    }
}

/// Where the persistent store lives.
#[derive(Clone, Debug)]
pub struct DbConfig {
    pub sqlite_file: ValidPath,
}

} // verus!
