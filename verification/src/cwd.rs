//! A working directory held as a plain path string.

use vstd::prelude::*;

use crate::paths::{path_join, spec_join};

verus! {

/// A working directory.  The caller supplies the path; joining against it
/// is verified here.
pub struct Cwd(pub String);

impl Cwd {
    /// Wrap a directory path.
    pub fn new(path: String) -> (r: Cwd)
        ensures
            r.0@ == path@,
    {
        Cwd(path)
    }

    /// Join a path onto this directory.
    pub fn join(&self, path: &str) -> (r: String)
        ensures
            r@ == spec_join(self.0@, path@),
    {
        path_join(self.0.as_str(), path)
    }
}

} // verus!
