//! The on-disk location of the finished-activities document.

use vstd::prelude::*;

verus! {

/// Where the finished-activities JSON document lives.
pub struct JsonFinishedActivityRepository {
    /// The document's path.
    pub writer_path: String,
}

impl JsonFinishedActivityRepository {
    /// Describes a repository at `path`.
    pub fn new(path: String) -> (r: JsonFinishedActivityRepository)
        ensures
            r.writer_path == path,
    {
        JsonFinishedActivityRepository { writer_path: path }
    }
}

} // verus!
