//! The on-disk location of the ongoing-activity document.

use vstd::prelude::*;

verus! {

/// Where the ongoing-activity JSON document lives.
pub struct JsonCurrentActivityRepository {
    /// The document's path.
    pub repository_path: String,
}

impl JsonCurrentActivityRepository {
    /// Describes a repository at `path`.
    pub fn new(path: String) -> (r: JsonCurrentActivityRepository)
        ensures
            r.repository_path == path,
    {
        JsonCurrentActivityRepository { repository_path: path }
    }
}

} // verus!
