//! The file-backed store's description: where the two JSON documents (the
//! finished-activity array and the ongoing-activity array) live.
//!
//! Reading and writing those files is input/output and lives with the
//! caller; the storage logic itself runs on the in-memory backend.

use vstd::prelude::*;

verus! {

/// The paths of the two JSON documents backing a store.
pub struct JsonStorage {
    /// The ongoing-activities document.
    pub current_path: String,
    /// The finished-activities document.
    pub finished_path: String,
}

impl JsonStorage {
    /// Describes a store over the two document paths.
    pub fn new(current_path: String, finished_path: String) -> (r: JsonStorage)
        ensures
            r.current_path == current_path,
            r.finished_path == finished_path,
    {
        JsonStorage { current_path, finished_path }
    }
}

} // verus!
