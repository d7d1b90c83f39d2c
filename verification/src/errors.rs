//! The error taxonomy: invalid intervals, overlap-policy violations,
//! ambiguous implicit targets, and storage failures.

use vstd::prelude::*;

use crate::activity::Activity;
use crate::datetimew::DateTimeW;

verus! {

/// A failure of the storage backend; never raised by the in-memory backend,
/// raised by file-backed callers that feed it.
#[derive(Debug)]
pub enum StorageError {
    /// An input/output failure, with the backend's description.
    Io(String),
    /// A (de)serialization failure, with the backend's description.
    Serde(String),
}

/// An error surfaced by the activity model or the activity service.
#[derive(Debug)]
pub enum RtwError {
    /// A stop time preceding a start time, as `(stop_time, start_time)`.
    InvalidInterval(DateTimeW, DateTimeW),
    /// The operation would create a finished interval overlapping the listed
    /// finished activities.
    Overlap(Vec<Activity>),
    /// Multiple ongoing activities were present where an implicit
    /// single-target operation was requested.
    AmbiguousState,
    /// The storage backend failed.
    Storage(StorageError),
}

} // verus!
