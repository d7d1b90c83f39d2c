//! The single-current-activity capability: persisting and querying at most
//! one current activity.

use vstd::prelude::*;

use crate::activity::{OngoingActivity, OngoingView};
use crate::errors::StorageError;

verus! {

/// A backend persisting at most one current activity. Its abstract state is
/// `current()`; every operation may fail with a `StorageError`.
pub trait CurrentActivityRepository: Sized {
    /// The current activity, if one is set.
    spec fn current(&self) -> Option<OngoingView>;

    /// The backend's invariant: whatever is stored is valid.
    spec fn inv(&self) -> bool;

    /// Retrieves the current activity, if any.
    fn get_current_activity(&self) -> (r: Result<Option<OngoingActivity>, StorageError>)
        requires
            self.inv(),
        ensures
            r matches Ok(Some(o)) ==> self.current() == Some(o@),
            r matches Ok(None) ==> self.current() is None,
    ;

    /// Makes `activity` the current activity.
    fn set_current_activity(&mut self, activity: OngoingActivity) -> (r: Result<
        (),
        StorageError,
    >)
        requires
            old(self).inv(),
            activity.is_valid(),
        ensures
            final(self).inv(),
            r is Ok ==> final(self).current() == Some(activity@),
            r is Err ==> final(self).current() == old(self).current(),
    ;

    /// Resets the current activity to none; afterwards
    /// `get_current_activity` answers `None`.
    fn reset_current_activity(&mut self) -> (r: Result<(), StorageError>)
        requires
            old(self).inv(),
        ensures
            final(self).inv(),
            r is Ok ==> final(self).current() is None,
            r is Err ==> final(self).current() == old(self).current(),
    ;
}

} // verus!
