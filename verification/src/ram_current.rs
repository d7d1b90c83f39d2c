//! An in-memory current-activity backend; every operation succeeds.

use vstd::prelude::*;

use crate::activity::{OngoingActivity, OngoingView};
use crate::errors::StorageError;
use crate::repository::CurrentActivityRepository;

verus! {

/// Holds at most one current activity in memory.
pub struct RAMCurrentActivityRepository {
    current: Option<OngoingActivity>,
}

impl RAMCurrentActivityRepository {
    /// An empty repository.
    pub fn default() -> (r: RAMCurrentActivityRepository)
        ensures
            r.inv(),
            r.current() is None,
    {
        RAMCurrentActivityRepository { current: None }
    }
}

impl CurrentActivityRepository for RAMCurrentActivityRepository {
    closed spec fn current(&self) -> Option<OngoingView> {
        match self.current {
            None => None,
            Some(o) => Some(o@),
        }
    }

    open spec fn inv(&self) -> bool {
        match self.current() {
            None => true,
            Some(o) => o.is_valid(),
        }
    }

    fn get_current_activity(&self) -> (r: Result<Option<OngoingActivity>, StorageError>) {
        match &self.current {
            None => Ok(None),
            Some(o) => Ok(Some(o.clone())),
        }
    }

    fn set_current_activity(&mut self, activity: OngoingActivity) -> (r: Result<
        (),
        StorageError,
    >) {
        self.current = Some(activity);
        Ok(())
    }

    fn reset_current_activity(&mut self) -> (r: Result<(), StorageError>) {
        self.current = None;
        Ok(())
    }
}

} // verus!
