//! A time tracker library: tagged activities over wall-clock intervals,
//! a consistency-checked activity store, and an ASCII timeline renderer.

use vstd::prelude::*;

pub mod activity;
pub mod chrono_clock;
pub mod cli_helper;
pub mod clock;
pub mod datetimew;
pub mod durationw;
pub mod errors;
pub mod json_current;
pub mod json_finished;
pub mod json_storage;
pub mod mem_storage;
pub mod ram_current;
pub mod repository;
pub mod rtw_cli;
pub mod rtw_config;
pub mod service;
pub mod status;
pub mod storage;
pub mod text;
pub mod time_tools;
pub mod timeline;

verus! {

/// A tag attached to an activity.
pub type Tag = String;

/// Activity tags, in insertion order (insertion order = display order).
pub type Tags = Vec<Tag>;

/// Free-form activity description.
pub type Description = String;

/// Transient, position-derived index over a freshly sorted activity listing;
/// id 0 denotes the most recently started finished activity.
pub type ActivityId = usize;

} // verus!
