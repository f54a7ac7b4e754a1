//! Storage and reminder-scheduling engine for a spaced-repetition note tracker.
//!
//! The library owns the in-memory database of review topics and categories,
//! the spaced-repetition interval arithmetic, the export/import envelope
//! logic, and the reminder scheduler's duplicate-suppression state machine.
//! File persistence, locking and threads live outside the library; every
//! operation here is a pure, verified transformation of plain values.

pub mod clock;
pub mod intervals;
pub mod scheduler;
pub mod models;
pub mod store;
pub mod text;

use vstd::prelude::*;

verus! {

/// Number of seconds in one calendar day.
pub const DAY_SECONDS: i64 = 86400;

} // verus!
