//! A durable, retrying task scheduler layered on an ordered key-value store.
//!
//! The scheduler accepts units of work (tasks), holds them in an ordered
//! store keyed by monotonically assigned integers, and drives their
//! execution with configurable due times, retry budgets and retry backoff.

use vstd::prelude::*;

pub mod metrics;
pub mod scheduler;
pub mod settings;
pub mod storage;
pub mod task;

verus! {

/// Error surfaced by the scheduler's store access.
///
/// Task execution failures are never surfaced here: they are handled
/// entirely by the retry state machine of [`task::ScheduledTask`].
#[derive(Clone, Copy, Debug, PartialEq, Eq, Structural)]
pub enum SchedulerError {
    /// The durable store backend could not be reached or was corrupted.
    StorageUnavailable,
    /// A key just obtained from the store was no longer present: a fatal
    /// programming-invariant violation, never a silent skip.
    MissingRecord,
}

} // verus!
