//! Task records and the retry state machine.
//!
//! A scheduled task is a payload plus its execution options: the earliest
//! time it may run, the number of retries it has left, and the delay added
//! to the failure time when a failed attempt is rescheduled.

use vstd::prelude::*;

use crate::SchedulerError;

verus! {

/// Execution options of a scheduled task, immutable for a given attempt.
#[derive(Clone, Copy, Debug, PartialEq, Eq, Structural)]
pub struct TaskOptions {
    /// Earliest time (seconds since epoch) the task may be dispatched.
    pub execute_after_timestamp_in_secs: u64,
    /// Attempts remaining after the current one; 0 means "do not retry".
    pub max_retries: u32,
    /// Delay added to "now" when a failed task is rescheduled.
    pub retry_delay_secs: u64,
}

impl TaskOptions {
    /// Options for an immediate, non-retried task.
    pub fn new() -> (r: TaskOptions)
        ensures
            r.execute_after_timestamp_in_secs == 0,
            r.max_retries == 0,
            r.retry_delay_secs == 0,
    {
        TaskOptions { execute_after_timestamp_in_secs: 0, max_retries: 0, retry_delay_secs: 0 }
    }

    /// Sets the retry budget: how many times a failing task is re-attempted.
    pub fn with_max_retries(self, max_retries: u32) -> (r: TaskOptions)
        ensures
            r.max_retries == max_retries,
            r.execute_after_timestamp_in_secs == self.execute_after_timestamp_in_secs,
            r.retry_delay_secs == self.retry_delay_secs,
    {
        TaskOptions { max_retries, ..self }
    }

    /// Sets the delay added to the failure time when a failed task is rescheduled.
    pub fn with_retry_delay_secs(self, retry_delay_secs: u64) -> (r: TaskOptions)
        ensures
            r.retry_delay_secs == retry_delay_secs,
            r.execute_after_timestamp_in_secs == self.execute_after_timestamp_in_secs,
            r.max_retries == self.max_retries,
    {
        TaskOptions { retry_delay_secs, ..self }
    }

    /// Sets the earliest time (seconds since epoch) the task may be dispatched.
    pub fn with_execute_after_timestamp_in_secs(self, execute_after_timestamp_in_secs: u64) -> (r:
        TaskOptions)
        ensures
            r.execute_after_timestamp_in_secs == execute_after_timestamp_in_secs,
            r.max_retries == self.max_retries,
            r.retry_delay_secs == self.retry_delay_secs,
    {
        TaskOptions { execute_after_timestamp_in_secs, ..self }
    }
}

impl Default for TaskOptions {
    /// Same options as [`TaskOptions::new`].
    fn default() -> (r: TaskOptions)
        ensures
            r.execute_after_timestamp_in_secs == 0,
            r.max_retries == 0,
            r.retry_delay_secs == 0,
    {
        TaskOptions::new()
    }
}

/// A unit of schedulable work: a payload plus its execution options.
#[derive(Clone, Copy, Debug)]
pub struct ScheduledTask<T> {
    /// The payload; the scheduler never interprets it.
    pub task: T,
    /// When and how often the payload may be dispatched.
    pub options: TaskOptions,
}

/// A task is due at `now` when its earliest start time has arrived.
pub open spec fn is_due<T>(t: ScheduledTask<T>, now: u64) -> bool {
    t.options.execute_after_timestamp_in_secs <= now
}

/// The retry transition of the task state machine, applied when a dispatched
/// task resolves at time `now_timestamp_secs`: a success, and a failure with
/// an exhausted budget, both end the task; any other failure re-schedules it
/// with one retry fewer and a due time pushed out by the retry delay.
pub open spec fn spec_after_execution<T>(
    t: ScheduledTask<T>,
    failed: bool,
    now_timestamp_secs: u64,
) -> Option<ScheduledTask<T>> {
    if !failed || t.options.max_retries == 0 {
        None
    } else {
        Some(
            ScheduledTask {
                task: t.task,
                options: TaskOptions {
                    execute_after_timestamp_in_secs: (now_timestamp_secs
                        + t.options.retry_delay_secs) as u64,
                    max_retries: (t.options.max_retries - 1) as u32,
                    retry_delay_secs: t.options.retry_delay_secs,
                },
            },
        )
    }
}

impl<T> ScheduledTask<T> {
    /// A task with the given payload and default options: immediately due,
    /// not retried on failure.
    pub fn new(task: T) -> (r: ScheduledTask<T>)
        ensures
            r.task == task,
            r.options.execute_after_timestamp_in_secs == 0,
            r.options.max_retries == 0,
            r.options.retry_delay_secs == 0,
    {
        ScheduledTask { task, options: TaskOptions::new() }
    }

    /// A task with the given payload and options.
    pub fn with_options(task: T, options: TaskOptions) -> (r: ScheduledTask<T>)
        ensures
            r.task == task,
            r.options == options,
    {
        ScheduledTask { task, options }
    }

    /// Applies the retry transition when one dispatch resolves at time
    /// `now_timestamp_secs`.
    ///
    /// Returns the record to re-enqueue, or `None` when the task is finished:
    /// a success needs no further work, and a failure with no retry budget
    /// left is dropped. A failure with budget left is re-scheduled with the
    /// budget decremented and a due time of exactly `now + retry_delay_secs`.
    pub fn after_execution(self, result: Result<(), SchedulerError>, now_timestamp_secs: u64) -> (r:
        Option<ScheduledTask<T>>)
        requires
            now_timestamp_secs + self.options.retry_delay_secs <= u64::MAX,
        ensures
            r == spec_after_execution(self, result is Err, now_timestamp_secs),
            result is Ok ==> r is None,
            result is Err && self.options.max_retries == 0 ==> r is None,
            result is Err && self.options.max_retries > 0 ==> (r matches Some(rt)
                && rt.task == self.task && rt.options.execute_after_timestamp_in_secs
                == now_timestamp_secs + self.options.retry_delay_secs && rt.options.max_retries
                == self.options.max_retries - 1 && rt.options.retry_delay_secs
                == self.options.retry_delay_secs),
    {
        match result {
            Ok(()) => None,
            Err(_) => {
                if self.options.max_retries > 0 {
                    let options = TaskOptions {
                        execute_after_timestamp_in_secs: now_timestamp_secs
                            + self.options.retry_delay_secs,
                        max_retries: self.options.max_retries - 1,
                        retry_delay_secs: self.options.retry_delay_secs,
                    };
                    Some(ScheduledTask { task: self.task, options })
                } else {
                    None
                }
            },
        }
    }
}

/// The record (if any) still scheduled after `nows.len()` consecutive failed
/// dispatches of `t`, the `i`-th failure resolving at time `nows[i]`.
pub open spec fn spec_after_failures<T>(t: ScheduledTask<T>, nows: Seq<u64>) -> Option<
    ScheduledTask<T>,
>
    decreases nows.len(),
{
    if nows.len() == 0 {
        Some(t)
    } else {
        match spec_after_execution(t, true, nows[0]) {
            Some(t2) => spec_after_failures(t2, nows.drop_first()),
            None => None,
        }
    }
}

/// Retry exhaustion: a task whose every dispatch fails survives exactly its
/// first `max_retries` failures, each re-enqueue keeping the remaining budget
/// in step, and the next failure drops it. Such a task is therefore
/// dispatched exactly `max_retries + 1` times and then never again.
pub proof fn lemma_retry_exhaustion<T>(t: ScheduledTask<T>, nows: Seq<u64>)
    ensures
        spec_after_failures(t, nows) is Some <==> nows.len() <= t.options.max_retries,
        spec_after_failures(t, nows) matches Some(rt) ==> rt.options.max_retries
            == t.options.max_retries - nows.len() && rt.task == t.task
            && rt.options.retry_delay_secs == t.options.retry_delay_secs,
    decreases nows.len(),
{
    if nows.len() > 0 {
        match spec_after_execution(t, true, nows[0]) {
            Some(t2) => {
                lemma_retry_exhaustion(t2, nows.drop_first());
            },
            None => {},
        }
    }
}

} // verus!
