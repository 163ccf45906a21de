//! The scheduler: drains due records from the ordered store in ascending-key
//! order, hands them out for dispatch, and re-enqueues records that are not
//! yet due.
//!
//! Dispatch is fire-and-forget: one pass removes every record present at its
//! start, returns the due ones (the host executes them without the scheduler
//! waiting), and re-inserts the not-yet-due ones under fresh keys at the end
//! of the pass. A task appended while a pass runs is picked up by a later
//! pass.

use vstd::prelude::*;
use vstd::assert_seqs_equal;

use crate::SchedulerError;
use crate::storage::{StableBTreeMap, lemma_seq_insert_append, sorted_keys};
use crate::task::{ScheduledTask, is_due};

verus! {

/// The key assigned to the next appended record: one above the largest key
/// present, or 0 if the store is empty.
pub open spec fn next_key_int<V>(s: Seq<(u32, V)>) -> int {
    if s.len() == 0 {
        0
    } else {
        s.last().0 + 1
    }
}

/// `tasks` keyed by the contiguous ascending run of keys starting at `base`.
pub open spec fn keyed_from<T>(base: int, tasks: Seq<ScheduledTask<T>>) -> Seq<
    (u32, ScheduledTask<T>),
> {
    Seq::new(tasks.len(), |i: int| (((base + i) as u32), tasks[i]))
}

/// The tasks of a record sequence, in key order, without their keys.
pub open spec fn record_tasks<T>(recs: Seq<(u32, ScheduledTask<T>)>) -> Seq<ScheduledTask<T>> {
    recs.map_values(|p: (u32, ScheduledTask<T>)| p.1)
}

/// Whether a task is due at `now`, as a predicate value.
pub open spec fn due_pred<T>(now: u64) -> spec_fn(ScheduledTask<T>) -> bool {
    |t: ScheduledTask<T>| is_due(t, now)
}

/// Whether a task is still pending at `now`, as a predicate value.
pub open spec fn not_due_pred<T>(now: u64) -> spec_fn(ScheduledTask<T>) -> bool {
    |t: ScheduledTask<T>| !is_due(t, now)
}

/// The tasks a pass at time `now` dispatches, in ascending-key order.
pub open spec fn due_tasks<T>(recs: Seq<(u32, ScheduledTask<T>)>, now: u64) -> Seq<
    ScheduledTask<T>,
> {
    record_tasks(recs).filter(due_pred(now))
}

/// The tasks a pass at time `now` holds aside and re-enqueues, in order.
pub open spec fn deferred_tasks<T>(recs: Seq<(u32, ScheduledTask<T>)>, now: u64) -> Seq<
    ScheduledTask<T>,
> {
    record_tasks(recs).filter(not_due_pred(now))
}

/// Filtering a sequence extended by one element keeps the old result and
/// appends the element exactly when it satisfies the predicate.
proof fn lemma_filter_push<A>(s: Seq<A>, pred: spec_fn(A) -> bool, x: A)
    ensures
        pred(x) ==> s.push(x).filter(pred) == s.filter(pred).push(x),
        !pred(x) ==> s.push(x).filter(pred) == s.filter(pred),
{
    reveal(Seq::filter);
    assert_seqs_equal!(s.push(x).drop_last(), s);
    assert(s.push(x).last() == x);
}

/// A filter that accepts every element returns the sequence unchanged.
proof fn lemma_filter_all_true<A>(s: Seq<A>, pred: spec_fn(A) -> bool)
    requires
        forall|k: int| 0 <= k < s.len() ==> pred(#[trigger] s[k]),
    ensures
        s.filter(pred) == s,
    decreases s.len(),
{
    reveal(Seq::filter);
    if s.len() == 0 {
        assert_seqs_equal!(s.filter(pred), s);
    } else {
        lemma_filter_all_true(s.drop_last(), pred);
        assert(pred(s.last()));
        assert_seqs_equal!(s.filter(pred), s);
    }
}

/// A filter that rejects every element returns the empty sequence.
proof fn lemma_filter_all_false<A>(s: Seq<A>, pred: spec_fn(A) -> bool)
    requires
        forall|k: int| 0 <= k < s.len() ==> !pred(#[trigger] s[k]),
    ensures
        s.filter(pred) == Seq::<A>::empty(),
    decreases s.len(),
{
    reveal(Seq::filter);
    if s.len() == 0 {
        assert_seqs_equal!(s.filter(pred), Seq::<A>::empty());
    } else {
        lemma_filter_all_false(s.drop_last(), pred);
        assert(!pred(s.last()));
        assert_seqs_equal!(s.filter(pred), Seq::<A>::empty());
    }
}

/// Extending the drained prefix by record `i` extends exactly one of the two
/// partitions of a pass — dispatched or deferred — by that record's task.
proof fn lemma_due_split_step<T>(recs: Seq<(u32, ScheduledTask<T>)>, now: u64, i: int)
    requires
        0 <= i < recs.len(),
    ensures
        is_due(recs[i].1, now) ==> due_tasks(recs.take(i + 1), now) == due_tasks(
            recs.take(i),
            now,
        ).push(recs[i].1) && deferred_tasks(recs.take(i + 1), now) == deferred_tasks(
            recs.take(i),
            now,
        ),
        !is_due(recs[i].1, now) ==> deferred_tasks(recs.take(i + 1), now) == deferred_tasks(
            recs.take(i),
            now,
        ).push(recs[i].1) && due_tasks(recs.take(i + 1), now) == due_tasks(recs.take(i), now),
{
    assert_seqs_equal!(recs.take(i + 1), recs.take(i).push(recs[i]));
    assert_seqs_equal!(record_tasks(recs.take(i).push(recs[i])),
        record_tasks(recs.take(i)).push(recs[i].1));
    lemma_filter_push(record_tasks(recs.take(i)), due_pred::<T>(now), recs[i].1);
    lemma_filter_push(record_tasks(recs.take(i)), not_due_pred::<T>(now), recs[i].1);
}

/// The append capability handed to task payloads and external triggers:
/// whatever executes may enqueue follow-up tasks, but cannot observe or
/// remove pending ones.
pub trait TaskScheduler<T> {
    /// The pending tasks, in dispatch order.
    spec fn pending(&self) -> Seq<ScheduledTask<T>>;

    /// Whether `n` more tasks can be appended (enough key space remains).
    spec fn can_append(&self, n: int) -> bool;

    /// Enqueue one task at the back of the pending queue.
    fn append_task(&mut self, task: ScheduledTask<T>)
        requires
            old(self).can_append(1),
        ensures
            final(self).pending() == old(self).pending().push(task),
    ;

    /// Enqueue the given tasks, keeping their order; a no-op for an empty batch.
    fn append_tasks(&mut self, tasks: Vec<ScheduledTask<T>>)
        requires
            old(self).can_append(tasks@.len() as int),
        ensures
            final(self).pending() == old(self).pending() + tasks@,
    ;
}

/// A scheduler: owns the durable ordered store of pending task records and
/// is responsible for draining and dispatching them.
pub struct Scheduler<T> {
    pending_tasks: StableBTreeMap<ScheduledTask<T>>,
}

impl<T> View for Scheduler<T> {
    type V = Seq<(u32, ScheduledTask<T>)>;

    closed spec fn view(&self) -> Seq<(u32, ScheduledTask<T>)> {
        self.pending_tasks@
    }
}

impl<T> Scheduler<T> {
    /// The scheduler invariant: record keys are strictly increasing.
    pub open spec fn wf(&self) -> bool {
        sorted_keys(self@)
    }

    /// A scheduler over the given store. No records are seeded.
    pub fn new(pending_tasks: StableBTreeMap<ScheduledTask<T>>) -> (r: Scheduler<T>)
        requires
            pending_tasks.wf(),
        ensures
            r@ == pending_tasks@,
            r.wf(),
    {
        Scheduler { pending_tasks }
    }

    /// The store of pending records, for inspection.
    pub fn pending_store(&self) -> (r: &StableBTreeMap<ScheduledTask<T>>)
        ensures
            r@ == self@,
    {
        &self.pending_tasks
    }

    /// Appends `tasks` under the contiguous run of keys starting at the next
    /// key, in input order.
    fn append_all(&mut self, tasks: Vec<ScheduledTask<T>>)
        requires
            old(self).wf(),
            next_key_int(old(self)@) + tasks@.len() <= u32::MAX + 1,
        ensures
            final(self).wf(),
            final(self)@ == old(self)@ + keyed_from(next_key_int(old(self)@), tasks@),
    {
        let ghost s0 = self@;
        let ghost all = tasks@;
        let ghost base = next_key_int(s0);
        if tasks.len() == 0 {
            proof {
                assert_seqs_equal!(s0 + keyed_from(base, all), s0);
            }
        } else {
            let mut tasks = tasks;
            let base_key: u32 = match self.pending_tasks.last_key() {
                Some(k) => k + 1,
                None => 0,
            };
            let mut j: usize = 0;
            proof {
                assert_seqs_equal!(all.skip(0), all);
                assert_seqs_equal!(s0 + keyed_from(base, all.take(0)), s0);
            }
            while tasks.len() > 0
                invariant
                    self.wf(),
                    base == next_key_int(s0),
                    0 <= base,
                    base + all.len() <= u32::MAX + 1,
                    1 <= all.len() <= usize::MAX,
                    base_key as int == base,
                    0 <= j <= all.len(),
                    j + tasks@.len() == all.len(),
                    tasks@ == all.skip(j as int),
                    self@ == s0 + keyed_from(base, all.take(j as int)),
                decreases tasks@.len(),
            {
                let task = tasks.remove(0);
                proof {
                    assert(all.skip(j as int)[0] == all[j as int]);
                    assert_seqs_equal!(tasks@, all.skip(j as int + 1));
                }
                let key: u32 = base_key + (j as u32);
                proof {
                    if j > 0 {
                        assert(self@.last() == keyed_from(base, all.take(j as int)).last());
                        assert(self@.last().0 == (base + j - 1) as u32);
                    }
                    lemma_seq_insert_append(self@, key, task);
                }
                let _ = self.pending_tasks.insert(key, task);
                proof {
                    assert_seqs_equal!(self@, s0 + keyed_from(base, all.take(j as int + 1)));
                }
                j += 1;
            }
            proof {
                assert_seqs_equal!(all.take(all.len() as int), all);
            }
        }
    }

    /// Performs one drain pass at time `now_timestamp_secs` over the records
    /// present at its start.
    ///
    /// Each record is removed in ascending-key order. The due ones are
    /// returned, in that order, for the host to dispatch without waiting;
    /// the not-yet-due ones are held aside and re-appended at the end of the
    /// pass with their due times and retry budgets unchanged, receiving
    /// fresh keys. With the reference backend a pass always succeeds;
    /// individual task failures never surface here.
    pub fn run(&mut self, now_timestamp_secs: u64) -> (r: Result<
        Vec<ScheduledTask<T>>,
        SchedulerError,
    >)
        requires
            old(self).wf(),
            old(self)@.len() <= u32::MAX,
        ensures
            final(self).wf(),
            r is Ok,
            r matches Ok(dispatched) ==> dispatched@ == due_tasks(old(self)@, now_timestamp_secs),
            final(self)@ == keyed_from(0, deferred_tasks(old(self)@, now_timestamp_secs)),
    {
        let ghost recs = self@;
        let mut dispatched: Vec<ScheduledTask<T>> = Vec::new();
        let mut to_be_reprocessed: Vec<ScheduledTask<T>> = Vec::new();
        let ghost mut i: int = 0;
        proof {
            assert_seqs_equal!(recs.skip(0), recs);
            lemma_filter_all_true(record_tasks(recs.take(0)), due_pred::<T>(now_timestamp_secs));
            lemma_filter_all_true(
                record_tasks(recs.take(0)),
                not_due_pred::<T>(now_timestamp_secs),
            );
            assert_seqs_equal!(record_tasks(recs.take(0)), Seq::<ScheduledTask<T>>::empty());
        }
        while !self.pending_tasks.is_empty()
            invariant
                self.wf(),
                0 <= i <= recs.len(),
                self@ == recs.skip(i),
                dispatched@ == due_tasks(recs.take(i), now_timestamp_secs),
                to_be_reprocessed@ == deferred_tasks(recs.take(i), now_timestamp_secs),
            decreases recs.len() - i,
        {
            let key = match self.pending_tasks.first_key() {
                Some(k) => k,
                // Unreachable: the store was just seen to be non-empty.
                None => {
                    return Err(SchedulerError::MissingRecord);
                },
            };
            let ghost view_before = self@;
            let task = match self.pending_tasks.remove(&key) {
                Some(task) => task,
                // A key just obtained from `first_key` must be present; its
                // absence is a fatal invariant violation, not a silent skip.
                None => {
                    return Err(SchedulerError::MissingRecord);
                },
            };
            proof {
                assert(view_before[0].0 == key);
                assert(task == recs[i].1);
                assert_seqs_equal!(view_before.drop_first(), recs.skip(i + 1));
                lemma_due_split_step(recs, now_timestamp_secs, i);
            }
            if task.options.execute_after_timestamp_in_secs > now_timestamp_secs {
                to_be_reprocessed.push(task);
            } else {
                dispatched.push(task);
            }
            proof {
                i = i + 1;
            }
        }
        proof {
            assert(i == recs.len());
            assert_seqs_equal!(recs.take(i), recs);
            record_tasks(recs).lemma_filter_len(not_due_pred::<T>(now_timestamp_secs));
            assert_seqs_equal!(self@, Seq::<(u32, ScheduledTask<T>)>::empty());
        }
        let ghost deferred_view = to_be_reprocessed@;
        self.append_all(to_be_reprocessed);
        proof {
            assert_seqs_equal!(
                Seq::<(u32, ScheduledTask<T>)>::empty() + keyed_from(0, deferred_view),
                keyed_from(0, deferred_view)
            );
        }
        Ok(dispatched)
    }
}

impl<T> TaskScheduler<T> for Scheduler<T> {
    /// The pending tasks are the stored records in key order.
    open spec fn pending(&self) -> Seq<ScheduledTask<T>> {
        record_tasks(self@)
    }

    /// Appending is possible while the keys it assigns fit in the key type.
    open spec fn can_append(&self, n: int) -> bool {
        self.wf() && 0 <= n && next_key_int(self@) + n <= u32::MAX + 1
    }

    /// Assigns the next key — `last_key() + 1`, or 0 if the store is empty —
    /// and inserts. With the reference backend this never fails.
    fn append_task(&mut self, task: ScheduledTask<T>)
        ensures
            final(self).wf(),
            final(self)@ == old(self)@.push(((next_key_int(old(self)@) as u32), task)),
    {
        let ghost s0 = self@;
        let key: u32 = match self.pending_tasks.last_key() {
            Some(k) => k + 1,
            None => 0,
        };
        proof {
            lemma_seq_insert_append(self@, key, task);
        }
        let _ = self.pending_tasks.insert(key, task);
        proof {
            assert_seqs_equal!(record_tasks(s0.push(((next_key_int(s0) as u32), task))),
                record_tasks(s0).push(task));
        }
    }

    /// Assigns a contiguous ascending run of keys starting at the next key,
    /// in the iteration order of the input; a no-op for an empty batch.
    fn append_tasks(&mut self, tasks: Vec<ScheduledTask<T>>)
        ensures
            final(self).wf(),
            final(self)@ == old(self)@ + keyed_from(next_key_int(old(self)@), tasks@),
    {
        let ghost s0 = self@;
        let ghost t = tasks@;
        self.append_all(tasks);
        proof {
            assert_seqs_equal!(record_tasks(s0 + keyed_from(next_key_int(s0), t)),
                record_tasks(s0) + t);
        }
    }
}

/// Monotonic key assignment: appending a batch to a store whose keys are
/// strictly increasing assigns the contiguous ascending run of keys starting
/// at the next key, each above every key already present, and a later append
/// continues exactly where the run ended. Over any sequence of appends with
/// no intervening removals, assigned keys are therefore strictly increasing
/// and contiguous.
pub proof fn lemma_monotonic_key_assignment<T>(
    recs: Seq<(u32, ScheduledTask<T>)>,
    tasks: Seq<ScheduledTask<T>>,
)
    requires
        sorted_keys(recs),
        next_key_int(recs) + tasks.len() <= u32::MAX + 1,
    ensures
        sorted_keys(recs + keyed_from(next_key_int(recs), tasks)),
        forall|k: int|
            recs.len() <= k < recs.len() + tasks.len() ==> (recs + keyed_from(
                next_key_int(recs),
                tasks,
            ))[k].0 == next_key_int(recs) + k - recs.len(),
        tasks.len() > 0 ==> next_key_int(recs + keyed_from(next_key_int(recs), tasks))
            == next_key_int(recs) + tasks.len(),
{
    let base = next_key_int(recs);
    let out = recs + keyed_from(base, tasks);
    assert forall|a: int, b: int| 0 <= a < b < out.len() implies (#[trigger] out[a]).0 < (
    #[trigger] out[b]).0 by {
        if b >= recs.len() {
            assert(out[b].0 == base + b - recs.len());
            if a >= recs.len() {
                assert(out[a].0 == base + a - recs.len());
            } else {
                if recs.len() > 0 {
                    if a < recs.len() - 1 {
                        assert(recs[a].0 < recs[recs.len() - 1].0);
                    }
                    assert(out[a].0 <= recs.last().0 < base);
                }
            }
        }
    }
    if tasks.len() > 0 {
        assert(out.last() == keyed_from(base, tasks).last());
        assert(out.last().0 == (base + tasks.len() - 1) as u32);
    }
}

/// FIFO among due records: when every record in the store is due, one pass
/// dispatches all of them, in ascending-key (append) order, and defers none.
pub proof fn lemma_fifo_among_due<T>(recs: Seq<(u32, ScheduledTask<T>)>, now: u64)
    requires
        forall|k: int| 0 <= k < recs.len() ==> is_due((#[trigger] recs[k]).1, now),
    ensures
        due_tasks(recs, now) == record_tasks(recs),
        deferred_tasks(recs, now) == Seq::<ScheduledTask<T>>::empty(),
{
    lemma_filter_all_true(record_tasks(recs), due_pred::<T>(now));
    lemma_filter_all_false(record_tasks(recs), not_due_pred::<T>(now));
}

/// Not-due deferral: a record whose due time lies in the future is not among
/// the tasks a pass dispatches, and survives the pass — payload, due time
/// and retry budget unchanged — in the re-keyed store a pass leaves behind.
pub proof fn lemma_not_due_deferral<T>(recs: Seq<(u32, ScheduledTask<T>)>, now: u64, i: int)
    requires
        0 <= i < recs.len(),
        !is_due(recs[i].1, now),
    ensures
        forall|k: int|
            0 <= k < due_tasks(recs, now).len() ==> (#[trigger] due_tasks(recs, now)[k]) != recs[i].1,
        deferred_tasks(recs, now).contains(recs[i].1),
        exists|j: int|
            0 <= j < keyed_from(0, deferred_tasks(recs, now)).len() && (#[trigger] keyed_from(
                0,
                deferred_tasks(recs, now),
            )[j]).1 == recs[i].1,
{
    assert forall|k: int|
        0 <= k < due_tasks(recs, now).len() implies (#[trigger] due_tasks(recs, now)[k]) != recs[i].1 by {
        record_tasks(recs).lemma_filter_pred(due_pred::<T>(now), k);
    }
    assert(record_tasks(recs)[i] == recs[i].1);
    record_tasks(recs).lemma_filter_contains(not_due_pred::<T>(now), i);
    let j = choose|j: int|
        0 <= j < deferred_tasks(recs, now).len() && deferred_tasks(recs, now)[j] == recs[i].1;
    assert(keyed_from(0, deferred_tasks(recs, now))[j].1 == recs[i].1);
}

/// Empty-store idempotence: a pass over an empty store dispatches nothing
/// and leaves the store empty, so any number of consecutive passes returns
/// success with no side effects.
pub proof fn lemma_empty_run_idempotent<T>(now: u64)
    ensures
        due_tasks(Seq::<(u32, ScheduledTask<T>)>::empty(), now) == Seq::<ScheduledTask<T>>::empty(),
        keyed_from(0, deferred_tasks(Seq::<(u32, ScheduledTask<T>)>::empty(), now)) == Seq::<
            (u32, ScheduledTask<T>),
        >::empty(),
{
    let recs = Seq::<(u32, ScheduledTask<T>)>::empty();
    lemma_filter_all_true(record_tasks(recs), due_pred::<T>(now));
    lemma_filter_all_false(record_tasks(recs), not_due_pred::<T>(now));
    assert_seqs_equal!(record_tasks(recs), Seq::<ScheduledTask<T>>::empty());
    assert_seqs_equal!(keyed_from(0, deferred_tasks(recs, now)),
        Seq::<(u32, ScheduledTask<T>)>::empty());
}

} // verus!
