//! Metrics sampling: a time-bucketed map of metric samples.
//!
//! Samples are stored under timestamps. A new sample taken less than one
//! interval after the most recent stored one overwrites that entry;
//! otherwise it opens a new bucket aligned to the interval.

use vstd::prelude::*;
use vstd::assert_seqs_equal;
use vstd::arithmetic::div_mod::{lemma_mod_decreases, lemma_mod_division_less_than_divisor};

verus! {

/// Point-in-time resource figures of a running service.
#[derive(Clone, Copy, Debug, PartialEq, Eq, Structural)]
pub struct MetricsData {
    /// Remaining execution budget.
    pub cycles: u64,
    /// Bytes of durable memory in use.
    pub stable_memory_size: u64,
    /// Bytes of heap memory in use.
    pub heap_memory_size: u64,
}

impl Default for MetricsData {
    /// All figures zero.
    fn default() -> (r: MetricsData)
        ensures
            r.cycles == 0,
            r.stable_memory_size == 0,
            r.heap_memory_size == 0,
    {
        MetricsData { cycles: 0, stable_memory_size: 0, heap_memory_size: 0 }
    }
}

/// The timestamps of `s` are strictly increasing.
pub open spec fn sorted_ts<T>(s: Seq<(u64, T)>) -> bool {
    forall|i: int, j: int| 0 <= i < j < s.len() ==> (#[trigger] s[i]).0 < (#[trigger] s[j]).0
}

/// The timestamp of the most recent stored sample, or `current_ts` when no
/// sample is stored yet.
pub open spec fn spec_last_ts<T>(s: Seq<(u64, T)>, current_ts: u64) -> u64 {
    if s.len() == 0 {
        current_ts
    } else {
        s.last().0
    }
}

/// The timestamp a sample taken at `current_ts` is stored under: the most
/// recent one while less than one interval has passed since it, otherwise
/// `current_ts` rounded down to a multiple of the interval.
pub open spec fn spec_slot<T>(s: Seq<(u64, T)>, interval_hours: u64, current_ts: u64) -> int {
    let last_ts = spec_last_ts(s, current_ts);
    if current_ts < last_ts + interval_hours {
        last_ts as int
    } else {
        (current_ts as int) - (current_ts as int) % (interval_hours as int)
    }
}

/// A map of metric samples bucketed by time: at most one sample is kept per
/// `interval_hours`-sized stretch of time.
#[derive(Clone, Debug)]
pub struct MetricsMap<T> {
    interval_hours: u64,
    entries: Vec<(u64, T)>,
}

impl<T> View for MetricsMap<T> {
    type V = Seq<(u64, T)>;

    closed spec fn view(&self) -> Seq<(u64, T)> {
        self.entries@
    }
}

impl<T> MetricsMap<T> {
    /// The width of a sample bucket.
    pub closed spec fn interval(&self) -> u64 {
        self.interval_hours
    }

    /// The map invariant: sample timestamps are strictly increasing.
    pub open spec fn wf(&self) -> bool {
        sorted_ts(self@)
    }

    /// An empty map whose buckets are `INTERVAL` wide.
    pub fn new<const INTERVAL: u64>() -> (r: MetricsMap<T>)
        ensures
            r.interval() == INTERVAL,
            r@ == Seq::<(u64, T)>::empty(),
            r.wf(),
    {
        MetricsMap { interval_hours: INTERVAL, entries: Vec::new() }
    }

    /// The width of a sample bucket.
    pub fn get_interval(&self) -> (r: u64)
        ensures
            r == self.interval(),
    {
        self.interval_hours
    }

    /// The number of stored samples.
    pub fn len(&self) -> (r: usize)
        ensures
            r == self@.len(),
    {
        self.entries.len()
    }

    /// The `i`-th stored sample and its timestamp, oldest first.
    pub fn get_entry(&self, i: usize) -> (r: &(u64, T))
        requires
            i < self@.len(),
        ensures
            *r == self@[i as int],
    {
        &self.entries[i]
    }

    /// Stores a sample taken at `current_ts`.
    ///
    /// While less than one interval has passed since the most recent stored
    /// sample, that sample is overwritten and returned; otherwise the new
    /// sample opens a bucket aligned down to a multiple of the interval, and
    /// `None` is returned. An interval of zero is usable only while time
    /// stands before the most recent sample.
    pub fn insert(&mut self, current_ts: u64, new_metric: T) -> (prev: Option<T>)
        requires
            old(self).wf(),
            old(self).interval() == 0 ==> old(self)@.len() > 0 && current_ts < old(self)@.last().0,
        ensures
            final(self).wf(),
            final(self).interval() == old(self).interval(),
            ({
                let slot = spec_slot(old(self)@, old(self).interval(), current_ts);
                if old(self)@.len() > 0 && slot == old(self)@.last().0 {
                    final(self)@ == old(self)@.update(
                        old(self)@.len() - 1,
                        ((slot as u64), new_metric),
                    ) && prev == Some(old(self)@.last().1)
                } else {
                    final(self)@ == old(self)@.push(((slot as u64), new_metric)) && prev is None
                }
            }),
    {
        let ghost s0 = self@;
        let last_ts: u64 = if self.entries.len() == 0 {
            current_ts
        } else {
            self.entries[self.entries.len() - 1].0
        };
        let within: bool = current_ts < last_ts || current_ts - last_ts < self.interval_hours;
        proof {
            assert(within <==> current_ts < last_ts + self.interval_hours);
        }
        let new_ts: u64 = if within {
            last_ts
        } else {
            // Here at least one full interval has passed since `last_ts`, so
            // the interval cannot be zero.
            proof {
                lemma_mod_decreases(current_ts as nat, self.interval_hours as nat);
                lemma_mod_division_less_than_divisor(
                    current_ts as int,
                    self.interval_hours as int,
                );
            }
            current_ts - current_ts % self.interval_hours
        };
        proof {
            assert(new_ts == spec_slot(s0, self.interval(), current_ts));
            if !within && s0.len() > 0 {
                assert(new_ts > s0.last().0);
            }
        }
        if self.entries.len() > 0 && within {
            let idx = self.entries.len() - 1;
            let pair = self.entries.remove(idx);
            self.entries.push((new_ts, new_metric));
            proof {
                assert_seqs_equal!(self@, s0.update(s0.len() - 1, ((new_ts), new_metric)));
            }
            Some(pair.1)
        } else {
            self.entries.push((new_ts, new_metric));
            None
        }
    }
}

impl<T> Default for MetricsMap<T> {
    /// An empty map sampling at most once an hour.
    fn default() -> (r: MetricsMap<T>)
        ensures
            r.interval() == 1,
            r@ == Seq::<(u64, T)>::empty(),
            r.wf(),
    {
        MetricsMap { interval_hours: 1, entries: Vec::new() }
    }
}

/// The metric samples a service keeps.
#[derive(Clone, Debug)]
pub struct MetricsStorage {
    /// Resource figures, bucketed by sampling time.
    pub metrics: MetricsMap<MetricsData>,
}

impl Default for MetricsStorage {
    /// Empty storage sampling at most once an hour.
    fn default() -> (r: MetricsStorage)
        ensures
            r.metrics.interval() == 1,
            r.metrics@ == Seq::<(u64, MetricsData)>::empty(),
    {
        MetricsStorage { metrics: MetricsMap { interval_hours: 1, entries: Vec::new() } }
    }
}

} // verus!
