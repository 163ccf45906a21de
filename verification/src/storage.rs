//! A durable ordered store: a mapping from integer keys to records,
//! supporting min-key/max-key lookup, point insert and point remove.
//!
//! This is the in-memory reference backend of the store contract the
//! scheduler consumes. Any backend satisfying the same contract (for
//! instance one persisting records in stable memory) is interchangeable;
//! the scheduler never interprets the records it stores.

use vstd::prelude::*;
use vstd::assert_seqs_equal;

verus! {

/// Failure of a store backend. The in-memory reference backend never
/// fails; the type keeps the failure surface of the store contract.
#[derive(Clone, Copy, Debug, PartialEq, Eq, Structural)]
pub enum Error {
    /// The backing memory could not be reached.
    MemoryUnavailable,
}

/// The keys of `s` are strictly increasing: `s` is sorted and no key repeats.
pub open spec fn sorted_keys<V>(s: Seq<(u32, V)>) -> bool {
    forall|i: int, j: int| 0 <= i < j < s.len() ==> (#[trigger] s[i]).0 < (#[trigger] s[j]).0
}

/// The smallest key of a sorted record sequence, or `None` if it is empty.
pub open spec fn spec_first_key<V>(s: Seq<(u32, V)>) -> Option<u32> {
    if s.len() == 0 {
        None
    } else {
        Some(s[0].0)
    }
}

/// The largest key of a sorted record sequence, or `None` if it is empty.
pub open spec fn spec_last_key<V>(s: Seq<(u32, V)>) -> Option<u32> {
    if s.len() == 0 {
        None
    } else {
        Some(s.last().0)
    }
}

/// The value stored under `key` in a sorted record sequence.
pub open spec fn seq_lookup<V>(s: Seq<(u32, V)>, key: u32) -> Option<V>
    decreases s.len(),
{
    if s.len() == 0 {
        None
    } else if key < s[0].0 {
        None
    } else if key == s[0].0 {
        Some(s[0].1)
    } else {
        seq_lookup(s.drop_first(), key)
    }
}

/// A sorted record sequence with `value` stored under `key`: the record is
/// placed at its ordered position, overwriting an equal key if present.
pub open spec fn seq_insert<V>(s: Seq<(u32, V)>, key: u32, value: V) -> Seq<(u32, V)>
    decreases s.len(),
{
    if s.len() == 0 {
        seq![(key, value)]
    } else if key < s[0].0 {
        seq![(key, value)] + s
    } else if key == s[0].0 {
        seq![(key, value)] + s.drop_first()
    } else {
        seq![s[0]] + seq_insert(s.drop_first(), key, value)
    }
}

/// A sorted record sequence with the record under `key` removed, if present.
pub open spec fn seq_remove_key<V>(s: Seq<(u32, V)>, key: u32) -> Seq<(u32, V)>
    decreases s.len(),
{
    if s.len() == 0 {
        s
    } else if key < s[0].0 {
        s
    } else if key == s[0].0 {
        s.drop_first()
    } else {
        seq![s[0]] + seq_remove_key(s.drop_first(), key)
    }
}

/// Splits `seq_lookup` at a scanned prefix whose keys are all below `key`.
proof fn lemma_seq_lookup_skip<V>(s: Seq<(u32, V)>, key: u32, i: int)
    requires
        0 <= i <= s.len(),
        forall|j: int| 0 <= j < i ==> (#[trigger] s[j]).0 < key,
    ensures
        seq_lookup(s, key) == seq_lookup(s.skip(i), key),
    decreases i,
{
    if i == 0 {
        assert_seqs_equal!(s.skip(0), s);
    } else {
        assert(s[0].0 < key);
        lemma_seq_lookup_skip(s.drop_first(), key, i - 1);
        assert_seqs_equal!(s.drop_first().skip(i - 1), s.skip(i));
    }
}

/// Splits `seq_insert` at a scanned prefix whose keys are all below `key`.
proof fn lemma_seq_insert_skip<V>(s: Seq<(u32, V)>, key: u32, value: V, i: int)
    requires
        0 <= i <= s.len(),
        forall|j: int| 0 <= j < i ==> (#[trigger] s[j]).0 < key,
    ensures
        seq_insert(s, key, value) == s.take(i) + seq_insert(s.skip(i), key, value),
    decreases i,
{
    if i == 0 {
        assert_seqs_equal!(s.skip(0), s);
        assert_seqs_equal!(s.take(0) + seq_insert(s, key, value), seq_insert(s, key, value));
    } else {
        assert(s[0].0 < key);
        lemma_seq_insert_skip(s.drop_first(), key, value, i - 1);
        assert_seqs_equal!(s.drop_first().skip(i - 1), s.skip(i));
        assert_seqs_equal!(
            seq![s[0]] + (s.drop_first().take(i - 1) + seq_insert(s.skip(i), key, value)),
            s.take(i) + seq_insert(s.skip(i), key, value)
        );
    }
}

/// Splits `seq_remove_key` at a scanned prefix whose keys are all below `key`.
proof fn lemma_seq_remove_skip<V>(s: Seq<(u32, V)>, key: u32, i: int)
    requires
        0 <= i <= s.len(),
        forall|j: int| 0 <= j < i ==> (#[trigger] s[j]).0 < key,
    ensures
        seq_remove_key(s, key) == s.take(i) + seq_remove_key(s.skip(i), key),
    decreases i,
{
    if i == 0 {
        assert_seqs_equal!(s.skip(0), s);
        assert_seqs_equal!(s.take(0) + seq_remove_key(s, key), seq_remove_key(s, key));
    } else {
        assert(s[0].0 < key);
        lemma_seq_remove_skip(s.drop_first(), key, i - 1);
        assert_seqs_equal!(s.drop_first().skip(i - 1), s.skip(i));
        assert_seqs_equal!(
            seq![s[0]] + (s.drop_first().take(i - 1) + seq_remove_key(s.skip(i), key)),
            s.take(i) + seq_remove_key(s.skip(i), key)
        );
    }
}

/// Inserting under a key above every present key appends the record.
pub proof fn lemma_seq_insert_append<V>(s: Seq<(u32, V)>, key: u32, value: V)
    requires
        sorted_keys(s),
        s.len() > 0 ==> s.last().0 < key,
    ensures
        seq_insert(s, key, value) == s.push((key, value)),
{
    assert(forall|j: int| 0 <= j < s.len() ==> (#[trigger] s[j]).0 < key) by {
        assert(forall|j: int|
            0 <= j < s.len() - 1 ==> (#[trigger] s[j]).0 < s[s.len() - 1].0);
    }
    lemma_seq_insert_skip(s, key, value, s.len() as int);
    assert(s.skip(s.len() as int).len() == 0);
    assert_seqs_equal!(s.take(s.len() as int) + seq_insert(s.skip(s.len() as int), key, value),
        s.push((key, value)));
}

/// Stores key-to-record data, ordered by key. In-memory reference backend
/// of the durable ordered store contract.
pub struct StableBTreeMap<V> {
    inner: Vec<(u32, V)>,
}

impl<V> View for StableBTreeMap<V> {
    type V = Seq<(u32, V)>;

    closed spec fn view(&self) -> Seq<(u32, V)> {
        self.inner@
    }
}

impl<V> StableBTreeMap<V> {
    /// The store invariant: record keys are strictly increasing.
    pub open spec fn wf(&self) -> bool {
        sorted_keys(self@)
    }

    /// Create a new, empty key-record store.
    pub fn new() -> (r: StableBTreeMap<V>)
        ensures
            r@ == Seq::<(u32, V)>::empty(),
            r.wf(),
    {
        StableBTreeMap { inner: Vec::new() }
    }

    /// The number of records currently stored.
    pub fn len(&self) -> (r: usize)
        ensures
            r == self@.len(),
    {
        self.inner.len()
    }

    /// Whether the store holds no record.
    pub fn is_empty(&self) -> (r: bool)
        ensures
            r <==> self@.len() == 0,
    {
        self.inner.is_empty()
    }

    /// The smallest key present, or `None` if the store is empty.
    pub fn first_key(&self) -> (r: Option<u32>)
        ensures
            r == spec_first_key(self@),
            self.wf() ==> (r matches Some(k) ==> forall|j: int|
                0 <= j < self@.len() ==> k <= (#[trigger] self@[j]).0),
    {
        if self.inner.len() == 0 {
            None
        } else {
            Some(self.inner[0].0)
        }
    }

    /// The largest key present, or `None` if the store is empty.
    pub fn last_key(&self) -> (r: Option<u32>)
        ensures
            r == spec_last_key(self@),
            self.wf() ==> (r matches Some(k) ==> forall|j: int|
                0 <= j < self@.len() ==> (#[trigger] self@[j]).0 <= k),
    {
        if self.inner.len() == 0 {
            None
        } else {
            Some(self.inner[self.inner.len() - 1].0)
        }
    }

    /// Return the record stored under `key`, if any.
    pub fn get(&self, key: &u32) -> (r: Option<&V>)
        requires
            self.wf(),
        ensures
            r is Some <==> seq_lookup(self@, *key) is Some,
            r matches Some(v) ==> seq_lookup(self@, *key) == Some(*v),
    {
        let mut i: usize = 0;
        while i < self.inner.len() && self.inner[i].0 < *key
            invariant
                0 <= i <= self.inner@.len(),
                forall|j: int| 0 <= j < i ==> (#[trigger] self.inner@[j]).0 < *key,
            decreases self.inner@.len() - i,
        {
            i += 1;
        }
        proof {
            lemma_seq_lookup_skip(self@, *key, i as int);
        }
        if i < self.inner.len() && self.inner[i].0 == *key {
            Some(&self.inner[i].1)
        } else {
            None
        }
    }

    /// Store `value` under `key`, overwriting any record already there.
    /// The reference backend always succeeds.
    pub fn insert(&mut self, key: u32, value: V) -> (r: Result<(), Error>)
        requires
            old(self).wf(),
        ensures
            final(self)@ == seq_insert(old(self)@, key, value),
            final(self).wf(),
            r is Ok,
    {
        let ghost s = self@;
        let mut i: usize = 0;
        while i < self.inner.len() && self.inner[i].0 < key
            invariant
                self@ == s,
                0 <= i <= self.inner@.len(),
                forall|j: int| 0 <= j < i ==> (#[trigger] self.inner@[j]).0 < key,
            decreases self.inner@.len() - i,
        {
            i += 1;
        }
        proof {
            lemma_seq_insert_skip(s, key, value, i as int);
        }
        if i < self.inner.len() && self.inner[i].0 == key {
            let _ = self.inner.remove(i);
            self.inner.insert(i, (key, value));
            proof {
                assert_seqs_equal!(self@, s.take(i as int) + seq_insert(s.skip(i as int), key, value));
            }
        } else {
            self.inner.insert(i, (key, value));
            proof {
                assert(s.skip(i as int).len() > 0 ==> s.skip(i as int)[0].0 > key);
                assert_seqs_equal!(self@, s.take(i as int) + seq_insert(s.skip(i as int), key, value));
            }
        }
        proof {
            lemma_sorted_after_insert(s, key, value, i as int);
        }
        Ok(())
    }

    /// Remove and return the record stored under `key`, or `None` if absent.
    pub fn remove(&mut self, key: &u32) -> (r: Option<V>)
        requires
            old(self).wf(),
        ensures
            final(self)@ == seq_remove_key(old(self)@, *key),
            final(self).wf(),
            r == seq_lookup(old(self)@, *key),
    {
        let ghost s = self@;
        let mut i: usize = 0;
        while i < self.inner.len() && self.inner[i].0 < *key
            invariant
                self@ == s,
                0 <= i <= self.inner@.len(),
                forall|j: int| 0 <= j < i ==> (#[trigger] self.inner@[j]).0 < *key,
            decreases self.inner@.len() - i,
        {
            i += 1;
        }
        proof {
            lemma_seq_lookup_skip(s, *key, i as int);
            lemma_seq_remove_skip(s, *key, i as int);
        }
        if i < self.inner.len() && self.inner[i].0 == *key {
            let pair = self.inner.remove(i);
            proof {
                assert_seqs_equal!(self@, s.take(i as int) + seq_remove_key(s.skip(i as int), *key));
            }
            Some(pair.1)
        } else {
            proof {
                assert(s.skip(i as int).len() > 0 ==> s.skip(i as int)[0].0 > *key);
                assert_seqs_equal!(self@, s.take(i as int) + seq_remove_key(s.skip(i as int), *key));
            }
            None
        }
    }
}

impl<V: Copy> StableBTreeMap<V> {
    /// List the currently stored records in ascending key order, skipping
    /// the first `start` of them and returning at most `limit`.
    pub fn list(&self, start: usize, limit: usize) -> (r: Vec<(u32, V)>)
        ensures
            ({
                let lo = if start <= self@.len() {
                    start as int
                } else {
                    self@.len() as int
                };
                let hi = if lo + limit <= self@.len() {
                    lo + limit
                } else {
                    self@.len() as int
                };
                r@ == self@.subrange(lo, hi)
            }),
    {
        let mut r: Vec<(u32, V)> = Vec::new();
        let mut i: usize = start;
        while i < self.inner.len() && r.len() < limit
            invariant
                start <= i,
                start <= self.inner@.len() ==> i <= self.inner@.len(),
                start > self.inner@.len() ==> i == start,
                r@.len() == i - start,
                r@.len() <= limit,
                start <= self.inner@.len() ==> r@ == self.inner@.subrange(start as int, i as int),
            decreases self.inner@.len() - i,
        {
            r.push(self.inner[i]);
            proof {
                assert_seqs_equal!(r@, self.inner@.subrange(start as int, i + 1));
            }
            i += 1;
        }
        proof {
            let lo = if start <= self@.len() {
                start as int
            } else {
                self@.len() as int
            };
            let hi = if lo + limit <= self@.len() {
                lo + limit
            } else {
                self@.len() as int
            };
            assert_seqs_equal!(r@, self@.subrange(lo, hi));
        }
        r
    }
}

/// The scan position `i` receives the inserted record, so the result of
/// `seq_insert` keeps strictly increasing keys.
proof fn lemma_sorted_after_insert<V>(s: Seq<(u32, V)>, key: u32, value: V, i: int)
    requires
        sorted_keys(s),
        0 <= i <= s.len(),
        forall|j: int| 0 <= j < i ==> (#[trigger] s[j]).0 < key,
        i < s.len() ==> s[i].0 >= key,
    ensures
        sorted_keys(seq_insert(s, key, value)),
{
    lemma_seq_insert_skip(s, key, value, i);
    let out = seq_insert(s, key, value);
    if i < s.len() && s[i].0 == key {
        assert_seqs_equal!(out, s.update(i, (key, value)));
        assert(sorted_keys(out));
    } else {
        assert(s.skip(i).len() > 0 ==> s.skip(i)[0].0 > key);
        assert_seqs_equal!(out, s.insert(i, (key, value)));
        assert forall|a: int, b: int| 0 <= a < b < out.len() implies (#[trigger] out[a]).0 < (
        #[trigger] out[b]).0 by {
            if a < i && b < i {
            } else if a < i && b == i {
            } else if a < i && b > i {
                assert(out[b] == s[b - 1]);
            } else if a == i {
                assert(out[b] == s[b - 1]);
                assert(s[i].0 <= s[b - 1].0);
            } else {
                assert(out[a] == s[a - 1]);
                assert(out[b] == s[b - 1]);
            }
        }
    }
}

/// Stores a single value, providing a `get()/set()` interface. In-memory
/// reference backend of the durable cell contract.
pub struct StableCell<T> {
    value: T,
}

impl<T> View for StableCell<T> {
    type V = T;

    closed spec fn view(&self) -> T {
        self.value
    }
}

impl<T> StableCell<T> {
    /// Create new storage holding `value`. The result type keeps the store
    /// contract's failure surface; the reference backend always succeeds.
    pub fn new(value: T) -> (r: Result<StableCell<T>, Error>)
        ensures
            r matches Ok(c) && c@ == value,
    {
        Ok(StableCell { value })
    }

    /// Returns a reference to the stored value.
    pub fn get(&self) -> (r: &T)
        ensures
            *r == self@,
    {
        &self.value
    }

    /// Replaces the stored value. The reference backend always succeeds.
    pub fn set(&mut self, value: T) -> (r: Result<(), Error>)
        ensures
            final(self)@ == value,
            r is Ok,
    {
        self.value = value;
        Ok(())
    }
}

} // verus!
