//! The counting engine: one worker-local tally per worker, and one tally that
//! all workers share behind a lock and merge into at the end of each batch.
use std::sync::Arc;
use parking_lot::lock_api;
use parking_lot::{Mutex, MutexGuard};
use vstd::prelude::*;
use crate::encoding::{decode, decoded, MAX_KSIZE};
use crate::tally::{
    consolidate_maps, kmer_count, lemma_merge_empty, lists_entries, merged, no_entries, sat_add,
    tally_record, CountError, KmerMap,
};

verus! {

#[verifier::external_type_specification]
#[verifier::external_body]
pub struct ExRawMutex(parking_lot::RawMutex);

#[verifier::external_type_specification]
#[verifier::external_body]
#[verifier::reject_recursive_types(R)]
#[verifier::reject_recursive_types(T)]
pub struct ExLockMutex<R, T: ?Sized>(lock_api::Mutex<R, T>);

/// The shared tally while this thread holds its lock. The guard type of
/// `parking_lot` cannot be declared to Verus (its bound names an outside
/// trait), so it is held here.
#[verifier::external_body]
struct SharedLock<'a> {
    guard: MutexGuard<'a, SharedTally>,
}

/// `r` holds one row per entry of a tally, in the order of the listing `e`:
/// the entry's count and the letters of its key.
pub open spec fn rows_of(r: Seq<(usize, Vec<u8>)>, e: Seq<(u64, usize)>, k: nat) -> bool {
    &&& r.len() == e.len()
    &&& forall|i: int|
        0 <= i < r.len() ==> (#[trigger] r[i]).0 == e[i].1 && r[i].1@ == decoded(e[i].0 as int, k)
}

/// What all workers share: the merged tally and the number of records
/// merged into it.
pub struct SharedTally {
    pub map: KmerMap,
    pub n_records: usize,
}

impl SharedTally {
    /// An empty shared tally.
    pub fn new() -> (r: SharedTally)
        ensures
            no_entries(r.map@),
            r.n_records == 0,
    {
        SharedTally { map: KmerMap::new(), n_records: 0 }
    }

    /// Merges a worker's tally and its record count into this one; the
    /// worker's tally ends empty. Merging nothing changes nothing.
    pub fn absorb(&mut self, local: &mut KmerMap, n: usize)
        ensures
            final(self).map@ == merged(old(self).map@, old(local)@),
            final(self).n_records == sat_add(old(self).n_records as nat, n as nat),
            no_entries(final(local)@),
            no_entries(old(local)@) && n == 0 ==> final(self).map@ == old(self).map@
                && final(self).n_records == old(self).n_records,
    {
        consolidate_maps(local, &mut self.map);
        self.n_records = self.n_records.saturating_add(n);
        proof {
            lemma_merge_empty(old(self).map@);
        }
    }

    /// One row per entry: its count and its key decoded with size `ksize`.
    pub fn rows(&self, ksize: usize) -> (r: Vec<(usize, Vec<u8>)>)
        requires
            ksize <= MAX_KSIZE,
        ensures
            exists|e: Seq<(u64, usize)>|
                lists_entries(e, self.map@) && rows_of(r@, e, ksize as nat),
    {
        let entries = self.map.entries();
        let mut r: Vec<(usize, Vec<u8>)> = Vec::new();
        let mut i: usize = 0;
        while i < entries.len()
            invariant
                i <= entries@.len(),
                ksize <= MAX_KSIZE,
                rows_of(r@, entries@.take(i as int), ksize as nat),
            decreases entries@.len() - i,
        {
            let (key, count) = entries[i];
            let letters = decode(key, ksize);
            r.push((count, letters));
            i += 1;
        }
        assert(entries@.take(entries@.len() as int) =~= entries@);
        r
    }
}

/// Relies on `parking_lot::Mutex::new`: a lock around `t`.
#[verifier::external_body]
fn new_lock(t: SharedTally) -> (r: Mutex<SharedTally>) {
    Mutex::new(t)
}

/// Relies on `parking_lot::Mutex::lock`: waits until this thread holds the lock.
#[verifier::external_body]
fn lock_shared<'a>(m: &'a Mutex<SharedTally>) -> (r: SharedLock<'a>) {
    SharedLock { guard: m.lock() }
}

/// Relies on the guard's `DerefMut`: the locked value, for as long as the
/// guard is held. Other workers may have changed it since this one last held it.
#[verifier::external_body]
fn guarded<'a, 'b>(g: &'b mut SharedLock<'a>) -> (r: &'b mut SharedTally) {
    &mut *g.guard
}

/// A worker's view of the engine: its own tally and record count, and a
/// handle on the tally that all workers share.
pub struct Counter {
    local_n: usize,
    local_map: KmerMap,
    shared: Arc<Mutex<SharedTally>>,
    ksize: usize,
}

impl Counter {
    /// The k-mer size fits the key width.
    pub closed spec fn wf(&self) -> bool {
        self.ksize <= MAX_KSIZE
    }

    /// The k-mer size.
    pub closed spec fn kmer_size(&self) -> nat {
        self.ksize as nat
    }

    /// This worker's tally, not yet merged.
    pub closed spec fn local_tally(&self) -> Map<u64, usize> {
        self.local_map@
    }

    /// Records this worker counted since its last merge.
    pub closed spec fn local_records(&self) -> nat {
        self.local_n as nat
    }

    /// Both counters hold the same handle on the shared tally: `worker` hands
    /// a copy of its own handle to the new counter, and no method replaces it.
    /// (Verus sees an `Arc` by the value it holds, so this is equality of
    /// handles as values, not a proof that the allocation is the same.)
    pub closed spec fn same_shared(&self, other: &Counter) -> bool {
        self.shared == other.shared
    }

    /// A counter for k-mers of `ksize` bases, with an empty shared tally;
    /// `ksize` over `MAX_KSIZE` is refused.
    pub fn new(ksize: usize) -> (r: Result<Counter, CountError>)
        ensures
            ksize > MAX_KSIZE ==> r == Err::<Counter, CountError>(
                CountError::KsizeTooLarge { ksize },
            ),
            ksize <= MAX_KSIZE ==> (r matches Ok(c) && c.wf() && c.kmer_size() == ksize
                && no_entries(c.local_tally()) && c.local_records() == 0),
    {
        if ksize > MAX_KSIZE {
            return Err(CountError::KsizeTooLarge { ksize });
        }
        let shared = Arc::new(new_lock(SharedTally::new()));
        Ok(Counter { local_n: 0, local_map: KmerMap::new(), shared, ksize })
    }

    /// Another worker on the same shared tally, with a tally of its own.
    pub fn worker(&self) -> (r: Counter)
        requires
            self.wf(),
        ensures
            r.wf(),
            r.same_shared(self),
            r.kmer_size() == self.kmer_size(),
            no_entries(r.local_tally()),
            r.local_records() == 0,
    {
        Counter {
            local_n: 0,
            local_map: KmerMap::new(),
            shared: Arc::clone(&self.shared),
            ksize: self.ksize,
        }
    }

    /// The k-mer size.
    pub fn ksize(&self) -> (r: usize)
        ensures
            r == self.kmer_size(),
    {
        self.ksize
    }

    /// Counts the windows of one record into this worker's tally. A record
    /// shorter than the k-mer size is an error and changes nothing.
    pub fn process_record(&mut self, seq: &[u8]) -> (r: Result<(), CountError>)
        requires
            old(self).wf(),
        ensures
            final(self).wf(),
            final(self).same_shared(old(self)),
            final(self).kmer_size() == old(self).kmer_size(),
            seq@.len() < old(self).kmer_size() ==> r == Err::<(), CountError>(
                CountError::RecordTooShort {
                    len: seq@.len() as usize,
                    ksize: old(self).kmer_size() as usize,
                },
            ) && final(self).local_tally() == old(self).local_tally()
                && final(self).local_records() == old(self).local_records(),
            seq@.len() >= old(self).kmer_size() ==> r is Ok && final(self).local_tally()
                == tally_record(old(self).local_tally(), seq@, old(self).kmer_size())
                && final(self).local_records() == sat_add(old(self).local_records(), 1),
    {
        kmer_count(seq, &mut self.local_map, self.ksize)?;
        self.local_n = self.local_n.saturating_add(1);
        Ok(())
    }

    /// Merges this worker's tally and record count into the shared tally
    /// under its lock; this worker's tally and count end empty.
    pub fn on_batch_complete(&mut self)
        requires
            old(self).wf(),
        ensures
            final(self).wf(),
            final(self).same_shared(old(self)),
            final(self).kmer_size() == old(self).kmer_size(),
            no_entries(final(self).local_tally()),
            final(self).local_records() == 0,
    {
        let mut guard = lock_shared(&self.shared);
        let shared = guarded(&mut guard);
        shared.absorb(&mut self.local_map, self.local_n);
        self.local_map.clear();
        self.local_n = 0;
    }

    /// Records merged into the shared tally so far, by all workers.
    ///
    /// The count is read under the lock that all workers share, and other
    /// workers may merge into it at any time: no value can be promised here.
    /// What a merge does to it is stated by `SharedTally::absorb`.
    pub fn n_records(&self) -> usize {
        let mut guard = lock_shared(&self.shared);
        let shared = guarded(&mut guard);
        shared.n_records
    }

    /// The rows of the shared tally: each count with its k-mer, one row per
    /// entry. To be called once all workers have merged: the tally is read
    /// under the lock, so its entries are those the workers left there.
    pub fn rows(&self) -> (r: Vec<(usize, Vec<u8>)>)
        requires
            self.wf(),
        ensures
            exists|m: Map<u64, usize>, e: Seq<(u64, usize)>|
                lists_entries(e, m) && rows_of(r@, e, self.kmer_size()),
    {
        let mut guard = lock_shared(&self.shared);
        let shared = guarded(&mut guard);
        shared.rows(self.ksize)
    }
}

} // verus!
