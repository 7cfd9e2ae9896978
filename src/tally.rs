//! Tallies of k-mer keys: windowed counting over one record and the merge of
//! one tally into another.
use vstd::prelude::*;
use vstd::slice::slice_subrange;
use crate::encoding::{
    all_canonical, decoded, encode, encoded, is_canonical, lemma_round_trip, upper, MAX_KSIZE,
};

verus! {

/// Occurrences of `key` in a tally; a key without an entry has none.
pub open spec fn count_of(m: Map<u64, usize>, key: u64) -> nat {
    if m.contains_key(key) {
        m[key] as nat
    } else {
        0
    }
}

/// The sum of two counts, held at `usize::MAX` where it would not fit.
pub open spec fn sat_add(a: nat, b: nat) -> usize {
    if a + b > usize::MAX {
        usize::MAX
    } else {
        (a + b) as usize
    }
}

/// `m` with `by` more occurrences of `key`.
pub open spec fn bump(m: Map<u64, usize>, key: u64, by: nat) -> Map<u64, usize> {
    m.insert(key, sat_add(count_of(m, key), by))
}

/// The key of the window of `k` bytes of `s` that starts at `start`, if it encodes.
pub open spec fn window_key(s: Seq<u8>, k: nat, start: int) -> Option<u64> {
    encoded(s.subrange(start, start + k))
}

/// `m` after counting the window of `s` that starts at `start`.
pub open spec fn count_window(m: Map<u64, usize>, s: Seq<u8>, k: nat, start: int) -> Map<u64, usize> {
    match window_key(s, k, start) {
        Some(key) => bump(m, key, 1),
        None => m,
    }
}

/// `m` after counting, in order, the windows of `s` that start in `lo..hi`.
pub open spec fn tally_range(m: Map<u64, usize>, s: Seq<u8>, k: nat, lo: int, hi: int) -> Map<
    u64,
    usize,
>
    decreases hi - lo,
{
    if hi <= lo {
        m
    } else {
        count_window(tally_range(m, s, k, lo, hi - 1), s, k, hi - 1)
    }
}

/// `m` after counting all `s.len() - k + 1` windows of size `k` of `s`.
pub open spec fn tally_record(m: Map<u64, usize>, s: Seq<u8>, k: nat) -> Map<u64, usize> {
    tally_range(m, s, k, 0, s.len() - k + 1)
}

/// The pointwise sum of two tallies.
pub open spec fn merged(a: Map<u64, usize>, b: Map<u64, usize>) -> Map<u64, usize> {
    Map::new(
        |key: u64| a.contains_key(key) || b.contains_key(key),
        |key: u64| sat_add(count_of(a, key), count_of(b, key)),
    )
}

/// A tally with no entry.
pub open spec fn no_entries(m: Map<u64, usize>) -> bool {
    m == Map::<u64, usize>::empty()
}

/// `s` lists the entries of `m`, each exactly once.
pub open spec fn lists_entries(s: Seq<(u64, usize)>, m: Map<u64, usize>) -> bool {
    &&& forall|i: int, j: int| 0 <= i < j < s.len() ==> s[i].0 != s[j].0
    &&& forall|i: int|
        0 <= i < s.len() ==> m.contains_key(#[trigger] s[i].0) && m[s[i].0] == s[i].1
    &&& forall|key: u64| m.contains_key(key) ==> exists|i: int| 0 <= i < s.len() && s[i].0 == key
}

/// Why a record could not be counted, or a counter not built.
#[derive(Clone, Copy, Debug, PartialEq, Eq)]
pub enum CountError {
    /// The k-mer size is over `MAX_KSIZE`.
    KsizeTooLarge { ksize: usize },
    /// The record is shorter than one k-mer.
    RecordTooShort { len: usize, ksize: usize },
}

/// A tally of k-mer keys, kept in a `hashbrown` hash map.
#[verifier::external_body]
pub struct KmerMap {
    inner: hashbrown::HashMap<u64, usize>,
}

/// The entries of a tally: each key it holds, with its count.
pub uninterp spec fn kmer_map_contents(m: KmerMap) -> Map<u64, usize>;

impl View for KmerMap {
    type V = Map<u64, usize>;

    open spec fn view(&self) -> Map<u64, usize> {
        kmer_map_contents(*self)
    }
}

impl KmerMap {
    /// Relies on `hashbrown::HashMap::new`: a map with no entries.
    #[verifier::external_body]
    fn empty_map() -> (r: KmerMap)
        ensures
            no_entries(kmer_map_contents(r)),
            kmer_map_contents(r).dom().finite(),
    {
        KmerMap { inner: hashbrown::HashMap::new() }
    }

    /// Relies on `hashbrown::HashMap::get`: the value stored under `key`, if any.
    #[verifier::external_body]
    fn lookup(&self, key: u64) -> (r: Option<usize>)
        ensures
            r == (if kmer_map_contents(*self).contains_key(key) {
                Some(kmer_map_contents(*self)[key])
            } else {
                None
            }),
    {
        self.inner.get(&key).copied()
    }

    /// Relies on `hashbrown::HashMap::insert`: `key` now maps to `count`, and
    /// no other entry changes.
    #[verifier::external_body]
    fn store(&mut self, key: u64, count: usize)
        ensures
            kmer_map_contents(*final(self)) == kmer_map_contents(*old(self)).insert(key, count),
            kmer_map_contents(*old(self)).dom().finite() ==> kmer_map_contents(
                *final(self),
            ).dom().finite(),
    {
        self.inner.insert(key, count);
    }

    /// Relies on `hashbrown::HashMap::drain`: yields every entry once and
    /// leaves the map empty.
    #[verifier::external_body]
    fn drain_entries(&mut self) -> (r: Vec<(u64, usize)>)
        ensures
            no_entries(kmer_map_contents(*final(self))),
            lists_entries(r@, kmer_map_contents(*old(self))),
    {
        self.inner.drain().collect()
    }

    /// Relies on `hashbrown::HashMap::iter`: visits every entry once.
    #[verifier::external_body]
    fn list_entries(&self) -> (r: Vec<(u64, usize)>)
        ensures
            lists_entries(r@, kmer_map_contents(*self)),
    {
        self.inner.iter().map(|(k, v)| (*k, *v)).collect()
    }

    /// Relies on `hashbrown::HashMap::clear`: removes every entry.
    #[verifier::external_body]
    fn wipe(&mut self)
        ensures
            no_entries(kmer_map_contents(*final(self))),
    {
        self.inner.clear();
    }

    /// An empty tally.
    pub fn new() -> (r: KmerMap)
        ensures
            r@ == Map::<u64, usize>::empty(),
    {
        KmerMap::empty_map()
    }

    /// Occurrences of `key`; zero where it has no entry.
    pub fn count(&self, key: u64) -> (r: usize)
        ensures
            r as nat == count_of(self@, key),
    {
        match self.lookup(key) {
            Some(c) => c,
            None => 0,
        }
    }

    /// Every entry, each once, in the map's own order.
    pub fn entries(&self) -> (r: Vec<(u64, usize)>)
        ensures
            lists_entries(r@, self@),
    {
        self.list_entries()
    }

    /// Removes every entry.
    pub fn clear(&mut self)
        ensures
            final(self)@ == Map::<u64, usize>::empty(),
    {
        self.wipe();
    }

    /// Adds `by` occurrences of `key`.
    pub fn add(&mut self, key: u64, by: usize)
        ensures
            final(self)@ == bump(old(self)@, key, by as nat),
    {
        let c = self.count(key);
        self.store(key, c.saturating_add(by));
    }
}

/// Counts every window of `ksize` bytes of `seq` into `map`, skipping the
/// windows that hold a non-canonical byte. A record shorter than `ksize`
/// is an error and leaves `map` as it was.
pub fn kmer_count(seq: &[u8], map: &mut KmerMap, ksize: usize) -> (r: Result<(), CountError>)
    requires
        ksize <= MAX_KSIZE,
    ensures
        seq@.len() < ksize ==> r == Err::<(), CountError>(
            CountError::RecordTooShort { len: seq@.len() as usize, ksize },
        ) && final(map)@ == old(map)@,
        seq@.len() >= ksize ==> r is Ok && final(map)@ == tally_record(
            old(map)@,
            seq@,
            ksize as nat,
        ),
{
    if seq.len() < ksize {
        return Err(CountError::RecordTooShort { len: seq.len(), ksize });
    }
    let ghost m0 = map@;
    let last: usize = seq.len() - ksize;
    let mut i: usize = 0;
    loop
        invariant_except_break
            map@ == tally_range(m0, seq@, ksize as nat, 0, i as int),
        invariant
            i <= last,
            last + ksize == seq.len(),
            seq.len() == seq@.len(),
            ksize <= MAX_KSIZE,
        ensures
            map@ == tally_range(m0, seq@, ksize as nat, 0, last + 1),
        decreases last - i,
    {
        let window = slice_subrange(seq, i, i + ksize);
        assert(window@ == seq@.subrange(i as int, i + ksize));
        match encode(window) {
            Some(key) => {
                map.add(key, 1);
            },
            None => {},
        }
        if i == last {
            break;
        }
        i += 1;
    }
    Ok(())
}

/// Moves every entry of `from` into `to`, adding counts where `to` already
/// holds the key; `from` ends empty.
pub fn consolidate_maps(from: &mut KmerMap, to: &mut KmerMap)
    ensures
        final(from)@ == Map::<u64, usize>::empty(),
        final(to)@ == merged(old(to)@, old(from)@),
{
    let ghost f0 = from@;
    let ghost t0 = to@;
    let pairs = from.drain_entries();
    let ghost mut done: Set<u64> = Set::empty();
    let mut i: usize = 0;
    while i < pairs.len()
        invariant
            i <= pairs@.len(),
            lists_entries(pairs@, f0),
            forall|j: int| 0 <= j < i ==> done.contains(#[trigger] pairs@[j].0),
            forall|j: int| i <= j < pairs@.len() ==> !done.contains(#[trigger] pairs@[j].0),
            forall|key: u64| done.contains(key) ==> f0.contains_key(key),
            forall|key: u64|
                done.contains(key) ==> to@.contains_key(key) && to@[key] == sat_add(
                    count_of(t0, key),
                    count_of(f0, key),
                ),
            forall|key: u64|
                !done.contains(key) ==> to@.contains_key(key) == t0.contains_key(key)
                    && count_of(to@, key) == count_of(t0, key),
        decreases pairs@.len() - i,
    {
        let (key, c) = pairs[i];
        assert(pairs@[i as int].0 == key);
        to.add(key, c);
        proof {
            done = done.insert(key);
        }
        i += 1;
    }
    proof {
        assert forall|key: u64| f0.contains_key(key) implies done.contains(key) by {
            let j = choose|j: int| 0 <= j < pairs@.len() && pairs@[j].0 == key;
            assert(done.contains(pairs@[j].0));
        }
        assert forall|key: u64| #[trigger] to@.contains_key(key) == merged(t0, f0).contains_key(
            key,
        ) && (to@.contains_key(key) ==> to@[key] == merged(t0, f0)[key]) by {
            if !done.contains(key) {
                assert(!f0.contains_key(key));
            }
        }
        assert(to@ =~= merged(t0, f0));
    }
    from.clear();
}

proof fn lemma_tally_split(m: Map<u64, usize>, s: Seq<u8>, k: nat, lo: int, mid: int, hi: int)
    requires
        lo <= mid <= hi,
    ensures
        tally_range(m, s, k, lo, hi) == tally_range(tally_range(m, s, k, lo, mid), s, k, mid, hi),
    decreases hi - mid,
{
    if mid < hi {
        lemma_tally_split(m, s, k, lo, mid, hi - 1);
    }
}

proof fn lemma_tally_shift(
    m: Map<u64, usize>,
    s: Seq<u8>,
    t: Seq<u8>,
    k: nat,
    off: int,
    lo: int,
    hi: int,
)
    requires
        forall|p: int| lo <= p < hi ==> window_key(s, k, p + off) == window_key(t, k, p),
    ensures
        tally_range(m, s, k, lo + off, hi + off) == tally_range(m, t, k, lo, hi),
    decreases hi - lo,
{
    if lo < hi {
        lemma_tally_shift(m, s, t, k, off, lo, hi - 1);
        assert(window_key(s, k, hi - 1 + off) == window_key(t, k, hi - 1));
        assert(hi + off - 1 == hi - 1 + off);
    }
}

proof fn lemma_tally_skip(m: Map<u64, usize>, s: Seq<u8>, k: nat, lo: int, hi: int)
    requires
        forall|p: int| lo <= p < hi ==> window_key(s, k, p) is None,
    ensures
        tally_range(m, s, k, lo, hi) == m,
    decreases hi - lo,
{
    if lo < hi {
        lemma_tally_skip(m, s, k, lo, hi - 1);
    }
}

/// A record whose byte at `i` is non-canonical counts as the two records
/// before and after `i`, one after the other: the windows that span `i` are
/// skipped, and every other window is counted once.
pub proof fn lemma_skip_non_canonical(m: Map<u64, usize>, s: Seq<u8>, k: nat, i: int)
    requires
        1 <= k <= MAX_KSIZE,
        0 <= i < s.len(),
        !is_canonical(s[i]),
    ensures
        tally_record(m, s, k) == tally_record(
            tally_record(m, s.subrange(0, i), k),
            s.subrange(i + 1, s.len() as int),
            k,
        ),
{
    let a = s.subrange(0, i);
    let b = s.subrange(i + 1, s.len() as int);
    let n = s.len() - k + 1;
    let na = i - k + 1;
    let nb = s.len() - i - k;
    assert(a.len() - k + 1 == na);
    assert(b.len() - k + 1 == nb);
    if n <= 0 {
        assert(tally_record(m, a, k) == m);
        assert(tally_record(m, b, k) == m);
    } else {
        let s1 = if na > 0 {
            na
        } else {
            0
        };
        let s2 = if i + 1 < n {
            i + 1
        } else {
            n
        };
        lemma_tally_split(m, s, k, 0, s1, n);
        let x = tally_range(m, s, k, 0, s1);
        lemma_tally_split(x, s, k, s1, s2, n);
        // The windows before `i` are those of the first part.
        if na > 0 {
            assert forall|p: int| 0 <= p < na implies window_key(s, k, p + 0) == window_key(
                a,
                k,
                p,
            ) by {
                assert(s.subrange(p + 0, p + 0 + k) =~= a.subrange(p, p + k));
            }
            lemma_tally_shift(m, s, a, k, 0, 0, na);
        }
        assert(x == tally_record(m, a, k));
        // The windows that span `i` encode nothing.
        assert forall|p: int| s1 <= p < s2 implies window_key(s, k, p) is None by {
            let w = s.subrange(p, p + k);
            assert(w[i - p] == s[i]);
        }
        lemma_tally_skip(x, s, k, s1, s2);
        // The windows after `i` are those of the second part.
        if s2 == n {
            assert(tally_record(x, b, k) == x);
        } else {
            assert forall|p: int| 0 <= p < nb implies window_key(s, k, p + (i + 1)) == window_key(
                b,
                k,
                p,
            ) by {
                assert(s.subrange(p + (i + 1), p + (i + 1) + k) =~= b.subrange(p, p + k));
            }
            lemma_tally_shift(x, s, b, k, i + 1, 0, nb);
            assert(nb + (i + 1) == n);
        }
    }
}

proof fn lemma_count_merged(a: Map<u64, usize>, b: Map<u64, usize>, key: u64)
    ensures
        count_of(merged(a, b), key) == sat_add(count_of(a, key), count_of(b, key)),
{
}

/// Merging is commutative: the order in which two tallies meet does not matter.
pub proof fn lemma_merge_commutes(a: Map<u64, usize>, b: Map<u64, usize>)
    ensures
        merged(a, b) == merged(b, a),
{
    assert(merged(a, b) =~= merged(b, a));
}

/// Merging is associative: how tallies are grouped before they meet does not
/// matter.
pub proof fn lemma_merge_associates(a: Map<u64, usize>, b: Map<u64, usize>, c: Map<u64, usize>)
    ensures
        merged(merged(a, b), c) == merged(a, merged(b, c)),
{
    assert forall|key: u64| #[trigger]
        merged(merged(a, b), c).contains_key(key) implies merged(merged(a, b), c)[key] == merged(
        a,
        merged(b, c),
    )[key] by {
        lemma_count_merged(a, b, key);
        lemma_count_merged(b, c, key);
    }
    assert(merged(merged(a, b), c) =~= merged(a, merged(b, c)));
}

/// Merging an empty tally changes nothing.
pub proof fn lemma_merge_empty(g: Map<u64, usize>)
    ensures
        merged(g, Map::<u64, usize>::empty()) == g,
{
    assert(merged(g, Map::<u64, usize>::empty()) =~= g);
}

proof fn lemma_merge_bump(g: Map<u64, usize>, l: Map<u64, usize>, key: u64)
    ensures
        merged(g, bump(l, key, 1)) == bump(merged(g, l), key, 1),
{
    lemma_count_merged(g, l, key);
    assert(merged(g, bump(l, key, 1)) =~= bump(merged(g, l), key, 1));
}

proof fn lemma_merge_tally_range(
    g: Map<u64, usize>,
    l: Map<u64, usize>,
    s: Seq<u8>,
    k: nat,
    lo: int,
    hi: int,
)
    ensures
        merged(g, tally_range(l, s, k, lo, hi)) == tally_range(merged(g, l), s, k, lo, hi),
    decreases hi - lo,
{
    if lo < hi {
        lemma_merge_tally_range(g, l, s, k, lo, hi - 1);
        if let Some(key) = window_key(s, k, hi - 1) {
            lemma_merge_bump(g, tally_range(l, s, k, lo, hi - 1), key);
        }
    }
}

/// Counting a record into a worker's own tally and merging that tally into
/// the shared one gives what counting the record straight into the shared
/// tally gives: the split of records among workers and batches does not
/// change the result.
pub proof fn lemma_merge_after_count(g: Map<u64, usize>, l: Map<u64, usize>, s: Seq<u8>, k: nat)
    ensures
        merged(g, tally_record(l, s, k)) == tally_record(merged(g, l), s, k),
{
    lemma_merge_tally_range(g, l, s, k, 0, s.len() - k + 1);
}

/// `m` after counting each record of `rs` in turn.
pub open spec fn tally_records(m: Map<u64, usize>, rs: Seq<Seq<u8>>, k: nat) -> Map<u64, usize>
    decreases rs.len(),
{
    if rs.len() == 0 {
        m
    } else {
        tally_record(tally_records(m, rs.drop_last(), k), rs.last(), k)
    }
}

proof fn lemma_merge_batch(g: Map<u64, usize>, l: Map<u64, usize>, rs: Seq<Seq<u8>>, k: nat)
    ensures
        merged(g, tally_records(l, rs, k)) == tally_records(merged(g, l), rs, k),
    decreases rs.len(),
{
    if rs.len() > 0 {
        lemma_merge_batch(g, l, rs.drop_last(), k);
        lemma_merge_after_count(g, tally_records(l, rs.drop_last(), k), rs.last(), k);
    }
}

proof fn lemma_tally_records_concat(m: Map<u64, usize>, a: Seq<Seq<u8>>, b: Seq<Seq<u8>>, k: nat)
    ensures
        tally_records(m, a + b, k) == tally_records(tally_records(m, a, k), b, k),
    decreases b.len(),
{
    if b.len() == 0 {
        assert(a + b =~= a);
    } else {
        lemma_tally_records_concat(m, a, b.drop_last(), k);
        assert((a + b).drop_last() =~= a + b.drop_last());
        assert((a + b).last() == b.last());
    }
}

/// Two batches of records, each counted by a worker into a tally of its own
/// and merged into the shared tally `g`, leave `g` as one worker counting all
/// the records of both in turn would, whichever batch is merged first.
pub proof fn lemma_batches_merge_in_any_order(
    g: Map<u64, usize>,
    a: Seq<Seq<u8>>,
    b: Seq<Seq<u8>>,
    k: nat,
)
    ensures
        merged(merged(g, tally_records(Map::empty(), a, k)), tally_records(Map::empty(), b, k))
            == tally_records(g, a + b, k),
        merged(merged(g, tally_records(Map::empty(), b, k)), tally_records(Map::empty(), a, k))
            == tally_records(g, a + b, k),
{
    let ta = tally_records(Map::<u64, usize>::empty(), a, k);
    let tb = tally_records(Map::<u64, usize>::empty(), b, k);
    lemma_merge_batch(g, Map::empty(), a, k);
    lemma_merge_empty(g);
    lemma_merge_batch(merged(g, ta), Map::empty(), b, k);
    lemma_merge_empty(merged(g, ta));
    lemma_tally_records_concat(g, a, b, k);
    lemma_merge_associates(g, tb, ta);
    lemma_merge_associates(g, ta, tb);
    lemma_merge_commutes(ta, tb);
}

/// The records of a list of batches, batch after batch.
pub open spec fn all_records(bs: Seq<Seq<Seq<u8>>>) -> Seq<Seq<u8>>
    decreases bs.len(),
{
    if bs.len() == 0 {
        Seq::empty()
    } else {
        all_records(bs.drop_last()) + bs.last()
    }
}

/// `g` after merging, batch after batch, a tally of each batch counted by a
/// worker from empty.
pub open spec fn merge_batches(g: Map<u64, usize>, bs: Seq<Seq<Seq<u8>>>, k: nat) -> Map<
    u64,
    usize,
>
    decreases bs.len(),
{
    if bs.len() == 0 {
        g
    } else {
        merged(merge_batches(g, bs.drop_last(), k), tally_records(Map::empty(), bs.last(), k))
    }
}

/// However the records are cut into batches, and however many batches there
/// are, merging each batch's own tally into the shared tally `g` leaves `g`
/// as one worker counting all the records in one go would.
pub proof fn lemma_any_batches_agree_with_one_worker(
    g: Map<u64, usize>,
    bs: Seq<Seq<Seq<u8>>>,
    k: nat,
)
    ensures
        merge_batches(g, bs, k) == tally_records(g, all_records(bs), k),
    decreases bs.len(),
{
    if bs.len() > 0 {
        let prev = tally_records(g, all_records(bs.drop_last()), k);
        lemma_any_batches_agree_with_one_worker(g, bs.drop_last(), k);
        lemma_merge_batch(prev, Map::empty(), bs.last(), k);
        lemma_merge_empty(prev);
        lemma_tally_records_concat(g, all_records(bs.drop_last()), bs.last(), k);
    }
}

proof fn lemma_tally_keeps_keys(m: Map<u64, usize>, s: Seq<u8>, k: nat, lo: int, hi: int, key: u64)
    requires
        m.contains_key(key),
    ensures
        tally_range(m, s, k, lo, hi).contains_key(key),
    decreases hi - lo,
{
    if lo < hi {
        lemma_tally_keeps_keys(m, s, k, lo, hi - 1, key);
    }
}

/// Every window of a record whose bytes are all canonical is counted: its
/// key has an entry in the tally, and decoding that key gives the window
/// back, in upper case.
pub proof fn lemma_window_counted(m: Map<u64, usize>, s: Seq<u8>, k: nat, p: int)
    requires
        k <= MAX_KSIZE,
        0 <= p,
        p + k <= s.len(),
        all_canonical(s.subrange(p, p + k)),
    ensures
        window_key(s, k, p) is Some,
        tally_record(m, s, k).contains_key(window_key(s, k, p)->0),
        decoded(window_key(s, k, p)->0 as int, k) == s.subrange(p, p + k).map_values(
            |b: u8| upper(b),
        ),
{
    let w = s.subrange(p, p + k);
    lemma_round_trip(w);
    let key = window_key(s, k, p)->0;
    let n = s.len() - k + 1;
    lemma_tally_split(m, s, k, 0, p + 1, n);
    let before = tally_range(m, s, k, 0, p + 1);
    assert(before.contains_key(key));
    lemma_tally_keeps_keys(before, s, k, p + 1, n, key);
}

/// The windows of `s` that start in `lo..hi` and encode to `key`.
pub open spec fn occurrences(s: Seq<u8>, k: nat, lo: int, hi: int, key: u64) -> nat
    decreases hi - lo,
{
    if hi <= lo {
        0
    } else {
        occurrences(s, k, lo, hi - 1, key) + if window_key(s, k, hi - 1) == Some(key) {
            1nat
        } else {
            0nat
        }
    }
}

proof fn lemma_range_count(m: Map<u64, usize>, s: Seq<u8>, k: nat, lo: int, hi: int, key: u64)
    ensures
        count_of(tally_range(m, s, k, lo, hi), key) == sat_add(
            count_of(m, key),
            occurrences(s, k, lo, hi, key),
        ),
    decreases hi - lo,
{
    if lo < hi {
        lemma_range_count(m, s, k, lo, hi - 1, key);
    }
}

/// Counting a record adds to each key's count exactly the number of the
/// record's windows that encode to that key (held at `usize::MAX`).
pub proof fn lemma_count_is_occurrences(m: Map<u64, usize>, s: Seq<u8>, k: nat, key: u64)
    ensures
        count_of(tally_record(m, s, k), key) == sat_add(
            count_of(m, key),
            occurrences(s, k, 0, s.len() - k + 1, key),
        ),
{
    lemma_range_count(m, s, k, 0, s.len() - k + 1, key);
}

proof fn lemma_keys_from_windows(m: Map<u64, usize>, s: Seq<u8>, k: nat, lo: int, hi: int, key: u64)
    requires
        tally_range(m, s, k, lo, hi).contains_key(key),
        !m.contains_key(key),
    ensures
        exists|p: int| lo <= p < hi && #[trigger] window_key(s, k, p) == Some(key),
    decreases hi - lo,
{
    if lo < hi {
        let prev = tally_range(m, s, k, lo, hi - 1);
        if prev.contains_key(key) {
            lemma_keys_from_windows(m, s, k, lo, hi - 1, key);
        } else {
            assert(window_key(s, k, hi - 1) == Some(key));
        }
    }
}

/// Every key that counting a record adds to a tally is the key of one of
/// the record's windows, and decoding it gives that window back, in upper
/// case: each row of a tally names a k-mer that was seen.
pub proof fn lemma_key_names_a_window(m: Map<u64, usize>, s: Seq<u8>, k: nat, key: u64)
    requires
        k <= MAX_KSIZE,
        tally_record(m, s, k).contains_key(key),
        !m.contains_key(key),
    ensures
        exists|p: int|
            0 <= p && p + k <= s.len() && #[trigger] window_key(s, k, p) == Some(key) && decoded(
                key as int,
                k,
            ) == s.subrange(p, p + k).map_values(|b: u8| upper(b)),
{
    lemma_keys_from_windows(m, s, k, 0, s.len() - k + 1, key);
    let p = choose|p: int| 0 <= p < s.len() - k + 1 && #[trigger] window_key(s, k, p) == Some(key);
    let w = s.subrange(p, p + k);
    assert(w.len() == k);
    lemma_round_trip(w);
}

} // verus!
