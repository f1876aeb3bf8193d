//! The cache of the latest reading of each device.

use crate::reading::{device_key, key_of, Reading};
use std::collections::HashMap;
use vstd::prelude::*;
use vstd::std_specs::iter::IteratorSpec;

verus! {

/// What the cache holds for one device.
#[derive(Clone, Copy, Debug, PartialEq, Eq)]
pub struct CacheEntry {
    /// The most recent reading of the device.
    pub latest: Reading,
    /// Whether this reading has been handed on.
    pub delivered: bool,
}

impl CacheEntry {
    /// The key of the entry's device.
    pub open spec fn key(&self) -> u64 {
        self.latest.key()
    }
}

/// Whether every entry of `cache` stands under the key of its own device.
pub open spec fn cache_wf(cache: Map<u64, CacheEntry>) -> bool {
    &&& cache.dom().finite()
    &&& forall|k: u64| #[trigger] cache.contains_key(k) ==> cache[k].key() == k
}

/// The cache after `reading` was taken in: the reading replaces whatever
/// stood for its device, as an entry that is not yet delivered.
pub open spec fn ingested(cache: Map<u64, CacheEntry>, reading: Reading) -> Map<u64, CacheEntry> {
    cache.insert(reading.key(), CacheEntry { latest: reading, delivered: false })
}

/// The cache after a scan: the same readings, all delivered.
pub open spec fn marked(cache: Map<u64, CacheEntry>) -> Map<u64, CacheEntry> {
    Map::new(
        |k: u64| cache.contains_key(k),
        |k: u64| CacheEntry { latest: cache[k].latest, delivered: true },
    )
}

/// Whether `entries` holds each entry of `cache` once, in any order.
pub open spec fn is_snapshot(entries: Seq<CacheEntry>, cache: Map<u64, CacheEntry>) -> bool {
    &&& forall|i: int|
        0 <= i < entries.len() ==> cache.contains_key(#[trigger] entries[i].key())
            && cache[entries[i].key()] == entries[i]
    &&& forall|i: int, j: int|
        0 <= i < j < entries.len() ==> #[trigger] entries[i].key() != #[trigger] entries[j].key()
    &&& forall|k: u64| #[trigger]
        cache.contains_key(k) ==> exists|i: int|
            0 <= i < entries.len() && #[trigger] entries[i].key() == k
}

/// The cache after each of `readings` was taken in, in order.
pub open spec fn ingested_all(cache: Map<u64, CacheEntry>, readings: Seq<Reading>) -> Map<
    u64,
    CacheEntry,
>
    decreases readings.len(),
{
    if readings.len() == 0 {
        cache
    } else {
        ingested(ingested_all(cache, readings.drop_last()), readings.last())
    }
}

/// The entry that a reading has when it has come in and was not yet handed on.
pub open spec fn fresh_entry(reading: Reading) -> CacheEntry {
    CacheEntry { latest: reading, delivered: false }
}

/// Taking a reading in keeps the cache well formed.
pub proof fn lemma_ingested_wf(cache: Map<u64, CacheEntry>, reading: Reading)
    requires
        cache_wf(cache),
    ensures
        cache_wf(ingested(cache, reading)),
{
}

/// A scan keeps the cache well formed, holds the same devices and readings,
/// and leaves every entry delivered.
pub proof fn lemma_marked_wf(cache: Map<u64, CacheEntry>)
    requires
        cache_wf(cache),
    ensures
        cache_wf(marked(cache)),
        marked(cache).dom() == cache.dom(),
        forall|k: u64| #[trigger]
            cache.contains_key(k) ==> marked(cache)[k].latest == cache[k].latest && marked(
                cache,
            )[k].delivered,
{
    assert(marked(cache).dom() =~= cache.dom());
}

/// Taking any number of readings in keeps the cache well formed.
pub proof fn lemma_ingested_all_wf(cache: Map<u64, CacheEntry>, readings: Seq<Reading>)
    requires
        cache_wf(cache),
    ensures
        cache_wf(ingested_all(cache, readings)),
    decreases readings.len(),
{
    if readings.len() > 0 {
        lemma_ingested_all_wf(cache, readings.drop_last());
    }
}

/// A snapshot holds at most one entry for a device: two places with one key
/// are the same place.
pub proof fn lemma_snapshot_unique(
    entries: Seq<CacheEntry>,
    cache: Map<u64, CacheEntry>,
    i: int,
    j: int,
)
    requires
        is_snapshot(entries, cache),
        0 <= i < entries.len(),
        0 <= j < entries.len(),
        entries[i].key() == entries[j].key(),
    ensures
        i == j,
{
    if i < j {
        assert(entries[i].key() != entries[j].key());
    } else if j < i {
        assert(entries[j].key() != entries[i].key());
    }
}

/// Last write wins, and once: after readings were taken in, one after the
/// other, a snapshot holds exactly one entry for the device of the last of
/// them, and it is that reading as it came in, not yet delivered, with
/// nothing of an earlier one in it. This holds whatever came in before, so
/// also where all the readings are of one device.
pub proof fn lemma_latest_reading_once(
    cache: Map<u64, CacheEntry>,
    readings: Seq<Reading>,
    entries: Seq<CacheEntry>,
) -> (at: int)
    requires
        readings.len() > 0,
        is_snapshot(entries, ingested_all(cache, readings)),
    ensures
        0 <= at < entries.len(),
        entries[at] == fresh_entry(readings.last()),
        forall|j: int|
            0 <= j < entries.len() && (#[trigger] entries[j]).latest.device_id
                == readings.last().device_id ==> j == at,
{
    let after = ingested_all(cache, readings);
    let key = readings.last().key();
    assert(after.contains_key(key));
    assert(after[key] == fresh_entry(readings.last()));
    let at = choose|i: int| 0 <= i < entries.len() && #[trigger] entries[i].key() == key;
    assert(after[entries[at].key()] == entries[at]);
    assert forall|j: int|
        0 <= j < entries.len() && (#[trigger] entries[j]).latest.device_id
            == readings.last().device_id implies j == at by {
        lemma_snapshot_unique(entries, after, j, at);
    }
    at
}

/// No update is lost between a reading that comes in and a scan, whichever
/// of the two goes first.
///
/// Where the reading comes in first, the scan's snapshot holds it. Where the
/// scan goes first, the reading's entry stands undelivered after both, so
/// that the next scan's snapshot holds it.
pub proof fn lemma_no_lost_update(
    cache: Map<u64, CacheEntry>,
    reading: Reading,
    this_scan: Seq<CacheEntry>,
    next_scan: Seq<CacheEntry>,
)
    ensures
        is_snapshot(this_scan, ingested(cache, reading)) ==> this_scan.contains(
            fresh_entry(reading),
        ),
        ingested(marked(cache), reading)[reading.key()] == fresh_entry(reading),
        is_snapshot(next_scan, ingested(marked(cache), reading)) ==> next_scan.contains(
            fresh_entry(reading),
        ),
{
    let key = reading.key();
    if is_snapshot(this_scan, ingested(cache, reading)) {
        let after = ingested(cache, reading);
        assert(after.contains_key(key));
        let i = choose|i: int| 0 <= i < this_scan.len() && #[trigger] this_scan[i].key() == key;
        assert(after[this_scan[i].key()] == this_scan[i]);
        assert(this_scan[i] == fresh_entry(reading));
    }
    if is_snapshot(next_scan, ingested(marked(cache), reading)) {
        let after = ingested(marked(cache), reading);
        assert(after.contains_key(key));
        let i = choose|i: int| 0 <= i < next_scan.len() && #[trigger] next_scan[i].key() == key;
        assert(after[next_scan[i].key()] == next_scan[i]);
        assert(next_scan[i] == fresh_entry(reading));
    }
}

/// The latest reading of each device, with a mark on those that were handed
/// on since they came in.
pub struct Aggregator {
    entries: HashMap<u64, CacheEntry>,
}

impl View for Aggregator {
    type V = Map<u64, CacheEntry>;

    closed spec fn view(&self) -> Map<u64, CacheEntry> {
        self.entries@
    }
}

impl Aggregator {
    /// Whether the cache is well formed: each entry under its device's key.
    pub open spec fn wf(&self) -> bool {
        cache_wf(self@)
    }

    /// An empty cache.
    pub fn new() -> (aggregator: Aggregator)
        ensures
            aggregator.wf(),
            aggregator@ == Map::<u64, CacheEntry>::empty(),
    {
        Aggregator { entries: HashMap::new() }
    }

    /// The number of devices seen so far.
    pub fn len(&self) -> (count: usize)
        requires
            self.wf(),
        ensures
            count == self@.len(),
    {
        broadcast use vstd::std_specs::hash::group_hash_axioms;

        self.entries.len()
    }

    /// What the cache holds for the device with the address `device_id`.
    pub fn get(&self, device_id: &[u8; 6]) -> (entry: Option<CacheEntry>)
        requires
            self.wf(),
        ensures
            entry == (if self@.contains_key(device_key(*device_id)) {
                Some(self@[device_key(*device_id)])
            } else {
                None
            }),
    {
        broadcast use vstd::std_specs::hash::group_hash_axioms;

        let key = key_of(device_id);
        match self.entries.get(&key) {
            Some(entry) => Some(*entry),
            None => None,
        }
    }

    /// Takes a reading in: it replaces the one held for its device, and is
    /// not yet delivered. This always succeeds.
    pub fn ingest(&mut self, reading: Reading)
        requires
            old(self).wf(),
        ensures
            final(self).wf(),
            final(self)@ == ingested(old(self)@, reading),
    {
        broadcast use vstd::std_specs::hash::group_hash_axioms;

        let key = key_of(&reading.device_id);
        self.entries.insert(key, CacheEntry { latest: reading, delivered: false });
    }

    /// Copies out every entry as it stands and marks every entry delivered,
    /// in one step.
    pub fn snapshot_and_mark_delivered(&mut self) -> (entries: Vec<CacheEntry>)
        requires
            old(self).wf(),
        ensures
            final(self).wf(),
            final(self)@ == marked(old(self)@),
            is_snapshot(entries@, old(self)@),
    {
        broadcast use vstd::std_specs::hash::group_hash_axioms;

        let mut entries: Vec<CacheEntry> = Vec::new();
        let mut next: HashMap<u64, CacheEntry> = HashMap::new();
        let ghost cache = self.entries@;
        let ghost pairs = vstd::std_specs::hash::spec_hash_map_iter(&self.entries).remaining();
        for pair in it: self.entries.iter()
            invariant
                cache == self.entries@,
                pairs == it.seq(),
                cache_wf(cache),
                entries@.len() == it.index(),
                it.seq().no_duplicates(),
                forall|i: int|
                    0 <= i < it.seq().len() ==> cache.contains_key(*(#[trigger] it.seq()[i]).0)
                        && cache[*it.seq()[i].0] == *it.seq()[i].1,
                forall|k: u64| #[trigger]
                    cache.contains_key(k) ==> it.seq().contains((&k, &cache[k])),
                forall|i: int|
                    0 <= i < entries@.len() ==> #[trigger] entries@[i] == *it.seq()[i].1
                        && entries@[i].key() == *it.seq()[i].0,
                next@ == Map::new(
                    |k: u64| exists|i: int| 0 <= i < it.index() && *(#[trigger] it.seq()[i]).0 == k,
                    |k: u64| CacheEntry { latest: cache[k].latest, delivered: true },
                ),
        {
            let (key, entry) = pair;
            entries.push(*entry);
            next.insert(*key, CacheEntry { latest: entry.latest, delivered: true });
        }
        proof {
            assert forall|i: int, j: int| 0 <= i < j < entries@.len() implies #[trigger] entries@[i].key()
                != #[trigger] entries@[j].key() by {
                if entries@[i].key() == entries@[j].key() {
                    assert(pairs[i] == pairs[j]);
                }
            }
            assert forall|k: u64| #[trigger] cache.contains_key(k) implies exists|i: int|
                0 <= i < entries@.len() && #[trigger] entries@[i].key() == k by {
                assert(pairs.contains((&k, &cache[k])));
                let i = choose|i: int| 0 <= i < pairs.len() && pairs[i] == (&k, &cache[k]);
                assert(entries@[i].key() == k);
            }
            assert(next@ =~= marked(cache)) by {
                assert forall|k: u64| cache.contains_key(k) implies next@.contains_key(k) by {
                    assert(pairs.contains((&k, &cache[k])));
                    let i = choose|i: int| 0 <= i < pairs.len() && pairs[i] == (&k, &cache[k]);
                    assert(*pairs[i].0 == k);
                }
            }
        }
        self.entries = next;
        entries
    }
}

} // verus!
