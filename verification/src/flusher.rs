//! The periodic flush: which cached readings are handed on in a cycle.
//!
//! Two rules are offered, and a flusher follows the one it was made with.
//! Mark-on-scan hands each reading on once; it is the rule that applies
//! where no throttle window is set. The throttle hands on at most one
//! reading per device and window, however often readings come in, and
//! hands a reading on again once the window has passed.

use crate::aggregator::{fresh_entry, ingested, is_snapshot, marked, Aggregator, CacheEntry};
use crate::reading::{key_of, Reading};
use std::collections::HashMap;
use vstd::prelude::*;

verus! {

/// The rule by which a flush picks the readings that it hands on.
#[derive(Clone, Copy, Debug, PartialEq, Eq)]
pub enum FlushPolicy {
    /// Hand on each reading once: those that were not yet delivered when
    /// the cycle's scan found them.
    MarkOnScan,
    /// Hand on a device's reading whenever at least `window` seconds have
    /// passed since that device's last one was handed on, delivered or not.
    TimeThrottled { window: u64 },
}

/// What a flusher remembers between cycles.
pub struct FlusherState {
    pub policy: FlushPolicy,
    /// For each device key, the time at which a reading of the device was
    /// last handed on under the throttle.
    pub last_delivery: Map<u64, u64>,
}

/// The readings of the entries that are not yet delivered, in their order.
pub open spec fn fresh_readings(entries: Seq<CacheEntry>) -> Seq<Reading> {
    entries.filter(|e: CacheEntry| !e.delivered).map_values(|e: CacheEntry| e.latest)
}

/// Whether the throttle lets a reading of the device `key` pass at the time
/// `now`: none was handed on before, or the last one at least `window`
/// seconds ago.
pub open spec fn is_due(last: Map<u64, u64>, key: u64, now: u64, window: u64) -> bool {
    last.contains_key(key) ==> last[key] + window <= now
}

/// What the throttle makes of a cycle at the time `now`: the entries are
/// taken one after the other; a reading that is due is handed on, and `now`
/// noted as its device's last delivery. The result is the new note of last
/// deliveries and the readings handed on, in order.
pub open spec fn throttled(
    last: Map<u64, u64>,
    entries: Seq<CacheEntry>,
    now: u64,
    window: u64,
) -> (Map<u64, u64>, Seq<Reading>)
    decreases entries.len(),
{
    if entries.len() == 0 {
        (last, Seq::empty())
    } else {
        let (before, sent) = throttled(last, entries.drop_last(), now, window);
        let entry = entries.last();
        if is_due(before, entry.key(), now, window) {
            (before.insert(entry.key(), now), sent.push(entry.latest))
        } else {
            (before, sent)
        }
    }
}

/// What a cycle at the time `now` makes of the entries that its scan found:
/// the flusher's new state and the readings to hand on, in order.
pub open spec fn flushed(state: FlusherState, entries: Seq<CacheEntry>, now: u64) -> (
    FlusherState,
    Seq<Reading>,
) {
    match state.policy {
        FlushPolicy::MarkOnScan => (state, fresh_readings(entries)),
        FlushPolicy::TimeThrottled { window } => {
            let (last, sent) = throttled(state.last_delivery, entries, now, window);
            (FlusherState { policy: state.policy, last_delivery: last }, sent)
        },
    }
}

/// Picks, cycle by cycle, the readings to hand on for publication.
pub struct Flusher {
    policy: FlushPolicy,
    last_delivery: HashMap<u64, u64>,
}

impl View for Flusher {
    type V = FlusherState;

    closed spec fn view(&self) -> FlusherState {
        FlusherState { policy: self.policy, last_delivery: self.last_delivery@ }
    }
}

impl Flusher {
    /// A flusher that has handed nothing on yet.
    pub fn new(policy: FlushPolicy) -> (flusher: Flusher)
        ensures
            flusher@.policy == policy,
            flusher@.last_delivery == Map::<u64, u64>::empty(),
    {
        Flusher { policy, last_delivery: HashMap::new() }
    }

    /// The flusher's rule.
    pub fn policy(&self) -> (policy: FlushPolicy)
        ensures
            policy == self@.policy,
    {
        self.policy
    }

    /// Picks the readings to hand on out of the entries that a scan found
    /// at the time `now`.
    pub fn select(&mut self, entries: &Vec<CacheEntry>, now: u64) -> (sent: Vec<Reading>)
        ensures
            (final(self)@, sent@) == flushed(old(self)@, entries@, now),
    {
        broadcast use vstd::std_specs::hash::group_hash_axioms;

        let mut sent: Vec<Reading> = Vec::new();
        let mut i: usize = 0;
        match self.policy {
            FlushPolicy::MarkOnScan => {
                proof {
                    reveal(Seq::filter);
                    assert(fresh_readings(entries@.take(0)) =~= Seq::<Reading>::empty());
                }
                while i < entries.len()
                    invariant
                        i <= entries.len(),
                        sent@ == fresh_readings(entries@.take(i as int)),
                    decreases entries.len() - i,
                {
                    proof {
                        reveal(Seq::filter);
                        assert(entries@.take(i + 1).drop_last() =~= entries@.take(i as int));
                    }
                    if !entries[i].delivered {
                        sent.push(entries[i].latest);
                    }
                    i += 1;
                    assert(sent@ =~= fresh_readings(entries@.take(i as int)));
                }
                assert(entries@.take(i as int) =~= entries@);
            },
            FlushPolicy::TimeThrottled { window } => {
                while i < entries.len()
                    invariant
                        i <= entries.len(),
                        self.policy == old(self).policy,
                        (self.last_delivery@, sent@) == throttled(
                            old(self).last_delivery@,
                            entries@.take(i as int),
                            now,
                            window,
                        ),
                    decreases entries.len() - i,
                {
                    proof {
                        assert(entries@.take(i + 1).drop_last() =~= entries@.take(i as int));
                    }
                    let key = key_of(&entries[i].latest.device_id);
                    let due = match self.last_delivery.get(&key) {
                        Some(last) => match last.checked_add(window) {
                            Some(earliest) => earliest <= now,
                            None => false,
                        },
                        None => true,
                    };
                    if due {
                        self.last_delivery.insert(key, now);
                        sent.push(entries[i].latest);
                    }
                    i += 1;
                }
                assert(entries@.take(i as int) =~= entries@);
            },
        }
        sent
    }

    /// Runs one flush cycle at the time `now`: scans the cache, which marks
    /// every entry delivered, and picks the readings to hand on.
    pub fn flush(&mut self, aggregator: &mut Aggregator, now: u64) -> (sent: Vec<Reading>)
        requires
            old(aggregator).wf(),
        ensures
            final(aggregator).wf(),
            final(aggregator)@ == marked(old(aggregator)@),
            exists|entries: Seq<CacheEntry>| #[trigger]
                is_snapshot(entries, old(aggregator)@) && (final(self)@, sent@) == flushed(
                    old(self)@,
                    entries,
                    now,
                ),
    {
        let entries = aggregator.snapshot_and_mark_delivered();
        let sent = self.select(&entries, now);
        assert(is_snapshot(entries@, old(aggregator)@));
        sent
    }
}

/// The readings that mark-on-scan hands on are the readings of the cache's
/// undelivered entries, each once.
pub proof fn lemma_fresh_readings(entries: Seq<CacheEntry>, cache: Map<u64, CacheEntry>)
    requires
        is_snapshot(entries, cache),
    ensures
        forall|r: Reading| #[trigger]
            fresh_readings(entries).contains(r) <==> cache.contains_key(r.key()) && cache[r.key()]
                == fresh_entry(r),
        forall|i: int, j: int|
            0 <= i < j < fresh_readings(entries).len() ==> (#[trigger] fresh_readings(
                entries,
            )[i]).key() != (#[trigger] fresh_readings(entries)[j]).key(),
{
    lemma_fresh_readings_from(entries);
    let fresh = fresh_readings(entries);
    assert forall|r: Reading| #[trigger]
        fresh.contains(r) <==> cache.contains_key(r.key()) && cache[r.key()] == fresh_entry(
            r,
        ) by {
        if fresh.contains(r) {
            let n = choose|n: int| 0 <= n < fresh.len() && fresh[n] == r;
            let i = source_index(entries, n);
            assert(entries[i] == fresh_entry(r));
            assert(cache.contains_key(entries[i].key()));
        }
        if cache.contains_key(r.key()) && cache[r.key()] == fresh_entry(r) {
            let i = choose|i: int| 0 <= i < entries.len() && #[trigger] entries[i].key() == r.key();
            assert(cache[entries[i].key()] == entries[i]);
            assert(entries[i] == fresh_entry(r));
        }
    }
    assert forall|i: int, j: int| 0 <= i < j < fresh.len() implies (#[trigger] fresh[i]).key() != (
    #[trigger] fresh[j]).key() by {
        let a = source_index(entries, i);
        let b = source_index(entries, j);
        assert(entries[a].key() != entries[b].key());
    }
}

/// The place in `entries` of the entry whose reading stands at index `n` of
/// the readings handed on.
pub open spec fn source_index(entries: Seq<CacheEntry>, n: int) -> int
    decreases entries.len(),
{
    if entries.len() == 0 {
        0
    } else if n < fresh_readings(entries.drop_last()).len() {
        source_index(entries.drop_last(), n)
    } else {
        entries.len() - 1
    }
}

/// Each reading handed on under mark-on-scan is the reading of an
/// undelivered entry, later readings come from later entries, and every
/// undelivered entry's reading is handed on.
pub proof fn lemma_fresh_readings_from(entries: Seq<CacheEntry>)
    ensures
        fresh_readings(entries).len() <= entries.len(),
        forall|n: int|
            0 <= n < fresh_readings(entries).len() ==> 0 <= #[trigger] source_index(entries, n)
                < entries.len() && entries[source_index(entries, n)] == fresh_entry(
                fresh_readings(entries)[n],
            ),
        forall|n: int, m: int|
            0 <= n < m < fresh_readings(entries).len() ==> #[trigger] source_index(entries, n)
                < #[trigger] source_index(entries, m),
        forall|i: int|
            0 <= i < entries.len() && !(#[trigger] entries[i]).delivered ==> fresh_readings(
                entries,
            ).contains(entries[i].latest),
    decreases entries.len(),
{
    reveal(Seq::filter);
    let fresh = fresh_readings(entries);
    if entries.len() > 0 {
        let front = entries.drop_last();
        let before = fresh_readings(front);
        lemma_fresh_readings_from(front);
        if entries.last().delivered {
            assert(fresh =~= before);
        } else {
            assert(fresh =~= before.push(entries.last().latest));
            assert(fresh[fresh.len() - 1] == entries.last().latest);
        }
        assert forall|n: int| 0 <= n < fresh.len() implies 0 <= #[trigger] source_index(entries, n)
            < entries.len() && entries[source_index(entries, n)] == fresh_entry(fresh[n]) by {
            if n < before.len() {
                assert(fresh[n] == before[n]);
                assert(source_index(entries, n) == source_index(front, n));
                assert(front[source_index(front, n)] == entries[source_index(front, n)]);
            } else {
                assert(fresh[n] == entries.last().latest);
                assert(entries.last() == fresh_entry(entries.last().latest));
            }
        }
        assert forall|n: int, m: int| 0 <= n < m < fresh.len() implies #[trigger] source_index(
            entries,
            n,
        ) < #[trigger] source_index(entries, m) by {
            if m < before.len() {
                assert(source_index(front, n) < source_index(front, m));
            } else {
                assert(source_index(entries, n) == source_index(front, n));
            }
        }
        assert forall|i: int|
            0 <= i < entries.len() && !(#[trigger] entries[i]).delivered implies fresh.contains(
            entries[i].latest,
        ) by {
            if i < front.len() {
                assert(front[i] == entries[i]);
                assert(before.contains(front[i].latest));
                let n = choose|n: int| 0 <= n < before.len() && before[n] == front[i].latest;
                assert(fresh[n] == entries[i].latest);
            }
        }
    }
}

/// A scan under mark-on-scan hands on a reading of a device exactly when the
/// scan finds the device's entry undelivered.
pub proof fn lemma_scan_hands_on(
    entries: Seq<CacheEntry>,
    cache: Map<u64, CacheEntry>,
    key: u64,
)
    requires
        crate::aggregator::cache_wf(cache),
        is_snapshot(entries, cache),
    ensures
        sent_for(fresh_readings(entries), key) <==> cache.contains_key(key)
            && !cache[key].delivered,
{
    lemma_fresh_readings(entries, cache);
    let fresh = fresh_readings(entries);
    if sent_for(fresh, key) {
        let n = choose|n: int| 0 <= n < fresh.len() && (#[trigger] fresh[n]).key() == key;
        assert(fresh.contains(fresh[n]));
    }
    if cache.contains_key(key) && !cache[key].delivered {
        let reading = cache[key].latest;
        assert(cache[key] == fresh_entry(reading));
        assert(fresh.contains(reading));
        let n = choose|n: int| 0 <= n < fresh.len() && fresh[n] == reading;
        assert(fresh[n].key() == key);
    }
}

/// One event at the cache: a reading comes in, or a flush cycle scans it.
pub enum CacheEvent {
    Ingest(Reading),
    Scan,
}

/// The cache after `events`, one after the other.
pub open spec fn cache_after(cache: Map<u64, CacheEntry>, events: Seq<CacheEvent>) -> Map<
    u64,
    CacheEntry,
>
    decreases events.len(),
{
    if events.len() == 0 {
        cache
    } else {
        let before = cache_after(cache, events.drop_last());
        match events.last() {
            CacheEvent::Ingest(reading) => ingested(before, reading),
            CacheEvent::Scan => marked(before),
        }
    }
}

/// Whether the event at index `at` is a scan that, under mark-on-scan,
/// hands on the reading of the device `key`: the scan finds the device's
/// entry undelivered.
pub open spec fn hands_on(
    cache: Map<u64, CacheEntry>,
    events: Seq<CacheEvent>,
    at: int,
    key: u64,
) -> bool {
    &&& 0 <= at < events.len()
    &&& events[at] is Scan
    &&& cache_after(cache, events.take(at)).contains_key(key)
    &&& !cache_after(cache, events.take(at))[key].delivered
}

/// Whether a reading of the device `key` comes in at index `at`.
pub open spec fn comes_in(events: Seq<CacheEvent>, at: int, key: u64) -> bool {
    0 <= at < events.len() && (events[at] matches CacheEvent::Ingest(reading) && reading.key()
        == key)
}

/// After a scan, the entry of a device stays delivered for as long as no
/// reading of the device comes in.
proof fn lemma_stays_delivered(
    cache: Map<u64, CacheEntry>,
    events: Seq<CacheEvent>,
    key: u64,
    scan: int,
    until: int,
)
    requires
        0 <= scan < until <= events.len(),
        events[scan] is Scan,
        cache_after(cache, events.take(scan)).contains_key(key),
        forall|m: int| scan < m < until ==> !comes_in(events, m, key),
    ensures
        cache_after(cache, events.take(until)).contains_key(key),
        cache_after(cache, events.take(until))[key].delivered,
    decreases until - scan,
{
    assert(events.take(until).drop_last() =~= events.take(until - 1));
    assert(events.take(until).last() == events[until - 1]);
    if until - 1 > scan {
        lemma_stays_delivered(cache, events, key, scan, until - 1);
        assert(!comes_in(events, until - 1, key));
    }
}

/// Under mark-on-scan a reading is handed on at most once: between two scans
/// that hand on a reading of one device, a new reading of that device came
/// in.
pub proof fn lemma_handed_on_once(
    cache: Map<u64, CacheEntry>,
    events: Seq<CacheEvent>,
    key: u64,
    first: int,
    second: int,
)
    requires
        first < second,
        hands_on(cache, events, first, key),
        hands_on(cache, events, second, key),
    ensures
        exists|m: int| first < m < second && comes_in(events, m, key),
{
    if forall|m: int| first < m < second ==> !comes_in(events, m, key) {
        lemma_stays_delivered(cache, events, key, first, second);
    }
}

/// What the throttle notes as last deliveries after `cycles`, each a scan's
/// entries and the time of the cycle.
pub open spec fn last_after(
    last: Map<u64, u64>,
    cycles: Seq<(Seq<CacheEntry>, u64)>,
    window: u64,
) -> Map<u64, u64>
    decreases cycles.len(),
{
    if cycles.len() == 0 {
        last
    } else {
        throttled(
            last_after(last, cycles.drop_last(), window),
            cycles.last().0,
            cycles.last().1,
            window,
        ).0
    }
}

/// The readings that the throttle hands on in the cycle at index `at`.
pub open spec fn sent_in(
    last: Map<u64, u64>,
    cycles: Seq<(Seq<CacheEntry>, u64)>,
    window: u64,
    at: int,
) -> Seq<Reading> {
    throttled(last_after(last, cycles.take(at), window), cycles[at].0, cycles[at].1, window).1
}

/// Whether one of the readings `sent` is of the device `key`.
pub open spec fn sent_for(sent: Seq<Reading>, key: u64) -> bool {
    exists|n: int| 0 <= n < sent.len() && (#[trigger] sent[n]).key() == key
}

/// What one cycle of the throttle does: a device whose reading is handed on
/// was due, and its last delivery is now the time of the cycle; the note of
/// every other device is unchanged.
pub proof fn lemma_throttled(last: Map<u64, u64>, entries: Seq<CacheEntry>, now: u64, window: u64)
    ensures
        forall|k: u64| #[trigger]
            sent_for(throttled(last, entries, now, window).1, k) ==> is_due(last, k, now, window)
                && throttled(last, entries, now, window).0.contains_key(k) && throttled(
                last,
                entries,
                now,
                window,
            ).0[k] == now,
        forall|k: u64|
            !(#[trigger] sent_for(throttled(last, entries, now, window).1, k)) ==> (throttled(
                last,
                entries,
                now,
                window,
            ).0.contains_key(k) <==> last.contains_key(k)) && (last.contains_key(k) ==> throttled(
                last,
                entries,
                now,
                window,
            ).0[k] == last[k]),
    decreases entries.len(),
{
    let (after, sent) = throttled(last, entries, now, window);
    if entries.len() > 0 {
        let front = entries.drop_last();
        let (before, sent_before) = throttled(last, front, now, window);
        let entry = entries.last();
        let due = is_due(before, entry.key(), now, window);
        lemma_throttled(last, front, now, window);
        assert forall|k: u64| sent_for(sent_before, k) implies sent_for(sent, k) by {
            let n = choose|n: int| 0 <= n < sent_before.len() && (#[trigger] sent_before[n]).key() == k;
            assert(sent[n] == sent_before[n]);
        }
        assert forall|k: u64| sent_for(sent, k) && k != entry.key() implies sent_for(
            sent_before,
            k,
        ) by {
            let n = choose|n: int| 0 <= n < sent.len() && (#[trigger] sent[n]).key() == k;
            assert(sent_before[n] == sent[n]);
        }
        if due {
            assert(sent[sent.len() - 1] == entry.latest);
            assert(sent_for(sent, entry.key()));
        } else {
            assert(sent =~= sent_before);
        }
        assert forall|k: u64| #[trigger] sent_for(sent, k) implies is_due(last, k, now, window)
            && after.contains_key(k) && after[k] == now by {
            if sent_for(sent_before, k) {
            } else {
                assert(k == entry.key());
                assert(due);
            }
        }
        assert forall|k: u64| !(#[trigger] sent_for(sent, k)) implies (after.contains_key(k)
            <==> last.contains_key(k)) && (last.contains_key(k) ==> after[k] == last[k]) by {
            assert(!sent_for(sent_before, k));
        }
    } else {
        assert forall|k: u64| !(#[trigger] sent_for(sent, k)) by {}
    }
}

/// Once a reading of a device was handed on in a cycle, the note of the
/// device's last delivery never falls below the time of that cycle.
proof fn lemma_last_delivery_grows(
    last: Map<u64, u64>,
    cycles: Seq<(Seq<CacheEntry>, u64)>,
    window: u64,
    at: int,
    until: int,
    reading: Reading,
)
    requires
        0 <= at < until <= cycles.len(),
        sent_in(last, cycles, window, at).contains(reading),
    ensures
        last_after(last, cycles.take(until), window).contains_key(reading.key()),
        last_after(last, cycles.take(until), window)[reading.key()] >= cycles[at].1,
    decreases until - at,
{
    let key = reading.key();
    let before = last_after(last, cycles.take(until - 1), window);
    let cycle = cycles[until - 1];
    assert(cycles.take(until).drop_last() =~= cycles.take(until - 1));
    assert(cycles.take(until).last() == cycle);
    lemma_throttled(before, cycle.0, cycle.1, window);
    let (after, sent) = throttled(before, cycle.0, cycle.1, window);
    if until - 1 > at {
        lemma_last_delivery_grows(last, cycles, window, at, until - 1, reading);
        if sent_for(sent, key) {
            assert(is_due(before, key, cycle.1, window));
        }
    } else {
        let n = choose|n: int| 0 <= n < sent.len() && sent[n] == reading;
        assert(sent_for(sent, key));
    }
}

/// The throttle law: two readings of one device that are handed on in two
/// cycles are separated by at least the throttle window, measured by the
/// times of the cycles.
pub proof fn lemma_throttle_separation(
    last: Map<u64, u64>,
    cycles: Seq<(Seq<CacheEntry>, u64)>,
    window: u64,
    first: int,
    second: int,
    earlier: Reading,
    later: Reading,
)
    requires
        0 <= first < second < cycles.len(),
        sent_in(last, cycles, window, first).contains(earlier),
        sent_in(last, cycles, window, second).contains(later),
        earlier.key() == later.key(),
    ensures
        cycles[first].1 + window <= cycles[second].1,
{
    lemma_last_delivery_grows(last, cycles, window, first, second, earlier);
    let before = last_after(last, cycles.take(second), window);
    lemma_throttled(before, cycles[second].0, cycles[second].1, window);
    let sent = sent_in(last, cycles, window, second);
    let n = choose|n: int| 0 <= n < sent.len() && sent[n] == later;
    assert(sent_for(sent, later.key()));
}

} // verus!
