//! Get-or-compute caching with at most one computation in flight per key.
//!
//! The cache is a state machine. [`Cache::begin`] answers a request for a key
//! with the action to take: serve the stored value, run the computation, or
//! wait for the caller that already runs it. [`Cache::complete`] takes the
//! outcome of the computation, stores a success and closes the flight.
//! [`Cache::cached`] strings the two together for a caller that computes in
//! place.

use crate::flight::{join_state, waiting_for, Role, SingleFlight};
use vstd::hash_map::StringHashMap;
use vstd::prelude::*;

verus! {

/// A stored value and the time it stays valid.
pub struct CacheEntry {
    /// The encoded value.
    pub value: Vec<u8>,
    /// Clock reading, in seconds, at which the value was stored.
    pub stored_at: u64,
    /// Seconds after `stored_at` at which the value goes stale.
    pub ttl: u64,
}

/// The mathematical content of a [`CacheEntry`].
pub ghost struct EntryView {
    pub value: Seq<u8>,
    pub stored_at: u64,
    pub ttl: u64,
}

impl EntryView {
    /// The instant from which the entry is stale.
    pub open spec fn expires_at(self) -> int {
        self.stored_at + self.ttl
    }

    /// An entry is served strictly before its expiry.
    pub open spec fn live_at(self, now: u64) -> bool {
        now < self.expires_at()
    }
}

impl View for CacheEntry {
    type V = EntryView;

    open spec fn view(&self) -> EntryView {
        EntryView { value: self.value@, stored_at: self.stored_at, ttl: self.ttl }
    }
}

impl CacheEntry {
    /// Whether the entry may still be served at `now`.
    pub fn is_live(&self, now: u64) -> (r: bool)
        ensures
            r == self@.live_at(now),
    {
        now < self.stored_at || now - self.stored_at < self.ttl
    }
}

/// The state of a cache: what is stored, and which keys are being computed,
/// each with the number of callers waiting for the result.
pub ghost struct CacheView {
    pub entries: Map<Seq<char>, EntryView>,
    pub flights: Map<Seq<char>, u64>,
}

/// What a caller that asked for a key has to do.
#[derive(Debug, PartialEq, Eq)]
pub enum Lookup {
    /// A live entry exists: this is its value.
    Hit(Vec<u8>),
    /// Nothing live is stored and nobody computes the key: the caller computes
    /// it and reports the outcome with [`Cache::complete`].
    Lead,
    /// Another caller computes the key: wait for its outcome.
    Wait,
}

/// The mathematical content of a [`Lookup`].
pub ghost enum LookupView {
    Hit(Seq<u8>),
    Lead,
    Wait,
}

impl View for Lookup {
    type V = LookupView;

    open spec fn view(&self) -> LookupView {
        match self {
            Lookup::Hit(v) => LookupView::Hit(v@),
            Lookup::Lead => LookupView::Lead,
            Lookup::Wait => LookupView::Wait,
        }
    }
}

/// What the end of a computation released.
#[derive(Debug, PartialEq, Eq)]
pub struct Publication<E> {
    /// The outcome, which the leader returns and every waiter receives.
    pub outcome: Result<Vec<u8>, E>,
    /// Number of callers that were waiting for it.
    pub waiters: u64,
}

/// Why [`Cache::cached`] returned no value.
#[derive(Debug, PartialEq, Eq)]
pub enum CacheError<E> {
    /// The computation failed with this error. Nothing was stored.
    Failed(E),
    /// Another caller computes the key. This caller now counts as one of its
    /// waiters and receives the outcome when that computation is completed.
    Pending,
}

/// Whether `entries` holds a value for `key` that may be served at `now`.
pub open spec fn has_live(entries: Map<Seq<char>, EntryView>, key: Seq<char>, now: u64) -> bool {
    entries.dom().contains(key) && entries[key].live_at(now)
}

/// The action for a request of `key` at `now`.
pub open spec fn begin_action(s: CacheView, key: Seq<char>, now: u64) -> LookupView {
    if has_live(s.entries, key, now) {
        LookupView::Hit(s.entries[key].value)
    } else if s.flights.dom().contains(key) {
        LookupView::Wait
    } else {
        LookupView::Lead
    }
}

/// The state after a request of `key` at `now`.
pub open spec fn begin_state(s: CacheView, key: Seq<char>, now: u64) -> CacheView {
    if has_live(s.entries, key, now) {
        s
    } else {
        CacheView { entries: s.entries, flights: join_state(s.flights, key) }
    }
}

/// The state after the computation of `key` ended at `now`: a success is
/// stored for `ttl` seconds, a failure stores nothing, and either way the key
/// is no longer in flight.
pub open spec fn complete_state(
    s: CacheView,
    key: Seq<char>,
    value: Option<Seq<u8>>,
    ttl: u64,
    now: u64,
) -> CacheView {
    CacheView {
        entries: match value {
            Some(v) => s.entries.insert(key, EntryView { value: v, stored_at: now, ttl }),
            None => s.entries,
        },
        flights: s.flights.remove(key),
    }
}

/// Number of callers that wait for `key`.
pub open spec fn waiting(s: CacheView, key: Seq<char>) -> u64 {
    waiting_for(s.flights, key)
}

/// The successful value of an outcome, if it has one.
pub open spec fn success_of<E>(outcome: Result<Vec<u8>, E>) -> Option<Seq<u8>> {
    match outcome {
        Ok(v) => Some(v@),
        Err(_) => None,
    }
}

/// An in-process cache of encoded values with per-entry expiry.
pub struct Cache {
    store: StringHashMap<CacheEntry>,
    flights: SingleFlight,
}

impl View for Cache {
    type V = CacheView;

    closed spec fn view(&self) -> CacheView {
        CacheView {
            entries: self.store@.map_values(|e: CacheEntry| e@),
            flights: self.flights@,
        }
    }
}

fn copy_bytes(v: &Vec<u8>) -> (r: Vec<u8>)
    ensures
        r@ == v@,
{
    let mut r: Vec<u8> = Vec::with_capacity(v.len());
    let mut i: usize = 0;
    while i < v.len()
        invariant
            i <= v.len(),
            r@ == v@.take(i as int),
        decreases v.len() - i,
    {
        r.push(v[i]);
        i += 1;
        assert(v@.take(i as int) == v@.take(i - 1).push(v@[i - 1]));
    }
    assert(v@.take(v.len() as int) == v@);
    r
}

impl Cache {
    /// A cache that holds nothing and computes nothing.
    pub fn new() -> (r: Self)
        ensures
            r@.entries == Map::<Seq<char>, EntryView>::empty(),
            r@.flights == Map::<Seq<char>, u64>::empty(),
    {
        let r = Cache { store: StringHashMap::new(), flights: SingleFlight::new() };
        assert(r@.entries =~= Map::<Seq<char>, EntryView>::empty());
        r
    }

    /// The stored value of `key`, if one is live at `now`.
    pub fn get(&self, key: &str, now: u64) -> (r: Option<Vec<u8>>)
        ensures
            has_live(self@.entries, key@, now) ==> r is Some && r->0@ == self@.entries[key@].value,
            !has_live(self@.entries, key@, now) ==> r is None,
    {
        match self.store.get(key) {
            Some(e) => {
                if e.is_live(now) {
                    Some(copy_bytes(&e.value))
                } else {
                    None
                }
            },
            None => None,
        }
    }

    /// Stores `value` under `key` for `ttl` seconds from `now`, in place of
    /// whatever was stored there.
    pub fn set(&mut self, key: &str, value: Vec<u8>, ttl: u64, now: u64)
        ensures
            final(self)@.entries == old(self)@.entries.insert(
                key@,
                EntryView { value: value@, stored_at: now, ttl },
            ),
            final(self)@.flights == old(self)@.flights,
    {
        let entry = CacheEntry { value, stored_at: now, ttl };
        self.store.insert(String::from_str(key), entry);
        assert(self@.entries =~= old(self)@.entries.insert(
            key@,
            EntryView { value: value@, stored_at: now, ttl },
        ));
    }

    /// Whether a computation of `key` is in flight.
    pub fn in_flight(&self, key: &str) -> (r: bool)
        ensures
            r == self@.flights.dom().contains(key@),
    {
        self.flights.is_in_flight(key)
    }

    /// Answers a request for `key` at `now`: the live value, or the order to
    /// compute it, or the order to wait for the caller that computes it.
    pub fn begin(&mut self, key: &str, now: u64) -> (r: Lookup)
        ensures
            r@ == begin_action(old(self)@, key@, now),
            final(self)@ == begin_state(old(self)@, key@, now),
    {
        match self.get(key, now) {
            Some(v) => Lookup::Hit(v),
            None => match self.flights.join(key) {
                Role::Leader => Lookup::Lead,
                Role::Waiter => Lookup::Wait,
            },
        }
    }

    /// Ends the computation of `key` at `now` with `outcome`. A success is
    /// stored for `ttl` seconds; a failure stores nothing, so that the next
    /// request computes again. The key leaves the flight table, and the
    /// outcome comes back with the number of callers that waited for it.
    pub fn complete<E>(&mut self, key: &str, outcome: Result<Vec<u8>, E>, ttl: u64, now: u64) -> (r:
        Publication<E>)
        ensures
            final(self)@ == complete_state(old(self)@, key@, success_of(outcome), ttl, now),
            r.waiters == waiting(old(self)@, key@),
            success_of(r.outcome) == success_of(outcome),
            outcome is Err ==> r.outcome == outcome,
    {
        let waiters = self.flights.publish(key);
        match outcome {
            Ok(v) => {
                let kept = copy_bytes(&v);
                self.set(key, v, ttl, now);
                Publication { outcome: Ok(kept), waiters }
            },
            Err(e) => Publication { outcome: Err(e), waiters },
        }
    }
}

impl Cache {
    /// Returns the live value of `key`, or computes it.
    ///
    /// With a live entry the stored value is returned and `compute` has no
    /// part in the result. With none, and nobody computing the key, `compute`
    /// runs once: its success is stored for `ttl` seconds and returned, its
    /// failure is returned as [`CacheError::Failed`] and nothing is stored. If
    /// another caller computes the key, `compute` is dropped and the caller is
    /// attached to that computation as a waiter.
    pub fn cached<E, F: FnOnce() -> Result<Vec<u8>, E>>(
        &mut self,
        key: &str,
        ttl: u64,
        now: u64,
        compute: F,
    ) -> (r: Result<Vec<u8>, CacheError<E>>)
        requires
            compute.requires(()),
        ensures
            match begin_action(old(self)@, key@, now) {
                LookupView::Hit(v) => r matches Ok(w) && w@ == v && final(self)@ == old(self)@,
                LookupView::Wait => r == Err::<Vec<u8>, CacheError<E>>(CacheError::Pending)
                    && final(self)@ == begin_state(old(self)@, key@, now),
                LookupView::Lead => exists|outcome: Result<Vec<u8>, E>|
                    {
                        &&& compute.ensures((), outcome)
                        &&& final(self)@ == complete_state(
                            old(self)@,
                            key@,
                            success_of(outcome),
                            ttl,
                            now,
                        )
                        &&& match outcome {
                            Ok(v) => r matches Ok(w) && w@ == v@,
                            Err(e) => r == Err::<Vec<u8>, CacheError<E>>(CacheError::Failed(e)),
                        }
                    },
            },
    {
        match self.begin(key, now) {
            Lookup::Hit(v) => Ok(v),
            Lookup::Wait => Err(CacheError::Pending),
            Lookup::Lead => {
                let outcome = compute();
                let ghost computed = outcome;
                let published = self.complete(key, outcome, ttl, now);
                proof {
                    assert(old(self)@.flights.insert(key@, 0).remove(key@)
                        =~= old(self)@.flights.remove(key@));
                    assert(self@ == complete_state(
                        old(self)@,
                        key@,
                        success_of(computed),
                        ttl,
                        now,
                    ));
                }
                match published.outcome {
                    Ok(v) => Ok(v),
                    Err(e) => Err(CacheError::Failed(e)),
                }
            },
        }
    }
}

/// The state after `key` was requested once at each of `times`, in that order.
pub open spec fn begin_all(s: CacheView, key: Seq<char>, times: Seq<u64>) -> CacheView
    decreases times.len(),
{
    if times.len() == 0 {
        s
    } else {
        begin_state(begin_all(s, key, times.drop_last()), key, times.last())
    }
}

/// No element of `times` finds a live entry for `key`.
pub open spec fn cold_at(entries: Map<Seq<char>, EntryView>, key: Seq<char>, times: Seq<u64>) -> bool {
    forall|i: int| 0 <= i < times.len() ==> !has_live(entries, key, #[trigger] times[i])
}

/// Requests that miss store nothing, and after the first of them the key is in
/// flight with every later one counted as a waiter.
pub proof fn lemma_misses_attach_to_one_flight(s: CacheView, key: Seq<char>, times: Seq<u64>)
    requires
        cold_at(s.entries, key, times),
        !s.flights.dom().contains(key),
        times.len() > 0,
        times.len() - 1 <= u64::MAX,
    ensures
        begin_all(s, key, times).entries == s.entries,
        begin_all(s, key, times).flights == s.flights.insert(key, (times.len() - 1) as u64),
    decreases times.len(),
{
    let before = times.drop_last();
    assert(!has_live(s.entries, key, times[times.len() - 1]));
    if before.len() == 0 {
        assert(begin_all(s, key, before) == s);
    } else {
        assert forall|i: int| 0 <= i < before.len() implies !has_live(
            s.entries,
            key,
            #[trigger] before[i],
        ) by {
            assert(before[i] == times[i]);
        }
        lemma_misses_attach_to_one_flight(s, key, before);
        assert(s.flights.insert(key, (before.len() - 1) as u64).insert(
            key,
            (times.len() - 1) as u64,
        ) =~= s.flights.insert(key, (times.len() - 1) as u64));
    }
}

/// Of any number of requests for a key that is neither stored live nor in
/// flight, the first is told to compute and every other is told to wait: the
/// computation is started exactly once.
pub proof fn lemma_exactly_one_leader(s: CacheView, key: Seq<char>, times: Seq<u64>, k: int)
    requires
        cold_at(s.entries, key, times),
        !s.flights.dom().contains(key),
        0 <= k < times.len(),
        times.len() - 1 <= u64::MAX,
    ensures
        begin_action(begin_all(s, key, times.take(k)), key, times[k]) == if k == 0 {
            LookupView::Lead
        } else {
            LookupView::Wait
        },
{
    let before = times.take(k);
    assert(!has_live(s.entries, key, times[k]));
    if k == 0 {
        assert(begin_all(s, key, before) == s);
    } else {
        assert forall|i: int| 0 <= i < before.len() implies !has_live(
            s.entries,
            key,
            #[trigger] before[i],
        ) by {
            assert(before[i] == times[i]);
        }
        lemma_misses_attach_to_one_flight(s, key, before);
    }
}

/// Completing the computation releases every request that attached to it, all
/// with the one outcome that was published, and closes the flight: the state
/// that remains is the state before the requests with the success stored, or
/// unchanged after a failure.
pub proof fn lemma_one_outcome_for_all(
    s: CacheView,
    key: Seq<char>,
    times: Seq<u64>,
    value: Option<Seq<u8>>,
    ttl: u64,
    now: u64,
)
    requires
        cold_at(s.entries, key, times),
        !s.flights.dom().contains(key),
        times.len() > 0,
        times.len() - 1 <= u64::MAX,
    ensures
        waiting(begin_all(s, key, times), key) == times.len() - 1,
        complete_state(begin_all(s, key, times), key, value, ttl, now) == complete_state(
            s,
            key,
            value,
            ttl,
            now,
        ),
        !complete_state(begin_all(s, key, times), key, value, ttl, now).flights.dom().contains(key),
{
    lemma_misses_attach_to_one_flight(s, key, times);
    assert(s.flights.insert(key, (times.len() - 1) as u64).remove(key) =~= s.flights.remove(key));
}

/// A value stored at `now` for `ttl` seconds is served to every request that
/// arrives less than `ttl` seconds later, and a request that arrives `ttl`
/// seconds later or after that is told to compute.
pub proof fn lemma_served_until_expiry(
    s: CacheView,
    key: Seq<char>,
    value: Seq<u8>,
    ttl: u64,
    now: u64,
    later: u64,
)
    requires
        later >= now,
    ensures
        begin_action(complete_state(s, key, Some(value), ttl, now), key, later) == if later - now
            < ttl {
            LookupView::Hit(value)
        } else {
            LookupView::Lead
        },
{
}

/// A failed computation stores nothing, and the next request that finds no
/// live entry is told to compute again.
pub proof fn lemma_failure_is_retried(s: CacheView, key: Seq<char>, ttl: u64, now: u64, later: u64)
    requires
        !has_live(s.entries, key, later),
    ensures
        complete_state(s, key, None, ttl, now).entries == s.entries,
        begin_action(complete_state(s, key, None, ttl, now), key, later) == LookupView::Lead,
{
}

/// Requests and completions of one key leave the entry and the flight of every
/// other key as they were.
pub proof fn lemma_keys_are_independent(
    s: CacheView,
    key: Seq<char>,
    other: Seq<char>,
    value: Option<Seq<u8>>,
    ttl: u64,
    now: u64,
    at: u64,
)
    requires
        key != other,
    ensures
        begin_action(begin_state(s, other, now), key, at) == begin_action(s, key, at),
        begin_action(complete_state(s, other, value, ttl, now), key, at) == begin_action(s, key, at),
        waiting(begin_state(s, other, now), key) == waiting(s, key),
        waiting(complete_state(s, other, value, ttl, now), key) == waiting(s, key),
{
}

} // verus!
