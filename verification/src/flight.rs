//! Single flight: at most one computation per key at a time.
//!
//! The first caller that joins a key leads: it runs the computation. Every
//! caller that joins while the leader is at work waits for the leader's
//! outcome. When the leader publishes, the key is forgotten, so that the next
//! caller leads a fresh computation.

use vstd::hash_map::StringHashMap;
use vstd::prelude::*;

verus! {

/// The part of a caller in the computation of a key.
#[derive(Clone, Copy, Debug, PartialEq, Eq, Structural)]
pub enum Role {
    /// The caller runs the computation and publishes its outcome.
    Leader,
    /// The caller waits for the outcome that the leader publishes.
    Waiter,
}

/// One more waiter, short of overflowing the counter.
pub open spec fn one_more(waiters: u64) -> u64 {
    if waiters < u64::MAX {
        (waiters + 1) as u64
    } else {
        waiters
    }
}

/// The role of a caller that joins `key`.
pub open spec fn join_role(flights: Map<Seq<char>, u64>, key: Seq<char>) -> Role {
    if flights.dom().contains(key) {
        Role::Waiter
    } else {
        Role::Leader
    }
}

/// The flights after a caller joined `key`: a new flight without waiters, or
/// one more waiter on the flight that is under way.
pub open spec fn join_state(flights: Map<Seq<char>, u64>, key: Seq<char>) -> Map<Seq<char>, u64> {
    if flights.dom().contains(key) {
        flights.insert(key, one_more(flights[key]))
    } else {
        flights.insert(key, 0)
    }
}

/// Number of callers that wait for `key`.
pub open spec fn waiting_for(flights: Map<Seq<char>, u64>, key: Seq<char>) -> u64 {
    if flights.dom().contains(key) {
        flights[key]
    } else {
        0
    }
}

/// The computations in flight, each with the number of callers that wait
/// for it.
pub struct SingleFlight {
    flights: StringHashMap<u64>,
}

impl View for SingleFlight {
    type V = Map<Seq<char>, u64>;

    closed spec fn view(&self) -> Map<Seq<char>, u64> {
        self.flights@
    }
}

impl SingleFlight {
    /// A coordinator with nothing in flight.
    pub fn new() -> (r: Self)
        ensures
            r@ == Map::<Seq<char>, u64>::empty(),
    {
        SingleFlight { flights: StringHashMap::new() }
    }

    /// Whether a computation of `key` is in flight.
    pub fn is_in_flight(&self, key: &str) -> (r: bool)
        ensures
            r == self@.dom().contains(key@),
    {
        self.flights.contains_key(key)
    }

    /// Number of callers that wait for `key`.
    pub fn waiters(&self, key: &str) -> (r: u64)
        ensures
            r == waiting_for(self@, key@),
    {
        match self.flights.get(key) {
            Some(n) => *n,
            None => 0,
        }
    }

    /// Joins the computation of `key`: as its leader if none is in flight,
    /// as a waiter otherwise.
    pub fn join(&mut self, key: &str) -> (r: Role)
        ensures
            r == join_role(old(self)@, key@),
            final(self)@ == join_state(old(self)@, key@),
    {
        let waiting: Option<u64> = match self.flights.get(key) {
            Some(n) => Some(*n),
            None => None,
        };
        match waiting {
            Some(n) => {
                let more: u64 = if n < u64::MAX {
                    n + 1
                } else {
                    n
                };
                self.flights.insert(String::from_str(key), more);
                Role::Waiter
            },
            None => {
                self.flights.insert(String::from_str(key), 0);
                Role::Leader
            },
        }
    }

    /// Ends the flight of `key` and returns the number of callers that
    /// waited for it. The key is forgotten at once, whatever the outcome.
    pub fn publish(&mut self, key: &str) -> (waiters: u64)
        ensures
            waiters == waiting_for(old(self)@, key@),
            final(self)@ == old(self)@.remove(key@),
    {
        let waiters = self.waiters(key);
        self.flights.remove(key);
        waiters
    }
}

/// The flights after `n` callers joined `key`, one after the other.
pub open spec fn join_times(flights: Map<Seq<char>, u64>, key: Seq<char>, n: nat) -> Map<
    Seq<char>,
    u64,
>
    decreases n,
{
    if n == 0 {
        flights
    } else {
        join_state(join_times(flights, key, (n - 1) as nat), key)
    }
}

/// After callers joined a key that was not in flight, the key is in flight
/// with all of them but the first as waiters, and no other key has changed.
pub proof fn lemma_joins_share_one_flight(flights: Map<Seq<char>, u64>, key: Seq<char>, n: nat)
    requires
        !flights.dom().contains(key),
        1 <= n,
        n - 1 <= u64::MAX,
    ensures
        join_times(flights, key, n) == flights.insert(key, (n - 1) as u64),
    decreases n,
{
    if n > 1 {
        lemma_joins_share_one_flight(flights, key, (n - 1) as nat);
        assert(flights.insert(key, (n - 2) as u64).insert(key, (n - 1) as u64) =~= flights.insert(
            key,
            (n - 1) as u64,
        ));
    } else {
        assert(join_times(flights, key, 0) == flights);
    }
}

/// Of the callers that join a key that is not in flight, exactly the first
/// leads.
pub proof fn lemma_only_the_first_leads(flights: Map<Seq<char>, u64>, key: Seq<char>, k: nat)
    requires
        !flights.dom().contains(key),
        k <= u64::MAX,
    ensures
        join_role(join_times(flights, key, k), key) == if k == 0 {
            Role::Leader
        } else {
            Role::Waiter
        },
{
    if k > 0 {
        lemma_joins_share_one_flight(flights, key, k);
    } else {
        assert(join_times(flights, key, 0) == flights);
    }
}

/// Publishing releases every caller that joined after the leader, and leaves
/// the flights as they were before the first of them joined: the next caller
/// leads again.
pub proof fn lemma_publish_ends_the_flight(flights: Map<Seq<char>, u64>, key: Seq<char>, n: nat)
    requires
        !flights.dom().contains(key),
        1 <= n,
        n - 1 <= u64::MAX,
    ensures
        waiting_for(join_times(flights, key, n), key) == n - 1,
        join_times(flights, key, n).remove(key) == flights,
        join_role(join_times(flights, key, n).remove(key), key) == Role::Leader,
{
    lemma_joins_share_one_flight(flights, key, n);
    assert(flights.insert(key, (n - 1) as u64).remove(key) =~= flights);
}

/// Joining one key changes neither the role nor the waiters of another.
pub proof fn lemma_flights_are_independent(
    flights: Map<Seq<char>, u64>,
    key: Seq<char>,
    other: Seq<char>,
)
    requires
        key != other,
    ensures
        join_role(join_state(flights, other), key) == join_role(flights, key),
        waiting_for(join_state(flights, other), key) == waiting_for(flights, key),
        join_role(flights.remove(other), key) == join_role(flights, key),
        waiting_for(flights.remove(other), key) == waiting_for(flights, key),
{
}

} // verus!
