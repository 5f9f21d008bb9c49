//! Fixed-window rate limiting, partitioned by caller identity.

use vstd::hash_map::StringHashMap;
use vstd::prelude::*;

verus! {

/// Length of a rate window, in seconds.
pub const WINDOW_SECONDS: u64 = 60;

/// The hit counter of one caller identity.
#[derive(Clone, Copy, Debug, PartialEq, Eq, Structural)]
pub struct RateWindow {
    /// Clock reading, in seconds, at which the current window began.
    pub window_start: u64,
    /// Requests admitted in the current window.
    pub hits: u64,
    /// The limit that the most recent call was evaluated against.
    pub limit: u64,
}

/// What a caller is told about its quota.
#[derive(Clone, Copy, Debug, PartialEq, Eq, Structural)]
pub struct RateLimitData {
    pub limit: u64,
    pub hits: u64,
}

/// The outcome of one admission decision.
#[derive(Clone, Copy, Debug, PartialEq, Eq, Structural)]
pub struct Admission {
    pub admitted: bool,
    pub hits: u64,
    pub limit: u64,
}

/// The window that `now` falls into, given the window `w` that was current
/// before: `w` itself while fewer than [`WINDOW_SECONDS`] have passed since it
/// began, otherwise the empty window whose start is the latest multiple of the
/// window length after `w.window_start` that is not after `now`.
pub open spec fn current_window(w: RateWindow, now: u64) -> RateWindow {
    if now >= w.window_start && now - w.window_start >= WINDOW_SECONDS {
        RateWindow {
            window_start: (w.window_start + WINDOW_SECONDS * ((now - w.window_start)
                / (WINDOW_SECONDS as int))) as u64,
            hits: 0,
            limit: w.limit,
        }
    } else {
        w
    }
}

/// The window of `identity` as it is evaluated at `now`: a fresh one for an
/// identity not seen before.
pub open spec fn window_at(
    windows: Map<Seq<char>, RateWindow>,
    identity: Seq<char>,
    now: u64,
) -> RateWindow {
    if windows.dom().contains(identity) {
        current_window(windows[identity], now)
    } else {
        RateWindow { window_start: now, hits: 0, limit: 0 }
    }
}

/// The window after one request was evaluated against `limit`.
pub open spec fn window_after(w: RateWindow, limit: u64) -> RateWindow {
    RateWindow {
        window_start: w.window_start,
        hits: if w.hits < limit { (w.hits + 1) as u64 } else { w.hits },
        limit,
    }
}

/// The table of windows after `identity` asked for admission at `now`.
pub open spec fn admit_windows(
    windows: Map<Seq<char>, RateWindow>,
    identity: Seq<char>,
    limit: u64,
    now: u64,
) -> Map<Seq<char>, RateWindow> {
    windows.insert(identity, window_after(window_at(windows, identity, now), limit))
}

/// The decision for `identity` asking for admission at `now`.
pub open spec fn admit_decision(
    windows: Map<Seq<char>, RateWindow>,
    identity: Seq<char>,
    limit: u64,
    now: u64,
) -> Admission {
    let w = window_at(windows, identity, now);
    Admission { admitted: w.hits < limit, hits: window_after(w, limit).hits, limit }
}

/// Fixed-window hit counters, one per caller identity.
pub struct RateLimiter {
    windows: StringHashMap<RateWindow>,
}

impl View for RateLimiter {
    type V = Map<Seq<char>, RateWindow>;

    closed spec fn view(&self) -> Map<Seq<char>, RateWindow> {
        self.windows@
    }
}

fn refresh(w: RateWindow, now: u64) -> (r: RateWindow)
    ensures
        r == current_window(w, now),
{
    if now >= w.window_start && now - w.window_start >= WINDOW_SECONDS {
        let elapsed: u64 = now - w.window_start;
        let whole: u64 = elapsed / WINDOW_SECONDS;
        assert(WINDOW_SECONDS * whole <= elapsed) by (nonlinear_arith)
            requires
                whole == elapsed / WINDOW_SECONDS,
                WINDOW_SECONDS == 60,
        ;
        RateWindow {
            window_start: w.window_start + WINDOW_SECONDS * whole,
            hits: 0,
            limit: w.limit,
        }
    } else {
        w
    }
}

impl RateLimiter {
    /// A limiter that has seen no identity.
    pub fn new() -> (r: Self)
        ensures
            r@ == Map::<Seq<char>, RateWindow>::empty(),
    {
        RateLimiter { windows: StringHashMap::new() }
    }

    /// The stored window of `identity`, if it was ever seen.
    pub fn window(&self, identity: &str) -> (r: Option<RateWindow>)
        ensures
            r == if self@.dom().contains(identity@) {
                Some(self@[identity@])
            } else {
                None
            },
    {
        match self.windows.get(identity) {
            Some(w) => Some(*w),
            None => None,
        }
    }

    /// Decides whether a request of `identity` arriving at `now` (seconds) is
    /// admitted under `limit` requests per window, and counts it if it is.
    pub fn request_admission(&mut self, identity: &str, limit: u64, now: u64) -> (r: Admission)
        ensures
            final(self)@ == admit_windows(old(self)@, identity@, limit, now),
            r == admit_decision(old(self)@, identity@, limit, now),
    {
        let current = match self.windows.get(identity) {
            Some(w) => refresh(*w, now),
            None => RateWindow { window_start: now, hits: 0, limit: 0 },
        };
        let admitted = current.hits < limit;
        let hits: u64 = if admitted { current.hits + 1 } else { current.hits };
        self.windows.insert(
            String::from_str(identity),
            RateWindow { window_start: current.window_start, hits, limit },
        );
        Admission { admitted, hits, limit }
    }
}

/// The table of windows after `identity` asked for admission once at each of
/// `times`, in that order, always under the same `limit`.
pub open spec fn admit_all(
    windows: Map<Seq<char>, RateWindow>,
    identity: Seq<char>,
    limit: u64,
    times: Seq<u64>,
) -> Map<Seq<char>, RateWindow>
    decreases times.len(),
{
    if times.len() == 0 {
        windows
    } else {
        admit_windows(
            admit_all(windows, identity, limit, times.drop_last()),
            identity,
            limit,
            times.last(),
        )
    }
}

/// Every element of `times` lies in the window that starts at `start`.
pub open spec fn within_window(times: Seq<u64>, start: u64) -> bool {
    forall|i: int| 0 <= i < times.len() ==> start <= #[trigger] times[i] < start + WINDOW_SECONDS
}

/// After a burst of requests inside one fresh window the counter equals the
/// number of requests, capped at the limit, and the window has not moved.
pub proof fn lemma_burst_counts_up_to_limit(
    windows: Map<Seq<char>, RateWindow>,
    identity: Seq<char>,
    limit: u64,
    times: Seq<u64>,
)
    requires
        times.len() > 0,
        window_at(windows, identity, times[0]).hits == 0,
        within_window(times, window_at(windows, identity, times[0]).window_start),
    ensures
        admit_all(windows, identity, limit, times).dom().contains(identity),
        admit_all(windows, identity, limit, times)[identity] == (RateWindow {
            window_start: window_at(windows, identity, times[0]).window_start,
            hits: if times.len() <= limit { times.len() as u64 } else { limit },
            limit,
        }),
    decreases times.len(),
{
    let start = window_at(windows, identity, times[0]).window_start;
    let before = times.drop_last();
    if before.len() == 0 {
        assert(admit_all(windows, identity, limit, before) == windows);
        assert(times.last() == times[0]);
    } else {
        assert(before[0] == times[0]);
        assert forall|i: int| 0 <= i < before.len() implies start <= #[trigger] before[i] < start
            + WINDOW_SECONDS by {
            assert(before[i] == times[i]);
        }
        lemma_burst_counts_up_to_limit(windows, identity, limit, before);
        let t = times.last();
        assert(t == times[times.len() - 1]);
    }
}

/// Inside one fresh window the first `limit` requests of an identity are
/// admitted and every later one is rejected, whatever the order of their clock
/// readings; the reported count is the number admitted so far.
pub proof fn lemma_fresh_window_admits_exactly_limit(
    windows: Map<Seq<char>, RateWindow>,
    identity: Seq<char>,
    limit: u64,
    times: Seq<u64>,
    k: int,
)
    requires
        0 <= k < times.len(),
        window_at(windows, identity, times[0]).hits == 0,
        within_window(times, window_at(windows, identity, times[0]).window_start),
    ensures
        admit_decision(admit_all(windows, identity, limit, times.take(k)), identity, limit, times[k])
            == (Admission {
            admitted: k < limit,
            hits: if k < limit { (k + 1) as u64 } else { limit },
            limit,
        }),
{
    let start = window_at(windows, identity, times[0]).window_start;
    let before = times.take(k);
    if k == 0 {
        assert(admit_all(windows, identity, limit, before) == windows);
    } else {
        assert(before[0] == times[0]);
        assert forall|i: int| 0 <= i < before.len() implies start <= #[trigger] before[i] < start
            + WINDOW_SECONDS by {
            assert(before[i] == times[i]);
        }
        lemma_burst_counts_up_to_limit(windows, identity, limit, before);
    }
}

/// A request of one identity changes neither the window nor the next decision
/// of any other identity.
pub proof fn lemma_identities_are_independent(
    windows: Map<Seq<char>, RateWindow>,
    identity: Seq<char>,
    other: Seq<char>,
    other_limit: u64,
    other_now: u64,
    limit: u64,
    now: u64,
)
    requires
        identity != other,
    ensures
        admit_windows(windows, other, other_limit, other_now).dom().contains(identity)
            == windows.dom().contains(identity),
        admit_windows(windows, other, other_limit, other_now)[identity] == windows[identity],
        admit_decision(admit_windows(windows, other, other_limit, other_now), identity, limit, now)
            == admit_decision(windows, identity, limit, now),
{
}

/// Once a full window length has passed since the window of an identity began,
/// its counter starts again from zero: the next request is admitted under any
/// limit of at least one, as the first of a window that contains `now` and
/// begins a whole number of window lengths after the previous one.
pub proof fn lemma_window_resets_after_boundary(
    windows: Map<Seq<char>, RateWindow>,
    identity: Seq<char>,
    limit: u64,
    now: u64,
)
    requires
        windows.dom().contains(identity),
        now >= windows[identity].window_start + WINDOW_SECONDS,
        limit >= 1,
    ensures
        window_at(windows, identity, now).hits == 0,
        admit_decision(windows, identity, limit, now) == (Admission {
            admitted: true,
            hits: 1,
            limit,
        }),
        admit_windows(windows, identity, limit, now)[identity].hits == 1,
        ({
            let old_start = windows[identity].window_start;
            let new_start = admit_windows(windows, identity, limit, now)[identity].window_start;
            &&& old_start < new_start <= now < new_start + WINDOW_SECONDS
            &&& (new_start - old_start) % (WINDOW_SECONDS as int) == 0
        }),
{
    let old_start = windows[identity].window_start;
    let elapsed: int = now - old_start;
    let whole: int = elapsed / 60;
    assert(60 * whole <= elapsed < 60 * whole + 60 && whole >= 1 && (60 * whole) % 60 == 0)
        by (nonlinear_arith)
        requires
            whole == elapsed / 60,
            elapsed >= 60,
    ;
}

/// An admitted request never leaves the counter above the limit it was
/// evaluated against, and a rejected request leaves the counter unchanged.
pub proof fn lemma_admitted_hits_within_limit(
    windows: Map<Seq<char>, RateWindow>,
    identity: Seq<char>,
    limit: u64,
    now: u64,
)
    ensures
        admit_decision(windows, identity, limit, now).admitted ==> admit_decision(
            windows,
            identity,
            limit,
            now,
        ).hits <= limit,
        !admit_decision(windows, identity, limit, now).admitted ==> admit_windows(
            windows,
            identity,
            limit,
            now,
        )[identity].hits == window_at(windows, identity, now).hits,
{
}

} // verus!
