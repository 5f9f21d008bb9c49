//! Admission and accounting of inbound requests.
//!
//! [`RequestLogger`] is what a request passes on its way in and out: the
//! rate limiter decides whether it is admitted, the buffer opens a record for
//! it, the handler reports the outcome, and the periodic flush carries the
//! records to durable storage.

use crate::buffer::{BufferView, CallerIdentity, Outcome, PersistedRecord, RequestBuffer, RequestMetadata, batches_of};
use crate::ratelimit::{admit_decision, admit_windows, RateLimitData, RateLimiter, RateWindow};
use vstd::prelude::*;

verus! {

/// The rate-limit partition of a caller: the API key of an organization, or
/// the word `anonymous` for every unauthenticated caller.
pub open spec fn partition_key(identity: CallerIdentity) -> Seq<char> {
    match identity {
        CallerIdentity::Organization(key) => key@,
        CallerIdentity::Anonymous => "anonymous"@,
    }
}

/// The state of a [`RequestLogger`].
pub ghost struct LoggerView {
    pub windows: Map<Seq<char>, RateWindow>,
    pub buffer: BufferView,
}

/// What a request is answered with on its way in: the identifier of its
/// record, if it got one, and its quota, if one applies; or, for a request
/// over its quota, the quota that it ran into.
pub type Logged = Result<(Option<u64>, Option<RateLimitData>), RateLimitData>;

impl LoggerView {
    /// Whether a request with `metadata` under `limit` is rejected at `now`.
    pub open spec fn rejects(self, metadata: RequestMetadata, limit: Option<u64>, now: u64) -> bool {
        limit matches Some(l) && !admit_decision(
            self.windows,
            partition_key(metadata.identity),
            l,
            now,
        ).admitted
    }

    /// The quota that a request with `metadata` is answered with under the
    /// limit `l`.
    pub open spec fn quota(self, metadata: RequestMetadata, l: u64, now: u64) -> RateLimitData {
        RateLimitData {
            limit: l,
            hits: admit_decision(self.windows, partition_key(metadata.identity), l, now).hits,
        }
    }

    /// The answer to a request with `metadata` arriving at `now`.
    pub open spec fn log_result(self, metadata: RequestMetadata, limit: Option<u64>, now: u64) -> Logged {
        match limit {
            Some(l) => if self.rejects(metadata, limit, now) {
                Err(self.quota(metadata, l, now))
            } else {
                Ok((self.buffer.created_id(metadata), Some(self.quota(metadata, l, now))))
            },
            None => Ok((self.buffer.created_id(metadata), None)),
        }
    }

    /// The state after a request with `metadata` arrived at `now`: a caller
    /// with a limit is counted in its window, and an admitted request gets a
    /// record.
    pub open spec fn log(self, metadata: RequestMetadata, limit: Option<u64>, now: u64) -> LoggerView {
        LoggerView {
            windows: match limit {
                Some(l) => admit_windows(self.windows, partition_key(metadata.identity), l, now),
                None => self.windows,
            },
            buffer: if self.rejects(metadata, limit, now) {
                self.buffer
            } else {
                self.buffer.create(metadata)
            },
        }
    }
}

/// Rate limiting and request accounting behind one handle.
pub struct RequestLogger {
    limiter: RateLimiter,
    buffer: RequestBuffer,
}

impl View for RequestLogger {
    type V = LoggerView;

    closed spec fn view(&self) -> LoggerView {
        LoggerView { windows: self.limiter@, buffer: self.buffer@ }
    }
}

impl RequestLogger {
    /// The invariant of the logger.
    pub open spec fn wf(&self) -> bool {
        self@.buffer.wf()
    }

    /// A logger that has seen no request and keeps up to `max_retained`
    /// failed batches.
    pub fn new(max_retained: usize) -> (r: Self)
        ensures
            r.wf(),
            r@.windows == Map::<Seq<char>, RateWindow>::empty(),
            r@.buffer == RequestBuffer::new_view(max_retained),
    {
        RequestLogger { limiter: RateLimiter::new(), buffer: RequestBuffer::new(max_retained) }
    }

    /// Takes in a request that arrives at `now`. With `limit` set, the caller
    /// is counted against that many requests per window and the request is
    /// rejected if the window is full; without, no window is consulted. An
    /// admitted request gets a record, and an identifier if its caller is
    /// attributable. A rejected request gets none and comes back as `Err` with
    /// the quota it ran into.
    pub fn log(&mut self, metadata: RequestMetadata, limit: Option<u64>, now: u64) -> (r: Logged)
        requires
            old(self).wf(),
        ensures
            final(self).wf(),
            final(self)@ == old(self)@.log(metadata, limit, now),
            r == old(self)@.log_result(metadata, limit, now),
    {
        let mut quota: Option<RateLimitData> = None;
        if let Some(l) = limit {
            let decision = match &metadata.identity {
                CallerIdentity::Organization(key) => self.limiter.request_admission(
                    key.as_str(),
                    l,
                    now,
                ),
                CallerIdentity::Anonymous => self.limiter.request_admission("anonymous", l, now),
            };
            let q = RateLimitData { limit: l, hits: decision.hits };
            if !decision.admitted {
                return Err(q);
            }
            quota = Some(q);
        }
        let id = self.buffer.create(metadata);
        Ok((id, quota))
    }

    /// Records the outcome of the open request `id`; an unknown or already
    /// completed identifier changes nothing. The result says whether the
    /// outcome was recorded.
    pub fn finish(
        &mut self,
        id: u64,
        status_code: i16,
        duration_ms: i32,
        annotations: Option<serde_json::Value>,
        error: Option<String>,
    ) -> (recorded: bool)
        requires
            old(self).wf(),
        ensures
            final(self).wf(),
            recorded == old(self)@.buffer.has_open(id),
            final(self)@.windows == old(self)@.windows,
            final(self)@.buffer == old(self)@.buffer.finish(
                id,
                Outcome { status_code, duration_ms, annotations, error },
            ),
    {
        self.buffer.finish(id, status_code, duration_ms, annotations, error)
    }

    /// Empties the buffer for a flush and returns the batches to write: those
    /// that failed before, oldest first, then the pending records as one.
    pub fn process(&mut self) -> (batches: Vec<Vec<PersistedRecord>>)
        requires
            old(self).wf(),
        ensures
            final(self).wf(),
            final(self)@.windows == old(self)@.windows,
            final(self)@.buffer == old(self)@.buffer.process(),
            batches_of(batches@) == old(self)@.buffer.flush_batches(),
    {
        self.buffer.process()
    }

    /// Takes back a batch whose write failed, for the next flush.
    pub fn retain(&mut self, batch: Vec<PersistedRecord>)
        requires
            old(self).wf(),
        ensures
            final(self).wf(),
            final(self)@.windows == old(self)@.windows,
            final(self)@.buffer == old(self)@.buffer.retain(batch@),
    {
        self.buffer.retain(batch)
    }

    /// Number of records that were dropped without being written.
    pub fn lost(&self) -> (n: u64)
        ensures
            n == self@.buffer.lost,
    {
        self.buffer.lost()
    }
}

} // verus!
