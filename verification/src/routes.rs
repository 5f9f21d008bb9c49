//! What the API answers at its boundary: error bodies, the state shared by the
//! handlers, and the headers that tell a caller about its quota.

use crate::buffer::{Outcome, RequestBuffer, RequestMetadata};
use crate::cache::{Cache, EntryView};
use crate::ratelimit::{RateLimitData, RateWindow, WINDOW_SECONDS};
use crate::requests::{Logged, RequestLogger};
use vstd::prelude::*;
use vstd::string::StringSliceAdditionalSpecFns;

verus! {

/// The body of a failed response.
#[derive(Clone, Debug, PartialEq, Eq)]
pub struct ApiError {
    /// Always `false`.
    pub success: bool,
    /// What went wrong, one message per error.
    pub errors: Vec<String>,
}

/// The texts of `errors`, in order.
pub open spec fn messages(errors: Seq<&str>) -> Seq<Seq<char>> {
    errors.map_values(|s: &str| s@)
}

/// The texts of `errors`, in order.
pub open spec fn texts(errors: Seq<String>) -> Seq<Seq<char>> {
    errors.map_values(|s: String| s@)
}

impl ApiError {
    /// An error body with the given messages.
    pub fn new(errors: &[&str]) -> (r: Self)
        ensures
            !r.success,
            texts(r.errors@) == messages(errors@),
    {
        let mut owned: Vec<String> = Vec::with_capacity(errors.len());
        let mut i: usize = 0;
        while i < errors.len()
            invariant
                i <= errors.len(),
                owned@.len() == i,
                forall|j: int| 0 <= j < i ==> (#[trigger] owned@[j])@ == errors@[j]@,
            decreases errors.len() - i,
        {
            owned.push(String::from_str(errors[i]));
            i += 1;
        }
        assert(texts(owned@) =~= messages(errors@));
        ApiError { success: false, errors: owned }
    }
}

/// The services that every handler shares, built once when the process
/// starts.
pub struct AppState {
    /// Clock reading, in milliseconds, at which the process started.
    pub start_time: u64,
    /// Version and commit of the running build.
    pub version: String,
    pub cache: Cache,
    pub requests: RequestLogger,
}

/// Length of an API key, in bytes.
pub const API_KEY_LENGTH: usize = 64;

/// Whether the value of an `Authorization` header has the shape of an API
/// key. Only such a value is looked up as an organization.
pub fn is_api_key(authorization: &str) -> (r: bool)
    ensures
        r == (authorization.spec_bytes().len() == API_KEY_LENGTH),
{
    authorization.as_bytes().len() == API_KEY_LENGTH
}

/// The three headers that tell a caller about its quota.
#[derive(Clone, Copy, Debug, PartialEq, Eq, Structural)]
pub struct RateLimitHeaders {
    /// `X-RateLimit-Limit`: the configured limit.
    pub limit: u64,
    /// `X-RateLimit-Remaining`: what is left of the limit after this request.
    pub remaining: u64,
    /// `X-RateLimit-Reset`: seconds until the window resets.
    pub reset: u64,
}

/// What is left of a quota: the limit less the requests counted, and nothing
/// once the count has reached the limit.
pub open spec fn remaining_of(quota: RateLimitData) -> u64 {
    if quota.hits <= quota.limit {
        (quota.limit - quota.hits) as u64
    } else {
        0
    }
}

/// The headers for a quota.
pub fn rate_limit_headers(quota: RateLimitData) -> (r: RateLimitHeaders)
    ensures
        r == (RateLimitHeaders {
            limit: quota.limit,
            remaining: remaining_of(quota),
            reset: WINDOW_SECONDS,
        }),
{
    let remaining: u64 = if quota.hits <= quota.limit {
        quota.limit - quota.hits
    } else {
        0
    };
    RateLimitHeaders { limit: quota.limit, remaining, reset: WINDOW_SECONDS }
}

/// Status of a response to a request over its quota.
pub const TOO_MANY_REQUESTS: u16 = 429;

/// How a request goes on after it was logged.
#[derive(Debug, PartialEq, Eq)]
pub enum Entry {
    /// The request goes to its handler. The response carries the identifier
    /// of its record as `X-Request-ID`, and the quota headers, where they
    /// apply.
    Proceed { request_id: Option<u64>, headers: Option<RateLimitHeaders> },
    /// The request is answered at once with this status, these headers and
    /// this body.
    Reject { status: u16, quota: RateLimitHeaders, body: ApiError },
}

/// The quota headers of an admitted request, if a quota applies.
pub open spec fn headers_of(quota: Option<RateLimitData>) -> Option<RateLimitHeaders> {
    match quota {
        Some(q) => Some(
            RateLimitHeaders { limit: q.limit, remaining: remaining_of(q), reset: WINDOW_SECONDS },
        ),
        None => None,
    }
}

/// Decides how a logged request goes on: an admitted one proceeds to its
/// handler, one over its quota is rejected as too many requests.
pub fn enter(logged: Logged) -> (r: Entry)
    ensures
        match logged {
            Ok((request_id, quota)) => r == (Entry::Proceed {
                request_id,
                headers: headers_of(quota),
            }),
            Err(q) => r matches Entry::Reject { status, quota, body } && status
                == TOO_MANY_REQUESTS && Some(quota) == headers_of(Some(q)) && !body.success
                && texts(body.errors@) == seq!["too many requests"@],
        },
{
    match logged {
        Ok((request_id, quota)) => {
            let headers = match quota {
                Some(q) => Some(rate_limit_headers(q)),
                None => None,
            };
            Entry::Proceed { request_id, headers }
        },
        Err(quota) => {
            let message: [&str; 1] = ["too many requests"];
            let body = ApiError::new(message.as_slice());
            assert(messages(message@) =~= seq!["too many requests"@]);
            Entry::Reject { status: TOO_MANY_REQUESTS, quota: rate_limit_headers(quota), body }
        },
    }
}

/// The status of a response as it is recorded: the low sixteen bits of the
/// status code, read as a signed number.
pub open spec fn recorded_status(status: u16) -> i16 {
    status as i16
}

/// The duration of a request as it is recorded: the low thirty-two bits of
/// the milliseconds, read as a signed number.
pub open spec fn recorded_duration(millis: u128) -> i32 {
    millis as i32
}

impl AppState {
    /// The invariant of the shared state.
    pub open spec fn wf(&self) -> bool {
        self.requests.wf()
    }

    /// The state of a process that started at `start_time` (milliseconds)
    /// as the build `version`: nothing cached, no request seen, and room for
    /// `max_retained` failed batches.
    pub fn new(start_time: u64, version: String, max_retained: usize) -> (r: Self)
        ensures
            r.wf(),
            r.start_time == start_time,
            r.version == version,
            r.cache@.entries == Map::<Seq<char>, EntryView>::empty(),
            r.cache@.flights == Map::<Seq<char>, u64>::empty(),
            r.requests@.windows == Map::<Seq<char>, RateWindow>::empty(),
            r.requests@.buffer == RequestBuffer::new_view(max_retained),
    {
        AppState {
            start_time,
            version,
            cache: Cache::new(),
            requests: RequestLogger::new(max_retained),
        }
    }

    /// Takes in a request that arrives at `now`, and says how it goes on: to
    /// its handler, or back to the caller as too many requests.
    pub fn begin_request(&mut self, metadata: RequestMetadata, limit: Option<u64>, now: u64) -> (r:
        Entry)
        requires
            old(self).wf(),
        ensures
            final(self).wf(),
            final(self).requests@ == old(self).requests@.log(metadata, limit, now),
            final(self).cache == old(self).cache,
            final(self).start_time == old(self).start_time,
            final(self).version == old(self).version,
            match old(self).requests@.log_result(metadata, limit, now) {
                Ok((request_id, quota)) => r == (Entry::Proceed {
                    request_id,
                    headers: headers_of(quota),
                }),
                Err(q) => r matches Entry::Reject { status, quota, body } && status
                    == TOO_MANY_REQUESTS && Some(quota) == headers_of(Some(q)) && !body.success
                    && texts(body.errors@) == seq!["too many requests"@],
            },
    {
        let logged = self.requests.log(metadata, limit, now);
        enter(logged)
    }

    /// Records how the request with the record `request_id` ended: the status
    /// of its response, the milliseconds it took, and what the handler noted
    /// about it. A request without a record, and one whose end is already
    /// recorded, leave the state as it is; the result says whether the end
    /// was recorded.
    pub fn end_request(
        &mut self,
        request_id: Option<u64>,
        status: u16,
        millis: u128,
        annotations: Option<serde_json::Value>,
    ) -> (recorded: bool)
        requires
            old(self).wf(),
        ensures
            final(self).wf(),
            final(self).cache == old(self).cache,
            final(self).start_time == old(self).start_time,
            final(self).version == old(self).version,
            final(self).requests@.windows == old(self).requests@.windows,
            match request_id {
                Some(id) => recorded == old(self).requests@.buffer.has_open(id)
                    && final(self).requests@.buffer == old(self).requests@.buffer.finish(
                    id,
                    Outcome {
                        status_code: recorded_status(status),
                        duration_ms: recorded_duration(millis),
                        annotations,
                        error: None,
                    },
                ),
                None => !recorded && final(self).requests@ == old(self).requests@,
            },
    {
        match request_id {
            Some(id) => {
                let status_code = #[verifier::truncate]
                (status as i16);
                let duration_ms = #[verifier::truncate]
                (millis as i32);
                self.requests.finish(id, status_code, duration_ms, annotations, None)
            },
            None => false,
        }
    }
}

} // verus!
