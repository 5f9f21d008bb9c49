//! Caching, admission control and request accounting for an HTTP API that
//! serves expensive derived data.
//!
//! Every component is a deterministic state machine over plain values. The
//! caller reads the clock, performs the I/O and holds the lock; the library
//! decides. One call is one atomic step: callers that share a component
//! serialize their calls, and nothing is held while a computation runs.
//!
//! * [`cache`] and [`flight`]: get-or-compute with expiry, and at most one
//!   computation per key at a time.
//! * [`ratelimit`]: fixed-window admission by caller identity.
//! * [`buffer`] and [`requests`]: the records of open requests and their
//!   flush to durable storage in batches.
//! * [`routes`], [`http`], [`auth`], [`proxy`]: what the API decides at its
//!   boundary.
//! * [`stats`], [`period`], [`keys`], [`search`], [`user`]: what the routes
//!   compute from the rows they read.
//! * [`digest`], [`text`]: fingerprints and text.

pub mod auth;
pub mod buffer;
pub mod cache;
pub mod digest;
pub mod flight;
pub mod http;
pub mod keys;
pub mod period;
pub mod proxy;
pub mod ratelimit;
pub mod requests;
pub mod routes;
pub mod search;
pub mod stats;
pub mod text;
pub mod user;
