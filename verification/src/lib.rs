//! Verified core of a PVF (parachain validation function) validation host.
//!
//! The host accepts precheck, execute and heads-up requests for untrusted
//! validation code, prepares each distinct artifact at most once, caches
//! failures, parks execution requests behind in-flight preparations, and
//! evicts artifacts that outlive their time-to-live. This crate holds the
//! host's state and decisions: the artifact store, the event handlers with
//! exact contracts, the queue scheduling, the wire framing and the proofs
//! of the host's governing properties. The surrounding asynchronous
//! runtime — channels, worker processes, timers, the file system — drives
//! it from outside and performs the actions the handlers decide on.

use vstd::prelude::*;

pub mod artifact;
pub mod artifacts;
pub mod channel;
pub mod error;
pub mod framing;
pub mod host;
pub mod laws;
pub mod metrics;
pub mod queue;
pub mod variant;
pub mod vote;
pub mod worker;

verus! {

} // verus!
