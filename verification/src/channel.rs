//! The host's view of one-shot result channels.
//!
//! A caller hands the host the sending half of a one-shot channel and keeps
//! the receiving half. The host stores and moves these senders but never
//! completes them itself; delivering a result is the surrounding runtime's
//! step. Dropping the receiving half is the caller's only way to cancel.

use vstd::prelude::*;

verus! {

#[verifier::external_type_specification]
#[verifier::external_body]
#[verifier::reject_recursive_types(T)]
pub struct ExOneshotSender<T>(futures::channel::oneshot::Sender<T>);

/// Relies on futures' oneshot `Sender::is_canceled`: whether the receiving
/// half has been dropped. The answer depends on what the rest of the world
/// has done by now, so nothing is promised of it.
#[verifier::external_body]
pub fn sender_is_canceled<T>(tx: &futures::channel::oneshot::Sender<T>) -> bool {
    tx.is_canceled()
}

/// Transmission end used for sending the result of a PVF preparation.
pub type PrepareResultSender = futures::channel::oneshot::Sender<crate::error::PrepareResult>;

/// Transmission end used for sending the result of a PVF execution.
pub type ResultSender = futures::channel::oneshot::Sender<
    Result<crate::host::ValidationResult, crate::error::ValidationError>,
>;

} // verus!
