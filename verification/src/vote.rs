//! PVF pre-checking votes.
//!
//! Validators vote on whether a PVF should be admitted before any candidate
//! depends on it; the precheck half of the validation host is what informs
//! that vote.

use vstd::prelude::*;

use crate::error::PrepareResult;

verus! {

/// What caused the PVF pre-checking vote.
#[derive(PartialEq, Eq, Copy, Clone, Debug, Structural)]
pub enum VoteCause {
    /// The PVF arrives with a parachain being onboarded.
    Onboarding,
    /// The PVF arrives with a code upgrade.
    Upgrade,
}

/// The outcome of the PVF pre-checking vote.
#[derive(PartialEq, Eq, Copy, Clone, Debug, Structural)]
pub enum VoteOutcome {
    Accept,
    Reject,
}

impl VoteOutcome {
    /// The vote a validator casts from its host's precheck outcome: accept
    /// exactly when preparation succeeded.
    pub fn from_precheck(result: &PrepareResult) -> (r: VoteOutcome)
        ensures
            r == (if result is Ok {
                VoteOutcome::Accept
            } else {
                VoteOutcome::Reject
            }),
    {
        match result {
            Ok(()) => VoteOutcome::Accept,
            Err(_) => VoteOutcome::Reject,
        }
    }
}

} // verus!
