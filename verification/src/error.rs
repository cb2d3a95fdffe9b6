//! The ways in which a call on the organization fails.

use vstd::prelude::*;

verus! {

/// Why a call failed. Every failure leaves the organization as it was before
/// the call.
#[derive(Debug, PartialEq, Eq)]
pub enum ContractError {
    /// The caller may not do this.
    Unauthorized {},
    /// The call would leave the organization without a governance module.
    InvariantViolation {},
    /// A module that the call asked for could not be brought up.
    SubInstantiationFailure { reason: String },
    /// The template of a module could not read the payload it was given.
    MalformedPayload { reason: String },
    /// A result arrived that no pending request asked for.
    UnknownReply { id: u64 },
    /// A change of modules is under way whose results are not all in.
    OperationPending {},
    /// The organization has no voting module yet.
    NotEstablished {},
}

impl ContractError {
    /// The text that `message` gives for this failure.
    pub open spec fn message_text(&self) -> Seq<char> {
        match self {
            ContractError::Unauthorized {} => "Unauthorized."@,
            ContractError::InvariantViolation {} =>
                "Execution would result in no governance modules being present."@,
            ContractError::SubInstantiationFailure { reason } => reason@,
            ContractError::MalformedPayload { reason } => reason@,
            ContractError::UnknownReply { .. } => "No pending request matches the reply."@,
            ContractError::OperationPending {} =>
                "A change of modules is pending; wait for its results."@,
            ContractError::NotEstablished {} => "The organization has no voting module yet."@,
        }
    }

    /// What to tell the caller. A failure that a module reported is passed
    /// on in the module's own words.
    pub fn message(&self) -> (text: String)
        ensures
            text@ == self.message_text(),
    {
        match self {
            ContractError::Unauthorized {} => "Unauthorized.".to_owned(),
            ContractError::InvariantViolation {} =>
                "Execution would result in no governance modules being present.".to_owned(),
            ContractError::SubInstantiationFailure { reason } => reason.clone(),
            ContractError::MalformedPayload { reason } => reason.clone(),
            ContractError::UnknownReply { .. } => "No pending request matches the reply.".to_owned(),
            ContractError::OperationPending {} =>
                "A change of modules is pending; wait for its results.".to_owned(),
            ContractError::NotEstablished {} => "The organization has no voting module yet.".to_owned(),
        }
    }
}

} // verus!
