//! Questions about voting power. The organization does not answer them
//! itself: it names the voting module in force and passes the question on.

use crate::error::ContractError;
use crate::query::{VotingPowerQuery, VotingPowerQueryView};
use crate::voting::VotingModuleSlot;
use vstd::prelude::*;

verus! {

/// The height that a question refers to: the one it names, or the current
/// height where it names none.
pub open spec fn height_asked(height: Option<u64>, current: u64) -> u64 {
    match height {
        Some(h) => h,
        None => current,
    }
}

/// Addresses a question about the voting power of `address` to the voting
/// module that is in the slot at this moment. Nothing is kept from one
/// question to the next.
pub fn voting_power_at(
    slot: &VotingModuleSlot,
    address: String,
    height: Option<u64>,
    current_height: u64,
) -> (question: Result<VotingPowerQuery, ContractError>)
    ensures
        match slot@ {
            Some(module) => question is Ok && question->Ok_0@ == (VotingPowerQueryView {
                voting_module: module,
                address: address@,
                height: height_asked(height, current_height),
            }),
            None => question == Err::<VotingPowerQuery, ContractError>(
                ContractError::NotEstablished {},
            ),
        },
{
    let voting_module = slot.get()?;
    let height = match height {
        Some(h) => h,
        None => current_height,
    };
    Ok(VotingPowerQuery { voting_module, address, height })
}

} // verus!
