//! The answers that the organization gives.

use crate::addr::Addr;
use crate::state::{Config, ContractVersion};
use vstd::prelude::*;

verus! {

/// The address stored under a key, if there is one.
#[derive(Debug, PartialEq, Eq)]
pub struct GetItemResponse {
    pub item: Option<Addr>,
}

/// The organization at a glance.
#[derive(Debug, PartialEq, Eq)]
pub struct DumpStateResponse {
    pub config: Config,
    pub version: ContractVersion,
    pub governance_modules: Vec<Addr>,
    pub voting_module: Addr,
}

/// The voting power of an address at a height.
#[derive(Clone, Copy, Debug, PartialEq, Eq, Structural)]
pub struct VotingPowerAtHeightResponse {
    pub power: u128,
    pub height: u64,
}

/// An answer of the organization.
#[derive(Debug, PartialEq, Eq)]
pub enum QueryResponse {
    Config(Config),
    VotingModule(Addr),
    GovernanceModules(Vec<Addr>),
    GetItem(GetItemResponse),
    ListItems(Vec<String>),
    VotingPowerAtHeight(VotingPowerAtHeightResponse),
    DumpState(DumpStateResponse),
}

/// A question about voting power, as it goes to the voting module.
#[derive(Debug, PartialEq, Eq)]
pub struct VotingPowerQuery {
    /// The module to ask.
    pub voting_module: Addr,
    /// Whose voting power is asked for.
    pub address: String,
    /// The height at which it is asked for.
    pub height: u64,
}

/// A question about voting power, as plain values.
pub struct VotingPowerQueryView {
    pub voting_module: Seq<char>,
    pub address: Seq<char>,
    pub height: u64,
}

impl View for VotingPowerQuery {
    type V = VotingPowerQueryView;

    open spec fn view(&self) -> VotingPowerQueryView {
        VotingPowerQueryView {
            voting_module: self.voting_module@,
            address: self.address@,
            height: self.height,
        }
    }
}

impl VotingPowerQuery {
    /// The organization's answer, given what the voting module answered:
    /// the same power at the same height.
    pub fn answer(&self, response: VotingPowerAtHeightResponse) -> (answer: QueryResponse)
        ensures
            answer == QueryResponse::VotingPowerAtHeight(response),
    {
        QueryResponse::VotingPowerAtHeight(response)
    }
}

/// What comes of a question: the answer, or a question that the host is to
/// put to the voting module.
#[derive(Debug, PartialEq, Eq)]
pub enum QueryOutcome {
    Answer(QueryResponse),
    Forward(VotingPowerQuery),
}

} // verus!
