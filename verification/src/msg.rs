//! The calls that the organization takes, and the requests that it hands to
//! its host.

use crate::addr::Addr;
use crate::state::Config;
use vstd::prelude::*;

verus! {

/// Who is to administer a module that the organization brings up.
#[derive(Debug, PartialEq, Eq)]
pub enum Admin {
    /// The party at this address.
    Address { addr: String },
    /// The organization itself.
    GovernanceContract {},
    /// Nobody.
    NoAdmin {},
}

/// An administrator choice as plain text.
pub enum AdminView {
    Address { addr: Seq<char> },
    GovernanceContract,
    NoAdmin,
}

impl View for Admin {
    type V = AdminView;

    open spec fn view(&self) -> AdminView {
        match self {
            Admin::Address { addr } => AdminView::Address { addr: addr@ },
            Admin::GovernanceContract {} => AdminView::GovernanceContract,
            Admin::NoAdmin {} => AdminView::NoAdmin,
        }
    }
}

impl Clone for Admin {
    fn clone(&self) -> (copy: Self)
        ensures
            copy@ == self@,
    {
        match self {
            Admin::Address { addr } => Admin::Address { addr: addr.clone() },
            Admin::GovernanceContract {} => Admin::GovernanceContract {},
            Admin::NoAdmin {} => Admin::NoAdmin {},
        }
    }
}

impl AdminView {
    /// The address that administers the module, if any, where the
    /// organization has the address `organization`.
    pub open spec fn resolve(self, organization: Seq<char>) -> Option<Seq<char>> {
        match self {
            AdminView::Address { addr } => Some(addr),
            AdminView::GovernanceContract => Some(organization),
            AdminView::NoAdmin => None,
        }
    }
}

/// What it takes to bring up one module: the template, the payload that the
/// template is started with, the administrator and a label.
#[derive(Debug, PartialEq, Eq)]
pub struct ModuleInstantiateInfo {
    pub code_id: u64,
    pub msg: Vec<u8>,
    pub admin: Admin,
    pub label: String,
}

/// The order that the host receives to bring up a module.
#[derive(Debug, PartialEq, Eq)]
pub struct WasmInstantiate {
    pub admin: Option<String>,
    pub code_id: u64,
    pub msg: Vec<u8>,
    pub label: String,
}

/// An order to bring up a module, as plain values.
pub struct WasmInstantiateView {
    pub admin: Option<Seq<char>>,
    pub code_id: u64,
    pub msg: Seq<u8>,
    pub label: Seq<char>,
}

impl View for WasmInstantiate {
    type V = WasmInstantiateView;

    open spec fn view(&self) -> WasmInstantiateView {
        WasmInstantiateView {
            admin: crate::state::optional_text(self.admin),
            code_id: self.code_id,
            msg: self.msg@,
            label: self.label@,
        }
    }
}

impl ModuleInstantiateInfo {
    /// The order that brings this module up for the organization at
    /// `contract_address`.
    pub open spec fn wasm_msg(self, contract_address: Seq<char>) -> WasmInstantiateView {
        WasmInstantiateView {
            admin: self.admin@.resolve(contract_address),
            code_id: self.code_id,
            msg: self.msg@,
            label: self.label@,
        }
    }

    /// Turns the description of a module into the order that brings it up.
    /// Payload, template and label pass unchanged; the administrator is named
    /// by address.
    pub fn into_wasm_msg(self, contract_address: &Addr) -> (order: WasmInstantiate)
        ensures
            order@ == self.wasm_msg(contract_address@),
    {
        let admin = match self.admin {
            Admin::Address { addr } => Some(addr),
            Admin::GovernanceContract {} => Some(contract_address.clone().into_string()),
            Admin::NoAdmin {} => None,
        };
        WasmInstantiate { admin, code_id: self.code_id, msg: self.msg, label: self.label }
    }
}

/// An order to bring up a module, with the id under which the host reports
/// how it went.
#[derive(Debug, PartialEq, Eq)]
pub struct SubMsg {
    pub id: u64,
    pub msg: WasmInstantiate,
}

/// A tagged order as plain values.
pub struct SubMsgView {
    pub id: u64,
    pub msg: WasmInstantiateView,
}

impl View for SubMsg {
    type V = SubMsgView;

    open spec fn view(&self) -> SubMsgView {
        SubMsgView { id: self.id, msg: self.msg@ }
    }
}

/// A message that a governance module has the organization send in its own
/// name. The organization does not look into it.
#[derive(Debug, PartialEq, Eq)]
pub struct ProposalMsg {
    pub contract_addr: String,
    pub msg: Vec<u8>,
}

/// A message to send, as plain values.
pub struct ProposalMsgView {
    pub contract_addr: Seq<char>,
    pub msg: Seq<u8>,
}

impl View for ProposalMsg {
    type V = ProposalMsgView;

    open spec fn view(&self) -> ProposalMsgView {
        ProposalMsgView { contract_addr: self.contract_addr@, msg: self.msg@ }
    }
}

/// What the host is to do after a call: modules to bring up, each answered
/// by a reply, and messages to send in the organization's name.
#[derive(Debug, PartialEq, Eq)]
pub struct Response {
    pub instantiations: Vec<SubMsg>,
    pub messages: Vec<ProposalMsg>,
}

/// The work handed to the host, as plain values.
pub struct ResponseView {
    pub instantiations: Seq<SubMsgView>,
    pub messages: Seq<ProposalMsgView>,
}

/// The views of a vector of tagged orders, one for one.
pub open spec fn orders(v: Seq<SubMsg>) -> Seq<SubMsgView> {
    Seq::new(v.len(), |i: int| v[i]@)
}

/// The views of a vector of messages, one for one.
pub open spec fn messages(v: Seq<ProposalMsg>) -> Seq<ProposalMsgView> {
    Seq::new(v.len(), |i: int| v[i]@)
}

impl View for Response {
    type V = ResponseView;

    open spec fn view(&self) -> ResponseView {
        ResponseView {
            instantiations: orders(self.instantiations@),
            messages: messages(self.messages@),
        }
    }
}

impl ResponseView {
    /// Nothing for the host to do.
    pub open spec fn nothing() -> ResponseView {
        ResponseView { instantiations: Seq::empty(), messages: Seq::empty() }
    }
}

impl Response {
    /// A response that asks nothing of the host.
    pub fn new() -> (response: Response)
        ensures
            response@ == ResponseView::nothing(),
    {
        let response = Response { instantiations: Vec::new(), messages: Vec::new() };
        assert(response@.instantiations =~= Seq::empty());
        assert(response@.messages =~= Seq::empty());
        response
    }
}

/// What sets an organization up.
#[derive(Debug, PartialEq, Eq)]
pub struct InstantiateMsg {
    pub name: String,
    pub description: String,
    pub image_url: Option<String>,
    pub voting_module_instantiate_info: ModuleInstantiateInfo,
    pub governance_modules_instantiate_info: Vec<ModuleInstantiateInfo>,
}

/// The calls that change the organization.
#[derive(Debug, PartialEq, Eq)]
pub enum ExecuteMsg {
    /// A governance module has the organization send messages in its own
    /// name.
    ExecuteProposalHook { msgs: Vec<ProposalMsg> },
    /// The organization replaces its configuration.
    UpdateConfig { config: Config },
    /// A governance module replaces the voting module by a new one.
    UpdateVotingModule { module: ModuleInstantiateInfo },
    /// A governance module adds new governance modules and removes
    /// registered ones.
    UpdateGovernanceModules { to_add: Vec<ModuleInstantiateInfo>, to_remove: Vec<String> },
    /// The organization stores an address under a key.
    SetItem { key: String, addr: String },
    /// The organization removes a key.
    RemoveItem { key: String },
}

/// The questions that the organization answers.
#[derive(Debug, PartialEq, Eq)]
pub enum QueryMsg {
    Config {},
    VotingModule {},
    /// The governance modules in descending byte order: those below
    /// `start_at`, which is itself left out.
    GovernanceModules { start_at: Option<String>, limit: Option<u64> },
    GetItem { key: String },
    /// The keys of the items in ascending byte order: from `start_at` on,
    /// which is itself listed if it is a key.
    ListItems { start_at: Option<String>, limit: Option<u64> },
    VotingPowerAtHeight { address: String, height: Option<u64> },
    DumpState {},
}

/// How the host fared with one order to bring up a module.
#[derive(Debug, PartialEq, Eq)]
pub enum SubMsgResult {
    /// The module is up at this address.
    Instantiated { address: String },
    /// The template could not read its payload.
    Malformed { reason: String },
    /// The module could not be brought up for another reason.
    Failed { reason: String },
}

/// The host's report on the order with this id.
#[derive(Debug, PartialEq, Eq)]
pub struct Reply {
    pub id: u64,
    pub result: SubMsgResult,
}

/// The block in which a call runs.
#[derive(Debug, PartialEq, Eq)]
pub struct BlockInfo {
    pub height: u64,
}

/// The organization as its host knows it.
#[derive(Debug, PartialEq, Eq)]
pub struct ContractInfo {
    pub address: Addr,
}

/// Where and when a call runs.
#[derive(Debug, PartialEq, Eq)]
pub struct Env {
    pub block: BlockInfo,
    pub contract: ContractInfo,
}

/// Who makes a call.
#[derive(Debug, PartialEq, Eq)]
pub struct MessageInfo {
    pub sender: Addr,
}

} // verus!
