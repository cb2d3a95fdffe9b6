//! The organization as a whole: what it keeps, and how a call, a question
//! or a report from the host changes it.
//!
//! The organization does not act on its host. A call returns the work that
//! it leaves for the host: orders to bring up modules, and messages to send.
//! The host reports on each order through `reply`.

use crate::addr::{address_of, addresses, named, Addr, AddrSet};
use crate::auth::{require_module, require_self};
use crate::error::ContractError;
use crate::items::{stored, ItemStore};
use crate::modules::ModuleRegistry;
use crate::msg::{
    messages, Env, ExecuteMsg, InstantiateMsg, MessageInfo, ModuleInstantiateInfo, ProposalMsg,
    ProposalMsgView, QueryMsg, Reply, Response, ResponseView,
};
use crate::ordered_map::{is_page, text_of, texts};
use crate::passthrough::{height_asked, voting_power_at};
use crate::query::{
    DumpStateResponse, GetItemResponse, QueryOutcome, QueryResponse, VotingPowerQueryView,
};
use crate::replies::{
    orders_of, pending_of, DispatcherSnapshot, DispatcherView, ReplyDispatcher, ReplyPurpose,
    Request, Resolution, ResolutionView,
};
use crate::state::{
    optional_text, Config, ConfigStore, ConfigView, ContractVersion, ContractVersionView,
};
use crate::voting::VotingModuleSlot;
use vstd::prelude::*;

verus! {

/// All that the organization keeps.
pub struct State {
    config: ConfigStore,
    version: ContractVersion,
    governance_modules: ModuleRegistry,
    voting_module: VotingModuleSlot,
    items: ItemStore,
    replies: ReplyDispatcher,
}

/// The organization as plain values: its configuration and version, the
/// governance modules and the voting module in force, the item registry, and
/// the table of pending replies.
pub struct StateView {
    pub config: ConfigView,
    pub version: ContractVersionView,
    pub governance_modules: Set<Seq<char>>,
    pub voting_module: Option<Seq<char>>,
    pub items: Map<Seq<char>, Seq<char>>,
    pub replies: DispatcherView,
}

impl View for State {
    type V = StateView;

    closed spec fn view(&self) -> StateView {
        StateView {
            config: self.config@,
            version: self.version@,
            governance_modules: self.governance_modules@,
            voting_module: self.voting_module@,
            items: self.items@,
            replies: self.replies@,
        }
    }
}

/// The organization written down, for the host to keep between calls.
#[derive(Debug, PartialEq, Eq)]
pub struct Snapshot {
    pub config: Config,
    pub version: ContractVersion,
    pub governance_modules: Vec<Addr>,
    pub voting_module: Option<Addr>,
    pub items: Vec<(String, Addr)>,
    pub replies: DispatcherSnapshot,
}

impl View for Snapshot {
    type V = StateView;

    open spec fn view(&self) -> StateView {
        StateView {
            config: self.config@,
            version: self.version@,
            governance_modules: addresses(self.governance_modules@).to_set(),
            voting_module: address_of(self.voting_module),
            items: stored(self.items@),
            replies: self.replies@,
        }
    }
}

impl State {
    /// Writes the organization down. What is written down stands for the
    /// organization as it is.
    pub fn snapshot(&self) -> (snapshot: Snapshot)
        ensures
            snapshot@ == self@,
            self@.governance_modules.finite(),
    {
        Snapshot {
            config: self.config.get(),
            version: self.version.clone(),
            governance_modules: self.governance_modules.members(),
            voting_module: self.voting_module.current(),
            items: self.items.entries(),
            replies: self.replies.snapshot(),
        }
    }

    /// The organization that was written down.
    pub fn restore(snapshot: Snapshot) -> (state: State)
        ensures
            state@ == snapshot@,
            state@.governance_modules.finite(),
    {
        State {
            config: ConfigStore::new(snapshot.config),
            version: snapshot.version,
            governance_modules: ModuleRegistry::from_members(snapshot.governance_modules),
            voting_module: VotingModuleSlot::from_option(snapshot.voting_module),
            items: ItemStore::from_entries(snapshot.items),
            replies: ReplyDispatcher::restore(snapshot.replies),
        }
    }
}

/// How a call ended, as plain values.
pub open spec fn outcome_of(result: Result<Response, ContractError>) -> Result<
    ResponseView,
    ContractError,
> {
    match result {
        Ok(response) => Ok(response@),
        Err(e) => Err(e),
    }
}

/// The configuration that a set-up message asks for.
pub open spec fn config_of(msg: InstantiateMsg) -> ConfigView {
    ConfigView {
        name: msg.name@,
        description: msg.description@,
        image_url: optional_text(msg.image_url),
    }
}

/// The modules that set an organization up: the voting module first, then
/// the governance modules in the order of the message.
pub open spec fn initial_batch(msg: InstantiateMsg) -> Seq<Request> {
    let modules = msg.governance_modules_instantiate_info@;
    seq![
        Request { info: msg.voting_module_instantiate_info, purpose: ReplyPurpose::InitialVoting },
    ] + Seq::new(
        modules.len(),
        |i: int|
            Request {
                info: modules[i],
                purpose: ReplyPurpose::InitialGovernance {
                    index: i as u64,
                    total_expected: modules.len() as u64,
                },
            },
    )
}

/// The governance modules that a call adds, in the order of the call.
pub open spec fn swap_batch(to_add: Seq<ModuleInstantiateInfo>) -> Seq<Request> {
    Seq::new(
        to_add.len(),
        |i: int| Request { info: to_add[i], purpose: ReplyPurpose::SwapGovernanceAdd },
    )
}

/// What setting an organization up comes to. Without a governance module
/// there is no organization and nothing is ordered. Otherwise the
/// organization starts with the configuration of the message and without
/// modules or items, and one order goes out for each module.
pub open spec fn initial(env: Env, msg: InstantiateMsg) -> Result<
    (StateView, ResponseView),
    ContractError,
> {
    if msg.governance_modules_instantiate_info@.len() == 0 {
        Err(ContractError::InvariantViolation {})
    } else {
        Ok(
            (
                StateView {
                    config: config_of(msg),
                    version: ContractVersion::current_view(),
                    governance_modules: Set::empty(),
                    voting_module: None,
                    items: Map::empty(),
                    replies: DispatcherView {
                        pending: pending_of(initial_batch(msg)),
                        prospective_modules: Some(Set::empty()),
                        prospective_voting: None,
                    },
                },
                ResponseView {
                    instantiations: orders_of(initial_batch(msg), env.contract.address@),
                    messages: Seq::empty(),
                },
            ),
        )
    }
}

impl StateView {
    /// A failed call: nothing changes.
    pub open spec fn refuse(self, e: ContractError) -> (StateView, Result<
        ResponseView,
        ContractError,
    >) {
        (self, Err(e))
    }

    /// A governance module has the organization send `msgs` in its own name.
    pub open spec fn execute_proposal_hook(self, sender: Seq<char>, msgs: Seq<ProposalMsgView>) -> (
        StateView,
        Result<ResponseView, ContractError>,
    ) {
        if !self.governance_modules.contains(sender) {
            self.refuse(ContractError::Unauthorized {})
        } else {
            (self, Ok(ResponseView { instantiations: Seq::empty(), messages: msgs }))
        }
    }

    /// The organization replaces its configuration.
    pub open spec fn update_config(
        self,
        organization: Seq<char>,
        sender: Seq<char>,
        config: ConfigView,
    ) -> (StateView, Result<ResponseView, ContractError>) {
        if sender != organization {
            self.refuse(ContractError::Unauthorized {})
        } else {
            (StateView { config, ..self }, Ok(ResponseView::nothing()))
        }
    }

    /// A governance module orders a new voting module. The module in force
    /// stays in force until the new one is up.
    pub open spec fn update_voting_module(
        self,
        organization: Seq<char>,
        sender: Seq<char>,
        module: ModuleInstantiateInfo,
    ) -> (StateView, Result<ResponseView, ContractError>) {
        let batch = seq![Request { info: module, purpose: ReplyPurpose::SwapVoting }];
        if !self.governance_modules.contains(sender) {
            self.refuse(ContractError::Unauthorized {})
        } else if self.replies.busy() {
            self.refuse(ContractError::OperationPending {})
        } else {
            (
                StateView {
                    replies: DispatcherView {
                        pending: pending_of(batch),
                        prospective_modules: None,
                        prospective_voting: None,
                    },
                    ..self
                },
                Ok(
                    ResponseView {
                        instantiations: orders_of(batch, organization),
                        messages: Seq::empty(),
                    },
                ),
            )
        }
    }

    /// A governance module removes the modules in `removed` and orders the
    /// modules in `to_add`. The removals are applied to the modules in force
    /// at the time of the call. Where nothing is added the rest takes force
    /// at once, unless it is empty: then the call fails and nothing is
    /// removed. Where modules are added the rest is held back, and the
    /// modules in force stay in force until the new ones are up.
    pub open spec fn update_governance_modules(
        self,
        organization: Seq<char>,
        sender: Seq<char>,
        to_add: Seq<ModuleInstantiateInfo>,
        removed: Set<Seq<char>>,
    ) -> (StateView, Result<ResponseView, ContractError>) {
        let rest = self.governance_modules.difference(removed);
        if !self.governance_modules.contains(sender) {
            self.refuse(ContractError::Unauthorized {})
        } else if self.replies.busy() {
            self.refuse(ContractError::OperationPending {})
        } else if to_add.len() == 0 {
            if rest.is_empty() {
                self.refuse(ContractError::InvariantViolation {})
            } else {
                (StateView { governance_modules: rest, ..self }, Ok(ResponseView::nothing()))
            }
        } else {
            (
                StateView {
                    replies: DispatcherView {
                        pending: pending_of(swap_batch(to_add)),
                        prospective_modules: Some(rest),
                        prospective_voting: None,
                    },
                    ..self
                },
                Ok(
                    ResponseView {
                        instantiations: orders_of(swap_batch(to_add), organization),
                        messages: Seq::empty(),
                    },
                ),
            )
        }
    }

    /// The organization stores `addr` under `key`.
    pub open spec fn set_item(
        self,
        organization: Seq<char>,
        sender: Seq<char>,
        key: Seq<char>,
        addr: Seq<char>,
    ) -> (StateView, Result<ResponseView, ContractError>) {
        if sender != organization {
            self.refuse(ContractError::Unauthorized {})
        } else {
            (StateView { items: self.items.insert(key, addr), ..self }, Ok(ResponseView::nothing()))
        }
    }

    /// The organization removes `key`; an absent key is no failure.
    pub open spec fn remove_item(self, organization: Seq<char>, sender: Seq<char>, key: Seq<char>) -> (
        StateView,
        Result<ResponseView, ContractError>,
    ) {
        if sender != organization {
            self.refuse(ContractError::Unauthorized {})
        } else {
            (StateView { items: self.items.remove(key), ..self }, Ok(ResponseView::nothing()))
        }
    }

    /// The organization after a call, and how the call ended: with work
    /// for the host, or with a failure that changes nothing.
    pub open spec fn execute(self, env: Env, info: MessageInfo, msg: ExecuteMsg) -> (
        StateView,
        Result<ResponseView, ContractError>,
    ) {
        let organization = env.contract.address@;
        let sender = info.sender@;
        match msg {
            ExecuteMsg::ExecuteProposalHook { msgs } => self.execute_proposal_hook(
                sender,
                messages(msgs@),
            ),
            ExecuteMsg::UpdateConfig { config } => self.update_config(organization, sender, config@),
            ExecuteMsg::UpdateVotingModule { module } => self.update_voting_module(
                organization,
                sender,
                module,
            ),
            ExecuteMsg::UpdateGovernanceModules { to_add, to_remove } => self.update_governance_modules(
                organization,
                sender,
                to_add@,
                named(to_remove@),
            ),
            ExecuteMsg::SetItem { key, addr } => self.set_item(organization, sender, key@, addr@),
            ExecuteMsg::RemoveItem { key } => self.remove_item(organization, sender, key@),
        }
    }

    /// The organization after the host's report on one order. A failure
    /// ends the call that gave the order: what the call held back is
    /// dropped, and what is in force stays in force. With the last success
    /// what the call held back takes force, unless that would leave no
    /// governance module: then the call fails in the same way.
    pub open spec fn reply(self, reply: Reply) -> (StateView, Result<ResponseView, ContractError>) {
        let (replies, resolution) = self.replies.resolve(reply);
        let settled = StateView { replies, ..self };
        match resolution {
            Err(e) => (settled, Err(e)),
            Ok(ResolutionView::Awaiting) => (settled, Ok(ResponseView::nothing())),
            Ok(ResolutionView::Complete { modules, voting }) => {
                if modules matches Some(set) && set.is_empty() {
                    (settled, Err(ContractError::InvariantViolation {}))
                } else {
                    (
                        StateView {
                            governance_modules: match modules {
                                Some(set) => set,
                                None => self.governance_modules,
                            },
                            voting_module: match voting {
                                Some(module) => Some(module),
                                None => self.voting_module,
                            },
                            ..settled
                        },
                        Ok(ResponseView::nothing()),
                    )
                }
            },
        }
    }

    /// What a question comes to. Every question but the one about voting
    /// power is answered from what is in force; that one goes to the voting
    /// module in force.
    pub open spec fn answers(
        self,
        env: Env,
        msg: QueryMsg,
        outcome: Result<QueryOutcome, ContractError>,
    ) -> bool {
        match msg {
            QueryMsg::Config {} => outcome matches Ok(QueryOutcome::Answer(QueryResponse::Config(c)))
                && c@ == self.config,
            QueryMsg::VotingModule {} => match self.voting_module {
                Some(module) => outcome matches Ok(
                    QueryOutcome::Answer(QueryResponse::VotingModule(addr)),
                ) && addr@ == module,
                None => outcome == Err::<QueryOutcome, ContractError>(
                    ContractError::NotEstablished {},
                ),
            },
            QueryMsg::GovernanceModules { start_at, limit } => outcome matches Ok(
                QueryOutcome::Answer(QueryResponse::GovernanceModules(modules)),
            ) && is_page(
                addresses(modules@),
                self.governance_modules,
                optional_text(start_at),
                false,
                limit,
                true,
            ),
            QueryMsg::GetItem { key } => outcome matches Ok(
                QueryOutcome::Answer(QueryResponse::GetItem(response)),
            ) && address_of(response.item) == (if self.items.contains_key(key@) {
                Some(self.items[key@])
            } else {
                None
            }),
            QueryMsg::ListItems { start_at, limit } => outcome matches Ok(
                QueryOutcome::Answer(QueryResponse::ListItems(keys)),
            ) && is_page(texts(keys@), self.items.dom(), optional_text(start_at), true, limit, false),
            QueryMsg::VotingPowerAtHeight { address, height } => match self.voting_module {
                Some(module) => outcome matches Ok(QueryOutcome::Forward(question)) && question@ == (
                VotingPowerQueryView {
                    voting_module: module,
                    address: address@,
                    height: height_asked(height, env.block.height),
                }),
                None => outcome == Err::<QueryOutcome, ContractError>(
                    ContractError::NotEstablished {},
                ),
            },
            QueryMsg::DumpState {} => match self.voting_module {
                Some(module) => outcome matches Ok(
                    QueryOutcome::Answer(QueryResponse::DumpState(dump)),
                ) && dump.config@ == self.config && dump.version@ == self.version && is_page(
                    addresses(dump.governance_modules@),
                    self.governance_modules,
                    None,
                    false,
                    None,
                    true,
                ) && dump.voting_module@ == module,
                None => outcome == Err::<QueryOutcome, ContractError>(
                    ContractError::NotEstablished {},
                ),
            },
        }
    }
}

/// The text behind an optional reference is the text of the option.
fn as_text(o: &Option<String>) -> (text: Option<&str>)
    ensures
        text_of(text) == optional_text(*o),
{
    match o {
        Some(s) => Some(s.as_str()),
        None => None,
    }
}

/// Sets an organization up. Without a governance module in the message the
/// call fails and nothing is ordered. Otherwise one order goes out for the
/// voting module and one for each governance module; the organization has
/// no module in force until all of them are up.
pub fn instantiate(env: &Env, _info: &MessageInfo, msg: InstantiateMsg) -> (made: Result<
    (State, Response),
    ContractError,
>)
    ensures
        match made {
            Ok((state, response)) => initial(*env, msg) == Ok::<
                (StateView, ResponseView),
                ContractError,
            >((state@, response@)),
            Err(e) => initial(*env, msg) == Err::<(StateView, ResponseView), ContractError>(e),
        },
        made is Err <==> msg.governance_modules_instantiate_info@.len() == 0,
        made is Ok ==> made->Ok_0.1@.instantiations.len()
            == msg.governance_modules_instantiate_info@.len() + 1,
        made is Ok ==> made->Ok_0.0@.governance_modules.finite(),
{
    let InstantiateMsg {
        name,
        description,
        image_url,
        voting_module_instantiate_info,
        governance_modules_instantiate_info,
    } = msg;
    let total = governance_modules_instantiate_info.len();
    if total == 0 {
        return Err(ContractError::InvariantViolation {});
    }
    let ghost modules = governance_modules_instantiate_info@;
    let mut batch: Vec<Request> = Vec::new();
    batch.push(
        Request { info: voting_module_instantiate_info, purpose: ReplyPurpose::InitialVoting },
    );
    let mut index: u64 = 0;
    for info in it: governance_modules_instantiate_info.into_iter()
        invariant
            it.seq() == modules,
            modules == msg.governance_modules_instantiate_info@,
            modules.len() == total,
            index == it.index(),
            batch@.len() == it.index() + 1,
            batch@[0] == initial_batch(msg)[0],
            forall|i: int| 1 <= i < batch@.len() ==> #[trigger] batch@[i] == initial_batch(msg)[i],
    {
        batch.push(
            Request {
                info,
                purpose: ReplyPurpose::InitialGovernance { index, total_expected: total as u64 },
            },
        );
        index = index + 1;
    }
    assert(batch@ =~= initial_batch(msg));
    let mut replies = ReplyDispatcher::new();
    let instantiations = replies.start(batch, Some(AddrSet::new()), &env.contract.address)?;
    let state = State {
        config: ConfigStore::new(Config { name, description, image_url }),
        version: ContractVersion::current(),
        governance_modules: ModuleRegistry::new(),
        voting_module: VotingModuleSlot::new(),
        items: ItemStore::new(),
        replies,
    };
    let response = Response { instantiations, messages: Vec::new() };
    assert(response@.messages =~= Seq::empty());
    Ok((state, response))
}

/// Has the organization send `msgs` in its own name, for a governance
/// module.
pub fn execute_proposal_hook(state: &State, sender: &Addr, msgs: Vec<ProposalMsg>) -> (result:
    Result<Response, ContractError>)
    ensures
        (state@, outcome_of(result)) == state@.execute_proposal_hook(sender@, messages(msgs@)),
{
    require_module(&state.governance_modules, sender)?;
    let response = Response { instantiations: Vec::new(), messages: msgs };
    assert(response@.instantiations =~= Seq::empty());
    Ok(response)
}

/// Replaces the configuration, for the organization itself.
pub fn execute_update_config(state: &mut State, env: &Env, sender: &Addr, config: Config) -> (result:
    Result<Response, ContractError>)
    ensures
        (final(state)@, outcome_of(result)) == old(state)@.update_config(
            env.contract.address@,
            sender@,
            config@,
        ),
{
    require_self(sender, &env.contract.address)?;
    state.config.update(config);
    Ok(Response::new())
}

/// Orders a new voting module, for a governance module.
pub fn execute_update_voting_module(
    state: &mut State,
    env: &Env,
    sender: &Addr,
    module: ModuleInstantiateInfo,
) -> (result: Result<Response, ContractError>)
    ensures
        (final(state)@, outcome_of(result)) == old(state)@.update_voting_module(
            env.contract.address@,
            sender@,
            module,
        ),
{
    require_module(&state.governance_modules, sender)?;
    let mut batch: Vec<Request> = Vec::new();
    batch.push(Request { info: module, purpose: ReplyPurpose::SwapVoting });
    assert(batch@ =~= seq![Request { info: module, purpose: ReplyPurpose::SwapVoting }]);
    let instantiations = state.replies.start(batch, None, &env.contract.address)?;
    let response = Response { instantiations, messages: Vec::new() };
    assert(response@.messages =~= Seq::empty());
    Ok(response)
}

/// Removes governance modules and orders new ones, for a governance module.
pub fn execute_update_governance_modules(
    state: &mut State,
    env: &Env,
    sender: &Addr,
    to_add: Vec<ModuleInstantiateInfo>,
    to_remove: Vec<String>,
) -> (result: Result<Response, ContractError>)
    ensures
        (final(state)@, outcome_of(result)) == old(state)@.update_governance_modules(
            env.contract.address@,
            sender@,
            to_add@,
            named(to_remove@),
        ),
{
    require_module(&state.governance_modules, sender)?;
    if state.replies.is_busy() {
        return Err(ContractError::OperationPending {});
    }
    let rest = state.governance_modules.without(&to_remove);
    if to_add.len() == 0 {
        state.governance_modules.commit(rest)?;
        return Ok(Response::new());
    }
    let ghost added = to_add@;
    let mut batch: Vec<Request> = Vec::new();
    for info in it: to_add.into_iter()
        invariant
            it.seq() == added,
            batch@.len() == it.index(),
            forall|i: int| 0 <= i < batch@.len() ==> #[trigger] batch@[i] == swap_batch(added)[i],
    {
        batch.push(Request { info, purpose: ReplyPurpose::SwapGovernanceAdd });
    }
    assert(batch@ =~= swap_batch(added));
    let instantiations = state.replies.start(batch, Some(rest), &env.contract.address)?;
    let response = Response { instantiations, messages: Vec::new() };
    assert(response@.messages =~= Seq::empty());
    Ok(response)
}

/// Stores an address under a key, for the organization itself.
pub fn execute_set_item(state: &mut State, env: &Env, sender: &Addr, key: String, addr: String) -> (result:
    Result<Response, ContractError>)
    ensures
        (final(state)@, outcome_of(result)) == old(state)@.set_item(
            env.contract.address@,
            sender@,
            key@,
            addr@,
        ),
{
    require_self(sender, &env.contract.address)?;
    state.items.set(key, Addr::from_string(addr));
    Ok(Response::new())
}

/// Removes a key, for the organization itself.
pub fn execute_remove_item(state: &mut State, env: &Env, sender: &Addr, key: String) -> (result:
    Result<Response, ContractError>)
    ensures
        (final(state)@, outcome_of(result)) == old(state)@.remove_item(
            env.contract.address@,
            sender@,
            key@,
        ),
{
    require_self(sender, &env.contract.address)?;
    state.items.remove(key.as_str());
    Ok(Response::new())
}

/// Takes a call. A call that fails leaves the organization as it was.
pub fn execute(state: &mut State, env: &Env, info: &MessageInfo, msg: ExecuteMsg) -> (result: Result<
    Response,
    ContractError,
>)
    ensures
        (final(state)@, outcome_of(result)) == old(state)@.execute(*env, *info, msg),
        result is Err ==> final(state)@ == old(state)@,
        final(state)@.governance_modules.finite(),
{
    let result = match msg {
        ExecuteMsg::ExecuteProposalHook { msgs } => execute_proposal_hook(state, &info.sender, msgs),
        ExecuteMsg::UpdateConfig { config } => execute_update_config(
            state,
            env,
            &info.sender,
            config,
        ),
        ExecuteMsg::UpdateVotingModule { module } => execute_update_voting_module(
            state,
            env,
            &info.sender,
            module,
        ),
        ExecuteMsg::UpdateGovernanceModules { to_add, to_remove } => execute_update_governance_modules(
            state,
            env,
            &info.sender,
            to_add,
            to_remove,
        ),
        ExecuteMsg::SetItem { key, addr } => execute_set_item(state, env, &info.sender, key, addr),
        ExecuteMsg::RemoveItem { key } => execute_remove_item(state, env, &info.sender, key),
    };
    let _ = state.governance_modules.count();
    result
}

/// Takes the host's report on one order.
pub fn reply(state: &mut State, _env: &Env, msg: Reply) -> (result: Result<Response, ContractError>)
    ensures
        (final(state)@, outcome_of(result)) == old(state)@.reply(msg),
        result is Err ==> {
            &&& final(state)@.governance_modules == old(state)@.governance_modules
            &&& final(state)@.voting_module == old(state)@.voting_module
            &&& final(state)@.config == old(state)@.config
            &&& final(state)@.items == old(state)@.items
        },
        final(state)@.governance_modules.finite(),
{
    let result = match state.replies.resolve(msg) {
        Err(e) => Err(e),
        Ok(Resolution::Awaiting) => Ok(Response::new()),
        Ok(Resolution::Complete { modules, voting }) => {
            let committed = match modules {
                Some(set) => state.governance_modules.commit(set),
                None => Ok(()),
            };
            match committed {
                Err(e) => Err(e),
                Ok(()) => {
                    if let Some(module) = voting {
                        state.voting_module.replace(module);
                    }
                    Ok(Response::new())
                },
            }
        },
    };
    let _ = state.governance_modules.count();
    result
}

/// The configuration in force.
pub fn query_config(state: &State) -> (config: Config)
    ensures
        config@ == state@.config,
{
    state.config.get()
}

/// The voting module in force.
pub fn query_voting_module(state: &State) -> (module: Result<Addr, ContractError>)
    ensures
        match state@.voting_module {
            Some(addr) => module is Ok && module->Ok_0@ == addr,
            None => module == Err::<Addr, ContractError>(ContractError::NotEstablished {}),
        },
{
    state.voting_module.get()
}

/// The governance modules in force, in descending byte order: those below
/// `start_at`, where it is given, and at most `limit` of them, where it is
/// given.
pub fn query_governance_modules(state: &State, start_at: Option<String>, limit: Option<u64>) -> (modules:
    Vec<Addr>)
    ensures
        state@.governance_modules.finite(),
        is_page(
            addresses(modules@),
            state@.governance_modules,
            optional_text(start_at),
            false,
            limit,
            true,
        ),
{
    state.governance_modules.list(as_text(&start_at), limit)
}

/// The address stored under `key`, if there is one.
pub fn query_get_item(state: &State, key: String) -> (response: GetItemResponse)
    ensures
        address_of(response.item) == (if state@.items.contains_key(key@) {
            Some(state@.items[key@])
        } else {
            None
        }),
{
    GetItemResponse { item: state.items.get(key.as_str()) }
}

/// The keys of the item registry, in ascending byte order: from `start_at`
/// on, where it is given, with `start_at` itself if it is a key, and at most
/// `limit` of them, where a limit is given.
pub fn query_list_items(state: &State, start_at: Option<String>, limit: Option<u64>) -> (keys: Vec<
    String,
>)
    ensures
        state@.items.dom().finite(),
        is_page(texts(keys@), state@.items.dom(), optional_text(start_at), true, limit, false),
{
    state.items.list(as_text(&start_at), limit)
}

/// The organization at a glance, with all its governance modules in
/// descending byte order.
pub fn query_dump_state(state: &State) -> (dump: Result<DumpStateResponse, ContractError>)
    ensures
        state@.governance_modules.finite(),
        match state@.voting_module {
            Some(module) => dump is Ok && dump->Ok_0.config@ == state@.config
                && dump->Ok_0.version@ == state@.version && is_page(
                addresses(dump->Ok_0.governance_modules@),
                state@.governance_modules,
                None,
                false,
                None,
                true,
            ) && dump->Ok_0.voting_module@ == module,
            None => dump == Err::<DumpStateResponse, ContractError>(
                ContractError::NotEstablished {},
            ),
        },
{
    let governance_modules = state.governance_modules.list(None, None);
    let voting_module = state.voting_module.get()?;
    Ok(
        DumpStateResponse {
            config: state.config.get(),
            version: state.version.clone(),
            governance_modules,
            voting_module,
        },
    )
}

/// Answers a question, or hands back the question that the host is to put
/// to the voting module. A question changes nothing.
pub fn query(state: &State, env: &Env, msg: QueryMsg) -> (outcome: Result<
    QueryOutcome,
    ContractError,
>)
    ensures
        state@.answers(*env, msg, outcome),
        state@.governance_modules.finite(),
{
    let _ = state.governance_modules.count();
    match msg {
        QueryMsg::Config {} => Ok(QueryOutcome::Answer(QueryResponse::Config(query_config(state)))),
        QueryMsg::VotingModule {} => {
            let module = query_voting_module(state)?;
            Ok(QueryOutcome::Answer(QueryResponse::VotingModule(module)))
        },
        QueryMsg::GovernanceModules { start_at, limit } => Ok(
            QueryOutcome::Answer(
                QueryResponse::GovernanceModules(query_governance_modules(state, start_at, limit)),
            ),
        ),
        QueryMsg::GetItem { key } => Ok(
            QueryOutcome::Answer(QueryResponse::GetItem(query_get_item(state, key))),
        ),
        QueryMsg::ListItems { start_at, limit } => Ok(
            QueryOutcome::Answer(QueryResponse::ListItems(query_list_items(state, start_at, limit))),
        ),
        QueryMsg::VotingPowerAtHeight { address, height } => {
            let question = voting_power_at(&state.voting_module, address, height, env.block.height)?;
            Ok(QueryOutcome::Forward(question))
        },
        QueryMsg::DumpState {} => {
            let dump = query_dump_state(state)?;
            Ok(QueryOutcome::Answer(QueryResponse::DumpState(dump)))
        },
    }
}

} // verus!
