use cosmwasm_std::{
    to_json_binary, Binary, Deps, DepsMut, Empty, MessageInfo as ChainInfo, Response as ChainResponse,
    StdError, StdResult, Uint128, WasmMsg,
};
use cw_governance::addr::Addr;
use cw_governance::contract::{execute, instantiate, query, reply, State};
use cw_governance::error::ContractError;
use cw_governance::msg::{
    Admin, BlockInfo, ContractInfo, Env, ExecuteMsg, InstantiateMsg, MessageInfo,
    ModuleInstantiateInfo, ProposalMsg, QueryMsg, Reply, Response, SubMsgResult,
};
use cw_governance::query::{
    DumpStateResponse, GetItemResponse, QueryOutcome, QueryResponse, VotingPowerAtHeightResponse,
};
use cw_governance::state::{Config, ContractVersion};
use cw_multi_test::{App, Contract, ContractWrapper, Executor};
use cw_utils::parse_instantiate_response_data;

const CREATOR_ADDR: &str = "creator";

/// The address under which the organization acts on the chain.
const GOV_ADDR: &str = "governance";

fn cw20_contract() -> Box<dyn Contract<Empty>> {
    let contract = ContractWrapper::new(
        cw20_base::contract::execute,
        cw20_base::contract::instantiate,
        cw20_base::contract::query,
    );
    Box::new(contract)
}

fn sudo_instantiate(_: DepsMut, _: cosmwasm_std::Env, _: ChainInfo, _: Empty) -> StdResult<ChainResponse> {
    Ok(ChainResponse::new())
}

fn sudo_execute(_: DepsMut, _: cosmwasm_std::Env, _: ChainInfo, _: Empty) -> StdResult<ChainResponse> {
    Ok(ChainResponse::new())
}

fn sudo_query(_: Deps, _: cosmwasm_std::Env, _: Empty) -> StdResult<Binary> {
    to_json_binary(&Empty {})
}

/// A governance module that does what its root tells it. On the chain it
/// only has to exist; what it tells the organization, `module_governs` and
/// `module_acts` tell in its name.
fn sudo_govmod_contract() -> Box<dyn Contract<Empty>> {
    let contract = ContractWrapper::new(sudo_execute, sudo_instantiate, sudo_query);
    Box::new(contract)
}

/// The payload that starts a sudo module with the creator as its root.
fn govmod_instantiate() -> Vec<u8> {
    br#"{"root":"creator"}"#.to_vec()
}

/// A voting module that counts token balances: a token of its own.
fn cw20_balances_voting() -> Box<dyn Contract<Empty>> {
    cw20_contract()
}

/// An organization on a chain: what it keeps, and where it runs.
struct Gov {
    state: State,
    env: Env,
}

fn gov_env(app: &App) -> Env {
    Env {
        block: BlockInfo { height: app.block_info().height },
        contract: ContractInfo { address: Addr::unchecked(GOV_ADDR) },
    }
}

fn sender(addr: &str) -> MessageInfo {
    MessageInfo { sender: Addr::unchecked(addr) }
}

/// Does what a call leaves to the host: brings up each module on the chain
/// and reports to the organization how it went. Stops at the first report
/// that the organization answers with a failure.
fn run_host(app: &mut App, state: &mut State, env: &Env, response: Response) -> Result<(), ContractError> {
    for order in response.instantiations {
        let done = app.execute(
            cosmwasm_std::Addr::unchecked(env.contract.address.as_str()),
            WasmMsg::Instantiate {
                admin: order.msg.admin,
                code_id: order.msg.code_id,
                msg: Binary::from(order.msg.msg),
                funds: vec![],
                label: order.msg.label,
            }
            .into(),
        );
        let result = match done {
            Ok(response) => {
                let data = response.data.unwrap();
                let parsed = parse_instantiate_response_data(data.as_slice()).unwrap();
                SubMsgResult::Instantiated { address: parsed.contract_address }
            }
            Err(e) => {
                let reason = e.root_cause().to_string();
                match e.root_cause().downcast_ref::<StdError>() {
                    Some(StdError::ParseErr { .. }) => SubMsgResult::Malformed { reason },
                    _ => SubMsgResult::Failed { reason },
                }
            }
        };
        let next = reply(state, env, Reply { id: order.id, result })?;
        run_host(app, state, env, next)?;
    }
    Ok(())
}

fn try_instantiate_gov(app: &mut App, msg: InstantiateMsg) -> Result<Gov, ContractError> {
    let env = gov_env(app);
    let (mut state, response) = instantiate(&env, &sender(CREATOR_ADDR), msg)?;
    run_host(app, &mut state, &env, response)?;
    Ok(Gov { state, env })
}

fn instantiate_gov(app: &mut App, msg: InstantiateMsg) -> Gov {
    match try_instantiate_gov(app, msg) {
        Ok(gov) => gov,
        Err(e) => panic!("{}", e.message()),
    }
}

/// A call that `caller` makes on the organization, with the work that it
/// leaves to the host.
fn call(app: &mut App, gov: &mut Gov, caller: &str, msg: ExecuteMsg) -> Result<Response, ContractError> {
    let response = execute(&mut gov.state, &gov.env, &sender(caller), msg)?;
    let messages = Response { instantiations: vec![], messages: response.messages };
    let orders = Response { instantiations: response.instantiations, messages: vec![] };
    run_host(app, &mut gov.state, &gov.env, orders)?;
    Ok(messages)
}

/// A governance module changes the modules of the organization.
fn module_governs(app: &mut App, gov: &mut Gov, module: &Addr, msg: ExecuteMsg) -> Result<(), ContractError> {
    call(app, gov, module.as_str(), msg).map(|_| ())
}

/// A governance module has the organization act on itself: it hands the
/// organization messages addressed to the organization, and the host
/// delivers each in the organization's name.
fn module_acts(app: &mut App, gov: &mut Gov, module: &Addr, msgs: Vec<ExecuteMsg>) -> Result<(), ContractError> {
    let mut table: Vec<Option<ExecuteMsg>> = Vec::new();
    let mut wrapped = Vec::new();
    for msg in msgs {
        wrapped.push(ProposalMsg {
            contract_addr: GOV_ADDR.to_string(),
            msg: vec![table.len() as u8],
        });
        table.push(Some(msg));
    }
    let response = call(
        app,
        gov,
        module.as_str(),
        ExecuteMsg::ExecuteProposalHook { msgs: wrapped },
    )?;
    for message in response.messages {
        assert_eq!(message.contract_addr, GOV_ADDR);
        let msg = table[message.msg[0] as usize].take().unwrap();
        call(app, gov, GOV_ADDR, msg)?;
    }
    Ok(())
}

fn answer(gov: &Gov, msg: QueryMsg) -> QueryResponse {
    match query(&gov.state, &gov.env, msg) {
        Ok(QueryOutcome::Answer(response)) => response,
        other => panic!("no answer: {:?}", other),
    }
}

fn query_modules(gov: &Gov) -> Vec<Addr> {
    match answer(gov, QueryMsg::GovernanceModules { start_at: None, limit: None }) {
        QueryResponse::GovernanceModules(modules) => modules,
        other => panic!("unexpected answer: {:?}", other),
    }
}

fn query_voting_module(gov: &Gov) -> Addr {
    match answer(gov, QueryMsg::VotingModule {}) {
        QueryResponse::VotingModule(module) => module,
        other => panic!("unexpected answer: {:?}", other),
    }
}

fn query_config(gov: &Gov) -> Config {
    match answer(gov, QueryMsg::Config {}) {
        QueryResponse::Config(config) => config,
        other => panic!("unexpected answer: {:?}", other),
    }
}

fn query_dump_state(gov: &Gov) -> DumpStateResponse {
    match answer(gov, QueryMsg::DumpState {}) {
        QueryResponse::DumpState(dump) => dump,
        other => panic!("unexpected answer: {:?}", other),
    }
}

fn cw20_instantiate() -> cw20_base::msg::InstantiateMsg {
    cw20_base::msg::InstantiateMsg {
        name: "DAO".to_string(),
        symbol: "DAO".to_string(),
        decimals: 6,
        initial_balances: vec![],
        mint: None,
        marketing: None,
    }
}

fn payload<T: serde::Serialize>(msg: &T) -> Vec<u8> {
    to_json_binary(msg).unwrap().to_vec()
}

fn test_instantiate_with_n_gov_modules(n: usize) {
    let mut app = App::default();
    let cw20_id = app.store_code(cw20_contract());

    let cw20_instantiate = cw20_instantiate();
    let instantiate = InstantiateMsg {
        name: "DAO DAO".to_string(),
        description: "A DAO that builds DAOs.".to_string(),
        image_url: None,
        voting_module_instantiate_info: ModuleInstantiateInfo {
            code_id: cw20_id,
            msg: payload(&cw20_instantiate),
            admin: Admin::GovernanceContract {},
            label: "voting module".to_string(),
        },
        governance_modules_instantiate_info: (0..n)
            .map(|n| ModuleInstantiateInfo {
                code_id: cw20_id,
                msg: payload(&cw20_instantiate),
                admin: Admin::GovernanceContract {},
                label: format!("governance module {}", n),
            })
            .collect(),
    };
    let gov = instantiate_gov(&mut app, instantiate);

    let state = query_dump_state(&gov);

    assert_eq!(
        state.config,
        Config {
            name: "DAO DAO".to_string(),
            description: "A DAO that builds DAOs.".to_string(),
            image_url: None,
        }
    );

    assert_eq!(
        state.version,
        ContractVersion {
            contract: "crates.io:cw-governance".to_string(),
            version: "0.1.0".to_string()
        }
    );

    assert_eq!(state.governance_modules.len(), n);
}

#[test]
#[should_panic(expected = "Execution would result in no governance modules being present.")]
fn test_instantiate_with_zero_gov_modules() {
    test_instantiate_with_n_gov_modules(0)
}

#[test]
fn test_valid_instantiate() {
    let module_counts = [1, 2, 200];
    for count in module_counts {
        test_instantiate_with_n_gov_modules(count)
    }
}

fn submessage_failure_msg(cw20_id: u64) -> InstantiateMsg {
    let cw20_instantiate = cw20_instantiate();

    let mut governance_modules = (0..3)
        .map(|n| ModuleInstantiateInfo {
            code_id: cw20_id,
            msg: payload(&cw20_instantiate),
            admin: Admin::GovernanceContract {},
            label: format!("governance module {}", n),
        })
        .collect::<Vec<_>>();
    governance_modules.push(ModuleInstantiateInfo {
        code_id: cw20_id,
        msg: payload(&"bad"),
        admin: Admin::GovernanceContract {},
        label: "I have a bad instantiate message".to_string(),
    });
    governance_modules.push(ModuleInstantiateInfo {
        code_id: cw20_id,
        msg: payload(&cw20_instantiate),
        admin: Admin::GovernanceContract {},
        label: "Everybody knowing
that goodness is good
makes wickedness."
            .to_string(),
    });

    InstantiateMsg {
        name: "DAO DAO".to_string(),
        description: "A DAO that builds DAOs.".to_string(),
        image_url: None,
        voting_module_instantiate_info: ModuleInstantiateInfo {
            code_id: cw20_id,
            msg: payload(&cw20_instantiate),
            admin: Admin::GovernanceContract {},
            label: "voting module".to_string(),
        },
        governance_modules_instantiate_info: governance_modules,
    }
}

#[test]
#[should_panic(expected = "Error parsing into type cw20_base::msg::InstantiateMsg: Invalid type")]
fn test_instantiate_with_submessage_failure() {
    let mut app = App::default();
    let cw20_id = app.store_code(cw20_contract());
    instantiate_gov(&mut app, submessage_failure_msg(cw20_id));
}

#[test]
fn malformed_payload_leaves_no_module_in_force() {
    let mut app = App::default();
    let cw20_id = app.store_code(cw20_contract());
    let env = gov_env(&app);
    let (mut state, response) = instantiate(&env, &sender(CREATOR_ADDR), submessage_failure_msg(cw20_id)).unwrap();
    assert_eq!(response.instantiations.len(), 6);
    let err = run_host(&mut app, &mut state, &env, response).unwrap_err();
    assert!(matches!(err, ContractError::MalformedPayload { .. }));
    let gov = Gov { state, env };
    assert_eq!(query_modules(&gov), Vec::<Addr>::new());
    assert_eq!(
        query(&gov.state, &gov.env, QueryMsg::VotingModule {}),
        Err(ContractError::NotEstablished {})
    );
    assert_eq!(
        query(&gov.state, &gov.env, QueryMsg::DumpState {}),
        Err(ContractError::NotEstablished {})
    );
}

/// An organization with one sudo module as its voting module and one as
/// its governance module.
fn sudo_gov(app: &mut App, govmod_id: u64, governance_label: &str) -> Gov {
    let gov_instantiate = InstantiateMsg {
        name: "DAO DAO".to_string(),
        description: "A DAO that builds DAOs.".to_string(),
        image_url: None,
        voting_module_instantiate_info: ModuleInstantiateInfo {
            code_id: govmod_id,
            msg: govmod_instantiate(),
            admin: Admin::GovernanceContract {},
            label: "voting module".to_string(),
        },
        governance_modules_instantiate_info: vec![ModuleInstantiateInfo {
            code_id: govmod_id,
            msg: govmod_instantiate(),
            admin: Admin::GovernanceContract {},
            label: governance_label.to_string(),
        }],
    };
    instantiate_gov(app, gov_instantiate)
}

#[test]
fn test_update_config() {
    let mut app = App::default();
    let govmod_id = app.store_code(sudo_govmod_contract());

    let mut gov = sudo_gov(&mut app, govmod_id, "voting module");

    let modules = query_modules(&gov);

    assert_eq!(modules.len(), 1);

    let expected_config = Config {
        name: "Root DAO".to_string(),
        description: "We love trees and sudo.".to_string(),
        image_url: Some("https://moonphase.is/image.svg".to_string()),
    };

    module_acts(
        &mut app,
        &mut gov,
        &modules[0],
        vec![ExecuteMsg::UpdateConfig { config: expected_config.clone() }],
    )
    .unwrap();

    let config = query_config(&gov);

    assert_eq!(expected_config, config)
}

fn test_swap_governance(swaps: Vec<(u64, u64)>) {
    let mut app = App::default();
    let govmod_id = app.store_code(sudo_govmod_contract());

    let mut gov = sudo_gov(&mut app, govmod_id, "governance module");

    let modules = query_modules(&gov);

    assert_eq!(modules.len(), 1);

    for (add, remove) in swaps {
        let start_modules = query_modules(&gov);

        let to_add: Vec<_> = (0..add)
            .map(|n| ModuleInstantiateInfo {
                code_id: govmod_id,
                msg: govmod_instantiate(),
                admin: Admin::GovernanceContract {},
                label: format!("governance module {}", n),
            })
            .collect();

        let to_remove: Vec<_> = start_modules
            .iter()
            .take(remove as usize)
            .map(|a| a.as_str().to_string())
            .collect();

        let done = module_governs(
            &mut app,
            &mut gov,
            &start_modules[0],
            ExecuteMsg::UpdateGovernanceModules { to_add, to_remove },
        );
        if let Err(e) = done {
            assert_eq!(query_modules(&gov), start_modules);
            panic!("{}", e.message());
        }

        let finish_modules = query_modules(&gov);

        assert_eq!(
            finish_modules.len() as u64,
            start_modules.len() as u64 + add - remove
        );
        for module in start_modules.into_iter().take(remove as usize) {
            assert!(!finish_modules.contains(&module))
        }
    }
}

#[test]
fn test_update_governance() {
    test_swap_governance(vec![(1, 1), (5, 0), (0, 5), (0, 0)])
}

#[test]
#[should_panic(expected = "Execution would result in no governance modules being present.")]
fn test_swap_governance_bad() {
    test_swap_governance(vec![(1, 1), (0, 1)])
}

#[test]
fn test_swap_voting_module() {
    let mut app = App::default();
    let govmod_id = app.store_code(sudo_govmod_contract());

    let mut gov = sudo_gov(&mut app, govmod_id, "governance module");

    let voting_addr = query_voting_module(&gov);

    let modules = query_modules(&gov);

    assert_eq!(modules.len(), 1);

    module_governs(
        &mut app,
        &mut gov,
        &modules[0],
        ExecuteMsg::UpdateVotingModule {
            module: ModuleInstantiateInfo {
                code_id: govmod_id,
                msg: govmod_instantiate(),
                admin: Admin::GovernanceContract {},
                label: "voting module".to_string(),
            },
        },
    )
    .unwrap();

    let new_voting_addr = query_voting_module(&gov);

    assert_ne!(new_voting_addr, voting_addr);
}

fn test_unauthorized(app: &mut App, gov: &mut Gov, msg: ExecuteMsg) {
    let err = call(app, gov, CREATOR_ADDR, msg).unwrap_err();

    assert_eq!(err, ContractError::Unauthorized {});
}

#[test]
fn test_permissions() {
    let mut app = App::default();
    let govmod_id = app.store_code(sudo_govmod_contract());

    let mut gov = sudo_gov(&mut app, govmod_id, "governance module");

    test_unauthorized(
        &mut app,
        &mut gov,
        ExecuteMsg::UpdateVotingModule {
            module: ModuleInstantiateInfo {
                code_id: govmod_id,
                msg: govmod_instantiate(),
                admin: Admin::GovernanceContract {},
                label: "voting module".to_string(),
            },
        },
    );

    test_unauthorized(
        &mut app,
        &mut gov,
        ExecuteMsg::UpdateGovernanceModules { to_add: vec![], to_remove: vec![] },
    );

    test_unauthorized(
        &mut app,
        &mut gov,
        ExecuteMsg::UpdateConfig {
            config: Config {
                name: "Evil config.".to_string(),
                description: "👿".to_string(),
                image_url: None,
            },
        },
    );
}

/// An organization whose voting module counts the balances of a token in
/// which the creator holds 2, and with one sudo module to govern it.
fn voting_gov(app: &mut App) -> Gov {
    let govmod_id = app.store_code(sudo_govmod_contract());
    let voting_id = app.store_code(cw20_balances_voting());

    let voting_instantiate = cw20_base::msg::InstantiateMsg {
        name: "DAO DAO".to_string(),
        symbol: "DAO".to_string(),
        decimals: 6,
        initial_balances: vec![cw20::Cw20Coin {
            address: CREATOR_ADDR.to_string(),
            amount: Uint128::from(2u64),
        }],
        mint: None,
        marketing: None,
    };

    let gov_instantiate = InstantiateMsg {
        name: "DAO DAO".to_string(),
        description: "A DAO that builds DAOs.".to_string(),
        image_url: None,
        voting_module_instantiate_info: ModuleInstantiateInfo {
            code_id: voting_id,
            msg: payload(&voting_instantiate),
            admin: Admin::GovernanceContract {},
            label: "voting module".to_string(),
        },
        governance_modules_instantiate_info: vec![ModuleInstantiateInfo {
            code_id: govmod_id,
            msg: govmod_instantiate(),
            admin: Admin::GovernanceContract {},
            label: "governance module".to_string(),
        }],
    };

    instantiate_gov(app, gov_instantiate)
}

/// Puts a question about voting power to the organization and, for the
/// organization, to the voting module that it names.
fn query_voting_power(app: &App, gov: &Gov, address: &str, height: Option<u64>) -> VotingPowerAtHeightResponse {
    let question = match query(
        &gov.state,
        &gov.env,
        QueryMsg::VotingPowerAtHeight { address: address.to_string(), height },
    ) {
        Ok(QueryOutcome::Forward(question)) => question,
        other => panic!("not passed on: {:?}", other),
    };
    let balance: cw20::BalanceResponse = app
        .wrap()
        .query_wasm_smart(
            question.voting_module.as_str(),
            &cw20::Cw20QueryMsg::Balance { address: question.address.clone() },
        )
        .unwrap();
    let response = VotingPowerAtHeightResponse { power: balance.balance.u128(), height: question.height };
    match question.answer(response) {
        QueryResponse::VotingPowerAtHeight(power) => power,
        other => panic!("unexpected answer: {:?}", other),
    }
}

#[test]
fn test_passthrough_voting_queries() {
    let mut app = App::default();
    let gov = voting_gov(&mut app);

    let creator_voting_power = query_voting_power(&app, &gov, CREATOR_ADDR, None);

    assert_eq!(
        creator_voting_power,
        VotingPowerAtHeightResponse {
            power: Uint128::from(2u64).u128(),
            height: app.block_info().height,
        }
    );
}

fn set_item(app: &mut App, gov: &mut Gov, key: String, addr: String) {
    call(app, gov, GOV_ADDR, ExecuteMsg::SetItem { key, addr }).unwrap();
}

fn remove_item(app: &mut App, gov: &mut Gov, key: String) {
    call(app, gov, GOV_ADDR, ExecuteMsg::RemoveItem { key }).unwrap();
}

fn get_item(gov: &Gov, key: String) -> GetItemResponse {
    match answer(gov, QueryMsg::GetItem { key }) {
        QueryResponse::GetItem(response) => response,
        other => panic!("unexpected answer: {:?}", other),
    }
}

fn list_items(gov: &Gov, start_at: Option<String>, limit: Option<u64>) -> Vec<String> {
    match answer(gov, QueryMsg::ListItems { start_at, limit }) {
        QueryResponse::ListItems(keys) => keys,
        other => panic!("unexpected answer: {:?}", other),
    }
}

#[test]
fn test_add_remove_get() {
    let mut app = App::default();
    let mut gov = voting_gov(&mut app);

    let a = get_item(&gov, "aaaaa".to_string());
    assert_eq!(a, GetItemResponse { item: None });

    set_item(&mut app, &mut gov, "aaaaa".to_string(), "aaaaa".to_string());
    let a = get_item(&gov, "aaaaa".to_string());
    assert_eq!(a, GetItemResponse { item: Some(Addr::unchecked("aaaaa")) });

    remove_item(&mut app, &mut gov, "a".to_string());
    let a = get_item(&gov, "a".to_string());
    assert_eq!(a, GetItemResponse { item: None });

    remove_item(&mut app, &mut gov, "b".to_string());
}

#[test]
fn test_list_items() {
    let mut app = App::default();
    let mut gov = voting_gov(&mut app);

    set_item(&mut app, &mut gov, "foo".to_string(), "foo".to_string());
    set_item(&mut app, &mut gov, "bar".to_string(), "bar".to_string());

    // Keys are listed in ascending order, so the first of them is bar.
    let first_item = list_items(&gov, None, Some(1));
    assert_eq!(first_item.len(), 1);
    assert_eq!(first_item[0], "bar".to_string());

    let no_items = list_items(&gov, None, Some(0));
    assert_eq!(no_items.len(), 0);

    // The listing starts at the key that is given and foo is the last of the
    // keys, so asking for foo with no limit ought to give us a single item.
    let second_item = list_items(&gov, Some("foo".to_string()), None);
    assert_eq!(second_item.len(), 1);
    assert_eq!(second_item[0], "foo".to_string());
}

#[test]
fn items_are_visible_at_once_and_removal_of_absent_key_changes_nothing() {
    let mut app = App::default();
    let mut gov = voting_gov(&mut app);

    set_item(&mut app, &mut gov, "k".to_string(), "v".to_string());
    assert_eq!(get_item(&gov, "k".to_string()).item, Some(Addr::unchecked("v")));
    set_item(&mut app, &mut gov, "k".to_string(), "w".to_string());
    assert_eq!(get_item(&gov, "k".to_string()).item, Some(Addr::unchecked("w")));
    set_item(&mut app, &mut gov, "j".to_string(), "w".to_string());
    assert_eq!(list_items(&gov, None, None), vec!["j".to_string(), "k".to_string()]);

    remove_item(&mut app, &mut gov, "absent".to_string());
    assert_eq!(list_items(&gov, None, None), vec!["j".to_string(), "k".to_string()]);
    remove_item(&mut app, &mut gov, "j".to_string());
    assert_eq!(list_items(&gov, None, None), vec!["k".to_string()]);
    assert_eq!(get_item(&gov, "j".to_string()).item, None);
}

#[test]
fn items_are_for_the_organization_alone() {
    let mut app = App::default();
    let mut gov = voting_gov(&mut app);
    let modules = query_modules(&gov);

    let by_module = call(
        &mut app,
        &mut gov,
        modules[0].as_str(),
        ExecuteMsg::SetItem { key: "k".to_string(), addr: "v".to_string() },
    );
    assert_eq!(by_module, Err(ContractError::Unauthorized {}));
    let by_creator = call(&mut app, &mut gov, CREATOR_ADDR, ExecuteMsg::RemoveItem { key: "k".to_string() });
    assert_eq!(by_creator, Err(ContractError::Unauthorized {}));

    module_acts(
        &mut app,
        &mut gov,
        &modules[0],
        vec![
            ExecuteMsg::SetItem { key: "k".to_string(), addr: "v".to_string() },
            ExecuteMsg::SetItem { key: "l".to_string(), addr: "v".to_string() },
            ExecuteMsg::RemoveItem { key: "k".to_string() },
        ],
    )
    .unwrap();
    assert_eq!(list_items(&gov, None, None), vec!["l".to_string()]);
}

#[test]
fn only_a_governance_module_has_messages_sent() {
    let mut app = App::default();
    let mut gov = voting_gov(&mut app);
    let modules = query_modules(&gov);
    let msgs = || vec![ProposalMsg { contract_addr: "elsewhere".to_string(), msg: vec![1, 2, 3] }];

    let by_creator = execute(
        &mut gov.state,
        &gov.env,
        &sender(CREATOR_ADDR),
        ExecuteMsg::ExecuteProposalHook { msgs: msgs() },
    );
    assert_eq!(by_creator, Err(ContractError::Unauthorized {}));
    let by_itself = execute(
        &mut gov.state,
        &gov.env,
        &sender(GOV_ADDR),
        ExecuteMsg::ExecuteProposalHook { msgs: msgs() },
    );
    assert_eq!(by_itself, Err(ContractError::Unauthorized {}));

    let by_module = execute(
        &mut gov.state,
        &gov.env,
        &sender(modules[0].as_str()),
        ExecuteMsg::ExecuteProposalHook { msgs: msgs() },
    );
    assert_eq!(by_module, Ok(Response { instantiations: vec![], messages: msgs() }));
}

#[test]
fn modules_are_listed_in_descending_order_behind_the_start() {
    let mut app = App::default();
    let govmod_id = app.store_code(sudo_govmod_contract());
    let mut gov = sudo_gov(&mut app, govmod_id, "governance module");
    let first = query_modules(&gov);
    let to_add = (0..3)
        .map(|n| ModuleInstantiateInfo {
            code_id: govmod_id,
            msg: govmod_instantiate(),
            admin: Admin::NoAdmin {},
            label: format!("governance module {}", n),
        })
        .collect();
    module_governs(
        &mut app,
        &mut gov,
        &first[0],
        ExecuteMsg::UpdateGovernanceModules { to_add, to_remove: vec![] },
    )
    .unwrap();

    let all = query_modules(&gov);
    assert_eq!(all.len(), 4);
    let mut sorted: Vec<String> = all.iter().map(|a| a.as_str().to_string()).collect();
    sorted.sort();
    sorted.reverse();
    assert_eq!(all.iter().map(|a| a.as_str().to_string()).collect::<Vec<_>>(), sorted);
    assert!(all.contains(&first[0]));

    let page = |start_at: Option<String>, limit: Option<u64>| match answer(
        &gov,
        QueryMsg::GovernanceModules { start_at, limit },
    ) {
        QueryResponse::GovernanceModules(modules) => modules,
        other => panic!("unexpected answer: {:?}", other),
    };
    assert_eq!(page(None, Some(0)), Vec::<Addr>::new());
    assert_eq!(page(None, Some(2)), all[..2].to_vec());
    assert_eq!(page(Some(all[1].as_str().to_string()), Some(1)), all[2..3].to_vec());
    assert_eq!(page(Some(all[1].as_str().to_string()), None), all[2..].to_vec());
    assert_eq!(page(Some(all[3].as_str().to_string()), None), Vec::<Addr>::new());
    assert_eq!(page(None, Some(10)), all);

    let dump = query_dump_state(&gov);
    assert_eq!(dump.governance_modules, all);
    assert_eq!(dump.voting_module, query_voting_module(&gov));
}

#[test]
fn voting_power_goes_to_the_module_in_force() {
    let mut app = App::default();
    let mut gov = voting_gov(&mut app);
    let voting_id = app.store_code(cw20_balances_voting());
    let old_module = query_voting_module(&gov);
    assert_eq!(query_voting_power(&app, &gov, CREATOR_ADDR, None).power, 2);
    assert_eq!(
        query_voting_power(&app, &gov, CREATOR_ADDR, Some(7)),
        VotingPowerAtHeightResponse { power: 2, height: 7 }
    );

    let new_token = cw20_base::msg::InstantiateMsg {
        name: "DAO DAO".to_string(),
        symbol: "DAO".to_string(),
        decimals: 6,
        initial_balances: vec![cw20::Cw20Coin {
            address: CREATOR_ADDR.to_string(),
            amount: Uint128::from(5u64),
        }],
        mint: None,
        marketing: None,
    };
    let modules = query_modules(&gov);
    module_governs(
        &mut app,
        &mut gov,
        &modules[0],
        ExecuteMsg::UpdateVotingModule {
            module: ModuleInstantiateInfo {
                code_id: voting_id,
                msg: payload(&new_token),
                admin: Admin::Address { addr: CREATOR_ADDR.to_string() },
                label: "voting module".to_string(),
            },
        },
    )
    .unwrap();

    assert_ne!(query_voting_module(&gov), old_module);
    assert_eq!(query_voting_power(&app, &gov, CREATOR_ADDR, None).power, 5);
    assert_eq!(query_modules(&gov), modules);
}

#[test]
fn old_voting_module_answers_until_the_new_one_is_up() {
    let mut app = App::default();
    let mut gov = voting_gov(&mut app);
    let old_module = query_voting_module(&gov);
    let modules = query_modules(&gov);

    let response = execute(
        &mut gov.state,
        &gov.env,
        &sender(modules[0].as_str()),
        ExecuteMsg::UpdateVotingModule {
            module: ModuleInstantiateInfo {
                code_id: 1,
                msg: govmod_instantiate(),
                admin: Admin::GovernanceContract {},
                label: "voting module".to_string(),
            },
        },
    )
    .unwrap();
    assert_eq!(response.instantiations.len(), 1);
    assert_eq!(response.instantiations[0].id, 0);
    assert_eq!(response.instantiations[0].msg.admin, Some(GOV_ADDR.to_string()));
    assert_eq!(response.instantiations[0].msg.code_id, 1);
    assert_eq!(response.instantiations[0].msg.msg, govmod_instantiate());
    assert_eq!(response.instantiations[0].msg.label, "voting module");
    assert_eq!(query_voting_module(&gov), old_module);
    assert_eq!(query_voting_power(&app, &gov, CREATOR_ADDR, None).power, 2);

    // While the report is out no other change of modules is taken.
    let second = execute(
        &mut gov.state,
        &gov.env,
        &sender(modules[0].as_str()),
        ExecuteMsg::UpdateGovernanceModules { to_add: vec![], to_remove: vec![] },
    );
    assert_eq!(second, Err(ContractError::OperationPending {}));
    assert_eq!(query_voting_module(&gov), old_module);

    // A report that nothing waits for changes nothing.
    let stray = reply(
        &mut gov.state,
        &gov.env,
        Reply { id: 7, result: SubMsgResult::Instantiated { address: "stray".to_string() } },
    );
    assert_eq!(stray, Err(ContractError::UnknownReply { id: 7 }));
    assert_eq!(query_voting_module(&gov), old_module);

    let done = reply(
        &mut gov.state,
        &gov.env,
        Reply { id: 0, result: SubMsgResult::Instantiated { address: "new voting".to_string() } },
    );
    assert_eq!(done, Ok(Response { instantiations: vec![], messages: vec![] }));
    assert_eq!(query_voting_module(&gov), Addr::unchecked("new voting"));
}

#[test]
fn failed_swap_keeps_the_modules_in_force() {
    let mut app = App::default();
    let govmod_id = app.store_code(sudo_govmod_contract());
    let cw20_id = app.store_code(cw20_contract());
    let mut gov = sudo_gov(&mut app, govmod_id, "governance module");
    let modules = query_modules(&gov);
    let voting = query_voting_module(&gov);

    // The second of the new modules asks for more decimals than its
    // template allows.
    let mut too_precise = cw20_instantiate();
    too_precise.decimals = 19;
    let to_add = vec![
        ModuleInstantiateInfo {
            code_id: govmod_id,
            msg: govmod_instantiate(),
            admin: Admin::GovernanceContract {},
            label: "governance module 0".to_string(),
        },
        ModuleInstantiateInfo {
            code_id: cw20_id,
            msg: payload(&too_precise),
            admin: Admin::GovernanceContract {},
            label: "governance module 1".to_string(),
        },
    ];
    let failed = module_governs(
        &mut app,
        &mut gov,
        &modules[0],
        ExecuteMsg::UpdateGovernanceModules {
            to_add,
            to_remove: vec![modules[0].as_str().to_string()],
        },
    );
    assert_eq!(
        failed,
        Err(ContractError::SubInstantiationFailure {
            reason: "Generic error: Decimals must not exceed 18".to_string()
        })
    );
    assert_eq!(query_modules(&gov), modules);
    assert_eq!(query_voting_module(&gov), voting);

    // Nothing is pending after the failure: the next change is taken.
    module_governs(
        &mut app,
        &mut gov,
        &modules[0],
        ExecuteMsg::UpdateGovernanceModules {
            to_add: vec![ModuleInstantiateInfo {
                code_id: govmod_id,
                msg: govmod_instantiate(),
                admin: Admin::GovernanceContract {},
                label: "governance module 0".to_string(),
            }],
            to_remove: vec![modules[0].as_str().to_string()],
        },
    )
    .unwrap();
    let swapped = query_modules(&gov);
    assert_eq!(swapped.len(), 1);
    assert_ne!(swapped, modules);
}

#[test]
fn reports_may_come_in_any_order() {
    let env = Env {
        block: BlockInfo { height: 1 },
        contract: ContractInfo { address: Addr::unchecked(GOV_ADDR) },
    };
    let info = |label: &str| ModuleInstantiateInfo {
        code_id: 9,
        msg: vec![],
        admin: Admin::NoAdmin {},
        label: label.to_string(),
    };
    let msg = || InstantiateMsg {
        name: "DAO DAO".to_string(),
        description: "A DAO that builds DAOs.".to_string(),
        image_url: Some("https://moonphase.is/image.svg".to_string()),
        voting_module_instantiate_info: info("voting module"),
        governance_modules_instantiate_info: vec![info("a"), info("b")],
    };
    let up = |id: u64, address: &str| Reply {
        id,
        result: SubMsgResult::Instantiated { address: address.to_string() },
    };

    let (mut forward, orders) = instantiate(&env, &sender(CREATOR_ADDR), msg()).unwrap();
    assert_eq!(orders.instantiations.iter().map(|o| o.id).collect::<Vec<_>>(), vec![0, 1, 2]);
    assert_eq!(
        orders.instantiations.iter().map(|o| o.msg.label.clone()).collect::<Vec<_>>(),
        vec!["voting module".to_string(), "a".to_string(), "b".to_string()]
    );
    assert!(orders.instantiations.iter().all(|o| o.msg.admin.is_none()));
    for (id, address) in [(0, "v"), (1, "x"), (2, "y")] {
        reply(&mut forward, &env, up(id, address)).unwrap();
    }
    let (mut backward, _) = instantiate(&env, &sender(CREATOR_ADDR), msg()).unwrap();
    for (id, address) in [(2, "y"), (1, "x")] {
        reply(&mut backward, &env, up(id, address)).unwrap();
        assert_eq!(
            query(&backward, &env, QueryMsg::GovernanceModules { start_at: None, limit: None }),
            Ok(QueryOutcome::Answer(QueryResponse::GovernanceModules(vec![])))
        );
    }
    reply(&mut backward, &env, up(0, "v")).unwrap();

    let dump = |state: &State| match query(state, &env, QueryMsg::DumpState {}) {
        Ok(QueryOutcome::Answer(QueryResponse::DumpState(dump))) => dump,
        other => panic!("unexpected answer: {:?}", other),
    };
    assert_eq!(dump(&forward), dump(&backward));
    assert_eq!(
        dump(&forward),
        DumpStateResponse {
            config: Config {
                name: "DAO DAO".to_string(),
                description: "A DAO that builds DAOs.".to_string(),
                image_url: Some("https://moonphase.is/image.svg".to_string()),
            },
            version: ContractVersion {
                contract: "crates.io:cw-governance".to_string(),
                version: "0.1.0".to_string(),
            },
            governance_modules: vec![Addr::unchecked("y"), Addr::unchecked("x")],
            voting_module: Addr::unchecked("v"),
        }
    );
}

#[test]
fn every_failure_has_its_message() {
    assert_eq!(ContractError::Unauthorized {}.message(), "Unauthorized.");
    assert_eq!(
        ContractError::InvariantViolation {}.message(),
        "Execution would result in no governance modules being present."
    );
    assert_eq!(
        ContractError::SubInstantiationFailure { reason: "out of gas".to_string() }.message(),
        "out of gas"
    );
    assert_eq!(
        ContractError::MalformedPayload { reason: "Invalid type".to_string() }.message(),
        "Invalid type"
    );
    assert_ne!(ContractError::UnknownReply { id: 3 }.message(), "");
    assert_ne!(ContractError::OperationPending {}.message(), "");
    assert_ne!(ContractError::NotEstablished {}.message(), "");
}
