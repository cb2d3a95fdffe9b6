//! What holds of the organization whatever it is asked: laws that relate
//! its calls, questions and replies to one another, each proved from the
//! descriptions that the functions of the library are verified against.

use crate::addr::{address_of, addresses, named};
use crate::contract::{config_of, initial, initial_batch, swap_batch, StateView};
use crate::error::ContractError;
use crate::msg::{
    messages, Env, ExecuteMsg, InstantiateMsg, MessageInfo, ModuleInstantiateInfo, ProposalMsg,
    QueryMsg, Reply, ResponseView, SubMsgResult,
};
use crate::order::{lemma_str_lt_asymmetric, lemma_str_lt_irreflexive, lemma_str_lt_total};
use crate::ordered_map::{eligible, is_page, precedes};
use crate::query::{QueryOutcome, QueryResponse};
use crate::replies::{orders_of, DispatcherView};
use crate::state::Config;
use vstd::prelude::*;

verus! {

proof fn lemma_precedes_strict(a: Seq<char>, b: Seq<char>, descending: bool)
    ensures
        !precedes(a, a, descending),
        !(precedes(a, b, descending) && precedes(b, a, descending)),
        a == b || precedes(a, b, descending) || precedes(b, a, descending),
{
    lemma_str_lt_irreflexive(a);
    lemma_str_lt_asymmetric(a, b);
    lemma_str_lt_total(a, b);
}

/// No key occurs twice in a page.
pub proof fn lemma_page_no_duplicates(
    page: Seq<Seq<char>>,
    keys: Set<Seq<char>>,
    start: Option<Seq<char>>,
    inclusive: bool,
    limit: Option<u64>,
    descending: bool,
)
    requires
        is_page(page, keys, start, inclusive, limit, descending),
    ensures
        page.no_duplicates(),
{
    assert forall|i: int, j: int| 0 <= i < page.len() && 0 <= j < page.len() && i != j implies page[i]
        != page[j] by {
        lemma_precedes_strict(page[i], page[j], descending);
        if i < j {
            assert(precedes(page[i], page[j], descending));
        } else {
            assert(precedes(page[j], page[i], descending));
        }
    }
}

proof fn lemma_pages_cannot_part(
    p: Seq<Seq<char>>,
    q: Seq<Seq<char>>,
    keys: Set<Seq<char>>,
    start: Option<Seq<char>>,
    inclusive: bool,
    limit: Option<u64>,
    descending: bool,
    i: int,
)
    requires
        is_page(p, keys, start, inclusive, limit, descending),
        is_page(q, keys, start, inclusive, limit, descending),
        0 <= i < p.len(),
        i < q.len(),
        forall|j: int| 0 <= j < i ==> p[j] == q[j],
    ensures
        !precedes(p[i], q[i], descending),
{
    let x = p[i];
    if precedes(x, q[i], descending) {
        assert(eligible(keys, start, inclusive, descending, x));
        assert forall|j: int| 0 <= j < q.len() implies q[j] != x by {
            lemma_precedes_strict(x, q[i], descending);
            if j < i {
                assert(precedes(p[j], p[i], descending));
            } else if j > i {
                assert(precedes(q[i], q[j], descending));
            }
        }
        assert(!q.contains(x));
        assert(precedes(q[i], x, descending));
        lemma_precedes_strict(x, q[i], descending);
    }
}

proof fn lemma_pages_agree(
    p: Seq<Seq<char>>,
    q: Seq<Seq<char>>,
    keys: Set<Seq<char>>,
    start: Option<Seq<char>>,
    inclusive: bool,
    limit: Option<u64>,
    descending: bool,
    i: int,
)
    requires
        is_page(p, keys, start, inclusive, limit, descending),
        is_page(q, keys, start, inclusive, limit, descending),
        0 <= i <= p.len(),
        i <= q.len(),
    ensures
        forall|j: int| 0 <= j < i ==> p[j] == q[j],
    decreases i,
{
    if i > 0 {
        lemma_pages_agree(p, q, keys, start, inclusive, limit, descending, i - 1);
        lemma_precedes_strict(p[i - 1], q[i - 1], descending);
        lemma_pages_cannot_part(p, q, keys, start, inclusive, limit, descending, i - 1);
        lemma_pages_cannot_part(q, p, keys, start, inclusive, limit, descending, i - 1);
    }
}

proof fn lemma_page_not_shorter(
    p: Seq<Seq<char>>,
    q: Seq<Seq<char>>,
    keys: Set<Seq<char>>,
    start: Option<Seq<char>>,
    inclusive: bool,
    limit: Option<u64>,
    descending: bool,
)
    requires
        is_page(p, keys, start, inclusive, limit, descending),
        is_page(q, keys, start, inclusive, limit, descending),
    ensures
        p.len() >= q.len(),
{
    if p.len() < q.len() {
        let k = p.len() as int;
        lemma_pages_agree(p, q, keys, start, inclusive, limit, descending, k);
        let x = q[k];
        assert(eligible(keys, start, inclusive, descending, x));
        assert forall|j: int| 0 <= j < p.len() implies p[j] != x by {
            lemma_precedes_strict(q[j], x, descending);
            assert(precedes(q[j], q[k], descending));
        }
        assert(!p.contains(x));
    }
}

/// A listing is determined by what is listed, where it starts, how long it
/// may be and the direction: two pages for the same question are the same
/// page.
pub proof fn law_page_is_unique(
    p: Seq<Seq<char>>,
    q: Seq<Seq<char>>,
    keys: Set<Seq<char>>,
    start: Option<Seq<char>>,
    inclusive: bool,
    limit: Option<u64>,
    descending: bool,
)
    requires
        is_page(p, keys, start, inclusive, limit, descending),
        is_page(q, keys, start, inclusive, limit, descending),
    ensures
        p == q,
{
    lemma_page_not_shorter(p, q, keys, start, inclusive, limit, descending);
    lemma_page_not_shorter(q, p, keys, start, inclusive, limit, descending);
    lemma_pages_agree(p, q, keys, start, inclusive, limit, descending, p.len() as int);
    assert(p =~= q);
}

/// A listing with the limit 0 is empty.
pub proof fn law_page_with_limit_zero_is_empty(
    page: Seq<Seq<char>>,
    keys: Set<Seq<char>>,
    start: Option<Seq<char>>,
    inclusive: bool,
    descending: bool,
)
    requires
        is_page(page, keys, start, inclusive, Some(0u64), descending),
    ensures
        page.len() == 0,
{
}

/// A listing from the start holds as many keys as there are, or as many as
/// the limit allows, whichever is less; without a limit it holds every key
/// once.
pub proof fn law_page_length(
    page: Seq<Seq<char>>,
    keys: Set<Seq<char>>,
    inclusive: bool,
    limit: Option<u64>,
    descending: bool,
)
    requires
        keys.finite(),
        is_page(page, keys, None, inclusive, limit, descending),
    ensures
        page.len() == (match limit {
            Some(n) => if n < keys.len() {
                n as nat
            } else {
                keys.len()
            },
            None => keys.len(),
        }),
        limit is None ==> page.to_set() == keys,
{
    lemma_page_no_duplicates(page, keys, None, inclusive, limit, descending);
    page.unique_seq_to_set();
    assert forall|k: Seq<char>| page.to_set().contains(k) implies keys.contains(k) by {
        let i = choose|i: int| 0 <= i < page.len() && page[i] == k;
        assert(eligible(keys, None, inclusive, descending, page[i]));
    }
    assert(page.to_set().subset_of(keys));
    vstd::set_lib::lemma_len_subset(page.to_set(), keys);
    if !(limit matches Some(n) && n == page.len()) {
        assert forall|k: Seq<char>| keys.contains(k) implies page.to_set().contains(k) by {
            assert(eligible(keys, None, inclusive, descending, k));
            assert(page.contains(k));
        }
        assert(page.to_set() =~= keys);
    }
}

/// A listing that takes its start in, and starts at a key that is there,
/// begins with that key, unless its limit is 0.
pub proof fn law_page_begins_with_its_start(
    page: Seq<Seq<char>>,
    keys: Set<Seq<char>>,
    start: Seq<char>,
    limit: Option<u64>,
    descending: bool,
)
    requires
        is_page(page, keys, Some(start), true, limit, descending),
        keys.contains(start),
        limit != Some(0u64),
    ensures
        page.len() > 0,
        page[0] == start,
{
    assert(eligible(keys, Some(start), true, descending, start));
    if page.len() > 0 {
        assert(eligible(keys, Some(start), true, descending, page[0]));
        lemma_precedes_strict(page[0], start, descending);
        if page.contains(start) {
            let i = choose|i: int| 0 <= i < page.len() && page[i] == start;
            if i > 0 {
                assert(precedes(page[0], page[i], descending));
            }
        }
    }
}

/// A listing that leaves its start out holds no key that is the start.
pub proof fn law_page_behind_its_start_leaves_it_out(
    page: Seq<Seq<char>>,
    keys: Set<Seq<char>>,
    start: Seq<char>,
    limit: Option<u64>,
    descending: bool,
)
    requires
        is_page(page, keys, Some(start), false, limit, descending),
    ensures
        !page.contains(start),
{
    if page.contains(start) {
        let i = choose|i: int| 0 <= i < page.len() && page[i] == start;
        assert(eligible(keys, Some(start), false, descending, page[i]));
        lemma_precedes_strict(start, start, descending);
    }
}

/// The organization after the host has reported on one order after
/// another, whatever came of each report.
pub open spec fn after_replies(state: StateView, replies: Seq<Reply>) -> StateView
    decreases replies.len(),
{
    if replies.len() == 0 {
        state
    } else {
        after_replies(state.reply(replies[0]).0, replies.drop_first())
    }
}

/// The address that a report names, where it reports success.
pub open spec fn reported(reply: Reply) -> Seq<char> {
    match reply.result {
        SubMsgResult::Instantiated { address } => address@,
        _ => Seq::empty(),
    }
}

/// The addresses that a run of reports names, one for one.
pub open spec fn all_reported(replies: Seq<Reply>) -> Seq<Seq<char>> {
    Seq::new(replies.len(), |i: int| reported(replies[i]))
}

/// The reports say, in the order in which the orders went out, that each
/// of the orders `first`, `first + 1`, ... got its module up.
pub open spec fn successes_from(replies: Seq<Reply>, first: int) -> bool {
    forall|i: int|
        0 <= i < replies.len() ==> (#[trigger] replies[i]).id == first + i
            && replies[i].result is Instantiated
}

/// The organization has its modules: a voting module, and a finite set of
/// governance modules that is not empty.
pub open spec fn established(state: StateView) -> bool {
    &&& state.voting_module is Some
    &&& state.governance_modules.finite()
    &&& !state.governance_modules.is_empty()
}

/// Reports on the governance modules of a call, in the order of the orders,
/// put the modules in force together with the set that the call held back.
proof fn lemma_governance_run(state: StateView, replies: Seq<Reply>, first: int, end: int)
    requires
        0 <= first < end <= u64::MAX + 1,
        forall|id: u64| state.replies.pending.contains_key(id) <==> first <= id < end,
        forall|id: u64|
            first <= id < end ==> !(#[trigger] state.replies.pending[id]).purpose.for_voting(),
        state.replies.prospective_modules is Some,
        replies.len() == end - first,
        successes_from(replies, first),
    ensures
        after_replies(state, replies) == (StateView {
            governance_modules: state.replies.prospective_modules->0.union(
                all_reported(replies).to_set(),
            ),
            voting_module: match state.replies.prospective_voting {
                Some(module) => Some(module),
                None => state.voting_module,
            },
            replies: DispatcherView::idle(),
            ..state
        }),
    decreases end - first,
{
    let held = state.replies.prospective_modules->0;
    let reply = replies[0];
    let id = first as u64;
    assert(reply.id == id);
    assert(state.replies.pending.contains_key(id));
    let address = reported(reply);
    let recorded = state.replies.record(id, address);
    assert(recorded.prospective_modules == Some(held.insert(address)));
    let rest = replies.drop_first();
    let next = state.reply(reply).0;
    assert forall|k: u64| recorded.pending.contains_key(k) <==> first + 1 <= k < end by {}
    if end - first == 1 {
        assert(recorded.pending.dom() =~= Set::empty());
        assert(!recorded.busy());
        assert(held.insert(address).contains(address));
        assert(!held.insert(address).is_empty());
        assert(rest.len() == 0);
        assert(after_replies(next, rest) == next);
        assert(all_reported(replies).to_set() =~= Set::empty().insert(address)) by {
            assert(all_reported(replies)[0] == address);
            assert forall|a: Seq<char>| all_reported(replies).to_set().contains(a) implies a
                == address by {
                let i = choose|i: int|
                    0 <= i < all_reported(replies).len() && all_reported(replies)[i] == a;
            }
        }
        assert(held.insert(address) =~= held.union(all_reported(replies).to_set()));
    } else {
        assert(recorded.pending.contains_key((first + 1) as u64));
        assert(recorded.busy());
        assert(next == StateView { replies: recorded, ..state });
        assert(successes_from(rest, first + 1)) by {
            assert forall|i: int| 0 <= i < rest.len() implies (#[trigger] rest[i]).id == first + 1
                + i && rest[i].result is Instantiated by {
                assert(rest[i] == replies[i + 1]);
            }
        }
        lemma_governance_run(next, rest, first + 1, end);
        assert(held.insert(address).union(all_reported(rest).to_set()) =~= held.union(
            all_reported(replies).to_set(),
        )) by {
            assert forall|a: Seq<char>|
                all_reported(replies).to_set().contains(a) <==> (a == address || all_reported(
                    rest,
                ).to_set().contains(a)) by {
                assert(all_reported(replies)[0] == address);
                if all_reported(replies).to_set().contains(a) {
                    let i = choose|i: int|
                        0 <= i < all_reported(replies).len() && all_reported(replies)[i] == a;
                    if i > 0 {
                        assert(all_reported(rest)[i - 1] == a);
                    }
                }
                if all_reported(rest).to_set().contains(a) {
                    let i = choose|i: int|
                        0 <= i < all_reported(rest).len() && all_reported(rest)[i] == a;
                    assert(all_reported(replies)[i + 1] == a);
                }
            }
        }
    }
}

/// Setting an organization up without a governance module fails, and
/// nothing is ordered.
pub proof fn law_instantiate_without_modules_fails(env: Env, msg: InstantiateMsg)
    requires
        msg.governance_modules_instantiate_info@.len() == 0,
    ensures
        initial(env, msg) == Err::<(StateView, ResponseView), ContractError>(
            ContractError::InvariantViolation {},
        ),
{
}

/// Setting an organization up with one governance module or more orders one
/// module more than there are governance modules. When all of them are up,
/// at addresses of which those of the governance modules differ from one
/// another, the organization has as many governance modules as the message
/// asked for, at the reported addresses; its voting module is the first
/// that was reported; and its configuration is that of the message.
pub proof fn law_instantiate_establishes(env: Env, msg: InstantiateMsg, replies: Seq<Reply>)
    requires
        msg.governance_modules_instantiate_info@.len() >= 1,
        replies.len() == msg.governance_modules_instantiate_info@.len() + 1,
        successes_from(replies, 0),
        all_reported(replies).drop_first().no_duplicates(),
    ensures
        initial(env, msg) is Ok,
        initial(env, msg)->Ok_0.1.instantiations.len() == replies.len(),
        ({
            let state = after_replies(initial(env, msg)->Ok_0.0, replies);
            &&& state.config == config_of(msg)
            &&& state.governance_modules == all_reported(replies).drop_first().to_set()
            &&& state.governance_modules.len() == msg.governance_modules_instantiate_info@.len()
            &&& state.voting_module == Some(reported(replies[0]))
            &&& state.items == Map::<Seq<char>, Seq<char>>::empty()
            &&& !state.replies.busy()
            &&& established(state)
        }),
{
    let count = msg.governance_modules_instantiate_info@.len();
    assert(count == msg.governance_modules_instantiate_info.len());
    let batch = initial_batch(msg);
    assert(batch.len() == count + 1);
    let start = initial(env, msg)->Ok_0.0;
    let first = replies[0];
    assert(first.id == 0);
    assert(start.replies.pending.contains_key(0u64));
    assert(batch[0].purpose.for_voting());
    let recorded = start.replies.record(0u64, reported(first));
    assert(recorded.pending.contains_key(1u64));
    assert(recorded.busy());
    let next = start.reply(first).0;
    assert(next == StateView { replies: recorded, ..start });
    let rest = replies.drop_first();
    assert(successes_from(rest, 1)) by {
        assert forall|i: int| 0 <= i < rest.len() implies (#[trigger] rest[i]).id == 1 + i
            && rest[i].result is Instantiated by {
            assert(rest[i] == replies[i + 1]);
        }
    }
    assert forall|id: u64| 1 <= id < count + 1 implies !(#[trigger] next.replies.pending[id]).purpose.for_voting() by {
        assert(batch[id as int].purpose is InitialGovernance);
    }
    lemma_governance_run(next, rest, 1, count as int + 1);
    assert(all_reported(rest) =~= all_reported(replies).drop_first());
    let modules = all_reported(rest);
    assert(Set::<Seq<char>>::empty().union(modules.to_set()) =~= modules.to_set());
    modules.unique_seq_to_set();
    vstd::seq_lib::seq_to_set_is_finite(modules);
    assert(modules.to_set().contains(modules[0]));
}

/// While the first modules are being brought up no governance module is in
/// force; and once a report meets no pending order, no later one does.
proof fn lemma_nothing_in_force_before_the_end(state: StateView, replies: Seq<Reply>)
    requires
        state.replies.busy() ==> state.governance_modules == Set::<Seq<char>>::empty()
            && state.voting_module is None,
    ensures
        after_replies(state, replies).replies.busy() ==> after_replies(
            state,
            replies,
        ).governance_modules == Set::<Seq<char>>::empty() && after_replies(
            state,
            replies,
        ).voting_module is None,
    decreases replies.len(),
{
    if replies.len() > 0 {
        let next = state.reply(replies[0]).0;
        if !state.replies.busy() {
            assert(state.replies.pending.dom() =~= Set::empty());
            assert(!state.replies.pending.contains_key(replies[0].id));
            assert(next == state);
        }
        lemma_nothing_in_force_before_the_end(next, replies.drop_first());
    }
}

/// When the host fails to bring up one of the first modules, whichever it
/// is and whatever was reported before, setting the organization up has
/// failed for the reason that the host gives: no governance module and no
/// voting module is in force afterwards, and nothing is pending.
pub proof fn law_failed_instantiation_registers_nothing(
    env: Env,
    msg: InstantiateMsg,
    earlier: Seq<Reply>,
    failure: Reply,
)
    requires
        initial(env, msg) is Ok,
        !(failure.result is Instantiated),
        after_replies(initial(env, msg)->Ok_0.0, earlier).replies.pending.contains_key(failure.id),
    ensures
        ({
            let (state, result) = after_replies(initial(env, msg)->Ok_0.0, earlier).reply(failure);
            &&& result == (match failure.result {
                SubMsgResult::Malformed { reason } => Err::<ResponseView, ContractError>(
                    ContractError::MalformedPayload { reason },
                ),
                SubMsgResult::Failed { reason } => Err::<ResponseView, ContractError>(
                    ContractError::SubInstantiationFailure { reason },
                ),
                SubMsgResult::Instantiated { .. } => result,
            })
            &&& state.governance_modules == Set::<Seq<char>>::empty()
            &&& state.voting_module is None
            &&& state.replies == DispatcherView::idle()
        }),
{
    let start = initial(env, msg)->Ok_0.0;
    lemma_nothing_in_force_before_the_end(start, earlier);
    let before = after_replies(start, earlier);
    assert(before.replies.busy()) by {
        assert(before.replies.pending.dom().contains(failure.id));
    }
}

/// A failure that the host reports ends the call that gave the order, and
/// leaves in force what was in force before the call: the governance
/// modules, the voting module, the configuration and the items.
pub proof fn law_failed_reply_changes_nothing_in_force(state: StateView, failure: Reply)
    requires
        !(failure.result is Instantiated),
    ensures
        state.reply(failure).1 is Err,
        state.reply(failure).0.governance_modules == state.governance_modules,
        state.reply(failure).0.voting_module == state.voting_module,
        state.reply(failure).0.config == state.config,
        state.reply(failure).0.items == state.items,
        state.replies.pending.contains_key(failure.id) ==> state.reply(failure).0.replies
            == DispatcherView::idle(),
{
}

/// Only the organization itself may replace its configuration. When it
/// does, the new configuration is the one that is reported from then on.
pub proof fn law_update_config(state: StateView, env: Env, info: MessageInfo, config: Config)
    ensures
        info.sender@ != env.contract.address@ ==> state.execute(
            env,
            info,
            ExecuteMsg::UpdateConfig { config },
        ) == (state, Err::<ResponseView, ContractError>(ContractError::Unauthorized {})),
        info.sender@ == env.contract.address@ ==> ({
            let (next, result) = state.execute(env, info, ExecuteMsg::UpdateConfig { config });
            &&& result == Ok::<ResponseView, ContractError>(ResponseView::nothing())
            &&& next.config == config@
            &&& forall|outcome: Result<QueryOutcome, ContractError>| #[trigger]
                next.answers(env, QueryMsg::Config {}, outcome) ==> (outcome matches Ok(
                    QueryOutcome::Answer(QueryResponse::Config(c)),
                ) && c@ == config@)
        }),
{
}

/// A governance module reaches what only the organization may do by way of
/// the organization: it has the organization send a message to itself. The
/// organization hands the messages of a registered module to its host as
/// they are, and changes nothing; the call that the host then makes in the
/// organization's name replaces the configuration.
pub proof fn law_module_acts_through_the_organization(
    state: StateView,
    env: Env,
    module: MessageInfo,
    msgs: Vec<ProposalMsg>,
    organization: MessageInfo,
    config: Config,
)
    requires
        state.governance_modules.contains(module.sender@),
        organization.sender@ == env.contract.address@,
    ensures
        state.execute(env, module, ExecuteMsg::ExecuteProposalHook { msgs }) == (
            state,
            Ok::<ResponseView, ContractError>(
                ResponseView { instantiations: Seq::empty(), messages: messages(msgs@) },
            ),
        ),
        state.execute(env, organization, ExecuteMsg::UpdateConfig { config }).1 is Ok,
        state.execute(env, organization, ExecuteMsg::UpdateConfig { config }).0.config == config@,
{
}

/// What is no governance module can neither have messages sent, nor
/// replace the voting module, nor change the governance modules.
pub proof fn law_only_modules_govern(state: StateView, env: Env, info: MessageInfo, msg: ExecuteMsg)
    requires
        !state.governance_modules.contains(info.sender@),
        msg is ExecuteProposalHook || msg is UpdateVotingModule || msg is UpdateGovernanceModules,
    ensures
        state.execute(env, info, msg) == (
            state,
            Err::<ResponseView, ContractError>(ContractError::Unauthorized {}),
        ),
{
}

/// What is not the organization itself can neither replace the
/// configuration nor change the items, be it a governance module or not.
pub proof fn law_only_the_organization_keeps_house(
    state: StateView,
    env: Env,
    info: MessageInfo,
    msg: ExecuteMsg,
)
    requires
        info.sender@ != env.contract.address@,
        msg is UpdateConfig || msg is SetItem || msg is RemoveItem,
    ensures
        state.execute(env, info, msg) == (
            state,
            Err::<ResponseView, ContractError>(ContractError::Unauthorized {}),
        ),
{
}

/// A call that fails leaves the organization as it was.
pub proof fn law_failed_call_changes_nothing(
    state: StateView,
    env: Env,
    info: MessageInfo,
    msg: ExecuteMsg,
)
    requires
        state.execute(env, info, msg).1 is Err,
    ensures
        state.execute(env, info, msg).0 == state,
{
}

/// Removing governance modules without adding any takes force at once and
/// leaves the modules that were not named, unless none is left: then the
/// call fails and every module that was in force stays in force.
pub proof fn law_removal_keeps_a_module(
    state: StateView,
    env: Env,
    info: MessageInfo,
    to_add: Vec<ModuleInstantiateInfo>,
    to_remove: Vec<String>,
)
    requires
        state.governance_modules.contains(info.sender@),
        !state.replies.busy(),
        to_add@.len() == 0,
    ensures
        ({
            let msg = ExecuteMsg::UpdateGovernanceModules { to_add, to_remove };
            let rest = state.governance_modules.difference(named(to_remove@));
            &&& rest.is_empty() ==> state.execute(env, info, msg) == (
                state,
                Err::<ResponseView, ContractError>(ContractError::InvariantViolation {}),
            )
            &&& !rest.is_empty() ==> state.execute(env, info, msg) == (
                StateView { governance_modules: rest, ..state },
                Ok::<ResponseView, ContractError>(ResponseView::nothing()),
            )
            &&& forall|a: Seq<char>| named(to_remove@).contains(a) ==> !rest.contains(a)
        }),
{
}

/// Adding governance modules, with or without removals, changes nothing in
/// force until the new modules are up. When all of them are up the modules
/// in force are those that were in force and were not named for removal,
/// and the new ones at the addresses that the host reported.
pub proof fn law_swap_takes_force_with_the_last_report(
    state: StateView,
    env: Env,
    info: MessageInfo,
    to_add: Vec<ModuleInstantiateInfo>,
    to_remove: Vec<String>,
    replies: Seq<Reply>,
)
    requires
        state.governance_modules.contains(info.sender@),
        !state.replies.busy(),
        to_add@.len() >= 1,
        replies.len() == to_add@.len(),
        successes_from(replies, 0),
    ensures
        ({
            let (ordered, result) = state.execute(
                env,
                info,
                ExecuteMsg::UpdateGovernanceModules { to_add, to_remove },
            );
            let done = after_replies(ordered, replies);
            &&& result is Ok
            &&& result->Ok_0.instantiations == orders_of(swap_batch(to_add@), env.contract.address@)
            &&& ordered.governance_modules == state.governance_modules
            &&& ordered.voting_module == state.voting_module
            &&& done == StateView {
                governance_modules: state.governance_modules.difference(named(to_remove@)).union(
                    all_reported(replies).to_set(),
                ),
                replies: DispatcherView::idle(),
                ..state
            }
        }),
{
    let msg = ExecuteMsg::UpdateGovernanceModules { to_add, to_remove };
    let (ordered, result) = state.execute(env, info, msg);
    let batch = swap_batch(to_add@);
    assert(batch.len() == to_add.len());
    assert forall|id: u64| 0 <= id < batch.len() implies !(#[trigger] ordered.replies.pending[id]).purpose.for_voting() by {
        assert(batch[id as int].purpose is SwapGovernanceAdd);
    }
    lemma_governance_run(ordered, replies, 0, batch.len() as int);
}

/// After a swap, a module that was named for removal is a governance
/// module only if it was brought up anew, every module that was brought up
/// is one, and where the new addresses are fresh and differ from one
/// another the number of modules has changed by the number of those added
/// less the number of those removed.
pub proof fn law_swap_counts(
    before: Set<Seq<char>>,
    removed: Set<Seq<char>>,
    added: Seq<Seq<char>>,
)
    requires
        before.finite(),
        removed.finite(),
        removed.subset_of(before),
        added.no_duplicates(),
        forall|i: int| 0 <= i < added.len() ==> !before.contains(#[trigger] added[i]),
    ensures
        ({
            let after = before.difference(removed).union(added.to_set());
            &&& after.finite()
            &&& after.len() == before.len() - removed.len() + added.len()
            &&& forall|a: Seq<char>| removed.contains(a) ==> !after.contains(a)
            &&& forall|i: int| 0 <= i < added.len() ==> after.contains(#[trigger] added[i])
        }),
{
    let rest = before.difference(removed);
    let new = added.to_set();
    added.unique_seq_to_set();
    vstd::seq_lib::seq_to_set_is_finite(added);
    vstd::set_lib::lemma_set_difference_len(before, removed);
    assert(before.intersect(removed) =~= removed);
    assert(rest.disjoint(new)) by {
        assert forall|a: Seq<char>| !(rest.contains(a) && new.contains(a)) by {
            if new.contains(a) {
                let i = choose|i: int| 0 <= i < added.len() && added[i] == a;
                assert(!before.contains(added[i]));
            }
        }
    }
    vstd::set_lib::lemma_set_disjoint_lens(rest, new);
    assert forall|a: Seq<char>| removed.contains(a) implies !rest.union(new).contains(a) by {
        if new.contains(a) {
            let i = choose|i: int| 0 <= i < added.len() && added[i] == a;
            assert(!before.contains(added[i]));
        }
    }
    assert forall|i: int| 0 <= i < added.len() implies rest.union(new).contains(
        #[trigger] added[i],
    ) by {
        assert(new.contains(added[i]));
    }
}

/// Ordering a new voting module leaves the old one in force until the new
/// one is up. From then on the new one is the voting module, and questions
/// about voting power go to it. The governance modules are not touched.
pub proof fn law_voting_module_swap(
    state: StateView,
    env: Env,
    info: MessageInfo,
    module: ModuleInstantiateInfo,
    report: Reply,
    address: String,
    height: Option<u64>,
)
    requires
        state.governance_modules.contains(info.sender@),
        !state.replies.busy(),
        report.id == 0,
        report.result is Instantiated,
    ensures
        ({
            let (ordered, result) = state.execute(
                env,
                info,
                ExecuteMsg::UpdateVotingModule { module },
            );
            let (done, settled) = ordered.reply(report);
            &&& result is Ok
            &&& result->Ok_0.instantiations.len() == 1
            &&& ordered.voting_module == state.voting_module
            &&& ordered.governance_modules == state.governance_modules
            &&& settled is Ok
            &&& done == StateView {
                voting_module: Some(reported(report)),
                replies: DispatcherView::idle(),
                ..state
            }
            &&& forall|outcome: Result<QueryOutcome, ContractError>| #[trigger]
                done.answers(env, QueryMsg::VotingModule {}, outcome) ==> (outcome matches Ok(
                    QueryOutcome::Answer(QueryResponse::VotingModule(addr)),
                ) && addr@ == reported(report))
            &&& forall|outcome: Result<QueryOutcome, ContractError>| #[trigger]
                done.answers(
                    env,
                    QueryMsg::VotingPowerAtHeight { address, height },
                    outcome,
                ) ==> (outcome matches Ok(QueryOutcome::Forward(question))
                    && question@.voting_module == reported(report))
        }),
{
    let (ordered, result) = state.execute(env, info, ExecuteMsg::UpdateVotingModule { module });
    assert(ordered.replies.pending.contains_key(0u64));
    let recorded = ordered.replies.record(0u64, reported(report));
    assert(recorded.pending.dom() =~= Set::empty());
}

/// Storing an address under a key makes it the address that the key gives.
pub proof fn law_set_item_then_get_item(
    state: StateView,
    env: Env,
    info: MessageInfo,
    key: String,
    addr: String,
)
    requires
        info.sender@ == env.contract.address@,
    ensures
        ({
            let (next, result) = state.execute(env, info, ExecuteMsg::SetItem { key, addr });
            &&& result is Ok
            &&& next.items == state.items.insert(key@, addr@)
            &&& forall|outcome: Result<QueryOutcome, ContractError>| #[trigger]
                next.answers(env, QueryMsg::GetItem { key }, outcome) ==> (outcome matches Ok(
                    QueryOutcome::Answer(QueryResponse::GetItem(response)),
                ) && address_of(response.item) == Some(addr@))
        }),
{
}

/// Removing a key that is absent succeeds and changes nothing; removing
/// one that is present leaves the key without an address.
pub proof fn law_remove_item(state: StateView, env: Env, info: MessageInfo, key: String)
    requires
        info.sender@ == env.contract.address@,
    ensures
        ({
            let (next, result) = state.execute(env, info, ExecuteMsg::RemoveItem { key });
            &&& result == Ok::<ResponseView, ContractError>(ResponseView::nothing())
            &&& !next.items.contains_key(key@)
            &&& !state.items.contains_key(key@) ==> next == state
        }),
{
    if !state.items.contains_key(key@) {
        assert(state.items.remove(key@) =~= state.items);
    }
}

/// Every governance module is listed when no start and no limit is given:
/// the listing is as long as the registry is large.
pub proof fn law_all_modules_are_listed(
    state: StateView,
    env: Env,
    outcome: Result<QueryOutcome, ContractError>,
)
    requires
        state.governance_modules.finite(),
        state.answers(env, QueryMsg::GovernanceModules { start_at: None, limit: None }, outcome),
    ensures
        outcome matches Ok(QueryOutcome::Answer(QueryResponse::GovernanceModules(modules)))
            && modules@.len() == state.governance_modules.len() && addresses(modules@).to_set()
            == state.governance_modules,
{
    match outcome {
        Ok(QueryOutcome::Answer(QueryResponse::GovernanceModules(modules))) => {
            law_page_length(addresses(modules@), state.governance_modules, false, None, true);
        },
        _ => {},
    }
}

/// An organization that has its modules keeps a voting module and at least
/// one governance module through every call and every report, as long as
/// the set that a pending call holds back is finite.
pub proof fn law_established_for_good(
    state: StateView,
    env: Env,
    info: MessageInfo,
    msg: ExecuteMsg,
    report: Reply,
)
    requires
        established(state),
        state.replies.prospective_modules matches Some(held) ==> held.finite(),
    ensures
        established(state.execute(env, info, msg).0),
        state.execute(env, info, msg).0.replies.prospective_modules matches Some(held)
            ==> held.finite(),
        established(state.reply(report).0),
        state.reply(report).0.replies.prospective_modules matches Some(held) ==> held.finite(),
{
}

/// The organization does not depend on the order in which the host
/// reports: two successes for two pending orders, of which at most one is
/// for a voting module, lead to the same organization and the same outcome
/// whichever is reported first.
pub proof fn law_reports_commute(state: StateView, first: Reply, second: Reply)
    requires
        first.id != second.id,
        state.replies.pending.contains_key(first.id),
        state.replies.pending.contains_key(second.id),
        first.result is Instantiated,
        second.result is Instantiated,
        !(state.replies.pending[first.id].purpose.for_voting()
            && state.replies.pending[second.id].purpose.for_voting()),
    ensures
        state.reply(first).1 == Ok::<ResponseView, ContractError>(ResponseView::nothing()),
        state.reply(second).1 == Ok::<ResponseView, ContractError>(ResponseView::nothing()),
        state.reply(first).0.reply(second) == state.reply(second).0.reply(first),
{
    let one = state.replies.record(first.id, reported(first));
    let other = state.replies.record(second.id, reported(second));
    assert(one.pending.contains_key(second.id));
    assert(other.pending.contains_key(first.id));
    let both = one.record(second.id, reported(second));
    let swapped = other.record(first.id, reported(first));
    assert(both.pending =~= swapped.pending);
    assert(both.prospective_voting == swapped.prospective_voting);
    match (both.prospective_modules, swapped.prospective_modules) {
        (Some(x), Some(y)) => {
            assert(x =~= y);
        },
        _ => {},
    }
    assert(both == swapped);
}

} // verus!
