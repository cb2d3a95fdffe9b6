//! The table of pending replies. An order to bring up a module goes to the
//! host under an id; the table keeps, under that id, what the module is for,
//! until the host reports how the order went. What the reports add up to is
//! held back until the last report is in, and dropped when one is a failure.

use crate::addr::{address_of, addresses, Addr, AddrSet};
use crate::error::ContractError;
use crate::msg::{
    Admin, AdminView, ModuleInstantiateInfo, Reply, SubMsg, SubMsgResult, SubMsgView, orders,
};
use std::collections::BTreeMap;
use vstd::prelude::*;
use vstd::std_specs::iter::IteratorSpec;

verus! {

/// What a module that is being brought up is for.
#[derive(Clone, Copy, Debug, PartialEq, Eq, Structural)]
pub enum ReplyPurpose {
    /// The first voting module.
    InitialVoting,
    /// One of the first governance modules: its place among them, and how
    /// many they are.
    InitialGovernance { index: u64, total_expected: u64 },
    /// The voting module that takes the place of the current one.
    SwapVoting,
    /// A governance module that joins the registered ones.
    SwapGovernanceAdd,
}

impl ReplyPurpose {
    /// Whether the module is to be the voting module.
    pub open spec fn for_voting(self) -> bool {
        self is InitialVoting || self is SwapVoting
    }
}

/// What the table keeps about one order: what the module is for and who
/// was named as its administrator.
pub struct PendingReply {
    purpose: ReplyPurpose,
    admin: Admin,
}

/// A record of the table, as plain values.
pub struct PendingReplyView {
    pub purpose: ReplyPurpose,
    pub admin: AdminView,
}

impl View for PendingReply {
    type V = PendingReplyView;

    closed spec fn view(&self) -> PendingReplyView {
        PendingReplyView { purpose: self.purpose, admin: self.admin@ }
    }
}

/// One module to bring up, and what it is for.
pub struct Request {
    pub info: ModuleInstantiateInfo,
    pub purpose: ReplyPurpose,
}

/// What a report leaves to do.
pub enum Resolution {
    /// Other reports are still out.
    Awaiting,
    /// All reports are in: the set of governance modules and the voting
    /// module to put in force, as far as the call concerned them.
    Complete { modules: Option<AddrSet>, voting: Option<Addr> },
}

/// What a report leaves to do, as plain values.
pub enum ResolutionView {
    Awaiting,
    Complete { modules: Option<Set<Seq<char>>>, voting: Option<Seq<char>> },
}

impl View for Resolution {
    type V = ResolutionView;

    open spec fn view(&self) -> ResolutionView {
        match self {
            Resolution::Awaiting => ResolutionView::Awaiting,
            Resolution::Complete { modules, voting } => ResolutionView::Complete {
                modules: match modules {
                    Some(set) => Some(set@),
                    None => None,
                },
                voting: match voting {
                    Some(addr) => Some(addr@),
                    None => None,
                },
            },
        }
    }
}

/// The table of pending replies, with what the reports that are in have
/// added up to.
pub struct ReplyDispatcher {
    pending: BTreeMap<u64, PendingReply>,
    prospective_modules: Option<AddrSet>,
    prospective_voting: Option<Addr>,
}

/// The table as plain values: the records by id, the set of governance
/// modules that the call is building, and the voting module that it has
/// brought up.
pub struct DispatcherView {
    pub pending: Map<u64, PendingReplyView>,
    pub prospective_modules: Option<Set<Seq<char>>>,
    pub prospective_voting: Option<Seq<char>>,
}

/// The records that a batch of requests leaves in the table: each request
/// under its position in the batch.
pub open spec fn pending_of(batch: Seq<Request>) -> Map<u64, PendingReplyView> {
    Map::new(
        |id: u64| id < batch.len(),
        |id: u64|
            PendingReplyView { purpose: batch[id as int].purpose, admin: batch[id as int].info.admin@ },
    )
}

/// The orders that a batch of requests sends to the host, in the order of
/// the batch, each tagged with its position.
pub open spec fn orders_of(batch: Seq<Request>, organization: Seq<char>) -> Seq<SubMsgView> {
    Seq::new(
        batch.len(),
        |i: int| SubMsgView { id: i as u64, msg: batch[i].info.wasm_msg(organization) },
    )
}

impl DispatcherView {
    /// The table with nothing pending and nothing held back.
    pub open spec fn idle() -> DispatcherView {
        DispatcherView {
            pending: Map::empty(),
            prospective_modules: None,
            prospective_voting: None,
        }
    }

    /// Whether reports are still out.
    pub open spec fn busy(self) -> bool {
        !self.pending.is_empty()
    }

    /// The table after the module for the record `id` came up at `address`:
    /// the record is gone, and the address is held as the coming voting
    /// module or added to the coming set of governance modules, as the
    /// record says.
    pub open spec fn record(self, id: u64, address: Seq<char>) -> DispatcherView {
        if self.pending[id].purpose.for_voting() {
            DispatcherView {
                pending: self.pending.remove(id),
                prospective_modules: self.prospective_modules,
                prospective_voting: Some(address),
            }
        } else {
            DispatcherView {
                pending: self.pending.remove(id),
                prospective_modules: Some(
                    match self.prospective_modules {
                        Some(set) => set.insert(address),
                        None => Set::empty().insert(address),
                    },
                ),
                prospective_voting: self.prospective_voting,
            }
        }
    }

    /// The table after a report, and what the report leaves to do.
    /// - A report under an id that is not pending changes nothing.
    /// - A failure drops every record and all that was held back.
    /// - A success is recorded; with the last one the table hands out what
    ///   it held back and is idle again.
    pub open spec fn resolve(self, reply: Reply) -> (DispatcherView, Result<
        ResolutionView,
        ContractError,
    >) {
        if !self.pending.contains_key(reply.id) {
            (self, Err(ContractError::UnknownReply { id: reply.id }))
        } else {
            match reply.result {
                SubMsgResult::Malformed { reason } => (
                    Self::idle(),
                    Err(ContractError::MalformedPayload { reason }),
                ),
                SubMsgResult::Failed { reason } => (
                    Self::idle(),
                    Err(ContractError::SubInstantiationFailure { reason }),
                ),
                SubMsgResult::Instantiated { address } => {
                    let recorded = self.record(reply.id, address@);
                    if recorded.busy() {
                        (recorded, Ok(ResolutionView::Awaiting))
                    } else {
                        (
                            Self::idle(),
                            Ok(
                                ResolutionView::Complete {
                                    modules: recorded.prospective_modules,
                                    voting: recorded.prospective_voting,
                                },
                            ),
                        )
                    }
                },
            }
        }
    }
}

/// A report's outcome as plain values.
pub open spec fn resolution_of(outcome: Result<Resolution, ContractError>) -> Result<
    ResolutionView,
    ContractError,
> {
    match outcome {
        Ok(resolution) => Ok(resolution@),
        Err(e) => Err(e),
    }
}

/// One record of the table with its id, as it is written down to be kept.
#[derive(Debug, PartialEq, Eq)]
pub struct PendingEntry {
    pub id: u64,
    pub purpose: ReplyPurpose,
    pub admin: Admin,
}

impl PendingEntry {
    /// The record that the entry stands for.
    pub open spec fn record(self) -> PendingReplyView {
        PendingReplyView { purpose: self.purpose, admin: self.admin@ }
    }
}

/// The records that a run of entries builds up when each is written in turn.
pub open spec fn table_of(entries: Seq<PendingEntry>) -> Map<u64, PendingReplyView>
    decreases entries.len(),
{
    if entries.len() == 0 {
        Map::empty()
    } else {
        table_of(entries.drop_last()).insert(entries.last().id, entries.last().record())
    }
}

/// Entries that are taken from a table build up that table again, as far
/// as they go.
proof fn lemma_table_of(entries: Seq<PendingEntry>, table: Map<u64, PendingReplyView>)
    requires
        forall|i: int|
            0 <= i < entries.len() ==> table.contains_key((#[trigger] entries[i]).id)
                && table[entries[i].id] == entries[i].record(),
    ensures
        forall|id: u64|
            table_of(entries).contains_key(id) <==> exists|i: int|
                0 <= i < entries.len() && (#[trigger] entries[i]).id == id,
        forall|id: u64| #[trigger]
            table_of(entries).contains_key(id) ==> table_of(entries)[id] == table[id],
    decreases entries.len(),
{
    if entries.len() > 0 {
        let front = entries.drop_last();
        let last = entries.last();
        assert forall|i: int| 0 <= i < front.len() implies table.contains_key(
            (#[trigger] front[i]).id,
        ) && table[front[i].id] == front[i].record() by {
            assert(front[i] == entries[i]);
        }
        lemma_table_of(front, table);
        assert(entries[entries.len() - 1] == last);
        assert forall|id: u64|
            table_of(entries).contains_key(id) <==> exists|i: int|
                0 <= i < entries.len() && (#[trigger] entries[i]).id == id by {
            if table_of(front).contains_key(id) {
                let i = choose|i: int| 0 <= i < front.len() && (#[trigger] front[i]).id == id;
                assert(entries[i].id == id);
            }
            if exists|i: int| 0 <= i < entries.len() && (#[trigger] entries[i]).id == id {
                let i = choose|i: int| 0 <= i < entries.len() && (#[trigger] entries[i]).id == id;
                if i < front.len() {
                    assert(front[i].id == id);
                }
            }
        }
        assert forall|id: u64| #[trigger]
            table_of(entries).contains_key(id) implies table_of(entries)[id] == table[id] by {
            if id == last.id {
                assert(table[entries[entries.len() - 1].id] == entries[entries.len() - 1].record());
            } else {
                assert(table_of(front).contains_key(id));
            }
        }
    }
}

/// The table written down to be kept: its records, the governance modules
/// that the pending call is building, and the voting module that it has
/// brought up.
#[derive(Debug, PartialEq, Eq)]
pub struct DispatcherSnapshot {
    pub pending: Vec<PendingEntry>,
    pub prospective_modules: Option<Vec<Addr>>,
    pub prospective_voting: Option<Addr>,
}

impl View for DispatcherSnapshot {
    type V = DispatcherView;

    open spec fn view(&self) -> DispatcherView {
        DispatcherView {
            pending: table_of(self.pending@),
            prospective_modules: match self.prospective_modules {
                Some(modules) => Some(addresses(modules@).to_set()),
                None => None,
            },
            prospective_voting: address_of(self.prospective_voting),
        }
    }
}

impl View for ReplyDispatcher {
    type V = DispatcherView;

    closed spec fn view(&self) -> DispatcherView {
        DispatcherView {
            pending: Map::new(
                |id: u64| self.pending@.contains_key(id),
                |id: u64| self.pending@[id]@,
            ),
            prospective_modules: match self.prospective_modules {
                Some(set) => Some(set@),
                None => None,
            },
            prospective_voting: match self.prospective_voting {
                Some(addr) => Some(addr@),
                None => None,
            },
        }
    }
}

impl ReplyDispatcher {
    /// A table with nothing pending.
    pub fn new() -> (table: Self)
        ensures
            table@ == DispatcherView::idle(),
    {
        let table = ReplyDispatcher {
            pending: BTreeMap::new(),
            prospective_modules: None,
            prospective_voting: None,
        };
        assert(table@.pending =~= Map::empty());
        table
    }

    /// Writes the table down.
    pub fn snapshot(&self) -> (snapshot: DispatcherSnapshot)
        ensures
            snapshot@ == self@,
    {
        let mut pending: Vec<PendingEntry> = Vec::new();
        let ghost all = self.pending.iter().remaining();
        for entry in it: self.pending.iter()
            invariant
                it.seq() == all,
                all == self.pending.iter().remaining(),
                pending@.len() == it.index(),
                forall|i: int|
                    0 <= i < pending@.len() ==> (#[trigger] pending@[i]).id == *all[i].0
                        && pending@[i].record() == (*all[i].1)@,
        {
            let (id, record) = entry;
            pending.push(PendingEntry { id: *id, purpose: record.purpose, admin: record.admin.clone() });
        }
        let prospective_modules = match &self.prospective_modules {
            Some(set) => Some(set.to_vec()),
            None => None,
        };
        let prospective_voting = match &self.prospective_voting {
            Some(addr) => Some(addr.clone()),
            None => None,
        };
        proof {
            let table = self@.pending;
            assert forall|i: int| 0 <= i < pending@.len() implies table.contains_key(
                (#[trigger] pending@[i]).id,
            ) && table[pending@[i].id] == pending@[i].record() by {
                assert(self.pending@.contains_key(*all[i].0));
                assert(self.pending@[*all[i].0] == *all[i].1);
            }
            lemma_table_of(pending@, table);
            assert forall|id: u64| table.contains_key(id) implies table_of(pending@).contains_key(
                id,
            ) by {
                assert(all.contains((&id, &self.pending@[id])));
                let i = choose|i: int| 0 <= i < all.len() && all[i] == (&id, &self.pending@[id]);
                assert(pending@[i].id == id);
            }
            assert(table_of(pending@) =~= table);
        }
        DispatcherSnapshot { pending, prospective_modules, prospective_voting }
    }

    /// The table that was written down.
    pub fn restore(snapshot: DispatcherSnapshot) -> (table: Self)
        ensures
            table@ == snapshot@,
    {
        let DispatcherSnapshot { pending: entries, prospective_modules, prospective_voting } = snapshot;
        let mut pending: BTreeMap<u64, PendingReply> = BTreeMap::new();
        let ghost all = entries@;
        for entry in it: entries.into_iter()
            invariant
                it.seq() == all,
                forall|id: u64|
                    pending@.contains_key(id) <==> table_of(all.take(it.index() as int)).contains_key(
                        id,
                    ),
                forall|id: u64| #[trigger]
                    pending@.contains_key(id) ==> pending@[id]@ == table_of(
                        all.take(it.index() as int),
                    )[id],
        {
            assert(all.take(it.index() + 1).drop_last() =~= all.take(it.index() as int));
            let PendingEntry { id, purpose, admin } = entry;
            pending.insert(id, PendingReply { purpose, admin });
        }
        assert(all.take(all.len() as int) =~= all);
        let prospective_modules = match prospective_modules {
            Some(modules) => Some(AddrSet::from_addresses(modules)),
            None => None,
        };
        let table = ReplyDispatcher { pending, prospective_modules, prospective_voting };
        assert(table@.pending =~= table_of(all));
        table
    }

    /// Whether reports are still out.
    pub fn is_busy(&self) -> (busy: bool)
        ensures
            busy == self@.busy(),
    {
        assert(self@.pending.dom() =~= self.pending@.dom());
        !self.pending.is_empty()
    }

    /// Registers a batch of requests and hands back the orders for the host,
    /// one per request and in the same order, each tagged with its position
    /// in the batch. `prospective_modules` is the set of governance modules
    /// that the coming modules are to join, where the call builds such a set.
    /// While reports are out no batch is taken.
    pub fn start(
        &mut self,
        batch: Vec<Request>,
        prospective_modules: Option<AddrSet>,
        organization: &Addr,
    ) -> (dispatched: Result<Vec<SubMsg>, ContractError>)
        ensures
            old(self)@.busy() ==> dispatched == Err::<Vec<SubMsg>, ContractError>(
                ContractError::OperationPending {},
            ) && final(self)@ == old(self)@,
            !old(self)@.busy() ==> dispatched is Ok && orders(dispatched->Ok_0@) == orders_of(
                batch@,
                organization@,
            ) && final(self)@ == (DispatcherView {
                pending: pending_of(batch@),
                prospective_modules: match prospective_modules {
                    Some(set) => Some(set@),
                    None => None,
                },
                prospective_voting: None,
            }),
    {
        if self.is_busy() {
            return Err(ContractError::OperationPending {});
        }
        let ghost all = batch@;
        let total = batch.len();
        let mut pending: BTreeMap<u64, PendingReply> = BTreeMap::new();
        let mut dispatched: Vec<SubMsg> = Vec::new();
        let mut id: u64 = 0;
        for request in it: batch.into_iter()
            invariant
                it.seq() == all,
                all.len() == total,
                id == it.index(),
                dispatched@.len() == it.index(),
                forall|i: int|
                    0 <= i < dispatched@.len() ==> (#[trigger] dispatched@[i])@ == orders_of(
                        all,
                        organization@,
                    )[i],
                forall|k: u64| pending@.contains_key(k) <==> k < id,
                forall|k: u64| k < id ==> (#[trigger] pending@[k])@ == pending_of(all)[k],
        {
            let Request { info, purpose } = request;
            pending.insert(id, PendingReply { purpose, admin: info.admin.clone() });
            dispatched.push(SubMsg { id, msg: info.into_wasm_msg(organization) });
            id = id + 1;
        }
        self.pending = pending;
        self.prospective_modules = prospective_modules;
        self.prospective_voting = None;
        proof {
            assert(self@.pending =~= pending_of(all));
            assert(orders(dispatched@) =~= orders_of(all, organization@));
        }
        Ok(dispatched)
    }

    /// Drops every record and all that was held back.
    fn abort(&mut self)
        ensures
            final(self)@ == DispatcherView::idle(),
    {
        self.pending.clear();
        self.prospective_modules = None;
        self.prospective_voting = None;
        assert(self@.pending =~= Map::empty());
    }

    /// Takes the host's report on one order.
    pub fn resolve(&mut self, reply: Reply) -> (outcome: Result<Resolution, ContractError>)
        ensures
            (final(self)@, resolution_of(outcome)) == old(self)@.resolve(reply),
    {
        let Reply { id, result } = reply;
        let ghost before = self@;
        let record = match self.pending.remove(&id) {
            Some(record) => record,
            None => {
                assert(self@.pending =~= before.pending);
                return Err(ContractError::UnknownReply { id });
            },
        };
        assert(self@.pending =~= before.pending.remove(id));
        assert(record@ == before.pending[id]);
        match result {
            SubMsgResult::Malformed { reason } => {
                self.abort();
                Err(ContractError::MalformedPayload { reason })
            },
            SubMsgResult::Failed { reason } => {
                self.abort();
                Err(ContractError::SubInstantiationFailure { reason })
            },
            SubMsgResult::Instantiated { address } => {
                let addr = Addr::from_string(address);
                match record.purpose {
                    ReplyPurpose::InitialVoting | ReplyPurpose::SwapVoting => {
                        self.prospective_voting = Some(addr);
                    },
                    ReplyPurpose::InitialGovernance { .. } | ReplyPurpose::SwapGovernanceAdd => {
                        let mut set = match self.prospective_modules.take() {
                            Some(set) => set,
                            None => AddrSet::new(),
                        };
                        set.insert(addr);
                        self.prospective_modules = Some(set);
                    },
                }
                assert(self@ == before.record(id, address@));
                if self.is_busy() {
                    Ok(Resolution::Awaiting)
                } else {
                    let modules = self.prospective_modules.take();
                    let voting = self.prospective_voting.take();
                    assert(self@.pending =~= Map::empty());
                    Ok(Resolution::Complete { modules, voting })
                }
            },
        }
    }
}

} // verus!
