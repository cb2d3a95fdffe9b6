//! The registry of governance modules: the addresses that may act for the
//! organization.

use crate::addr::{addresses, named, Addr, AddrSet};
use crate::error::ContractError;
use crate::ordered_map::{is_page, text_of};
use vstd::prelude::*;

verus! {

/// The set of governance modules that are in force.
pub struct ModuleRegistry {
    members: AddrSet,
}

impl View for ModuleRegistry {
    type V = Set<Seq<char>>;

    closed spec fn view(&self) -> Set<Seq<char>> {
        self.members@
    }
}

impl ModuleRegistry {
    /// A registry without modules, as it stands before the first modules
    /// are up.
    pub fn new() -> (registry: Self)
        ensures
            registry@ == Set::<Seq<char>>::empty(),
    {
        ModuleRegistry { members: AddrSet::new() }
    }

    /// A registry in which exactly the addresses of `members` are in force.
    pub fn from_members(members: Vec<Addr>) -> (registry: Self)
        ensures
            registry@ == addresses(members@).to_set(),
            registry@.finite(),
    {
        ModuleRegistry { members: AddrSet::from_addresses(members) }
    }

    /// The modules in force, in ascending byte order.
    pub fn members(&self) -> (members: Vec<Addr>)
        ensures
            self@.finite(),
            is_page(addresses(members@), self@, None, false, None, false),
            addresses(members@).to_set() == self@,
    {
        self.members.to_vec()
    }

    /// Whether `addr` is a governance module.
    pub fn contains(&self, addr: &Addr) -> (found: bool)
        ensures
            found == self@.contains(addr@),
    {
        self.members.contains(addr.as_str())
    }

    /// The number of governance modules.
    pub fn count(&self) -> (n: usize)
        ensures
            self@.finite(),
            n == self@.len(),
    {
        self.members.len()
    }

    /// Lists the modules in descending byte order: those below `start_after`,
    /// where it is given, and at most `limit` of them, where it is given.
    pub fn list(&self, start_after: Option<&str>, limit: Option<u64>) -> (modules: Vec<Addr>)
        ensures
            self@.finite(),
            is_page(addresses(modules@), self@, text_of(start_after), false, limit, true),
    {
        self.members.page(start_after, false, limit, true)
    }

    /// The set that is left when every address that `to_remove` names is
    /// taken away. The registry itself stays as it is.
    pub fn without(&self, to_remove: &Vec<String>) -> (rest: AddrSet)
        ensures
            rest@ == self@.difference(named(to_remove@)),
    {
        let mut rest = self.members.clone();
        rest.remove_all(to_remove);
        rest
    }

    /// Puts `members` in force in place of the current modules, unless that
    /// would leave no module: then nothing changes.
    pub fn commit(&mut self, members: AddrSet) -> (done: Result<(), ContractError>)
        ensures
            members@ == Set::<Seq<char>>::empty() ==> done == Err::<(), ContractError>(
                ContractError::InvariantViolation {},
            ) && final(self)@ == old(self)@,
            members@ != Set::<Seq<char>>::empty() ==> done is Ok && final(self)@ == members@,
    {
        if members.is_empty() {
            return Err(ContractError::InvariantViolation {});
        }
        self.members = members;
        Ok(())
    }
}

} // verus!
