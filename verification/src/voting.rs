//! The slot that holds the voting module.

use crate::addr::{address_of, Addr};
use crate::error::ContractError;
use vstd::prelude::*;

verus! {

/// The address of the one voting module. The slot is empty only until the
/// organization's first modules are up.
pub struct VotingModuleSlot {
    current: Option<Addr>,
}

impl View for VotingModuleSlot {
    type V = Option<Seq<char>>;

    closed spec fn view(&self) -> Option<Seq<char>> {
        match self.current {
            Some(addr) => Some(addr@),
            None => None,
        }
    }
}

impl VotingModuleSlot {
    /// The slot before the first voting module is up.
    pub fn new() -> (slot: Self)
        ensures
            slot@ is None,
    {
        VotingModuleSlot { current: None }
    }

    /// A slot that holds `current`.
    pub fn from_option(current: Option<Addr>) -> (slot: Self)
        ensures
            slot@ == address_of(current),
    {
        VotingModuleSlot { current }
    }

    /// What the slot holds.
    pub fn current(&self) -> (current: Option<Addr>)
        ensures
            address_of(current) == self@,
    {
        match &self.current {
            Some(addr) => Some(addr.clone()),
            None => None,
        }
    }

    /// The voting module.
    pub fn get(&self) -> (module: Result<Addr, ContractError>)
        ensures
            match module {
                Ok(addr) => self@ == Some(addr@),
                Err(e) => self@ is None && e == (ContractError::NotEstablished {}),
            },
    {
        match &self.current {
            Some(addr) => Ok(addr.clone()),
            None => Err(ContractError::NotEstablished {}),
        }
    }

    /// Puts `module` in the slot, in place of what stood there.
    pub fn replace(&mut self, module: Addr)
        ensures
            final(self)@ == Some(module@),
    {
        self.current = Some(module);
    }
}

} // verus!
