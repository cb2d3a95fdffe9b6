//! Who may change the organization: its governance modules, and the
//! organization itself. The two checks are all there is; no module stands
//! above another.

use crate::addr::Addr;
use crate::error::ContractError;
use crate::modules::ModuleRegistry;
use vstd::prelude::*;

verus! {

/// Lets the call pass if `caller` is a governance module at this moment.
pub fn require_module(registry: &ModuleRegistry, caller: &Addr) -> (pass: Result<(), ContractError>)
    ensures
        pass is Ok <==> registry@.contains(caller@),
        pass is Err ==> pass == Err::<(), ContractError>(ContractError::Unauthorized {}),
{
    if registry.contains(caller) {
        Ok(())
    } else {
        Err(ContractError::Unauthorized {})
    }
}

/// Lets the call pass if `caller` is the organization itself.
pub fn require_self(caller: &Addr, organization: &Addr) -> (pass: Result<(), ContractError>)
    ensures
        pass is Ok <==> caller@ == organization@,
        pass is Err ==> pass == Err::<(), ContractError>(ContractError::Unauthorized {}),
{
    if caller.same(organization) {
        Ok(())
    } else {
        Err(ContractError::Unauthorized {})
    }
}

} // verus!
