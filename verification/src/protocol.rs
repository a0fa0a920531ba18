//! Cross-service mint protocol: the orchestrator's handle on the remote
//! ledger service, and the interpretation of an awaited remote call's
//! outcome.
//!
//! The remote call itself suspends the orchestrator for an unbounded
//! interval, so nothing here assumes the mint succeeded merely because the
//! call was dispatched: the outcome value carries either the ledger's own
//! result or the transport's reject message, and the interpretation keeps
//! the two failure modes apart.

use crate::types::{AccountId, DaoServiceError, ErrorType, NftError};
use vstd::prelude::*;

verus! {

/// Handle on the remote ledger service, by its principal.
pub struct DIP721Service {
    pub principal: AccountId,
}

impl From<AccountId> for DIP721Service {
    fn from(principal: AccountId) -> (r: DIP721Service) {
        DIP721Service { principal }
    }
}

impl vstd::std_specs::convert::FromSpecImpl<AccountId> for DIP721Service {
    open spec fn obeys_from_spec() -> bool {
        true
    }

    open spec fn from_spec(principal: AccountId) -> Self {
        DIP721Service { principal }
    }
}

impl Default for DIP721Service {
    /// A handle pointing at the anonymous principal, to be replaced when the
    /// real service principal is known.
    fn default() -> (r: DIP721Service)
        ensures
            r.principal@ == seq![4u8],
    {
        DIP721Service { principal: AccountId::anonymous() }
    }
}

/// Maps the outcome of an awaited remote ledger call onto the orchestrator's
/// error taxonomy: success stays success, a domain error of the ledger is
/// wrapped as such, and a call that never completed is reported as a
/// canister-level failure with the transport's reject message.
pub fn interpret_remote_outcome<T>(outcome: Result<Result<T, NftError>, String>) -> (r: Result<
    (),
    DaoServiceError,
>)
    ensures
        outcome matches Ok(inner) && inner is Ok ==> r == Ok::<(), DaoServiceError>(()),
        outcome matches Ok(inner) ==> (inner matches Err(e) ==> r == Err::<(), DaoServiceError>(
            DaoServiceError { error_type: ErrorType::NftError(e) },
        )),
        outcome matches Err(msg) ==> r == Err::<(), DaoServiceError>(
            DaoServiceError { error_type: ErrorType::CanisterError(msg) },
        ),
{
    match outcome {
        Ok(Ok(_)) => Ok(()),
        Ok(Err(e)) => Err(DaoServiceError { error_type: ErrorType::NftError(e) }),
        Err(msg) => Err(DaoServiceError { error_type: ErrorType::CanisterError(msg) }),
    }
}

} // verus!
