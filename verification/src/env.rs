//! Environment access: the clock and the caller identity, behind a
//! capability interface with a production implementation, an inert
//! placeholder, and an in-memory test double.

use crate::types::AccountId;
use vstd::prelude::*;

verus! {

/// Capability interface to the hosting environment.  What the host reports
/// (the time, the caller) is outside the library's control, so the interface
/// promises nothing of the values; individual implementations may say more.
pub trait Environment {
    /// The current time, in nanoseconds since the epoch.
    fn now(&self) -> u64;

    /// The identity calling into the service.
    fn caller(&self) -> AccountId;

    /// The identity of the service instance itself.
    fn canister_id(&self) -> AccountId;
}

/// Inert placeholder used before a real environment is wired in: it reports
/// time zero and the anonymous identity.
pub struct EmptyEnvironment {}

/// The production environment of a deployed service instance, backed by the
/// platform's host interface.
pub struct CanisterEnvironment {}

/// In-memory environment for tests: reports exactly its fields.
pub struct TestEnvironment {
    pub now: u64,
    pub caller: AccountId,
    pub canister_id: AccountId,
}

impl Environment for EmptyEnvironment {
    fn now(&self) -> (r: u64)
        ensures
            r == 0,
    {
        0
    }

    fn caller(&self) -> (r: AccountId)
        ensures
            r@ == seq![4u8],
    {
        AccountId::anonymous()
    }

    fn canister_id(&self) -> (r: AccountId)
        ensures
            r@ == seq![4u8],
    {
        AccountId::anonymous()
    }
}

/// Relies on ic_cdk::api::time: the host clock in nanoseconds since the
/// epoch.  Meaningful only inside a canister host.
#[verifier::external_body]
fn host_time() -> u64 {
    ic_cdk::api::time()
}

/// Relies on ic_cdk::api::caller: the principal of the current call's
/// caller, carried as its raw bytes.  Meaningful only inside a canister
/// host.
#[verifier::external_body]
fn host_caller() -> AccountId {
    AccountId { bytes: ic_cdk::api::caller().as_slice().to_vec() }
}

/// Relies on ic_cdk::api::id: the canister's own principal, carried as its
/// raw bytes.  Meaningful only inside a canister host.
#[verifier::external_body]
fn host_canister_id() -> AccountId {
    AccountId { bytes: ic_cdk::api::id().as_slice().to_vec() }
}

impl Environment for CanisterEnvironment {
    fn now(&self) -> u64 {
        host_time()
    }

    fn caller(&self) -> AccountId {
        host_caller()
    }

    fn canister_id(&self) -> AccountId {
        host_canister_id()
    }
}

impl Environment for TestEnvironment {
    fn now(&self) -> (r: u64)
        ensures
            r == self.now,
    {
        self.now
    }

    fn caller(&self) -> (r: AccountId)
        ensures
            r@ == self.caller@,
    {
        self.caller.clone()
    }

    fn canister_id(&self) -> (r: AccountId)
        ensures
            r@ == self.canister_id@,
    {
        self.canister_id.clone()
    }
}

} // verus!
