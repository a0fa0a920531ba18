use propspace::protocol::{interpret_remote_outcome, DIP721Service};
use propspace::types::{AccountId, ErrorType, NftError};

fn acct(b: u8) -> AccountId {
    AccountId::new(vec![b])
}

#[test]
fn completed_success_is_success() {
    let outcome: Result<Result<u64, NftError>, String> = Ok(Ok(1));
    assert!(interpret_remote_outcome(outcome).is_ok());
}

#[test]
fn completed_domain_error_is_wrapped_as_such() {
    let outcome: Result<Result<u64, NftError>, String> = Ok(Err(NftError::UnitsNotAvailable));
    match interpret_remote_outcome(outcome) {
        Err(d) => assert!(matches!(d.error_type, ErrorType::NftError(NftError::UnitsNotAvailable))),
        Ok(()) => panic!("a domain error must not be swallowed"),
    }
}

#[test]
fn transport_failure_is_kept_apart_from_domain_errors() {
    let outcome: Result<Result<u64, NftError>, String> =
        Err(String::from("destination canister rejected the call"));
    match interpret_remote_outcome(outcome) {
        Err(d) => match d.error_type {
            ErrorType::CanisterError(m) => {
                assert_eq!(m, "destination canister rejected the call")
            },
            _ => panic!("a transport failure must surface as a canister error"),
        },
        Ok(()) => panic!("a failed call must not look successful"),
    }
}

#[test]
fn unit_result_outcomes_are_interpreted_the_same_way() {
    let outcome: Result<Result<(), NftError>, String> = Ok(Err(NftError::SelfTransfer));
    match interpret_remote_outcome(outcome) {
        Err(d) => assert!(matches!(d.error_type, ErrorType::NftError(NftError::SelfTransfer))),
        Ok(()) => panic!("a domain error must not be swallowed"),
    }
}

#[test]
fn service_handle_carries_its_principal() {
    let s = DIP721Service::from(acct(50));
    assert_eq!(s.principal, acct(50));
    let d: DIP721Service = Default::default();
    assert_eq!(d.principal, AccountId::new(vec![4]));
}
