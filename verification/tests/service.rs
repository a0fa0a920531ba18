use propspace::env::TestEnvironment;
use propspace::protocol::DIP721Service;
use propspace::service::{HousingDaoService, HousingDaoStorage};
use propspace::types::{
    Account, AccountId, DaoServiceError, ErrorType, HousingUnit, SpaceDetails, Tokens,
};

fn acct(b: u8) -> AccountId {
    AccountId::new(vec![b])
}

fn member(b: u8, amount: u64) -> Account {
    Account {
        principal: acct(b),
        tokens: Tokens { amount_e8s: amount },
        housing_units: vec![
            HousingUnit { id: 1, num_units: 4 },
            HousingUnit { id: 2, num_units: 6 },
            HousingUnit { id: 1, num_units: 5 },
        ],
    }
}

fn details(price: u64, units: u64) -> SpaceDetails {
    SpaceDetails {
        owner: acct(0),
        location: String::from("12 Harbor Lane"),
        description: String::from("two rooms"),
        price_per_unit: price,
        units_available: units,
    }
}

/// A service whose environment reports account 7 as the caller.
fn service_as(b: u8) -> HousingDaoService<TestEnvironment> {
    HousingDaoService {
        env: TestEnvironment { now: 1_000, caller: acct(b), canister_id: acct(99) },
        dip_service: DIP721Service::from(acct(50)),
        accounts: Vec::new(),
        spaces: Vec::new(),
        secret_key: String::from("default_key"),
        next_space_id: 0,
    }
}

fn is_not_found(e: &DaoServiceError) -> bool {
    matches!(&e.error_type, ErrorType::NotFound(m) if m == "account not found")
}

#[test]
fn default_service_is_empty_with_default_key() {
    let s: HousingDaoService<propspace::env::EmptyEnvironment> = Default::default();
    assert_eq!(s.secret_key, "default_key");
    assert!(s.accounts.is_empty());
    assert!(s.spaces.is_empty());
    assert_eq!(s.next_space_id, 0);
}

#[test]
fn create_account_is_gated_by_the_secret_key() {
    let mut s = service_as(7);
    let r = s.create_account(String::from("wrong"), member(7, 10));
    match r {
        Err(d) => match d.error_type {
            ErrorType::Failure(m) => assert_eq!(m, "unable to create account"),
            _ => panic!("expected a failure"),
        },
        Ok(_) => panic!("wrong key must not create an account"),
    }
    assert!(s.accounts.is_empty());

    let r = s.create_account(String::from("default_key"), member(7, 10));
    assert_eq!(r.unwrap(), acct(7));
    assert_eq!(s.accounts.len(), 1);
}

#[test]
fn create_account_replaces_an_existing_member() {
    let mut s = service_as(7);
    s.create_account(String::from("default_key"), member(7, 10)).unwrap();
    s.create_account(String::from("default_key"), member(7, 25)).unwrap();
    assert_eq!(s.accounts.len(), 1);
    assert_eq!(s.get_balance().unwrap().amount_e8s, 25);
}

#[test]
fn account_details_follow_the_reported_caller() {
    let mut s = service_as(7);
    s.create_account(String::from("default_key"), member(7, 10)).unwrap();
    let a = s.get_account_details().unwrap();
    assert_eq!(a.principal, acct(7));
    assert_eq!(a.tokens.amount_e8s, 10);

    let stranger = service_as(8);
    match stranger.get_account_details() {
        Err(e) => assert!(is_not_found(&e)),
        Ok(_) => panic!("unknown caller must not resolve"),
    }
}

#[test]
fn balance_is_reported_for_known_members_only() {
    let mut s = service_as(7);
    match s.get_balance() {
        Err(e) => assert!(is_not_found(&e)),
        Ok(_) => panic!("unknown caller must not have a balance"),
    }
    s.create_account(String::from("default_key"), member(7, 42)).unwrap();
    assert_eq!(s.get_balance().unwrap().amount_e8s, 42);
}

#[test]
fn housing_units_and_per_space_filter() {
    let mut s = service_as(7);
    s.create_account(String::from("default_key"), member(7, 10)).unwrap();
    let all = s.get_housing_units().unwrap();
    assert_eq!(all.len(), 3);
    let of_one = s.get_housing_units_from_space(1).unwrap();
    assert_eq!(of_one.len(), 2);
    assert_eq!(of_one[0].num_units, 4);
    assert_eq!(of_one[1].num_units, 5);
    let of_three = s.get_housing_units_from_space(3).unwrap();
    assert!(of_three.is_empty());
}

#[test]
fn create_space_assigns_sequential_identifiers_to_the_caller() {
    let mut s = service_as(7);
    assert_eq!(s.create_space(details(5, 100)).unwrap(), 0);
    assert_eq!(s.create_space(details(9, 40)).unwrap(), 1);
    let spaces = s.get_all_spaces();
    assert_eq!(spaces.len(), 2);
    assert_eq!(spaces[0].id, 0);
    assert_eq!(spaces[0].details.owner, acct(7));
    assert_eq!(spaces[0].details.price_per_unit, 5);
    assert_eq!(spaces[1].id, 1);
    assert_eq!(spaces[1].details.units_available, 40);
}

#[test]
fn list_accounts_snapshots_every_member() {
    let mut s = service_as(7);
    s.create_account(String::from("default_key"), member(7, 10)).unwrap();
    s.create_account(String::from("default_key"), member(8, 20)).unwrap();
    let listed = s.list_accounts();
    assert_eq!(listed.len(), 2);
    assert_eq!(listed[0].principal, acct(7));
    assert_eq!(listed[1].principal, acct(8));
}

#[test]
fn from_storage_keeps_the_last_entry_per_key() {
    let storage = HousingDaoStorage {
        dip_service_principal: acct(50),
        accounts: vec![member(7, 10), member(8, 20), member(7, 30)],
        spaces: vec![
            propspace::types::Space { id: 3, details: details(1, 10) },
            propspace::types::Space { id: 3, details: details(2, 20) },
        ],
        secret_key: String::from("migration_key"),
    };
    let s = HousingDaoService::from_storage(storage);
    assert_eq!(s.accounts.len(), 2);
    assert_eq!(s.get_balance_of(&acct(7)).unwrap().amount_e8s, 30);
    assert_eq!(s.get_balance_of(&acct(8)).unwrap().amount_e8s, 20);
    assert_eq!(s.spaces.len(), 1);
    assert_eq!(s.spaces[0].details.price_per_unit, 2);
    assert_eq!(s.secret_key, "migration_key");
    assert_eq!(s.dip_service.principal, acct(50));
    assert_eq!(s.next_space_id, 0);
}
