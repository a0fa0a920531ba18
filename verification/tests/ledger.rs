use propspace::ledger::{InitArguments, TokenLedger};
use propspace::types::{AccountId, CanisterError, NftError, Property, PropertyValue};

fn acct(b: u8) -> AccountId {
    AccountId::new(vec![b])
}

fn no_props() -> Vec<Property> {
    Vec::new()
}

/// A ledger whose sole custodian is account 1.
fn fresh_ledger() -> TokenLedger {
    TokenLedger::init(None, &acct(1), 1_000)
}

/// A ledger with one registered space of 100 units at price 5, custodian 1.
fn ledger_with_space() -> TokenLedger {
    let mut l = fresh_ledger();
    let r = l.create_space(&acct(1), 5, 100);
    assert!(matches!(r, Ok(Ok(1))));
    l
}

#[test]
fn init_seeds_caller_as_sole_custodian() {
    let l = fresh_ledger();
    assert!(matches!(l.authorize(&acct(1)), Ok(())));
    assert!(matches!(l.authorize(&acct(2)), Err(CanisterError::NotCustodian)));
    assert_eq!(l.get_canister_custodians().len(), 1);
    assert!(l.get_canister_name().is_none());
    assert_eq!(l.get_canister_supply(), 0);
}

#[test]
fn init_with_supplied_custodians() {
    let args = InitArguments {
        name: Some(String::from("propspace")),
        symbol: Some(String::from("PSP")),
        logo: None,
        custodians: Some(vec![acct(3), acct(4)]),
    };
    let l = TokenLedger::init(Some(args), &acct(1), 77);
    assert!(matches!(l.authorize(&acct(3)), Ok(())));
    assert!(matches!(l.authorize(&acct(4)), Ok(())));
    assert!(matches!(l.authorize(&acct(1)), Err(CanisterError::NotCustodian)));
    assert_eq!(l.get_canister_name(), Some(String::from("propspace")));
    assert_eq!(l.get_canister_symbol(), Some(String::from("PSP")));
    assert_eq!(l.get_canister_metadata().created_at, 77);
}

#[test]
fn init_with_empty_custodians_seeds_caller() {
    let args =
        InitArguments { name: None, symbol: None, logo: None, custodians: Some(Vec::new()) };
    let l = TokenLedger::init(Some(args), &acct(9), 77);
    assert!(matches!(l.authorize(&acct(9)), Ok(())));
}

#[test]
fn create_space_registers_whole_pool() {
    let l = ledger_with_space();
    let a = l.get_space_data(1).unwrap();
    assert_eq!(a.id, 1);
    assert_eq!(a.price_per_unit, 5);
    assert_eq!(a.total_units, 100);
    assert_eq!(a.units_available, 100);
    assert_eq!(l.get_canister_stats().total_spaces, 1);
    match l.get_space_data(2) {
        Err(NftError::Other(m)) => assert_eq!(m, "space not found"),
        _ => panic!("expected a missing-space error"),
    }
}

#[test]
fn scenario_mint_allocate_trade_burn() {
    let c = acct(1);
    let a = acct(10);
    let b = acct(11);
    let mut l = ledger_with_space();
    let minted = l.mint(&c, &a, Some(1), 1, no_props(), 0, 42);
    assert!(matches!(minted, Ok(Ok(1))));
    assert_eq!(l.get_canister_supply(), 1);

    assert!(matches!(l.allocate(&c, 1, &a, 40), Ok(Ok(()))));
    assert_eq!(l.balance_of(1, &a).unwrap(), 40);
    assert_eq!(l.get_space_data(1).unwrap().units_available, 60);

    assert!(matches!(l.trade(&c, 1, &a, &b, 10), Ok(Ok(()))));
    assert_eq!(l.balance_of(1, &a).unwrap(), 30);
    assert_eq!(l.balance_of(1, &b).unwrap(), 10);

    assert!(matches!(l.burn(&c, 1, 99), Ok(Ok(()))));
    let owners = l.get_token_owners(1).unwrap();
    assert!(owners.is_empty());
    assert_eq!(l.get_canister_supply(), 0);
}

#[test]
fn mint_with_identifier_collision_fails_once_only() {
    let c = acct(1);
    let mut l = ledger_with_space();
    assert!(matches!(l.create_space(&c, 5, 50), Ok(Ok(2))));
    assert!(matches!(l.mint(&c, &acct(10), Some(1), 1, no_props(), 0, 42), Ok(Ok(1))));
    assert_eq!(l.get_canister_supply(), 1);
    let again = l.mint(&c, &acct(10), Some(1), 2, no_props(), 0, 43);
    assert!(matches!(again, Ok(Err(NftError::ExistedNFT))));
    assert_eq!(l.get_canister_supply(), 1);
}

#[test]
fn mint_unknown_asset_is_reported() {
    let c = acct(1);
    let mut l = fresh_ledger();
    match l.mint(&c, &acct(10), Some(1), 7, no_props(), 0, 42) {
        Ok(Err(NftError::Other(m))) => assert_eq!(m, "space not found"),
        _ => panic!("expected a missing-space error"),
    }
}

#[test]
fn mint_empty_pool_has_no_units_available() {
    let c = acct(1);
    let mut l = fresh_ledger();
    assert!(matches!(l.create_space(&c, 5, 0), Ok(Ok(1))));
    let r = l.mint(&c, &acct(10), Some(1), 1, no_props(), 0, 42);
    assert!(matches!(r, Ok(Err(NftError::UnitsNotAvailable))));
}

#[test]
fn mint_requesting_more_than_pool_fails() {
    let c = acct(1);
    let mut l = ledger_with_space();
    let r = l.mint(&c, &acct(10), Some(1), 1, no_props(), 101, 42);
    assert!(matches!(r, Ok(Err(NftError::UnitsNotAvailable))));
}

#[test]
fn mint_same_asset_twice_is_rejected() {
    let c = acct(1);
    let mut l = ledger_with_space();
    assert!(matches!(l.mint(&c, &acct(10), Some(1), 1, no_props(), 0, 42), Ok(Ok(1))));
    match l.mint(&c, &acct(10), Some(2), 1, no_props(), 0, 43) {
        Ok(Err(NftError::Other(m))) => assert_eq!(m, "space already tokenized"),
        _ => panic!("expected an already-tokenized error"),
    }
}

#[test]
fn mint_assigns_sequential_identifier_by_default() {
    let c = acct(1);
    let mut l = ledger_with_space();
    let r = l.mint(&c, &acct(10), None, 1, no_props(), 0, 42);
    assert!(matches!(r, Ok(Ok(1))));
}

#[test]
fn mint_seeds_target_owner_with_requested_units() {
    let c = acct(1);
    let a = acct(10);
    let mut l = ledger_with_space();
    assert!(matches!(l.mint(&c, &a, Some(1), 1, no_props(), 25, 42), Ok(Ok(1))));
    assert_eq!(l.balance_of(1, &a).unwrap(), 25);
    assert_eq!(l.get_space_data(1).unwrap().units_available, 75);
    assert_eq!(l.get_total_unique_holders(), 1);
    let meta = l.get_token_metadata(1).unwrap();
    assert_eq!(meta.minted_at, 42);
    assert!(!meta.burned);
    assert!(meta.burned_at.is_none());
}

#[test]
fn allocate_never_overdraws_the_pool() {
    let c = acct(1);
    let a = acct(10);
    let mut l = ledger_with_space();
    assert!(matches!(l.mint(&c, &a, Some(1), 1, no_props(), 0, 42), Ok(Ok(1))));
    assert!(matches!(l.allocate(&c, 1, &a, 60), Ok(Ok(()))));
    let r = l.allocate(&c, 1, &a, 41);
    assert!(matches!(r, Ok(Err(NftError::UnitsNotAvailable))));
    // Nothing moved on the failed call.
    assert_eq!(l.balance_of(1, &a).unwrap(), 60);
    assert_eq!(l.get_space_data(1).unwrap().units_available, 40);
    // Allocating exactly what is left succeeds.
    assert!(matches!(l.allocate(&c, 1, &a, 40), Ok(Ok(()))));
    assert_eq!(l.get_space_data(1).unwrap().units_available, 0);
}

#[test]
fn allocate_unknown_token_fails() {
    let c = acct(1);
    let mut l = ledger_with_space();
    assert!(matches!(l.allocate(&c, 9, &acct(10), 1), Ok(Err(NftError::TokenNotFound))));
}

#[test]
fn trade_with_insufficient_units_changes_nothing() {
    let c = acct(1);
    let a = acct(10);
    let b = acct(11);
    let mut l = ledger_with_space();
    assert!(matches!(l.mint(&c, &a, Some(1), 1, no_props(), 30, 42), Ok(Ok(1))));
    let r = l.trade(&c, 1, &a, &b, 31);
    assert!(matches!(r, Ok(Err(NftError::InsufficientUnits))));
    assert_eq!(l.balance_of(1, &a).unwrap(), 30);
    assert!(matches!(l.balance_of(1, &b), Err(NftError::OwnerNotFound)));
}

#[test]
fn trade_to_self_is_rejected() {
    let c = acct(1);
    let a = acct(10);
    let mut l = ledger_with_space();
    assert!(matches!(l.mint(&c, &a, Some(1), 1, no_props(), 30, 42), Ok(Ok(1))));
    assert!(matches!(l.trade(&c, 1, &a, &a, 5), Ok(Err(NftError::SelfTransfer))));
    assert_eq!(l.balance_of(1, &a).unwrap(), 30);
}

#[test]
fn trade_from_stranger_is_rejected() {
    let c = acct(1);
    let mut l = ledger_with_space();
    assert!(matches!(l.mint(&c, &acct(10), Some(1), 1, no_props(), 30, 42), Ok(Ok(1))));
    let r = l.trade(&c, 1, &acct(12), &acct(11), 5);
    assert!(matches!(r, Ok(Err(NftError::OperatorNotFound))));
}

#[test]
fn trade_conserves_the_joint_balance() {
    let c = acct(1);
    let a = acct(10);
    let b = acct(11);
    let mut l = ledger_with_space();
    assert!(matches!(l.mint(&c, &a, Some(1), 1, no_props(), 30, 42), Ok(Ok(1))));
    assert!(matches!(l.allocate(&c, 1, &b, 20), Ok(Ok(()))));
    let before = l.balance_of(1, &a).unwrap() + l.balance_of(1, &b).unwrap();
    assert!(matches!(l.trade(&c, 1, &a, &b, 13), Ok(Ok(()))));
    let after = l.balance_of(1, &a).unwrap() + l.balance_of(1, &b).unwrap();
    assert_eq!(before, after);
    assert_eq!(l.balance_of(1, &a).unwrap(), 17);
    assert_eq!(l.balance_of(1, &b).unwrap(), 33);
}

#[test]
fn trade_away_last_units_removes_the_row() {
    let c = acct(1);
    let a = acct(10);
    let b = acct(11);
    let mut l = ledger_with_space();
    assert!(matches!(l.mint(&c, &a, Some(1), 1, no_props(), 30, 42), Ok(Ok(1))));
    assert_eq!(l.get_total_unique_holders(), 1);
    assert!(matches!(l.trade(&c, 1, &a, &b, 30), Ok(Ok(()))));
    assert!(matches!(l.balance_of(1, &a), Err(NftError::OwnerNotFound)));
    assert_eq!(l.balance_of(1, &b).unwrap(), 30);
    assert_eq!(l.get_total_unique_holders(), 1);
    assert!(matches!(l.get_user_token_count(&a), Err(NftError::OwnerNotFound)));
}

#[test]
fn burn_twice_fails_cleanly() {
    let c = acct(1);
    let mut l = ledger_with_space();
    assert!(matches!(l.mint(&c, &acct(10), Some(1), 1, no_props(), 10, 42), Ok(Ok(1))));
    assert_eq!(l.get_canister_supply(), 1);
    assert!(matches!(l.burn(&c, 1, 50), Ok(Ok(()))));
    assert_eq!(l.get_canister_supply(), 0);
    match l.burn(&c, 1, 51) {
        Ok(Err(NftError::Other(m))) => assert_eq!(m, "token is burned"),
        _ => panic!("expected a burned-token error"),
    }
    assert_eq!(l.get_canister_supply(), 0);
}

#[test]
fn burn_stamps_audit_fields_and_anonymizes_minter() {
    let c = acct(1);
    let mut l = ledger_with_space();
    assert!(matches!(l.mint(&c, &acct(10), Some(1), 1, no_props(), 10, 42), Ok(Ok(1))));
    assert!(matches!(l.burn(&c, 1, 50), Ok(Ok(()))));
    let meta = l.get_token_metadata(1).unwrap();
    assert!(meta.burned);
    assert_eq!(meta.burned_at, Some(50));
    assert_eq!(meta.burned_by.unwrap(), c);
    assert_eq!(meta.minted_by, AccountId::new(vec![4]));
    assert_eq!(meta.minted_at, 42);
}

#[test]
fn burned_token_rejects_further_mutation() {
    let c = acct(1);
    let a = acct(10);
    let mut l = ledger_with_space();
    assert!(matches!(l.mint(&c, &a, Some(1), 1, no_props(), 10, 42), Ok(Ok(1))));
    assert!(matches!(l.burn(&c, 1, 50), Ok(Ok(()))));
    assert!(matches!(l.allocate(&c, 1, &a, 1), Ok(Err(NftError::Other(_)))));
    assert!(matches!(l.trade(&c, 1, &a, &acct(11), 1), Ok(Err(NftError::Other(_)))));
}

#[test]
fn non_custodians_cause_no_observable_change() {
    let c = acct(1);
    let x = acct(2);
    let a = acct(10);
    let mut l = ledger_with_space();
    assert!(matches!(l.mint(&c, &a, Some(1), 1, no_props(), 10, 42), Ok(Ok(1))));
    let stats_before = l.get_canister_stats();

    assert!(matches!(
        l.mint(&x, &a, Some(2), 1, no_props(), 0, 43),
        Err(CanisterError::NotCustodian)
    ));
    assert!(matches!(l.allocate(&x, 1, &a, 1), Err(CanisterError::NotCustodian)));
    assert!(matches!(l.trade(&x, 1, &a, &acct(11), 1), Err(CanisterError::NotCustodian)));
    assert!(matches!(l.burn(&x, 1, 44), Err(CanisterError::NotCustodian)));
    assert!(matches!(l.create_space(&x, 1, 1), Err(CanisterError::NotCustodian)));
    assert!(matches!(
        l.set_canister_name(&x, Some(String::from("x"))),
        Err(CanisterError::NotCustodian)
    ));

    let stats_after = l.get_canister_stats();
    assert_eq!(stats_before, stats_after);
    assert_eq!(l.balance_of(1, &a).unwrap(), 10);
    assert!(l.get_canister_name().is_none());
}

#[test]
fn guard_error_text_matches_taxonomy() {
    assert_eq!(
        CanisterError::NotCustodian.as_text(),
        "You are not a custodian in this canister"
    );
}

#[test]
fn metadata_setters_require_custodian_and_stick() {
    let c = acct(1);
    let mut l = fresh_ledger();
    assert!(matches!(l.set_canister_name(&c, Some(String::from("propspace"))), Ok(())));
    assert!(matches!(l.set_canister_symbol(&c, Some(String::from("PSP"))), Ok(())));
    assert!(matches!(l.set_canister_logo(&c, Some(String::from("logo.png"))), Ok(())));
    assert_eq!(l.get_canister_name(), Some(String::from("propspace")));
    assert_eq!(l.get_canister_symbol(), Some(String::from("PSP")));
    assert_eq!(l.get_canister_logo(), Some(String::from("logo.png")));
    assert!(matches!(l.set_canister_custodians(&c, vec![acct(5)]), Ok(())));
    assert!(matches!(l.authorize(&acct(5)), Ok(())));
    assert!(matches!(l.authorize(&c), Err(CanisterError::NotCustodian)));
}

#[test]
fn owner_index_reads_follow_holdings() {
    let c = acct(1);
    let a = acct(10);
    let mut l = ledger_with_space();
    assert!(matches!(l.create_space(&c, 2, 10), Ok(Ok(2))));
    assert!(matches!(l.mint(&c, &a, Some(1), 1, no_props(), 10, 42), Ok(Ok(1))));
    assert!(matches!(l.mint(&c, &a, Some(2), 2, no_props(), 3, 43), Ok(Ok(2))));

    assert_eq!(l.get_user_token_count(&a).unwrap(), 2);
    let ids = l.get_tokens_by_owner(&a).unwrap();
    assert_eq!(ids, vec![1, 2]);
    let metas = l.get_tokens_metadata_by_owner(&a).unwrap();
    assert_eq!(metas.len(), 2);
    assert_eq!(metas[0].id, 1);
    assert_eq!(metas[1].id, 2);

    let units = l.get_housing_units(&a);
    assert_eq!(units.len(), 2);
    assert_eq!(units[0].id, 1);
    assert_eq!(units[0].num_units, 10);
    assert_eq!(units[1].id, 2);
    assert_eq!(units[1].num_units, 3);

    assert!(l.is_stakeholder(1, &a).unwrap());
    assert!(!l.is_stakeholder(1, &acct(11)).unwrap());
    assert!(matches!(l.is_stakeholder(9, &a), Err(NftError::TokenNotFound)));
    assert!(matches!(l.get_tokens_by_owner(&acct(12)), Err(NftError::OwnerNotFound)));
    assert_eq!(l.get_total_unique_holders(), 1);
}

#[test]
fn token_owners_snapshot_lists_every_holder() {
    let c = acct(1);
    let a = acct(10);
    let b = acct(11);
    let mut l = ledger_with_space();
    assert!(matches!(l.mint(&c, &a, Some(1), 1, no_props(), 10, 42), Ok(Ok(1))));
    assert!(matches!(l.allocate(&c, 1, &b, 7), Ok(Ok(()))));
    let owners = l.get_token_owners(1).unwrap();
    assert_eq!(owners.len(), 2);
    assert_eq!(owners[0].account, a);
    assert_eq!(owners[0].units, 10);
    assert_eq!(owners[1].account, b);
    assert_eq!(owners[1].units, 7);
    assert_eq!(l.get_total_unique_holders(), 2);
}

#[test]
fn transactions_are_counted_per_unit_moving_operation() {
    let c = acct(1);
    let a = acct(10);
    let mut l = ledger_with_space();
    assert_eq!(l.get_canister_stats().total_transactions, 0);
    assert!(matches!(l.mint(&c, &a, Some(1), 1, no_props(), 10, 42), Ok(Ok(1))));
    assert!(matches!(l.allocate(&c, 1, &a, 5), Ok(Ok(()))));
    assert!(matches!(l.trade(&c, 1, &a, &acct(11), 5), Ok(Ok(()))));
    assert!(matches!(l.burn(&c, 1, 50), Ok(Ok(()))));
    assert_eq!(l.get_canister_stats().total_transactions, 4);
}

#[test]
fn minted_properties_are_returned_verbatim() {
    let c = acct(1);
    let mut l = ledger_with_space();
    let props = vec![
        Property { name: String::from("kind"), value: PropertyValue::TextContent(String::from("apartment")) },
        Property { name: String::from("floor"), value: PropertyValue::Nat64Content(3) },
    ];
    assert!(matches!(l.mint(&c, &acct(10), Some(1), 1, props, 0, 42), Ok(Ok(1))));
    let meta = l.get_token_metadata(1).unwrap();
    assert_eq!(meta.properties.len(), 2);
    assert_eq!(meta.properties[0].name, "kind");
    assert!(matches!(&meta.properties[0].value, PropertyValue::TextContent(s) if s == "apartment"));
    assert_eq!(meta.properties[1].name, "floor");
    assert!(matches!(meta.properties[1].value, PropertyValue::Nat64Content(3)));
}
