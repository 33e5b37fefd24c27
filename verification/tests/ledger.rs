use gofundme::addressing::derive_address;
use gofundme::errors::FundMeErrors;
use gofundme::store::AccountStore;

fn owner_key(tag: u8) -> Vec<u8> {
    vec![tag; 32]
}

fn set_up(floor: u64, owner: &[u8], target: u64) -> (AccountStore, Vec<u8>) {
    let mut store = AccountStore::new(floor);
    let mut owner_wallet: u64 = floor + 25;
    let r = store
        .try_initialize(owner, "campaign".to_string(), "a campaign".to_string(), target, &mut owner_wallet)
        .unwrap();
    assert_eq!(r, Ok(()));
    // the owner paid exactly the creation cost
    assert_eq!(owner_wallet, 25);
    let (address, _bump) = derive_address(owner).unwrap();
    (store, address)
}

#[test]
fn initialize_rejects_zero_target() {
    let mut store = AccountStore::new(100);
    let owner = owner_key(1);
    // a zero target is rejected before any payment: an empty wallet is fine
    let mut owner_wallet: u64 = 0;
    let r = store
        .try_initialize(&owner, "campaign".to_string(), "a campaign".to_string(), 0, &mut owner_wallet)
        .unwrap();
    assert_eq!(r, Err(FundMeErrors::InvalidTarget));
    assert_eq!(owner_wallet, 0);
    let (address, _bump) = derive_address(&owner).unwrap();
    assert!(!store.has_account(&address));
}

#[test]
fn initialize_succeeds_exactly_once_per_owner() {
    let owner = owner_key(2);
    let (mut store, address) = set_up(100, &owner, 1000);
    assert!(store.has_account(&address));
    // the duplicate is refused before any payment: an empty wallet is fine
    let mut empty_wallet: u64 = 0;
    let again = store
        .try_initialize(&owner, "other".to_string(), "other".to_string(), 7, &mut empty_wallet)
        .unwrap();
    assert_eq!(again, Err(FundMeErrors::AccountAlreadyExists));
    assert_eq!(empty_wallet, 0);
    // the stored metadata is the one written first
    let account = store.get_account(&address).unwrap();
    assert_eq!(account.data.name, "campaign");
    assert_eq!(account.data.description, "a campaign");
    assert_eq!(account.data.target_fund, 1000);
    assert_eq!(account.lamports, 100);
}

#[test]
fn initialize_stores_the_derived_binding() {
    let owner = owner_key(3);
    let (store, address) = set_up(100, &owner, 1000);
    let (derived, bump) = derive_address(&owner).unwrap();
    let account = store.get_account(&address).unwrap();
    assert_eq!(account.address, derived);
    assert_eq!(account.data.bump, bump);
}

#[test]
fn fund_accumulates_the_sum_of_contributions() {
    let owner = owner_key(4);
    let (mut store, address) = set_up(100, &owner, 10_000);
    let mut wallet: u64 = 5_000;
    for amount in [600u64, 500, 250] {
        assert_eq!(store.fund(&mut wallet, &address, amount), Ok(()));
    }
    assert_eq!(wallet, 5_000 - 600 - 500 - 250);
    assert_eq!(store.get_account(&address).unwrap().lamports, 100 + 600 + 500 + 250);
}

#[test]
fn fund_rejects_an_amount_the_contributor_cannot_cover() {
    let owner = owner_key(5);
    let (mut store, address) = set_up(100, &owner, 1000);
    let mut wallet: u64 = 50;
    let r = store.fund(&mut wallet, &address, 100);
    assert_eq!(r, Err(FundMeErrors::InsufficientContributorBalance));
    assert_eq!(wallet, 50);
    assert_eq!(store.get_account(&address).unwrap().lamports, 100);
}

#[test]
fn fund_allows_a_zero_contribution() {
    let owner = owner_key(6);
    let (mut store, address) = set_up(100, &owner, 1000);
    let mut wallet: u64 = 10;
    assert_eq!(store.fund(&mut wallet, &address, 0), Ok(()));
    assert_eq!(wallet, 10);
    assert_eq!(store.get_account(&address).unwrap().lamports, 100);
}

#[test]
fn withdraw_fails_below_target_and_changes_nothing() {
    // target 500, one contribution of 300: surplus 300 < 500
    let owner = owner_key(7);
    let (mut store, address) = set_up(100, &owner, 500);
    let mut wallet: u64 = 300;
    assert_eq!(store.fund(&mut wallet, &address, 300), Ok(()));
    let mut owner_wallet: u64 = 0;
    let r = store.withdraw(&address, &owner, &mut owner_wallet);
    assert_eq!(r, Err(FundMeErrors::FundNotReachedYet));
    assert_eq!(owner_wallet, 0);
    assert_eq!(store.get_account(&address).unwrap().lamports, 100 + 300);
}

#[test]
fn withdraw_by_another_identity_is_unauthorized() {
    let owner = owner_key(8);
    let (mut store, address) = set_up(100, &owner, 500);
    let mut wallet: u64 = 600;
    assert_eq!(store.fund(&mut wallet, &address, 600), Ok(()));
    let intruder = owner_key(9);
    let mut intruder_wallet: u64 = 0;
    let r = store.withdraw(&address, &intruder, &mut intruder_wallet);
    assert_eq!(r, Err(FundMeErrors::Unauthorized));
    assert_eq!(intruder_wallet, 0);
    assert_eq!(store.get_account(&address).unwrap().lamports, 100 + 600);
}

#[test]
fn withdraw_moves_the_surplus_and_resets_to_the_floor() {
    // target 1000, floor 100; fund 600 then 500: balance 1200, surplus 1100
    let owner = owner_key(10);
    let (mut store, address) = set_up(100, &owner, 1000);
    let mut contributor: u64 = 1_100;
    assert_eq!(store.fund(&mut contributor, &address, 600), Ok(()));
    assert_eq!(store.fund(&mut contributor, &address, 500), Ok(()));
    assert_eq!(store.get_account(&address).unwrap().lamports, 1_200);

    let mut owner_wallet: u64 = 7;
    assert_eq!(store.withdraw(&address, &owner, &mut owner_wallet), Ok(()));
    assert_eq!(owner_wallet, 7 + 1_100);
    let account = store.get_account(&address).unwrap();
    assert_eq!(account.lamports, 100);
    assert_eq!(account.data.name, "campaign");
    assert_eq!(account.data.description, "a campaign");
    assert_eq!(account.data.target_fund, 1000);

    // repeating immediately fails: the surplus has reset
    let r = store.withdraw(&address, &owner, &mut owner_wallet);
    assert_eq!(r, Err(FundMeErrors::FundNotReachedYet));
    assert_eq!(owner_wallet, 7 + 1_100);
    assert_eq!(store.get_account(&address).unwrap().lamports, 100);
}

#[test]
fn withdraw_cycle_can_repeat_after_new_contributions() {
    let owner = owner_key(11);
    let (mut store, address) = set_up(100, &owner, 200);
    let mut contributor: u64 = 1_000;
    let mut owner_wallet: u64 = 0;
    assert_eq!(store.fund(&mut contributor, &address, 250), Ok(()));
    assert_eq!(store.withdraw(&address, &owner, &mut owner_wallet), Ok(()));
    assert_eq!(owner_wallet, 250);
    assert_eq!(store.fund(&mut contributor, &address, 300), Ok(()));
    assert_eq!(store.withdraw(&address, &owner, &mut owner_wallet), Ok(()));
    assert_eq!(owner_wallet, 250 + 300);
    assert_eq!(store.get_account(&address).unwrap().lamports, 100);
}

#[test]
fn two_owners_get_two_independent_accounts() {
    let first = owner_key(12);
    let second = owner_key(13);
    let (mut store, first_address) = set_up(100, &first, 400);
    let mut second_wallet: u64 = 100;
    let r = store
        .try_initialize(&second, "second".to_string(), "second".to_string(), 900, &mut second_wallet)
        .unwrap();
    assert_eq!(r, Ok(()));
    assert_eq!(second_wallet, 0);
    let (second_address, _bump) = derive_address(&second).unwrap();
    assert_ne!(first_address, second_address);
    let mut wallet: u64 = 800;
    assert_eq!(store.fund(&mut wallet, &second_address, 800), Ok(()));
    assert_eq!(store.get_account(&first_address).unwrap().lamports, 100);
    assert_eq!(store.get_account(&second_address).unwrap().lamports, 900);
    // each owner's binding opens only its own account
    let mut pocket: u64 = 0;
    assert_eq!(
        store.withdraw(&second_address, &first, &mut pocket),
        Err(FundMeErrors::Unauthorized)
    );
}

#[test]
fn derivation_is_deterministic_and_not_the_identity() {
    let owner = owner_key(14);
    let (a1, b1) = derive_address(&owner).unwrap();
    let (a2, b2) = derive_address(&owner).unwrap();
    assert_eq!(a1, a2);
    assert_eq!(b1, b2);
    assert_eq!(a1.len(), 32);
    // the derived address is a fresh address, not the owner identity echoed
    assert_ne!(a1, owner);
    let other = owner_key(15);
    let (a3, _b3) = derive_address(&other).unwrap();
    assert_ne!(a1, a3);
}

#[test]
fn initialize_is_not_attempted_when_the_owner_cannot_pay_the_floor() {
    let mut store = AccountStore::new(100);
    let owner = owner_key(16);
    let mut owner_wallet: u64 = 99;
    let r = store.try_initialize(&owner, "campaign".to_string(), "a campaign".to_string(), 1000, &mut owner_wallet);
    assert_eq!(r, None);
    assert_eq!(owner_wallet, 99);
    let (address, _bump) = derive_address(&owner).unwrap();
    assert!(!store.has_account(&address));
}
