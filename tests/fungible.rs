use asset_ledger::assets::{AssetDetails, AssetMetadata, Config, Error, Event, Pallet};

const ALICE: u64 = 1;
const BOB: u64 = 2;
const CAROL: u64 = 3;

fn ledger() -> Pallet {
    Pallet::new(Config { max_length: 8 })
}

#[test]
fn create_returns_first_id_owned_by_caller() {
    let mut p = ledger();
    let id = p.create(ALICE);
    assert_eq!(id, 0);
    assert_eq!(p.asset(0), Some(AssetDetails { owner: ALICE, supply: 0 }));
    assert_eq!(p.nonce(), 1);
    assert_eq!(p.events().last(), Some(&Event::Created { owner: ALICE, asset_id: 0 }));
}

#[test]
fn consecutive_creates_give_distinct_ids() {
    let mut p = ledger();
    let a = p.create(ALICE);
    let b = p.create(BOB);
    assert_ne!(a, b);
    assert_eq!(b, 1);
    assert_eq!(p.asset(1).unwrap().owner, BOB);
}

#[test]
fn mint_credits_recipient_and_supply() {
    let mut p = ledger();
    p.create(ALICE);
    assert_eq!(p.mint(ALICE, 0, 100, BOB), Ok(()));
    assert_eq!(p.account(0, BOB), 100);
    assert_eq!(p.asset(0).unwrap().supply, 100);
    assert_eq!(
        p.events().last(),
        Some(&Event::Minted { asset_id: 0, owner: BOB, total_supply: 100 })
    );
}

#[test]
fn mint_by_any_account_is_accepted() {
    let mut p = ledger();
    p.create(ALICE);
    assert_eq!(p.mint(CAROL, 0, 5, CAROL), Ok(()));
    assert_eq!(p.account(0, CAROL), 5);
    assert_eq!(p.asset(0).unwrap().owner, ALICE);
}

#[test]
fn mint_saturates_supply() {
    let mut p = ledger();
    p.create(ALICE);
    assert_eq!(p.mint(ALICE, 0, u128::MAX - 10, BOB), Ok(()));
    assert_eq!(p.mint(ALICE, 0, 100, CAROL), Ok(()));
    assert_eq!(p.asset(0).unwrap().supply, u128::MAX);
    assert_eq!(p.account(0, CAROL), 10);
}

#[test]
fn mint_unknown_asset_fails() {
    let mut p = ledger();
    assert_eq!(p.mint(ALICE, 0, 100, BOB), Err(Error::UnknownAssetId));
    assert_eq!(p.account(0, BOB), 0);
    assert!(p.events().is_empty());
}

#[test]
fn transfer_moves_requested_amount() {
    let mut p = ledger();
    p.create(ALICE);
    p.mint(ALICE, 0, 100, BOB).unwrap();
    assert_eq!(p.transfer(BOB, 0, 40, CAROL), Ok(()));
    assert_eq!(p.account(0, BOB), 60);
    assert_eq!(p.account(0, CAROL), 40);
    assert_eq!(
        p.events().last(),
        Some(&Event::Transferred { asset_id: 0, from: BOB, to: CAROL, amount: 40 })
    );
    assert_eq!(p.asset(0).unwrap().supply, 100);
}

#[test]
fn transfer_more_than_held_moves_balance() {
    let mut p = ledger();
    p.create(ALICE);
    p.mint(ALICE, 0, 30, BOB).unwrap();
    assert_eq!(p.transfer(BOB, 0, 500, CAROL), Ok(()));
    assert_eq!(p.account(0, BOB), 0);
    assert_eq!(p.account(0, CAROL), 30);
    assert_eq!(
        p.events().last(),
        Some(&Event::Transferred { asset_id: 0, from: BOB, to: CAROL, amount: 30 })
    );
}

#[test]
fn transfer_to_self_changes_nothing() {
    let mut p = ledger();
    p.create(ALICE);
    p.mint(ALICE, 0, 30, BOB).unwrap();
    assert_eq!(p.transfer(BOB, 0, 10, BOB), Ok(()));
    assert_eq!(p.account(0, BOB), 30);
}

#[test]
fn transfer_unknown_asset_fails() {
    let mut p = ledger();
    assert_eq!(p.transfer(BOB, 3, 1, CAROL), Err(Error::UnknownAssetId));
}

#[test]
fn burn_more_than_held_burns_balance() {
    let mut p = ledger();
    p.create(ALICE);
    p.mint(ALICE, 0, 100, BOB).unwrap();
    p.transfer(BOB, 0, 40, CAROL).unwrap();
    assert_eq!(p.account(0, BOB), 60);
    assert_eq!(p.burn(BOB, 0, 1000), Ok(()));
    assert_eq!(p.account(0, BOB), 0);
    assert_eq!(p.asset(0).unwrap().supply, 40);
    assert_eq!(
        p.events().last(),
        Some(&Event::Burned { asset_id: 0, owner: BOB, total_supply: 40 })
    );
}

#[test]
fn burn_from_zero_balance_succeeds() {
    let mut p = ledger();
    p.create(ALICE);
    p.mint(ALICE, 0, 10, BOB).unwrap();
    assert_eq!(p.burn(CAROL, 0, 5), Ok(()));
    assert_eq!(p.asset(0).unwrap().supply, 10);
    assert_eq!(p.events().len(), 3);
}

#[test]
fn burn_unknown_asset_fails() {
    let mut p = ledger();
    assert_eq!(p.burn(BOB, 0, 1), Err(Error::UnknownAssetId));
}

#[test]
fn supply_equals_sum_of_balances() {
    let mut p = ledger();
    p.create(ALICE);
    p.mint(ALICE, 0, 100, BOB).unwrap();
    p.mint(ALICE, 0, 50, ALICE).unwrap();
    p.transfer(BOB, 0, 70, CAROL).unwrap();
    p.burn(CAROL, 0, 20).unwrap();
    p.transfer(ALICE, 0, 500, BOB).unwrap();
    let sum = p.account(0, ALICE) + p.account(0, BOB) + p.account(0, CAROL);
    assert_eq!(p.asset(0).unwrap().supply, sum);
    assert_eq!(sum, 130);
}

#[test]
fn owner_survives_every_operation() {
    let mut p = ledger();
    p.create(ALICE);
    p.mint(BOB, 0, 10, BOB).unwrap();
    p.transfer(BOB, 0, 5, CAROL).unwrap();
    p.burn(CAROL, 0, 5).unwrap();
    p.set_metadata(ALICE, 0, vec![1], vec![2]).unwrap();
    assert_eq!(p.asset(0).unwrap().owner, ALICE);
}

#[test]
fn set_metadata_by_owner_is_stored() {
    let mut p = ledger();
    p.create(ALICE);
    assert_eq!(p.set_metadata(ALICE, 0, b"Coin".to_vec(), b"CN".to_vec()), Ok(()));
    assert_eq!(
        p.metadata(0),
        Some(AssetMetadata { name: b"Coin".to_vec(), symbol: b"CN".to_vec() })
    );
    assert_eq!(
        p.events().last(),
        Some(&Event::MetadataSet { asset_id: 0, name: b"Coin".to_vec(), symbol: b"CN".to_vec() })
    );
    assert_eq!(p.set_metadata(ALICE, 0, b"Other".to_vec(), b"OT".to_vec()), Ok(()));
    assert_eq!(p.metadata(0).unwrap().name, b"Other".to_vec());
}

#[test]
fn set_metadata_by_non_owner_fails() {
    let mut p = ledger();
    p.create(ALICE);
    assert_eq!(
        p.set_metadata(BOB, 0, b"Coin".to_vec(), b"CN".to_vec()),
        Err(Error::NoPermission)
    );
    assert_eq!(p.metadata(0), None);
    assert_eq!(p.events().len(), 1);
}

#[test]
fn set_metadata_unknown_asset_fails() {
    let mut p = ledger();
    assert_eq!(
        p.set_metadata(ALICE, 0, b"Coin".to_vec(), b"CN".to_vec()),
        Err(Error::UnknownAssetId)
    );
}

#[test]
fn set_metadata_too_long_fails() {
    let mut p = ledger();
    p.create(ALICE);
    assert_eq!(
        p.set_metadata(ALICE, 0, b"123456789".to_vec(), b"CN".to_vec()),
        Err(Error::TooLong)
    );
    assert_eq!(
        p.set_metadata(ALICE, 0, b"Coin".to_vec(), b"123456789".to_vec()),
        Err(Error::TooLong)
    );
    assert_eq!(p.set_metadata(ALICE, 0, b"12345678".to_vec(), b"".to_vec()), Ok(()));
    assert_eq!(p.metadata(0).unwrap().name.len(), 8);
}

#[test]
fn details_new_has_no_supply() {
    assert_eq!(AssetDetails::new(BOB), AssetDetails { owner: BOB, supply: 0 });
}
