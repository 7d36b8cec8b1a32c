use asset_ledger::nft::{Config, Error, Event, Pallet, UniqueAssetDetails};

const ALICE: u64 = 1;
const BOB: u64 = 2;
const CAROL: u64 = 3;

fn ledger() -> Pallet {
    Pallet::new(Config { max_length: 4 })
}

#[test]
fn unique_mint_creates_asset_held_by_creator() {
    let mut p = ledger();
    assert_eq!(p.mint(ALICE, vec![7, 7], 5), Ok(0));
    assert_eq!(
        p.unique_asset(0),
        Some(UniqueAssetDetails { owner: ALICE, metadata: vec![7, 7], supply: 5 })
    );
    assert_eq!(p.account(0, ALICE), 5);
    assert_eq!(p.nonce(), 1);
    assert_eq!(p.events().last(), Some(&Event::Created { creator: ALICE, asset_id: 0 }));
}

#[test]
fn unique_mints_give_distinct_ids() {
    let mut p = ledger();
    let a = p.mint(ALICE, vec![], 1).unwrap();
    let b = p.mint(BOB, vec![], 1).unwrap();
    assert_ne!(a, b);
    assert_eq!(b, 1);
}

#[test]
fn unique_mint_zero_supply_fails_without_using_id() {
    let mut p = ledger();
    assert_eq!(p.mint(ALICE, vec![1], 0), Err(Error::NoSupply));
    assert_eq!(p.nonce(), 0);
    assert_eq!(p.unique_asset(0), None);
    assert!(p.events().is_empty());
    assert_eq!(p.mint(ALICE, vec![1], 3), Ok(0));
}

#[test]
fn unique_mint_too_long_fails() {
    let mut p = ledger();
    assert_eq!(p.mint(ALICE, vec![1, 2, 3, 4, 5], 3), Err(Error::TooLong));
    assert_eq!(p.nonce(), 0);
    assert_eq!(p.mint(ALICE, vec![1, 2, 3, 4], 3), Ok(0));
}

#[test]
fn unique_burn_more_than_held_burns_balance() {
    let mut p = ledger();
    p.mint(ALICE, vec![], 10).unwrap();
    p.transfer(ALICE, 0, 4, BOB).unwrap();
    assert_eq!(p.burn(ALICE, 0, 100), Ok(()));
    assert_eq!(p.account(0, ALICE), 0);
    assert_eq!(p.unique_asset(0).unwrap().supply, 4);
    assert_eq!(
        p.events().last(),
        Some(&Event::Burned { asset_id: 0, owner: ALICE, total_supply: 4 })
    );
}

#[test]
fn unique_burn_without_holding_fails() {
    let mut p = ledger();
    p.mint(ALICE, vec![], 10).unwrap();
    assert_eq!(p.burn(BOB, 0, 1), Err(Error::NotOwned));
    assert_eq!(p.unique_asset(0).unwrap().supply, 10);
}

#[test]
fn unique_burn_unknown_asset_fails() {
    let mut p = ledger();
    assert_eq!(p.burn(ALICE, 0, 1), Err(Error::UnknownAssetId));
}

#[test]
fn unique_transfer_moves_units() {
    let mut p = ledger();
    p.mint(ALICE, vec![], 10).unwrap();
    assert_eq!(p.transfer(ALICE, 0, 3, BOB), Ok(()));
    assert_eq!(p.account(0, ALICE), 7);
    assert_eq!(p.account(0, BOB), 3);
    assert_eq!(
        p.events().last(),
        Some(&Event::Transferred { asset_id: 0, from: ALICE, to: BOB, amount: 3 })
    );
}

#[test]
fn unique_transfer_more_than_held_moves_balance() {
    let mut p = ledger();
    p.mint(ALICE, vec![], 10).unwrap();
    assert_eq!(p.transfer(ALICE, 0, 99, CAROL), Ok(()));
    assert_eq!(p.account(0, ALICE), 0);
    assert_eq!(p.account(0, CAROL), 10);
    assert_eq!(
        p.events().last(),
        Some(&Event::Transferred { asset_id: 0, from: ALICE, to: CAROL, amount: 10 })
    );
}

#[test]
fn unique_transfer_without_holding_fails() {
    let mut p = ledger();
    p.mint(ALICE, vec![], 10).unwrap();
    assert_eq!(p.transfer(BOB, 0, 1, CAROL), Err(Error::NotOwned));
    assert_eq!(p.transfer(BOB, 1, 1, CAROL), Err(Error::UnknownAssetId));
    assert_eq!(p.account(0, ALICE), 10);
}

#[test]
fn unique_supply_equals_sum_and_owner_kept() {
    let mut p = ledger();
    p.mint(ALICE, vec![9], 50).unwrap();
    p.transfer(ALICE, 0, 20, BOB).unwrap();
    p.transfer(BOB, 0, 5, CAROL).unwrap();
    p.burn(BOB, 0, 10).unwrap();
    let sum = p.account(0, ALICE) + p.account(0, BOB) + p.account(0, CAROL);
    let d = p.unique_asset(0).unwrap();
    assert_eq!(d.supply, sum);
    assert_eq!(sum, 40);
    assert_eq!(d.owner, ALICE);
    assert_eq!(d.metadata, vec![9]);
}

#[test]
fn unique_details_new_keeps_fields() {
    let d = UniqueAssetDetails::new(BOB, vec![1, 2], 9);
    assert_eq!(d, UniqueAssetDetails { owner: BOB, metadata: vec![1, 2], supply: 9 });
}
