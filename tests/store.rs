use asset_ledger::balances::BalanceStore;

#[test]
fn store_reads_zero_for_unseen_keys() {
    let s = BalanceStore::new();
    assert_eq!(s.get(0, 1), 0);
}

#[test]
fn store_set_overwrites_one_key() {
    let mut s = BalanceStore::new();
    s.set(0, 1, 10);
    s.set(0, 2, 20);
    s.set(1, 1, 30);
    s.set(0, 1, 15);
    assert_eq!(s.get(0, 1), 15);
    assert_eq!(s.get(0, 2), 20);
    assert_eq!(s.get(1, 1), 30);
    assert_eq!(s.get(1, 2), 0);
}

#[test]
fn store_mutate_stores_and_returns_new_value() {
    let mut s = BalanceStore::new();
    s.set(2, 7, 40);
    assert_eq!(s.mutate(2, 7, |b| b - 15), 25);
    assert_eq!(s.get(2, 7), 25);
    assert_eq!(s.mutate(2, 8, |b| b + 3), 3);
    assert_eq!(s.get(2, 8), 3);
    assert_eq!(s.get(2, 7), 25);
}
