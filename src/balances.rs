//! The balance store: a mapping from (asset, account) to a balance that is
//! zero for every key never written.

use vstd::prelude::*;

verus! {

/// Identifier of an asset instance.
pub type AssetId = u32;

/// Opaque identity of a balance holder.
pub type AccountId = u64;

/// The smaller of two amounts.
pub open spec fn min_amount(a: u128, b: u128) -> u128 {
    if a < b { a } else { b }
}

/// `a + b`, clamped at the largest `u128`.
pub open spec fn sat_add(a: u128, b: u128) -> u128 {
    if a + b > u128::MAX { u128::MAX } else { (a + b) as u128 }
}

/// One stored balance.
#[derive(Clone, Copy, Debug, PartialEq, Eq, Structural)]
pub struct Holding {
    pub asset: AssetId,
    pub account: AccountId,
    pub amount: u128,
}

/// Whether a holding is the entry of `asset` and `account`.
pub open spec fn is_key(h: Holding, asset: AssetId, account: AccountId) -> bool {
    h.asset == asset && h.account == account
}

/// The balance of `account` in `asset` held in `s`: the last entry with that
/// key, zero when there is none.
pub open spec fn balance_in(s: Seq<Holding>, asset: AssetId, account: AccountId) -> u128
    decreases s.len(),
{
    if s.len() == 0 {
        0
    } else if is_key(s.last(), asset, account) {
        s.last().amount
    } else {
        balance_in(s.drop_last(), asset, account)
    }
}

/// The sum of all balances of `asset` held in `s`.
pub open spec fn total_in(s: Seq<Holding>, asset: AssetId) -> nat
    decreases s.len(),
{
    if s.len() == 0 {
        0
    } else {
        total_in(s.drop_last(), asset) + if s.last().asset == asset {
            s.last().amount as nat
        } else {
            0
        }
    }
}

/// No two entries share a key.
pub open spec fn keys_unique(s: Seq<Holding>) -> bool {
    forall|i: int, j: int|
        0 <= i < j < s.len() ==> !is_key(#[trigger] s[i], s[j].asset, #[trigger] s[j].account)
}

/// Every entry names an asset below `bound`.
pub open spec fn assets_below(s: Seq<Holding>, bound: int) -> bool {
    forall|i: int| 0 <= i < s.len() ==> (#[trigger] s[i]).asset < bound
}

proof fn lemma_balance_absent(s: Seq<Holding>, asset: AssetId, account: AccountId)
    requires
        forall|i: int| 0 <= i < s.len() ==> !is_key(#[trigger] s[i], asset, account),
    ensures
        balance_in(s, asset, account) == 0,
    decreases s.len(),
{
    if s.len() > 0 {
        assert(!is_key(s[s.len() - 1], asset, account));
        lemma_balance_absent(s.drop_last(), asset, account);
    }
}

proof fn lemma_balance_at(s: Seq<Holding>, i: int)
    requires
        keys_unique(s),
        0 <= i < s.len(),
    ensures
        balance_in(s, s[i].asset, s[i].account) == s[i].amount,
    decreases s.len(),
{
    if i < s.len() - 1 {
        assert(!is_key(s[i], s[s.len() - 1].asset, s[s.len() - 1].account));
        lemma_balance_at(s.drop_last(), i);
    }
}

proof fn lemma_total_none(s: Seq<Holding>, asset: AssetId)
    requires
        forall|i: int| 0 <= i < s.len() ==> (#[trigger] s[i]).asset != asset,
    ensures
        total_in(s, asset) == 0,
    decreases s.len(),
{
    if s.len() > 0 {
        assert(s[s.len() - 1].asset != asset);
        lemma_total_none(s.drop_last(), asset);
    }
}

/// A single balance never exceeds the total of its asset.
pub proof fn lemma_balance_le_total(s: Seq<Holding>, asset: AssetId, account: AccountId)
    ensures
        balance_in(s, asset, account) <= total_in(s, asset),
    decreases s.len(),
{
    if s.len() > 0 {
        lemma_balance_le_total(s.drop_last(), asset, account);
    }
}

proof fn lemma_update_other(s: Seq<Holding>, i: int, h: Holding, asset: AssetId, account: AccountId)
    requires
        0 <= i < s.len(),
        is_key(h, s[i].asset, s[i].account),
        !is_key(h, asset, account),
    ensures
        balance_in(s.update(i, h), asset, account) == balance_in(s, asset, account),
    decreases s.len(),
{
    let u = s.update(i, h);
    if i == s.len() - 1 {
        assert(u.drop_last() =~= s.drop_last());
    } else {
        assert(u.drop_last() =~= s.drop_last().update(i, h));
        lemma_update_other(s.drop_last(), i, h, asset, account);
    }
}

proof fn lemma_update_total(s: Seq<Holding>, i: int, h: Holding, asset: AssetId)
    requires
        0 <= i < s.len(),
        is_key(h, s[i].asset, s[i].account),
    ensures
        total_in(s.update(i, h), asset) + (if s[i].asset == asset { s[i].amount as nat } else { 0 })
            == total_in(s, asset) + (if h.asset == asset { h.amount as nat } else { 0 }),
    decreases s.len(),
{
    let u = s.update(i, h);
    if i == s.len() - 1 {
        assert(u.drop_last() =~= s.drop_last());
    } else {
        assert(u.drop_last() =~= s.drop_last().update(i, h));
        lemma_update_total(s.drop_last(), i, h, asset);
    }
}

/// `post` is `pre` with the balance of `account` in `asset` set to `value`
/// and every other balance kept.
pub open spec fn written(pre: BalanceStore, post: BalanceStore, asset: AssetId, account: AccountId, value: u128) -> bool {
    &&& post.wf()
    &&& post.balance(asset, account) == value
    &&& forall|a: AssetId, w: AccountId|
        !(a == asset && w == account) ==> #[trigger] post.balance(a, w) == pre.balance(a, w)
    &&& post.total(asset) + pre.balance(asset, account) == pre.total(asset) + value
    &&& forall|a: AssetId| a != asset ==> #[trigger] post.total(a) == pre.total(a)
    &&& forall|bound: int| pre.only_below(bound) && asset < bound ==> #[trigger] post.only_below(bound)
}

/// Balances keyed by (asset, account); absent keys read as zero.
pub struct BalanceStore {
    entries: Vec<Holding>,
}

impl BalanceStore {
    /// The stored entries.
    pub closed spec fn entries(&self) -> Seq<Holding> {
        self.entries@
    }

    /// The balance of `account` in `asset`.
    pub open spec fn balance(&self, asset: AssetId, account: AccountId) -> u128 {
        balance_in(self.entries(), asset, account)
    }

    /// The sum of every balance of `asset`.
    pub open spec fn total(&self, asset: AssetId) -> nat {
        total_in(self.entries(), asset)
    }

    /// The store holds at most one entry per key.
    pub open spec fn wf(&self) -> bool {
        keys_unique(self.entries())
    }

    /// Every balance ever written names an asset below `bound`.
    pub open spec fn only_below(&self, bound: int) -> bool {
        assets_below(self.entries(), bound)
    }

    /// Nothing is held of an asset at or above a bound that all entries stay under.
    pub proof fn lemma_nothing_above(&self, bound: int, asset: AssetId)
        requires
            self.only_below(bound),
            asset >= bound,
        ensures
            self.total(asset) == 0,
            forall|account: AccountId| self.balance(asset, account) == 0,
    {
        lemma_total_none(self.entries(), asset);
        assert forall|account: AccountId| self.balance(asset, account) == 0 by {
            lemma_balance_absent(self.entries(), asset, account);
        }
    }

    /// A single balance never exceeds the total of its asset.
    pub proof fn lemma_balance_bounded(&self, asset: AssetId, account: AccountId)
        ensures
            self.balance(asset, account) <= self.total(asset),
    {
        lemma_balance_le_total(self.entries(), asset, account);
    }

    /// An empty store.
    pub fn new() -> (r: BalanceStore)
        ensures
            r.wf(),
            r.entries().len() == 0,
            forall|asset: AssetId, account: AccountId| r.balance(asset, account) == 0,
            forall|asset: AssetId| r.total(asset) == 0,
            forall|bound: int| r.only_below(bound),
    {
        BalanceStore { entries: Vec::new() }
    }

    fn find(&self, asset: AssetId, account: AccountId) -> (r: Option<usize>)
        ensures
            match r {
                Some(i) => i < self.entries().len() && is_key(self.entries()[i as int], asset, account),
                None => forall|i: int|
                    0 <= i < self.entries().len() ==> !is_key(#[trigger] self.entries()[i], asset, account),
            },
    {
        let mut i: usize = 0;
        while i < self.entries.len()
            invariant
                i <= self.entries@.len(),
                forall|j: int| 0 <= j < i ==> !is_key(#[trigger] self.entries@[j], asset, account),
            decreases self.entries@.len() - i,
        {
            let h = self.entries[i];
            if h.asset == asset && h.account == account {
                return Some(i);
            }
            i += 1;
        }
        None
    }

    /// The balance of `account` in `asset`; zero when never written.
    pub fn get(&self, asset: AssetId, account: AccountId) -> (r: u128)
        requires
            self.wf(),
        ensures
            r == self.balance(asset, account),
    {
        match self.find(asset, account) {
            Some(i) => {
                proof {
                    lemma_balance_at(self.entries(), i as int);
                }
                self.entries[i].amount
            },
            None => {
                proof {
                    lemma_balance_absent(self.entries(), asset, account);
                }
                0
            },
        }
    }

    /// Writes the balance of `account` in `asset`, inserting or replacing.
    pub fn set(&mut self, asset: AssetId, account: AccountId, value: u128)
        requires
            old(self).wf(),
        ensures
            written(*old(self), *final(self), asset, account, value),
    {
        let h = Holding { asset, account, amount: value };
        match self.find(asset, account) {
            Some(i) => {
                proof {
                    lemma_balance_at(self.entries(), i as int);
                    lemma_update_total(self.entries(), i as int, h, asset);
                    assert forall|a: AssetId| a != asset implies #[trigger] total_in(self.entries@.update(i as int, h), a)
                        == total_in(self.entries@, a) by {
                        lemma_update_total(self.entries(), i as int, h, a);
                    }
                    assert forall|a: AssetId, w: AccountId| !(a == asset && w == account) implies
                        #[trigger] balance_in(self.entries@.update(i as int, h), a, w) == balance_in(self.entries@, a, w) by {
                        lemma_update_other(self.entries(), i as int, h, a, w);
                    }
                }
                self.entries.set(i, h);
                proof {
                    assert(keys_unique(self.entries@));
                    lemma_balance_at(self.entries(), i as int);
                }
            },
            None => {
                proof {
                    lemma_balance_absent(self.entries(), asset, account);
                }
                let ghost before = self.entries@;
                self.entries.push(h);
                proof {
                    assert(self.entries@.drop_last() =~= before);
                    assert(keys_unique(self.entries@));
                }
            },
        }
    }

    /// Read-modify-write of one balance: `f` receives the current balance,
    /// and what it returns is stored and handed back. The store does not
    /// clamp the value itself.
    pub fn mutate<F: Fn(u128) -> u128>(&mut self, asset: AssetId, account: AccountId, f: F) -> (r: u128)
        requires
            old(self).wf(),
            f.requires((old(self).balance(asset, account),)),
        ensures
            f.ensures((old(self).balance(asset, account),), r),
            written(*old(self), *final(self), asset, account, r),
    {
        let current = self.get(asset, account);
        let value = f(current);
        self.set(asset, account, value);
        value
    }
}

} // verus!
