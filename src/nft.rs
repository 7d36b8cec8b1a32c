//! The unique asset class: each mint creates a new asset with its own
//! metadata blob and a positive supply issued to its creator; only holders
//! of a positive balance may burn or transfer.

use vstd::prelude::*;
use crate::balances::{AccountId, AssetId, BalanceStore, min_amount};
use crate::ids::{allocate, next_nonce};

verus! {

/// Settings fixed when a ledger is built.
#[derive(Clone, Copy, Debug, PartialEq, Eq, Structural)]
pub struct Config {
    /// Largest accepted byte length of a metadata blob.
    pub max_length: u32,
}

/// Aggregate record of one unique asset.
#[derive(Clone, Debug, PartialEq, Eq)]
pub struct UniqueAssetDetails {
    pub owner: AccountId,
    pub metadata: Vec<u8>,
    pub supply: u128,
}

impl UniqueAssetDetails {
    /// Details of a fresh asset owned by `owner` with `supply` units issued.
    pub fn new(owner: AccountId, metadata: Vec<u8>, supply: u128) -> (r: UniqueAssetDetails)
        ensures
            r == (UniqueAssetDetails { owner, metadata, supply }),
    {
        UniqueAssetDetails { owner, metadata, supply }
    }
}

/// Notification of a completed operation.
#[derive(Clone, Copy, Debug, PartialEq, Eq, Structural)]
pub enum Event {
    /// New unique asset created.
    Created { creator: AccountId, asset_id: AssetId },
    /// Some units have been burned.
    Burned { asset_id: AssetId, owner: AccountId, total_supply: u128 },
    /// Some units have been transferred.
    Transferred { asset_id: AssetId, from: AccountId, to: AccountId, amount: u128 },
}

/// Why an operation was refused.
#[derive(Clone, Copy, Debug, PartialEq, Eq, Structural)]
pub enum Error {
    /// The asset id is unknown.
    UnknownAssetId,
    /// The caller holds none of this asset.
    NotOwned,
    /// The supply must be positive.
    NoSupply,
    /// The metadata blob is longer than the configured bound.
    TooLong,
}

/// `post` and `id` are what a successful `mint` of `supply` units carrying
/// `metadata` by `caller` produces from `pre`.
pub open spec fn mint_step(
    pre: Pallet,
    post: Pallet,
    caller: AccountId,
    metadata: Vec<u8>,
    supply: u128,
    id: AssetId,
) -> bool {
    &&& pre.wf()
    &&& !pre.registered(pre.next_id())
    &&& post.wf()
    &&& id == pre.next_id()
    &&& post.next_id() == next_nonce(pre.next_id())
    &&& post.registry() == pre.registry().push(UniqueAssetDetails { owner: caller, metadata, supply })
    &&& post.registered(id)
    &&& post.balance(id, caller) == supply
    &&& forall|a: AssetId, w: AccountId|
        !(a == id && w == caller) ==> #[trigger] post.balance(a, w) == pre.balance(a, w)
    &&& post.max_len() == pre.max_len()
    &&& post.event_log() == pre.event_log().push(Event::Created { creator: caller, asset_id: id })
}

/// Two consecutive successful mints never hand out the same id.
pub proof fn lemma_mint_ids_fresh(
    s0: Pallet,
    s1: Pallet,
    s2: Pallet,
    a: AccountId,
    b: AccountId,
    meta_a: Vec<u8>,
    meta_b: Vec<u8>,
    supply_a: u128,
    supply_b: u128,
    first: AssetId,
    second: AssetId,
)
    requires
        mint_step(s0, s1, a, meta_a, supply_a, first),
        mint_step(s1, s2, b, meta_b, supply_b, second),
    ensures
        first != second,
{
}

/// In a well-formed ledger the supply of every asset equals the sum of all
/// balances recorded for it, and no balance exceeds that supply.
pub proof fn lemma_supply_is_sum(p: Pallet, id: AssetId, who: AccountId)
    requires
        p.wf(),
        p.registered(id),
    ensures
        p.registry()[id as int].supply as nat == p.store().total(id),
        p.balance(id, who) <= p.registry()[id as int].supply,
{
    assert(p.registry()[id as int].supply as nat == p.store().total(id));
    p.store().lemma_balance_bounded(id, who);
}

/// A unique-asset ledger: registry, balances, id nonce and the events of
/// every successful operation.
pub struct Pallet {
    max_length: u32,
    nonce: AssetId,
    assets: Vec<UniqueAssetDetails>,
    balances: BalanceStore,
    events: Vec<Event>,
}

impl Pallet {
    /// The configured bound on metadata length.
    pub closed spec fn max_len(&self) -> u32 {
        self.max_length
    }

    /// The id the next `mint` hands out.
    pub closed spec fn next_id(&self) -> AssetId {
        self.nonce
    }

    /// Details of each asset, indexed by id.
    pub closed spec fn registry(&self) -> Seq<UniqueAssetDetails> {
        self.assets@
    }

    /// The balance store.
    pub closed spec fn store(&self) -> BalanceStore {
        self.balances
    }

    /// Every event emitted so far, oldest first.
    pub closed spec fn event_log(&self) -> Seq<Event> {
        self.events@
    }

    /// Whether `id` names a minted asset.
    pub open spec fn registered(&self, id: AssetId) -> bool {
        (id as int) < self.registry().len()
    }

    /// The balance of `who` in asset `id`.
    pub open spec fn balance(&self, id: AssetId, who: AccountId) -> u128 {
        self.store().balance(id, who)
    }

    /// The ledger invariant. Each asset's supply is the sum of its balances;
    /// ids are handed out in order from the nonce, which saturates at the
    /// largest id; balances name minted assets only.
    pub open spec fn wf(&self) -> bool {
        &&& self.store().wf()
        &&& (self.next_id() as int == self.registry().len() || (self.next_id() == u32::MAX
            && self.registry().len() == u32::MAX as int + 1))
        &&& self.store().only_below(self.registry().len() as int)
        &&& forall|i: int|
            0 <= i < self.registry().len() ==> (#[trigger] self.registry()[i]).supply as nat
                == self.store().total(i as AssetId)
    }

    /// The check that `burn` and `transfer` make before changing anything.
    pub open spec fn holder_check(&self, caller: AccountId, id: AssetId) -> Result<(), Error> {
        if !self.registered(id) {
            Err(Error::UnknownAssetId)
        } else if self.balance(id, caller) == 0 {
            Err(Error::NotOwned)
        } else {
            Ok(())
        }
    }

    /// What `mint` answers for a supply and a metadata length.
    pub open spec fn mint_check(&self, metadata_len: nat, supply: u128) -> Result<(), Error> {
        if supply == 0 {
            Err(Error::NoSupply)
        } else if metadata_len > self.max_len() {
            Err(Error::TooLong)
        } else {
            Ok(())
        }
    }

    /// An empty ledger.
    pub fn new(config: Config) -> (r: Pallet)
        ensures
            r.wf(),
            r.max_len() == config.max_length,
            r.next_id() == 0,
            r.registry().len() == 0,
            r.event_log().len() == 0,
    {
        Pallet {
            max_length: config.max_length,
            nonce: 0,
            assets: Vec::new(),
            balances: BalanceStore::new(),
            events: Vec::new(),
        }
    }

    /// The id the next `mint` hands out.
    pub fn nonce(&self) -> (r: AssetId)
        ensures
            r == self.next_id(),
    {
        self.nonce
    }

    /// Owner, metadata and supply of asset `id`, if it was minted.
    pub fn unique_asset(&self, id: AssetId) -> (r: Option<UniqueAssetDetails>)
        ensures
            match r {
                Some(d) => self.registered(id) && d.owner == self.registry()[id as int].owner
                    && d.metadata@ == self.registry()[id as int].metadata@
                    && d.supply == self.registry()[id as int].supply,
                None => !self.registered(id),
            },
    {
        if (id as usize) < self.assets.len() {
            let d = &self.assets[id as usize];
            let metadata = d.metadata.clone();
            proof {
                assert(metadata@ =~= d.metadata@);
            }
            Some(UniqueAssetDetails { owner: d.owner, metadata, supply: d.supply })
        } else {
            None
        }
    }

    /// The balance of `who` in asset `id`; zero when never written.
    pub fn account(&self, id: AssetId, who: AccountId) -> (r: u128)
        requires
            self.wf(),
        ensures
            r == self.balance(id, who),
    {
        self.balances.get(id, who)
    }

    /// Every event emitted so far, oldest first.
    pub fn events(&self) -> (r: &Vec<Event>)
        ensures
            r@ == self.event_log(),
    {
        &self.events
    }

    /// Replaces the supply of asset `id`, keeping its owner and metadata.
    fn set_supply(&mut self, id: AssetId, supply: u128)
        requires
            old(self).registered(id),
        ensures
            final(self).registry().len() == old(self).registry().len(),
            forall|i: int| 0 <= i < old(self).registry().len() && i != id as int
                ==> #[trigger] final(self).registry()[i] == old(self).registry()[i],
            final(self).registry()[id as int].owner == old(self).registry()[id as int].owner,
            final(self).registry()[id as int].metadata@ == old(self).registry()[id as int].metadata@,
            final(self).registry()[id as int].supply == supply,
            final(self).store() == old(self).store(),
            final(self).event_log() == old(self).event_log(),
            final(self).next_id() == old(self).next_id(),
            final(self).max_len() == old(self).max_len(),
    {
        let d = &self.assets[id as usize];
        let owner = d.owner;
        let metadata = d.metadata.clone();
        proof {
            assert(metadata@ =~= d.metadata@);
        }
        self.assets.set(id as usize, UniqueAssetDetails { owner, metadata, supply });
    }
}

impl Pallet {
    /// Creates a new asset carrying `metadata`, issues `supply` units of it
    /// to `caller`, and returns its id, taken from the nonce. A zero supply
    /// or an over-long blob is refused before any id is used. The nonce moves
    /// on by one, saturating at the largest id; handing out an id that is
    /// already in use is excluded by the precondition.
    pub fn mint(&mut self, caller: AccountId, metadata: Vec<u8>, supply: u128) -> (r: Result<AssetId, Error>)
        requires
            old(self).wf(),
            !old(self).registered(old(self).next_id()),
        ensures
            final(self).wf(),
            r is Ok <==> old(self).mint_check(metadata@.len(), supply) is Ok,
            r is Err ==> r == Err::<AssetId, Error>(old(self).mint_check(metadata@.len(), supply)->Err_0)
                && *final(self) == *old(self),
            r is Ok ==> mint_step(*old(self), *final(self), caller, metadata, supply, r->Ok_0),
    {
        if supply == 0 {
            return Err(Error::NoSupply);
        }
        if metadata.len() > self.max_length as usize {
            return Err(Error::TooLong);
        }
        let id = allocate(&mut self.nonce);
        proof {
            self.balances.lemma_nothing_above(id as int, id);
        }
        self.assets.push(UniqueAssetDetails::new(caller, metadata, supply));
        self.balances.set(id, caller, supply);
        self.events.push(Event::Created { creator: caller, asset_id: id });
        proof {
            let len = self.assets@.len();
            assert(self.balances.only_below(len as int));
            assert forall|i: int| 0 <= i < len implies (#[trigger] self.registry()[i]).supply as nat
                == self.store().total(i as AssetId) by {
                if i < len - 1 {
                    assert(self.registry()[i] == old(self).registry()[i]);
                }
            }
        }
        Ok(id)
    }

    /// Destroys up to `amount` units of asset `id` held by `caller`, who must
    /// hold some. Asking for more than is held burns exactly what is held.
    /// The supply drops by the units burned.
    pub fn burn(&mut self, caller: AccountId, id: AssetId, amount: u128) -> (r: Result<(), Error>)
        requires
            old(self).wf(),
        ensures
            final(self).wf(),
            r == old(self).holder_check(caller, id),
            r is Err ==> *final(self) == *old(self),
            r is Ok ==> {
                let held = old(self).balance(id, caller);
                let burnt = min_amount(amount, held);
                let old_supply = old(self).registry()[id as int].supply;
                &&& burnt <= old_supply
                &&& final(self).registry().len() == old(self).registry().len()
                &&& forall|i: int| 0 <= i < old(self).registry().len() && i != id as int
                    ==> #[trigger] final(self).registry()[i] == old(self).registry()[i]
                &&& final(self).registry()[id as int].metadata@ == old(self).registry()[id as int].metadata@
                &&& final(self).registry()[id as int].supply == old_supply - burnt
                &&& final(self).balance(id, caller) == held - burnt
                &&& amount >= held ==> final(self).balance(id, caller) == 0
                    && final(self).registry()[id as int].supply == old_supply - held
                &&& forall|a: AssetId, w: AccountId|
                    !(a == id && w == caller) ==> #[trigger] final(self).balance(a, w) == old(self).balance(a, w)
                &&& final(self).next_id() == old(self).next_id()
                &&& final(self).max_len() == old(self).max_len()
                &&& final(self).event_log() == old(self).event_log().push(
                    Event::Burned { asset_id: id, owner: caller, total_supply: (old_supply - burnt) as u128 },
                )
            },
            forall|a: AssetId| old(self).registered(a) ==> #[trigger] final(self).registry()[a as int].owner
                == old(self).registry()[a as int].owner,
    {
        if (id as usize) >= self.assets.len() {
            return Err(Error::UnknownAssetId);
        }
        let held = self.balances.get(id, caller);
        if held == 0 {
            return Err(Error::NotOwned);
        }
        let left = held.saturating_sub(amount);
        let burnt = held - left;
        proof {
            self.balances.lemma_balance_bounded(id, caller);
            assert(old(self).registry()[id as int].supply as nat == old(self).store().total(id));
        }
        self.balances.set(id, caller, left);
        let new_supply = self.assets[id as usize].supply.saturating_sub(burnt);
        self.set_supply(id, new_supply);
        self.events.push(Event::Burned { asset_id: id, owner: caller, total_supply: new_supply });
        proof {
            assert forall|i: int| 0 <= i < self.registry().len() implies (#[trigger] self.registry()[i]).supply as nat
                == self.store().total(i as AssetId) by {
                if i != id as int {
                    assert(self.registry()[i] == old(self).registry()[i]);
                }
            }
        }
        Ok(())
    }

    /// Moves up to `amount` units of asset `id` from `from`, who must hold
    /// some, to `to`. Asking for more than `from` holds moves exactly what it
    /// holds; the event reports the units moved.
    pub fn transfer(&mut self, from: AccountId, id: AssetId, amount: u128, to: AccountId) -> (r: Result<(), Error>)
        requires
            old(self).wf(),
        ensures
            final(self).wf(),
            r == old(self).holder_check(from, id),
            r is Err ==> *final(self) == *old(self),
            r is Ok ==> {
                let moved = min_amount(amount, old(self).balance(id, from));
                &&& from != to ==> final(self).balance(id, from) == old(self).balance(id, from) - moved
                &&& from != to ==> final(self).balance(id, to) == old(self).balance(id, to) + moved
                &&& from == to ==> final(self).balance(id, from) == old(self).balance(id, from)
                &&& amount >= old(self).balance(id, from) && from != to ==> final(self).balance(id, from) == 0
                    && final(self).balance(id, to) == old(self).balance(id, to) + old(self).balance(id, from)
                    && moved == old(self).balance(id, from)
                &&& forall|a: AssetId, w: AccountId|
                    !(a == id && (w == from || w == to)) ==> #[trigger] final(self).balance(a, w)
                        == old(self).balance(a, w)
                &&& final(self).registry() == old(self).registry()
                &&& final(self).next_id() == old(self).next_id()
                &&& final(self).max_len() == old(self).max_len()
                &&& final(self).event_log() == old(self).event_log().push(
                    Event::Transferred { asset_id: id, from, to, amount: moved },
                )
            },
            forall|a: AssetId| old(self).registered(a) ==> #[trigger] final(self).registry()[a as int].owner
                == old(self).registry()[a as int].owner,
    {
        if (id as usize) >= self.assets.len() {
            return Err(Error::UnknownAssetId);
        }
        let held = self.balances.get(id, from);
        if held == 0 {
            return Err(Error::NotOwned);
        }
        let left = held.saturating_sub(amount);
        let moved = held - left;
        proof {
            assert(old(self).registry()[id as int].supply as nat == old(self).store().total(id));
        }
        self.balances.set(id, from, left);
        let credit = self.balances.get(id, to);
        proof {
            self.balances.lemma_balance_bounded(id, to);
        }
        let credited = credit.saturating_add(moved);
        self.balances.set(id, to, credited);
        self.events.push(Event::Transferred { asset_id: id, from, to, amount: credited - credit });
        proof {
            assert forall|i: int| 0 <= i < self.registry().len() implies (#[trigger] self.registry()[i]).supply as nat
                == self.store().total(i as AssetId) by {
                assert(self.registry()[i] == old(self).registry()[i]);
            }
        }
        Ok(())
    }
}

} // verus!
