//! The fungible asset class: assets created empty by an owner, minted to any
//! account, burned and transferred with saturating arithmetic.

use vstd::prelude::*;
use crate::balances::{AccountId, AssetId, BalanceStore, min_amount, sat_add};
use crate::ids::{allocate, next_nonce};

verus! {

/// Settings fixed when a ledger is built.
#[derive(Clone, Copy, Debug, PartialEq, Eq, Structural)]
pub struct Config {
    /// Largest accepted byte length of a name or a symbol.
    pub max_length: u32,
}

/// Aggregate record of one fungible asset.
#[derive(Clone, Copy, Debug, PartialEq, Eq, Structural)]
pub struct AssetDetails {
    pub owner: AccountId,
    pub supply: u128,
}

impl AssetDetails {
    /// Details of a fresh asset: owned by `owner`, nothing issued.
    pub fn new(owner: AccountId) -> (r: AssetDetails)
        ensures
            r == (AssetDetails { owner, supply: 0 }),
    {
        AssetDetails { owner, supply: 0 }
    }
}

/// Descriptive name and symbol of an asset.
#[derive(Clone, Debug, PartialEq, Eq)]
pub struct AssetMetadata {
    pub name: Vec<u8>,
    pub symbol: Vec<u8>,
}

/// Notification of a completed operation.
#[derive(Clone, Debug, PartialEq, Eq)]
pub enum Event {
    /// New asset created.
    Created { owner: AccountId, asset_id: AssetId },
    /// New metadata has been set for an asset.
    MetadataSet { asset_id: AssetId, name: Vec<u8>, symbol: Vec<u8> },
    /// Some units have been minted.
    Minted { asset_id: AssetId, owner: AccountId, total_supply: u128 },
    /// Some units have been burned.
    Burned { asset_id: AssetId, owner: AccountId, total_supply: u128 },
    /// Some units have been transferred.
    Transferred { asset_id: AssetId, from: AccountId, to: AccountId, amount: u128 },
}

/// Why an operation was refused.
#[derive(Clone, Copy, Debug, PartialEq, Eq, Structural)]
pub enum Error {
    /// The asset id is unknown.
    UnknownAssetId,
    /// The caller has no permission to do the operation.
    NoPermission,
    /// A name or symbol is longer than the configured bound.
    TooLong,
}

/// `post` and `id` are what `create` by `caller` produces from `pre`.
pub open spec fn create_step(pre: Pallet, post: Pallet, caller: AccountId, id: AssetId) -> bool {
    &&& pre.wf()
    &&& !pre.registered(pre.next_id())
    &&& post.wf()
    &&& id == pre.next_id()
    &&& post.next_id() == next_nonce(pre.next_id())
    &&& post.registry() == pre.registry().push(AssetDetails { owner: caller, supply: 0 })
    &&& post.registered(id)
    &&& post.registry()[id as int] == (AssetDetails { owner: caller, supply: 0 })
    &&& post.meta() == pre.meta().push(None)
    &&& post.store() == pre.store()
    &&& post.max_len() == pre.max_len()
    &&& post.event_log() == pre.event_log().push(Event::Created { owner: caller, asset_id: id })
}

/// Two consecutive creations never hand out the same id.
pub proof fn lemma_create_ids_fresh(
    s0: Pallet,
    s1: Pallet,
    s2: Pallet,
    a: AccountId,
    b: AccountId,
    first: AssetId,
    second: AssetId,
)
    requires
        create_step(s0, s1, a, first),
        create_step(s1, s2, b, second),
    ensures
        first != second,
{
}

/// In a well-formed ledger the supply of every asset equals the sum of all
/// balances recorded for it, and no balance exceeds that supply.
pub proof fn lemma_supply_is_sum(p: Pallet, id: AssetId, who: AccountId)
    requires
        p.wf(),
        p.registered(id),
    ensures
        p.registry()[id as int].supply as nat == p.store().total(id),
        p.balance(id, who) <= p.registry()[id as int].supply,
{
    assert(p.registry()[id as int].supply as nat == p.store().total(id));
    p.store().lemma_balance_bounded(id, who);
}

/// A fungible-asset ledger: registry, metadata, balances, id nonce and the
/// events of every successful operation.
pub struct Pallet {
    max_length: u32,
    nonce: AssetId,
    assets: Vec<AssetDetails>,
    metadata: Vec<Option<AssetMetadata>>,
    balances: BalanceStore,
    events: Vec<Event>,
}

impl Pallet {
    /// The configured bound on name and symbol lengths.
    pub closed spec fn max_len(&self) -> u32 {
        self.max_length
    }

    /// The id the next `create` hands out.
    pub closed spec fn next_id(&self) -> AssetId {
        self.nonce
    }

    /// Details of each asset, indexed by id.
    pub closed spec fn registry(&self) -> Seq<AssetDetails> {
        self.assets@
    }

    /// Name and symbol of each asset, indexed by id; `None` until set.
    pub closed spec fn meta(&self) -> Seq<Option<(Seq<u8>, Seq<u8>)>> {
        self.metadata@.map_values(
            |m: Option<AssetMetadata>|
                match m {
                    Some(md) => Some((md.name@, md.symbol@)),
                    None => None,
                },
        )
    }

    /// The balance store.
    pub closed spec fn store(&self) -> BalanceStore {
        self.balances
    }

    /// Every event emitted so far, oldest first.
    pub closed spec fn event_log(&self) -> Seq<Event> {
        self.events@
    }

    /// Whether `id` names a created asset.
    pub open spec fn registered(&self, id: AssetId) -> bool {
        (id as int) < self.registry().len()
    }

    /// The balance of `who` in asset `id`.
    pub open spec fn balance(&self, id: AssetId, who: AccountId) -> u128 {
        self.store().balance(id, who)
    }

    /// The ledger invariant. Each asset's supply is the sum of its balances;
    /// ids are handed out in order from the nonce, which saturates at the
    /// largest id; balances name created assets only.
    pub open spec fn wf(&self) -> bool {
        &&& self.store().wf()
        &&& self.meta().len() == self.registry().len()
        &&& (self.next_id() as int == self.registry().len() || (self.next_id() == u32::MAX
            && self.registry().len() == u32::MAX as int + 1))
        &&& self.store().only_below(self.registry().len() as int)
        &&& forall|i: int|
            0 <= i < self.registry().len() ==> (#[trigger] self.registry()[i]).supply as nat
                == self.store().total(i as AssetId)
    }

    /// What `set_metadata` answers, given the lengths of name and symbol.
    pub open spec fn metadata_outcome(&self, caller: AccountId, id: AssetId, name_len: nat, symbol_len: nat) -> Result<(), Error> {
        if !self.registered(id) {
            Err(Error::UnknownAssetId)
        } else if self.registry()[id as int].owner != caller {
            Err(Error::NoPermission)
        } else if name_len > self.max_len() || symbol_len > self.max_len() {
            Err(Error::TooLong)
        } else {
            Ok(())
        }
    }

    /// An empty ledger.
    pub fn new(config: Config) -> (r: Pallet)
        ensures
            r.wf(),
            r.max_len() == config.max_length,
            r.next_id() == 0,
            r.registry().len() == 0,
            r.event_log().len() == 0,
    {
        let r = Pallet {
            max_length: config.max_length,
            nonce: 0,
            assets: Vec::new(),
            metadata: Vec::new(),
            balances: BalanceStore::new(),
            events: Vec::new(),
        };
        proof {
            assert(r.meta() =~= Seq::empty());
        }
        r
    }

    /// The id the next `create` hands out.
    pub fn nonce(&self) -> (r: AssetId)
        ensures
            r == self.next_id(),
    {
        self.nonce
    }

    /// Details of asset `id`, if it was created.
    pub fn asset(&self, id: AssetId) -> (r: Option<AssetDetails>)
        ensures
            r == (if self.registered(id) { Some(self.registry()[id as int]) } else { None }),
    {
        if (id as usize) < self.assets.len() {
            Some(self.assets[id as usize])
        } else {
            None
        }
    }

    /// The balance of `who` in asset `id`; zero when never written.
    pub fn account(&self, id: AssetId, who: AccountId) -> (r: u128)
        requires
            self.wf(),
        ensures
            r == self.balance(id, who),
    {
        self.balances.get(id, who)
    }

    /// Name and symbol of asset `id`, if they were set.
    pub fn metadata(&self, id: AssetId) -> (r: Option<AssetMetadata>)
        requires
            self.wf(),
        ensures
            self.registered(id) ==> match r {
                Some(m) => self.meta()[id as int] == Some((m.name@, m.symbol@)),
                None => self.meta()[id as int] is None,
            },
            !self.registered(id) ==> r is None,
    {
        if (id as usize) < self.metadata.len() {
            match &self.metadata[id as usize] {
                Some(m) => {
                    let r = AssetMetadata { name: m.name.clone(), symbol: m.symbol.clone() };
                    proof {
                        assert(r.name@ =~= m.name@);
                        assert(r.symbol@ =~= m.symbol@);
                    }
                    Some(r)
                },
                None => None,
            }
        } else {
            None
        }
    }

    /// Every event emitted so far, oldest first.
    pub fn events(&self) -> (r: &Vec<Event>)
        ensures
            r@ == self.event_log(),
    {
        &self.events
    }
}

impl Pallet {
    /// Creates an asset owned by `caller` with nothing issued, and returns
    /// its id, taken from the nonce. The nonce then moves on by one,
    /// saturating at the largest id; handing out an id that is already in use
    /// is excluded by the precondition.
    pub fn create(&mut self, caller: AccountId) -> (r: AssetId)
        requires
            old(self).wf(),
            !old(self).registered(old(self).next_id()),
        ensures
            create_step(*old(self), *final(self), caller, r),
    {
        let id = allocate(&mut self.nonce);
        let details = AssetDetails::new(caller);
        self.assets.push(details);
        self.metadata.push(None);
        self.events.push(Event::Created { owner: caller, asset_id: id });
        proof {
            let len = self.assets@.len();
            assert(self.meta() =~= old(self).meta().push(None));
            self.balances.lemma_nothing_above(id as int, id);
            assert(self.balances.only_below(len as int));
            assert forall|i: int| 0 <= i < len implies (#[trigger] self.registry()[i]).supply as nat
                == self.store().total(i as AssetId) by {
                if i < len - 1 {
                    assert(self.registry()[i] == old(self).registry()[i]);
                }
            }
        }
        id
    }

    fn ensure_is_owner(&self, id: AssetId, account: AccountId) -> (r: Result<(), Error>)
        ensures
            r == (if !self.registered(id) {
                Err(Error::UnknownAssetId)
            } else if self.registry()[id as int].owner != account {
                Err(Error::NoPermission)
            } else {
                Ok(())
            }),
    {
        match self.asset(id) {
            None => Err(Error::UnknownAssetId),
            Some(details) => {
                if details.owner != account {
                    Err(Error::NoPermission)
                } else {
                    Ok(())
                }
            },
        }
    }

    /// Attaches `name` and `symbol` to asset `id`, replacing earlier ones.
    /// Only the asset's owner may do so, and each byte string is at most the
    /// configured length. On any error nothing changes.
    pub fn set_metadata(&mut self, caller: AccountId, id: AssetId, name: Vec<u8>, symbol: Vec<u8>) -> (r: Result<(), Error>)
        requires
            old(self).wf(),
        ensures
            final(self).wf(),
            r == old(self).metadata_outcome(caller, id, name@.len(), symbol@.len()),
            r is Err ==> *final(self) == *old(self),
            r is Ok ==> {
                &&& final(self).meta() == old(self).meta().update(id as int, Some((name@, symbol@)))
                &&& final(self).registry() == old(self).registry()
                &&& final(self).next_id() == old(self).next_id()
                &&& final(self).store() == old(self).store()
                &&& final(self).max_len() == old(self).max_len()
                &&& final(self).event_log() == old(self).event_log().push(
                    Event::MetadataSet { asset_id: id, name, symbol },
                )
            },
            forall|a: AssetId| old(self).registered(a) ==> #[trigger] final(self).registry()[a as int].owner
                == old(self).registry()[a as int].owner,
    {
        self.ensure_is_owner(id, caller)?;
        if name.len() > self.max_length as usize || symbol.len() > self.max_length as usize {
            return Err(Error::TooLong);
        }
        let stored = AssetMetadata { name: name.clone(), symbol: symbol.clone() };
        proof {
            assert(stored.name@ =~= name@);
            assert(stored.symbol@ =~= symbol@);
        }
        self.metadata.set(id as usize, Some(stored));
        self.events.push(Event::MetadataSet { asset_id: id, name, symbol });
        proof {
            assert(self.meta() =~= old(self).meta().update(id as int, Some((name@, symbol@))));
        }
        Ok(())
    }

    /// Issues `amount` more units of asset `id` to `to`, saturating the
    /// supply at the largest `u128`; the units actually issued are credited to
    /// `to`. The caller is not required to be the asset's owner: issuing is
    /// open to any account.
    pub fn mint(&mut self, _caller: AccountId, id: AssetId, amount: u128, to: AccountId) -> (r: Result<(), Error>)
        requires
            old(self).wf(),
        ensures
            final(self).wf(),
            r is Err <==> !old(self).registered(id),
            r is Err ==> r == Err::<(), Error>(Error::UnknownAssetId) && *final(self) == *old(self),
            r is Ok ==> {
                let old_supply = old(self).registry()[id as int].supply;
                let new_supply = sat_add(old_supply, amount);
                &&& final(self).registry() == old(self).registry().update(
                    id as int,
                    AssetDetails { owner: old(self).registry()[id as int].owner, supply: new_supply },
                )
                &&& final(self).balance(id, to) == old(self).balance(id, to) + (new_supply - old_supply)
                &&& forall|a: AssetId, w: AccountId|
                    !(a == id && w == to) ==> #[trigger] final(self).balance(a, w) == old(self).balance(a, w)
                &&& final(self).meta() == old(self).meta()
                &&& final(self).next_id() == old(self).next_id()
                &&& final(self).max_len() == old(self).max_len()
                &&& final(self).event_log() == old(self).event_log().push(
                    Event::Minted { asset_id: id, owner: to, total_supply: new_supply },
                )
            },
            forall|a: AssetId| old(self).registered(a) ==> #[trigger] final(self).registry()[a as int].owner
                == old(self).registry()[a as int].owner,
    {
        if (id as usize) >= self.assets.len() {
            return Err(Error::UnknownAssetId);
        }
        let details = self.assets[id as usize];
        let old_supply = details.supply;
        let new_supply = old_supply.saturating_add(amount);
        let minted = new_supply - old_supply;
        proof {
            self.balances.lemma_balance_bounded(id, to);
        }
        let credit = |balance: u128| -> (r: u128)
            requires
                balance + minted <= u128::MAX,
            ensures
                r == balance + minted,
            {
                balance + minted
            };
        self.balances.mutate(id, to, credit);
        self.assets.set(id as usize, AssetDetails { owner: details.owner, supply: new_supply });
        self.events.push(Event::Minted { asset_id: id, owner: to, total_supply: new_supply });
        proof {
            assert forall|i: int| 0 <= i < self.registry().len() implies (#[trigger] self.registry()[i]).supply as nat
                == self.store().total(i as AssetId) by {
                if i != id as int {
                    assert(self.registry()[i] == old(self).registry()[i]);
                }
            }
        }
        Ok(())
    }

    /// Destroys up to `amount` units of asset `id` held by `caller`. Asking
    /// for more than is held burns exactly what is held; a zero balance burns
    /// nothing and still succeeds. The supply drops by the units burned.
    pub fn burn(&mut self, caller: AccountId, id: AssetId, amount: u128) -> (r: Result<(), Error>)
        requires
            old(self).wf(),
        ensures
            final(self).wf(),
            r is Err <==> !old(self).registered(id),
            r is Err ==> r == Err::<(), Error>(Error::UnknownAssetId) && *final(self) == *old(self),
            r is Ok ==> {
                let held = old(self).balance(id, caller);
                let burnt = min_amount(amount, held);
                let old_supply = old(self).registry()[id as int].supply;
                &&& burnt <= old_supply
                &&& final(self).registry() == old(self).registry().update(
                    id as int,
                    AssetDetails { owner: old(self).registry()[id as int].owner, supply: (old_supply - burnt) as u128 },
                )
                &&& final(self).balance(id, caller) == held - burnt
                &&& amount >= held ==> final(self).balance(id, caller) == 0
                    && final(self).registry()[id as int].supply == old_supply - held
                &&& forall|a: AssetId, w: AccountId|
                    !(a == id && w == caller) ==> #[trigger] final(self).balance(a, w) == old(self).balance(a, w)
                &&& final(self).meta() == old(self).meta()
                &&& final(self).next_id() == old(self).next_id()
                &&& final(self).max_len() == old(self).max_len()
                &&& final(self).event_log() == old(self).event_log().push(
                    Event::Burned { asset_id: id, owner: caller, total_supply: (old_supply - burnt) as u128 },
                )
            },
            forall|a: AssetId| old(self).registered(a) ==> #[trigger] final(self).registry()[a as int].owner
                == old(self).registry()[a as int].owner,
    {
        if (id as usize) >= self.assets.len() {
            return Err(Error::UnknownAssetId);
        }
        let held = self.balances.get(id, caller);
        let left = held.saturating_sub(amount);
        let burnt = held - left;
        proof {
            self.balances.lemma_balance_bounded(id, caller);
        }
        self.balances.set(id, caller, left);
        let details = self.assets[id as usize];
        let new_supply = details.supply.saturating_sub(burnt);
        self.assets.set(id as usize, AssetDetails { owner: details.owner, supply: new_supply });
        self.events.push(Event::Burned { asset_id: id, owner: caller, total_supply: new_supply });
        proof {
            assert forall|i: int| 0 <= i < self.registry().len() implies (#[trigger] self.registry()[i]).supply as nat
                == self.store().total(i as AssetId) by {
                if i != id as int {
                    assert(self.registry()[i] == old(self).registry()[i]);
                }
            }
        }
        Ok(())
    }

    /// Moves up to `amount` units of asset `id` from `from` to `to`. Asking
    /// for more than `from` holds moves exactly what it holds; the event
    /// reports the units moved. A transfer to oneself changes nothing.
    pub fn transfer(&mut self, from: AccountId, id: AssetId, amount: u128, to: AccountId) -> (r: Result<(), Error>)
        requires
            old(self).wf(),
        ensures
            final(self).wf(),
            r is Err <==> !old(self).registered(id),
            r is Err ==> r == Err::<(), Error>(Error::UnknownAssetId) && *final(self) == *old(self),
            r is Ok ==> {
                let moved = min_amount(amount, old(self).balance(id, from));
                &&& from != to ==> final(self).balance(id, from) == old(self).balance(id, from) - moved
                &&& from != to ==> final(self).balance(id, to) == old(self).balance(id, to) + moved
                &&& from == to ==> final(self).balance(id, from) == old(self).balance(id, from)
                &&& amount >= old(self).balance(id, from) && from != to ==> final(self).balance(id, from) == 0
                    && final(self).balance(id, to) == old(self).balance(id, to) + old(self).balance(id, from)
                    && moved == old(self).balance(id, from)
                &&& forall|a: AssetId, w: AccountId|
                    !(a == id && (w == from || w == to)) ==> #[trigger] final(self).balance(a, w)
                        == old(self).balance(a, w)
                &&& final(self).registry() == old(self).registry()
                &&& final(self).meta() == old(self).meta()
                &&& final(self).next_id() == old(self).next_id()
                &&& final(self).max_len() == old(self).max_len()
                &&& final(self).event_log() == old(self).event_log().push(
                    Event::Transferred { asset_id: id, from, to, amount: moved },
                )
            },
            forall|a: AssetId| old(self).registered(a) ==> #[trigger] final(self).registry()[a as int].owner
                == old(self).registry()[a as int].owner,
    {
        if (id as usize) >= self.assets.len() {
            return Err(Error::UnknownAssetId);
        }
        let held = self.balances.get(id, from);
        let left = held.saturating_sub(amount);
        let moved = held - left;
        proof {
            assert(old(self).registry()[id as int].supply as nat == old(self).store().total(id));
        }
        self.balances.set(id, from, left);
        let credit = self.balances.get(id, to);
        proof {
            self.balances.lemma_balance_bounded(id, to);
        }
        let credited = credit.saturating_add(moved);
        self.balances.set(id, to, credited);
        let amount_moved = credited - credit;
        self.events.push(Event::Transferred { asset_id: id, from, to, amount: amount_moved });
        proof {
            assert forall|i: int| 0 <= i < self.registry().len() implies (#[trigger] self.registry()[i]).supply as nat
                == self.store().total(i as AssetId) by {
                assert(self.registry()[i] == old(self).registry()[i]);
            }
        }
        Ok(())
    }
}

} // verus!
