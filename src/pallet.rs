use vstd::prelude::*;

use crate::model::{
    burn_step, entry, lemma_burn_keeps_wf, lemma_mint_keeps_wf, lemma_transfer_keeps_wf,
    mint_step, ownership_check, transfer_step, RegistryState,
};
use crate::storage::{
    entry_holds, find_account, find_item, ids_view, index_match, items_match, lemma_items_push,
    lemma_items_remove, lemma_items_update, push_to_entry,
    remove_from_entry,
};
use crate::types::{AccountId, CommodityId, Error, Event};

verus! {

/// The ownership registry: the item owner map, the account item index and the
/// live item counter, changed only by `mint`, `burn` and `transfer`.
pub struct Pallet {
    items: Vec<(CommodityId, AccountId)>,
    total: u32,
    accounts: Vec<AccountId>,
    lists: Vec<Vec<CommodityId>>,
    state: Ghost<RegistryState>,
}

impl View for Pallet {
    type V = RegistryState;

    closed spec fn view(&self) -> RegistryState {
        self.state@
    }
}

impl Pallet {
    /// The tables hold the model, and the model is consistent.
    pub closed spec fn wf(&self) -> bool {
        &&& self.state@.wf()
        &&& self.state@.count == self.total as nat
        &&& items_match(self.items@, self.state@.owners)
        &&& index_match(self.accounts@, self.lists@, self.state@.index)
    }

    /// An empty registry.
    pub fn new() -> (r: Pallet)
        ensures
            r.wf(),
            r@ == RegistryState::empty(),
    {
        let r = Pallet {
            items: Vec::new(),
            total: 0,
            accounts: Vec::new(),
            lists: Vec::new(),
            state: Ghost(RegistryState::empty()),
        };
        proof {
            assert(r.state@.owners.dom() =~= Set::empty());
        }
        r
    }

    /// Creates `item` and gives it to `owner`. Anyone may mint: `_caller` is
    /// the authenticated invoker and is not consulted.
    pub fn mint(&mut self, _caller: AccountId, item: CommodityId, owner: AccountId) -> (r: Result<
        Event,
        Error,
    >)
        requires
            old(self).wf(),
            !old(self)@.owners.contains_key(item@) ==> old(self)@.count < u32::MAX,
        ensures
            final(self).wf(),
            match mint_step(old(self)@, item@, owner) {
                Ok(t) => r == Ok::<Event, Error>(Event::Minted(owner, item)) && final(self)@ == t,
                Err(e) => r == Err::<Event, Error>(e) && final(self)@ == old(self)@,
            },
    {
        if find_item(&self.items, &item, Ghost(self.state@.owners)).is_some() {
            return Err(Error::AlreadyExists);
        }
        let ghost s = self.state@;
        let ghost t = mint_step(s, item@, owner)->Ok_0;
        self.total = self.total + 1;
        proof {
            lemma_mint_keeps_wf(s, item@, owner);
            lemma_items_push(self.items@, s.owners, item, owner);
        }
        self.items.push((item, owner));
        push_to_entry(&mut self.accounts, &mut self.lists, Ghost(s.index), owner, item);
        self.state = Ghost(t);
        Ok(Event::Minted(owner, item))
    }

    /// The check shared by `burn` and `transfer`.
    fn check_ownership(&self, item: &CommodityId, owner: AccountId) -> (r: Result<usize, Error>)
        requires
            self.wf(),
        ensures
            match ownership_check(self@, item@, owner) {
                Ok(_) => r matches Ok(k) && k < self.items.len() && self.items@[k as int].0@
                    == item@,
                Err(e) => r == Err::<usize, Error>(e),
            },
    {
        let k = match find_item(&self.items, item, Ghost(self.state@.owners)) {
            Some(k) => k,
            None => {
                return Err(Error::DoesNotExist);
            },
        };
        proof {
            assert(self.state@.owners.contains_key(self.items@[k as int].0@));
        }
        if !entry_holds(&self.accounts, &self.lists, Ghost(self.state@.index), owner, item) {
            return Err(Error::NotTheOwner);
        }
        Ok(k)
    }

    /// Destroys `item`, which `owner`'s index entry must hold.
    pub fn burn(&mut self, _caller: AccountId, item: CommodityId, owner: AccountId) -> (r: Result<
        Event,
        Error,
    >)
        requires
            old(self).wf(),
        ensures
            final(self).wf(),
            match burn_step(old(self)@, item@, owner) {
                Ok(t) => r == Ok::<Event, Error>(Event::Burned(owner, item)) && final(self)@ == t,
                Err(e) => r == Err::<Event, Error>(e) && final(self)@ == old(self)@,
            },
    {
        let k = match self.check_ownership(&item, owner) {
            Ok(k) => k,
            Err(e) => {
                return Err(e);
            },
        };
        let ghost s = self.state@;
        let ghost t = burn_step(s, item@, owner)->Ok_0;
        proof {
            lemma_burn_keeps_wf(s, item@, owner);
            lemma_items_remove(self.items@, s.owners, k as int);
        }
        self.total = self.total - 1;
        self.items.remove(k);
        remove_from_entry(&mut self.accounts, &mut self.lists, Ghost(s.index), owner, &item);
        self.state = Ghost(t);
        Ok(Event::Burned(owner, item))
    }

    /// Gives `item`, which `owner`'s index entry must hold, to `dest`: the
    /// owner map then names `dest`, and the item moves from `owner`'s index
    /// entry to the end of `dest`'s, so that the index stays the inverse of
    /// the owner map.
    pub fn transfer(
        &mut self,
        _caller: AccountId,
        item: CommodityId,
        owner: AccountId,
        dest: AccountId,
    ) -> (r: Result<Event, Error>)
        requires
            old(self).wf(),
        ensures
            final(self).wf(),
            match transfer_step(old(self)@, item@, owner, dest) {
                Ok(t) => r == Ok::<Event, Error>(Event::Transferred { item, from: owner, to: dest })
                    && final(self)@ == t,
                Err(e) => r == Err::<Event, Error>(e) && final(self)@ == old(self)@,
            },
    {
        let k = match self.check_ownership(&item, owner) {
            Ok(k) => k,
            Err(e) => {
                return Err(e);
            },
        };
        let ghost s = self.state@;
        let ghost t = transfer_step(s, item@, owner, dest)->Ok_0;
        let ghost left = s.index.insert(owner, s.held(owner).remove_value(item@));
        proof {
            lemma_transfer_keeps_wf(s, item@, owner, dest);
            lemma_items_update(self.items@, s.owners, k as int, dest);
            assert(self.items@.update(k as int, (self.items@[k as int].0, dest)) == self.items@.update(
                k as int,
                (item, dest),
            )) by {
                assert(self.items@[k as int].0 == item) by {
                    assert(self.items@[k as int].0@ == item@);
                    assert(self.items@[k as int].0 =~= item);
                }
            }
        }
        self.items.set(k, (item, dest));
        remove_from_entry(&mut self.accounts, &mut self.lists, Ghost(s.index), owner, &item);
        push_to_entry(&mut self.accounts, &mut self.lists, Ghost(left), dest, item);
        proof {
            assert(t.index == left.insert(dest, entry(left, dest).push(item@)));
        }
        self.state = Ghost(t);
        Ok(Event::Transferred { item, from: owner, to: dest })
    }

    /// The owner of `item`, if it exists.
    pub fn get_item(&self, item: &CommodityId) -> (r: Option<AccountId>)
        requires
            self.wf(),
        ensures
            r == (if self@.owners.contains_key(item@) {
                Some(self@.owners[item@])
            } else {
                None::<AccountId>
            }),
    {
        match find_item(&self.items, item, Ghost(self.state@.owners)) {
            Some(k) => {
                proof {
                    assert(self.state@.owners.contains_key(self.items@[k as int].0@));
                }
                Some(self.items[k].1)
            },
            None => None,
        }
    }

    /// The number of live items.
    pub fn total_nft(&self) -> (r: u32)
        requires
            self.wf(),
        ensures
            r as nat == self@.count,
    {
        self.total
    }

    /// The items in the index entry of `account`, in order of arrival.
    pub fn commodities_for_account(&self, account: AccountId) -> (r: Vec<CommodityId>)
        requires
            self.wf(),
        ensures
            ids_view(r@) == self@.held(account),
    {
        let mut r: Vec<CommodityId> = Vec::new();
        match find_account(&self.accounts, account, Ghost(self.lists@), Ghost(self.state@.index)) {
            Some(k) => {
                let list = &self.lists[k];
                let mut i: usize = 0;
                while i < list.len()
                    invariant
                        0 <= i <= list.len(),
                        r@ == list@.subrange(0, i as int),
                    decreases list.len() - i,
                {
                    r.push(list[i]);
                    proof {
                        assert(r@ =~= list@.subrange(0, i + 1));
                    }
                    i = i + 1;
                }
                proof {
                    assert(r@ =~= list@);
                }
            },
            None => {
                proof {
                    assert(ids_view(r@) =~= Seq::empty());
                }
            },
        }
        r
    }
}

} // verus!
