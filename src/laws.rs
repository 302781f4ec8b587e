use vstd::prelude::*;

use crate::model::{burn_step, mint_step, transfer_step, RegistryState};
use crate::types::{AccountId, Error};

verus! {

/// An item that does not exist can be neither burned nor transferred: both
/// fail with `DoesNotExist`, whoever is named as its owner.
pub proof fn law_absent_item_is_refused(
    s: RegistryState,
    item: Seq<u8>,
    owner: AccountId,
    dest: AccountId,
)
    requires
        !s.owners.contains_key(item),
    ensures
        burn_step(s, item, owner) == Err::<RegistryState, Error>(Error::DoesNotExist),
        transfer_step(s, item, owner, dest) == Err::<RegistryState, Error>(Error::DoesNotExist),
{
}

/// Once an item is burned, burning or transferring it again fails with
/// `DoesNotExist`.
pub proof fn law_burned_item_is_refused(
    s: RegistryState,
    item: Seq<u8>,
    owner: AccountId,
    claimed: AccountId,
    dest: AccountId,
)
    requires
        s.wf(),
        burn_step(s, item, owner) is Ok,
    ensures
        burn_step(burn_step(s, item, owner)->Ok_0, item, claimed) == Err::<RegistryState, Error>(
            Error::DoesNotExist,
        ),
        transfer_step(burn_step(s, item, owner)->Ok_0, item, claimed, dest) == Err::<
            RegistryState,
            Error,
        >(Error::DoesNotExist),
{
}

/// Minting an item a second time fails with `AlreadyExists`, whoever would
/// receive it (and a refused mint changes nothing).
pub proof fn law_second_mint_is_refused(
    s: RegistryState,
    item: Seq<u8>,
    owner: AccountId,
    other: AccountId,
)
    requires
        mint_step(s, item, owner) is Ok,
    ensures
        mint_step(mint_step(s, item, owner)->Ok_0, item, other) == Err::<RegistryState, Error>(
            Error::AlreadyExists,
        ),
{
}

/// After a mint the counter has grown by one, the owner's index entry holds
/// the item, and the owner map gives the item to the owner.
pub proof fn law_mint_records_item(s: RegistryState, item: Seq<u8>, owner: AccountId)
    requires
        mint_step(s, item, owner) is Ok,
    ensures
        ({
            let t = mint_step(s, item, owner)->Ok_0;
            &&& t.count == s.count + 1
            &&& t.held(owner).contains(item)
            &&& t.owners.contains_key(item)
            &&& t.owners[item] == owner
        }),
{
    let t = mint_step(s, item, owner)->Ok_0;
    assert(t.held(owner)[t.held(owner).len() - 1] == item);
}

/// After a burn the counter has shrunk by one, and the item is gone from the
/// owner map and from the owner's index entry.
pub proof fn law_burn_erases_item(s: RegistryState, item: Seq<u8>, owner: AccountId)
    requires
        s.wf(),
        burn_step(s, item, owner) is Ok,
    ensures
        ({
            let t = burn_step(s, item, owner)->Ok_0;
            &&& t.count + 1 == s.count
            &&& !t.owners.contains_key(item)
            &&& !t.held(owner).contains(item)
        }),
{
    crate::model::lemma_remove_value(s.held(owner), item);
}

/// Minting an item and then burning it from the same owner succeeds and
/// leaves the counter, the owner map and every account's index entry as
/// they were before the mint.
pub proof fn law_mint_then_burn_restores(s: RegistryState, item: Seq<u8>, owner: AccountId)
    requires
        s.wf(),
        mint_step(s, item, owner) is Ok,
    ensures
        burn_step(mint_step(s, item, owner)->Ok_0, item, owner) is Ok,
        ({
            let t = burn_step(mint_step(s, item, owner)->Ok_0, item, owner)->Ok_0;
            &&& t.count == s.count
            &&& t.owners == s.owners
            &&& forall|a: AccountId| #[trigger] t.held(a) == s.held(a)
        }),
{
    let m = mint_step(s, item, owner)->Ok_0;
    let before = s.held(owner);
    let grown = m.held(owner);
    assert(!before.contains(item));
    assert(grown[before.len() as int] == item);
    grown.index_of_first_ensures(item);
    let f = grown.index_of_first(item).unwrap();
    assert(f == before.len()) by {
        if f < before.len() {
            assert(before[f] == item);
        }
    }
    assert(grown.remove_value(item) =~= before);
    let t = burn_step(m, item, owner)->Ok_0;
    assert(t.owners =~= s.owners);
}

/// A transfer gives the item to `dest` in the owner map, moves it into
/// `dest`'s index entry and out of `owner`'s, and leaves the counter and the
/// set of live items alone.
pub proof fn law_transfer_moves_item(
    s: RegistryState,
    item: Seq<u8>,
    owner: AccountId,
    dest: AccountId,
)
    requires
        s.wf(),
        transfer_step(s, item, owner, dest) is Ok,
    ensures
        ({
            let t = transfer_step(s, item, owner, dest)->Ok_0;
            &&& t.owners.contains_key(item)
            &&& t.owners[item] == dest
            &&& t.count == s.count
            &&& t.owners.dom() == s.owners.dom()
            &&& t.held(dest).contains(item)
            &&& owner != dest ==> !t.held(owner).contains(item)
        }),
{
    let t = transfer_step(s, item, owner, dest)->Ok_0;
    crate::model::lemma_remove_value(s.held(owner), item);
    assert(t.held(dest)[t.held(dest).len() - 1] == item);
    assert(t.owners.dom() =~= s.owners.dom());
}

/// Minting each item of `items`, one after another, to `owner`.
pub open spec fn mint_all(s: RegistryState, items: Seq<Seq<u8>>, owner: AccountId) -> Result<
    RegistryState,
    Error,
>
    decreases items.len(),
{
    if items.len() == 0 {
        Ok(s)
    } else {
        match mint_all(s, items.drop_last(), owner) {
            Ok(t) => mint_step(t, items.last(), owner),
            Err(e) => Err(e),
        }
    }
}

/// Minting distinct items one after another to one account of an empty
/// registry succeeds, and leaves that account's index entry holding exactly
/// those items, in that order, with the counter equal to their number.
pub proof fn law_sequential_mints(items: Seq<Seq<u8>>, owner: AccountId)
    requires
        items.no_duplicates(),
    ensures
        mint_all(RegistryState::empty(), items, owner) is Ok,
        ({
            let t = mint_all(RegistryState::empty(), items, owner)->Ok_0;
            &&& t.owners.dom() == items.to_set()
            &&& t.held(owner) == items
            &&& t.held(owner).no_duplicates()
            &&& t.count == items.len()
            &&& t.wf()
        }),
    decreases items.len(),
{
    if items.len() == 0 {
        let e = RegistryState::empty();
        assert(e.owners.dom() =~= Set::empty());
        assert(items.to_set() =~= Set::empty());
    } else {
        let init = items.drop_last();
        assert(init.no_duplicates());
        law_sequential_mints(init, owner);
        let t = mint_all(RegistryState::empty(), init, owner)->Ok_0;
        let x = items.last();
        assert(!t.owners.contains_key(x)) by {
            if init.to_set().contains(x) {
                let i = choose|i: int| 0 <= i < init.len() && init[i] == x;
                assert(items[i] == x);
                assert(items[items.len() - 1] == x);
            }
        }
        let u = mint_step(t, x, owner)->Ok_0;
        assert forall|y: Seq<u8>| u.owners.dom().contains(y) <==> items.to_set().contains(y) by {
            if items.to_set().contains(y) && y != x {
                let i = choose|i: int| 0 <= i < items.len() && items[i] == y;
                assert(init[i] == y);
            }
            if init.to_set().contains(y) {
                let i = choose|i: int| 0 <= i < init.len() && init[i] == y;
                assert(items[i] == y);
            }
            if y == x {
                assert(items[items.len() - 1] == y);
            }
        }
        assert(u.owners.dom() =~= items.to_set());
        crate::model::lemma_mint_keeps_wf(t, x, owner);
        assert(t.held(owner).push(x) =~= items);
    }
}

} // verus!
