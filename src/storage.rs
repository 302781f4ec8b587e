use vstd::prelude::*;

use crate::model::entry;
use crate::types::{same_id, AccountId, CommodityId};

verus! {

/// The identifiers of a list of items, as byte sequences.
pub open spec fn ids_view(v: Seq<CommodityId>) -> Seq<Seq<u8>> {
    v.map_values(|c: CommodityId| c@)
}

/// The item table `items` stores exactly the map `owners`, one row per item.
pub open spec fn items_match(
    items: Seq<(CommodityId, AccountId)>,
    owners: Map<Seq<u8>, AccountId>,
) -> bool {
    &&& forall|k: int|
        0 <= k < items.len() ==> {
            &&& owners.contains_key(#[trigger] items[k].0@)
            &&& owners[items[k].0@] == items[k].1
        }
    &&& forall|i: Seq<u8>| #[trigger]
        owners.contains_key(i) ==> exists|k: int| 0 <= k < items.len() && items[k].0@ == i
    &&& forall|k1: int, k2: int|
        0 <= k1 < items.len() && 0 <= k2 < items.len() && k1 != k2 ==> #[trigger] items[k1].0@
            != #[trigger] items[k2].0@
}

/// The account table (`accounts` beside `lists`) stores exactly the map `index`,
/// one row per account.
pub open spec fn index_match(
    accounts: Seq<AccountId>,
    lists: Seq<Vec<CommodityId>>,
    index: Map<AccountId, Seq<Seq<u8>>>,
) -> bool {
    &&& accounts.len() == lists.len()
    &&& forall|k: int|
        0 <= k < accounts.len() ==> {
            &&& index.contains_key(#[trigger] accounts[k])
            &&& index[accounts[k]] == ids_view(lists[k]@)
        }
    &&& forall|a: AccountId| #[trigger]
        index.contains_key(a) ==> exists|k: int| 0 <= k < accounts.len() && accounts[k] == a
    &&& accounts.no_duplicates()
}

/// The row of `item` in the item table, if it has one.
pub(crate) fn find_item(items: &Vec<(CommodityId, AccountId)>, item: &CommodityId, owners: Ghost<
    Map<Seq<u8>, AccountId>,
>) -> (r: Option<usize>)
    requires
        items_match(items@, owners@),
    ensures
        match r {
            Some(k) => k < items.len() && items@[k as int].0@ == item@,
            None => !owners@.contains_key(item@),
        },
{
    let mut i: usize = 0;
    while i < items.len()
        invariant
            0 <= i <= items.len(),
            forall|j: int| 0 <= j < i ==> items@[j].0@ != item@,
        decreases items.len() - i,
    {
        if same_id(&items[i].0, item) {
            return Some(i);
        }
        i = i + 1;
    }
    None
}

/// The row of account `a` in the account table, if it has one.
pub(crate) fn find_account(accounts: &Vec<AccountId>, a: AccountId, lists: Ghost<Seq<Vec<CommodityId>>>, index: Ghost<
    Map<AccountId, Seq<Seq<u8>>>,
>) -> (r: Option<usize>)
    requires
        index_match(accounts@, lists@, index@),
    ensures
        match r {
            Some(k) => k < accounts.len() && accounts@[k as int] == a,
            None => !index@.contains_key(a),
        },
{
    let mut i: usize = 0;
    while i < accounts.len()
        invariant
            0 <= i <= accounts.len(),
            forall|j: int| 0 <= j < i ==> accounts@[j] != a,
        decreases accounts.len() - i,
    {
        if accounts[i] == a {
            return Some(i);
        }
        i = i + 1;
    }
    None
}

/// The first position of `item` in `list`, if it occurs there.
pub(crate) fn position(list: &Vec<CommodityId>, item: &CommodityId) -> (r: Option<usize>)
    ensures
        match r {
            Some(k) => {
                &&& k < list.len()
                &&& ids_view(list@)[k as int] == item@
                &&& forall|j: int| 0 <= j < k ==> ids_view(list@)[j] != item@
            },
            None => !ids_view(list@).contains(item@),
        },
{
    let mut i: usize = 0;
    while i < list.len()
        invariant
            0 <= i <= list.len(),
            forall|j: int| 0 <= j < i ==> ids_view(list@)[j] != item@,
        decreases list.len() - i,
    {
        if same_id(&list[i], item) {
            return Some(i);
        }
        i = i + 1;
    }
    None
}

pub(crate) proof fn lemma_items_push(
    items: Seq<(CommodityId, AccountId)>,
    owners: Map<Seq<u8>, AccountId>,
    c: CommodityId,
    o: AccountId,
)
    requires
        items_match(items, owners),
        !owners.contains_key(c@),
    ensures
        items_match(items.push((c, o)), owners.insert(c@, o)),
{
    let t = items.push((c, o));
    let m = owners.insert(c@, o);
    assert forall|i: Seq<u8>| #[trigger] m.contains_key(i) implies exists|k: int|
        0 <= k < t.len() && t[k].0@ == i by {
        if i == c@ {
            assert(t[items.len() as int].0@ == i);
        } else {
            let k = choose|k: int| 0 <= k < items.len() && items[k].0@ == i;
            assert(t[k].0@ == i);
        }
    }
    assert forall|k: int| 0 <= k < t.len() implies {
        &&& m.contains_key(#[trigger] t[k].0@)
        &&& m[t[k].0@] == t[k].1
    } by {
        if k < items.len() {
            assert(t[k] == items[k]);
            assert(owners.contains_key(items[k].0@));
        }
    }
    assert forall|k1: int, k2: int|
        0 <= k1 < t.len() && 0 <= k2 < t.len() && k1 != k2 implies #[trigger] t[k1].0@
        != #[trigger] t[k2].0@ by {
        if k1 < items.len() {
            assert(owners.contains_key(items[k1].0@));
        }
        if k2 < items.len() {
            assert(owners.contains_key(items[k2].0@));
        }
    }
}

pub(crate) proof fn lemma_items_update(
    items: Seq<(CommodityId, AccountId)>,
    owners: Map<Seq<u8>, AccountId>,
    k: int,
    d: AccountId,
)
    requires
        items_match(items, owners),
        0 <= k < items.len(),
    ensures
        items_match(items.update(k, (items[k].0, d)), owners.insert(items[k].0@, d)),
{
    let t = items.update(k, (items[k].0, d));
    let m = owners.insert(items[k].0@, d);
    assert forall|i: Seq<u8>| #[trigger] m.contains_key(i) implies exists|j: int|
        0 <= j < t.len() && t[j].0@ == i by {
        if i == items[k].0@ {
            assert(t[k].0@ == i);
        } else {
            let j = choose|j: int| 0 <= j < items.len() && items[j].0@ == i;
            assert(t[j].0@ == i);
        }
    }
    assert forall|j: int| 0 <= j < t.len() implies {
        &&& m.contains_key(#[trigger] t[j].0@)
        &&& m[t[j].0@] == t[j].1
    } by {
        if j != k {
            assert(t[j] == items[j]);
            assert(items[j].0@ != items[k].0@);
        }
    }
    assert forall|k1: int, k2: int|
        0 <= k1 < t.len() && 0 <= k2 < t.len() && k1 != k2 implies #[trigger] t[k1].0@
        != #[trigger] t[k2].0@ by {
        assert(items[k1].0@ != items[k2].0@);
    }
}

pub(crate) proof fn lemma_items_remove(
    items: Seq<(CommodityId, AccountId)>,
    owners: Map<Seq<u8>, AccountId>,
    k: int,
)
    requires
        items_match(items, owners),
        0 <= k < items.len(),
    ensures
        items_match(items.remove(k), owners.remove(items[k].0@)),
{
    let t = items.remove(k);
    let m = owners.remove(items[k].0@);
    assert forall|i: Seq<u8>| #[trigger] m.contains_key(i) implies exists|j: int|
        0 <= j < t.len() && t[j].0@ == i by {
        let j = choose|j: int| 0 <= j < items.len() && items[j].0@ == i;
        if j < k {
            assert(t[j].0@ == i);
        } else {
            assert(t[j - 1].0@ == i);
        }
    }
    assert forall|j: int| 0 <= j < t.len() implies {
        &&& m.contains_key(#[trigger] t[j].0@)
        &&& m[t[j].0@] == t[j].1
    } by {
        if j < k {
            assert(t[j] == items[j]);
            assert(items[j].0@ != items[k].0@);
        } else {
            assert(t[j] == items[j + 1]);
            assert(items[j + 1].0@ != items[k].0@);
        }
    }
    assert forall|k1: int, k2: int|
        0 <= k1 < t.len() && 0 <= k2 < t.len() && k1 != k2 implies #[trigger] t[k1].0@
        != #[trigger] t[k2].0@ by {
        let a1 = if k1 < k { k1 } else { k1 + 1 };
        let a2 = if k2 < k { k2 } else { k2 + 1 };
        assert(t[k1] == items[a1]);
        assert(t[k2] == items[a2]);
        assert(items[a1].0@ != items[a2].0@);
    }
}

proof fn lemma_index_update(
    accounts: Seq<AccountId>,
    lists: Seq<Vec<CommodityId>>,
    index: Map<AccountId, Seq<Seq<u8>>>,
    k: int,
    l: Vec<CommodityId>,
)
    requires
        index_match(accounts, lists, index),
        0 <= k < accounts.len(),
    ensures
        index_match(accounts, lists.update(k, l), index.insert(accounts[k], ids_view(l@))),
{
    let t = lists.update(k, l);
    let m = index.insert(accounts[k], ids_view(l@));
    assert forall|a: AccountId| #[trigger] m.contains_key(a) implies exists|j: int|
        0 <= j < accounts.len() && accounts[j] == a by {
        if a != accounts[k] {
            let j = choose|j: int| 0 <= j < accounts.len() && accounts[j] == a;
        }
    }
    assert forall|j: int| 0 <= j < accounts.len() implies {
        &&& m.contains_key(#[trigger] accounts[j])
        &&& m[accounts[j]] == ids_view(t[j]@)
    } by {
        if j != k {
            assert(accounts[j] != accounts[k]);
        }
    }
}

proof fn lemma_index_push(
    accounts: Seq<AccountId>,
    lists: Seq<Vec<CommodityId>>,
    index: Map<AccountId, Seq<Seq<u8>>>,
    a: AccountId,
    l: Vec<CommodityId>,
)
    requires
        index_match(accounts, lists, index),
        !index.contains_key(a),
    ensures
        index_match(accounts.push(a), lists.push(l), index.insert(a, ids_view(l@))),
{
    let s = accounts.push(a);
    let t = lists.push(l);
    let m = index.insert(a, ids_view(l@));
    assert forall|b: AccountId| #[trigger] m.contains_key(b) implies exists|j: int|
        0 <= j < s.len() && s[j] == b by {
        if b == a {
            assert(s[accounts.len() as int] == b);
        } else {
            let j = choose|j: int| 0 <= j < accounts.len() && accounts[j] == b;
            assert(s[j] == b);
        }
    }
    assert forall|j: int| 0 <= j < s.len() implies {
        &&& m.contains_key(#[trigger] s[j])
        &&& m[s[j]] == ids_view(t[j]@)
    } by {
        if j < accounts.len() {
            assert(s[j] == accounts[j]);
            assert(index.contains_key(accounts[j]));
        }
    }
    assert forall|j1: int, j2: int| 0 <= j1 < s.len() && 0 <= j2 < s.len() && j1 != j2 implies s[j1]
        != s[j2] by {
        if j1 < accounts.len() {
            assert(index.contains_key(accounts[j1]));
        }
        if j2 < accounts.len() {
            assert(index.contains_key(accounts[j2]));
        }
    }
}

/// Appends `item` to the index entry of `owner`, creating the entry if needed.
pub(crate) fn push_to_entry(
    accounts: &mut Vec<AccountId>,
    lists: &mut Vec<Vec<CommodityId>>,
    index: Ghost<Map<AccountId, Seq<Seq<u8>>>>,
    owner: AccountId,
    item: CommodityId,
)
    requires
        index_match(old(accounts)@, old(lists)@, index@),
    ensures
        index_match(
            final(accounts)@,
            final(lists)@,
            index@.insert(owner, entry(index@, owner).push(item@)),
        ),
{
    match find_account(accounts, owner, Ghost(lists@), index) {
        Some(k) => {
            let mut list: Vec<CommodityId> = Vec::new();
            lists.set_and_swap(k, &mut list);
            proof {
                assert(ids_view(list@) == entry(index@, owner));
            }
            list.push(item);
            proof {
                assert(ids_view(list@) =~= entry(index@, owner).push(item@));
                lemma_index_update(accounts@, old(lists)@, index@, k as int, list);
                assert(old(lists)@.update(k as int, list) =~= lists@.update(k as int, list));
            }
            lists.set(k, list);
        },
        None => {
            let mut list: Vec<CommodityId> = Vec::new();
            list.push(item);
            proof {
                assert(ids_view(list@) =~= entry(index@, owner).push(item@));
                lemma_index_push(accounts@, lists@, index@, owner, list);
            }
            accounts.push(owner);
            lists.push(list);
        },
    }
}

/// Whether the index entry of `owner` holds `item`.
pub(crate) fn entry_holds(
    accounts: &Vec<AccountId>,
    lists: &Vec<Vec<CommodityId>>,
    index: Ghost<Map<AccountId, Seq<Seq<u8>>>>,
    owner: AccountId,
    item: &CommodityId,
) -> (r: bool)
    requires
        index_match(accounts@, lists@, index@),
    ensures
        r == entry(index@, owner).contains(item@),
{
    match find_account(accounts, owner, Ghost(lists@), index) {
        Some(k) => position(&lists[k], item).is_some(),
        None => false,
    }
}

/// Removes the first occurrence of `item` from the index entry of `owner`.
pub(crate) fn remove_from_entry(
    accounts: &mut Vec<AccountId>,
    lists: &mut Vec<Vec<CommodityId>>,
    index: Ghost<Map<AccountId, Seq<Seq<u8>>>>,
    owner: AccountId,
    item: &CommodityId,
)
    requires
        index_match(old(accounts)@, old(lists)@, index@),
        entry(index@, owner).contains(item@),
    ensures
        index_match(
            final(accounts)@,
            final(lists)@,
            index@.insert(owner, entry(index@, owner).remove_value(item@)),
        ),
{
    let k = match find_account(accounts, owner, Ghost(lists@), index) {
        Some(k) => k,
        None => {
            return;
        },
    };
    let mut list: Vec<CommodityId> = Vec::new();
    lists.set_and_swap(k, &mut list);
    let ghost before = ids_view(list@);
    assert(before == entry(index@, owner));
    let p = match position(&list, item) {
        Some(p) => p,
        None => {
            lists.set(k, list);
            return;
        },
    };
    list.remove(p);
    proof {
        before.index_of_first_ensures(item@);
        let f = before.index_of_first(item@).unwrap();
        assert(f == p as int);
        assert(ids_view(list@) =~= before.remove_value(item@));
        lemma_index_update(accounts@, old(lists)@, index@, k as int, list);
        assert(old(lists)@.update(k as int, list) =~= lists@.update(k as int, list));
    }
    lists.set(k, list);
}

} // verus!
