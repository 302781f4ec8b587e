use vstd::prelude::*;

use crate::types::{AccountId, Error};

verus! {

/// The entry of `a` in an account index; a missing entry reads as empty.
pub open spec fn entry(index: Map<AccountId, Seq<Seq<u8>>>, a: AccountId) -> Seq<Seq<u8>> {
    if index.contains_key(a) {
        index[a]
    } else {
        Seq::empty()
    }
}

/// The registry as mathematics: who owns each item, which items each account
/// holds (in order of arrival), and how many items are live.
pub struct RegistryState {
    pub owners: Map<Seq<u8>, AccountId>,
    pub index: Map<AccountId, Seq<Seq<u8>>>,
    pub count: nat,
}

impl RegistryState {
    /// The registry before any item was minted.
    pub open spec fn empty() -> RegistryState {
        RegistryState { owners: Map::empty(), index: Map::empty(), count: 0 }
    }

    /// The index entry of `a`; an account without an entry holds nothing.
    pub open spec fn held(self, a: AccountId) -> Seq<Seq<u8>> {
        entry(self.index, a)
    }

    /// The consistency of the three structures.
    pub open spec fn wf(self) -> bool {
        &&& self.owners.dom().finite()
        &&& self.count == self.owners.len()
        &&& forall|i: Seq<u8>| #[trigger]
            self.owners.contains_key(i) ==> self.held(self.owners[i]).contains(i)
        &&& forall|a: AccountId, k: int|
            0 <= k < self.held(a).len() ==> {
                &&& self.owners.contains_key(#[trigger] self.held(a)[k])
                &&& self.owners[self.held(a)[k]] == a
            }
        &&& forall|a: AccountId| #[trigger] self.held(a).no_duplicates()
    }
}

/// What `mint` makes of state `s`.
pub open spec fn mint_step(s: RegistryState, item: Seq<u8>, owner: AccountId) -> Result<
    RegistryState,
    Error,
> {
    if s.owners.contains_key(item) {
        Err(Error::AlreadyExists)
    } else {
        Ok(
            RegistryState {
                owners: s.owners.insert(item, owner),
                index: s.index.insert(owner, s.held(owner).push(item)),
                count: s.count + 1,
            },
        )
    }
}

/// The check shared by `burn` and `transfer`: the item exists, and `owner`'s
/// index entry holds it.
pub open spec fn ownership_check(s: RegistryState, item: Seq<u8>, owner: AccountId) -> Result<
    (),
    Error,
> {
    if !s.owners.contains_key(item) {
        Err(Error::DoesNotExist)
    } else if !s.held(owner).contains(item) {
        Err(Error::NotTheOwner)
    } else {
        Ok(())
    }
}

/// What `burn` makes of state `s`.
pub open spec fn burn_step(s: RegistryState, item: Seq<u8>, owner: AccountId) -> Result<
    RegistryState,
    Error,
> {
    match ownership_check(s, item, owner) {
        Err(e) => Err(e),
        Ok(_) => Ok(
            RegistryState {
                owners: s.owners.remove(item),
                index: s.index.insert(owner, s.held(owner).remove_value(item)),
                count: (s.count - 1) as nat,
            },
        ),
    }
}

/// What `transfer` makes of state `s`: the item leaves `owner`'s entry and is
/// appended to `dest`'s.
pub open spec fn transfer_step(
    s: RegistryState,
    item: Seq<u8>,
    owner: AccountId,
    dest: AccountId,
) -> Result<RegistryState, Error> {
    match ownership_check(s, item, owner) {
        Err(e) => Err(e),
        Ok(_) => {
            let left = RegistryState {
                owners: s.owners.insert(item, dest),
                index: s.index.insert(owner, s.held(owner).remove_value(item)),
                count: s.count,
            };
            Ok(
                RegistryState {
                    owners: left.owners,
                    index: left.index.insert(dest, left.held(dest).push(item)),
                    count: s.count,
                },
            )
        },
    }
}

/// Removing the first occurrence of `x` from a sequence without duplicates
/// leaves exactly the other elements, still without duplicates.
pub proof fn lemma_remove_value(s: Seq<Seq<u8>>, x: Seq<u8>)
    requires
        s.no_duplicates(),
        s.contains(x),
    ensures
        s.remove_value(x).len() == s.len() - 1,
        s.remove_value(x).no_duplicates(),
        !s.remove_value(x).contains(x),
        forall|y: Seq<u8>| #[trigger]
            s.remove_value(x).contains(y) <==> (s.contains(y) && y != x),
{
    s.index_of_first_ensures(x);
    let k = s.index_of_first(x).unwrap();
    let r = s.remove_value(x);
    assert(r == s.remove(k));
    assert forall|y: Seq<u8>| #[trigger] r.contains(y) <==> (s.contains(y) && y != x) by {
        if r.contains(y) {
            let j = choose|j: int| 0 <= j < r.len() && r[j] == y;
            if j < k {
                assert(s[j] == y);
            } else {
                assert(s[j + 1] == y);
            }
        }
        if s.contains(y) && y != x {
            let j = choose|j: int| 0 <= j < s.len() && s[j] == y;
            if j < k {
                assert(r[j] == y);
            } else {
                assert(j != k);
                assert(r[j - 1] == y);
            }
        }
    }
}

/// `mint` keeps the registry consistent.
pub proof fn lemma_mint_keeps_wf(s: RegistryState, item: Seq<u8>, owner: AccountId)
    requires
        s.wf(),
        mint_step(s, item, owner) is Ok,
    ensures
        mint_step(s, item, owner)->Ok_0.wf(),
{
    let t = mint_step(s, item, owner)->Ok_0;
    assert(!s.held(owner).contains(item));
    assert forall|i: Seq<u8>| #[trigger] t.owners.contains_key(i) implies t.held(t.owners[i]).contains(
        i,
    ) by {
        if i == item {
            assert(t.held(owner).last() == item);
        } else if s.owners[i] == owner {
            let j = choose|j: int| 0 <= j < s.held(owner).len() && s.held(owner)[j] == i;
            assert(t.held(owner)[j] == i);
        }
    }
    assert forall|a: AccountId, k: int| 0 <= k < t.held(a).len() implies {
        &&& t.owners.contains_key(#[trigger] t.held(a)[k])
        &&& t.owners[t.held(a)[k]] == a
    } by {
        if a == owner {
            if k < s.held(owner).len() {
                assert(t.held(a)[k] == s.held(a)[k]);
                assert(s.owners.contains_key(s.held(a)[k]));
            } else {
                assert(t.held(a)[k] == item);
            }
        } else {
            assert(t.held(a) == s.held(a));
            assert(s.owners.contains_key(s.held(a)[k]));
        }
    }
    assert(t.owners.len() == s.owners.len() + 1);
    assert forall|a: AccountId| #[trigger] t.held(a).no_duplicates() by {
        if a == owner {
            assert(s.held(a).no_duplicates());
        } else {
            assert(t.held(a) == s.held(a));
        }
    }
}

/// `burn` keeps the registry consistent.
pub proof fn lemma_burn_keeps_wf(s: RegistryState, item: Seq<u8>, owner: AccountId)
    requires
        s.wf(),
        burn_step(s, item, owner) is Ok,
    ensures
        burn_step(s, item, owner)->Ok_0.wf(),
{
    let t = burn_step(s, item, owner)->Ok_0;
    lemma_remove_value(s.held(owner), item);
    let j = choose|j: int| 0 <= j < s.held(owner).len() && s.held(owner)[j] == item;
    assert(s.owners[item] == owner);
    assert forall|i: Seq<u8>| #[trigger] t.owners.contains_key(i) implies t.held(t.owners[i]).contains(
        i,
    ) by {
        assert(s.held(s.owners[i]).contains(i));
    }
    assert forall|a: AccountId, k: int| 0 <= k < t.held(a).len() implies {
        &&& t.owners.contains_key(#[trigger] t.held(a)[k])
        &&& t.owners[t.held(a)[k]] == a
    } by {
        let x = t.held(a)[k];
        if a == owner {
            assert(t.held(a).contains(x));
            let m = choose|m: int| 0 <= m < s.held(a).len() && s.held(a)[m] == x;
            assert(s.owners[s.held(a)[m]] == a);
        } else {
            assert(s.owners[s.held(a)[k]] == a);
        }
    }
}

/// `transfer` keeps the registry consistent.
pub proof fn lemma_transfer_keeps_wf(
    s: RegistryState,
    item: Seq<u8>,
    owner: AccountId,
    dest: AccountId,
)
    requires
        s.wf(),
        transfer_step(s, item, owner, dest) is Ok,
    ensures
        transfer_step(s, item, owner, dest)->Ok_0.wf(),
{
    let t = transfer_step(s, item, owner, dest)->Ok_0;
    let rest = s.held(owner).remove_value(item);
    lemma_remove_value(s.held(owner), item);
    assert(s.owners[item] == owner);
    assert(t.held(dest) == (if dest == owner { rest } else { s.held(dest) }).push(item));
    assert forall|i: Seq<u8>| #[trigger] t.owners.contains_key(i) implies t.held(t.owners[i]).contains(
        i,
    ) by {
        if i == item {
            assert(t.held(dest).last() == item);
        } else {
            let a = s.owners[i];
            assert(s.held(a).contains(i));
            let m = choose|m: int| 0 <= m < s.held(a).len() && s.held(a)[m] == i;
            if a == dest {
                if a == owner {
                    assert(rest.contains(i));
                    let n = choose|n: int| 0 <= n < rest.len() && rest[n] == i;
                    assert(t.held(a)[n] == i);
                } else {
                    assert(t.held(a)[m] == i);
                }
            } else if a == owner {
                assert(rest.contains(i));
            }
        }
    }
    assert forall|a: AccountId, k: int| 0 <= k < t.held(a).len() implies {
        &&& t.owners.contains_key(#[trigger] t.held(a)[k])
        &&& t.owners[t.held(a)[k]] == a
    } by {
        let x = t.held(a)[k];
        if a == dest && k == t.held(a).len() - 1 {
            assert(x == item);
        } else {
            let base = if a == owner { rest } else { s.held(a) };
            assert(x == base[k]);
            if a == owner {
                assert(rest.contains(x));
                let m = choose|m: int| 0 <= m < s.held(a).len() && s.held(a)[m] == x;
                assert(s.owners[s.held(a)[m]] == a);
            } else {
                assert(s.owners[s.held(a)[k]] == a);
            }
        }
    }
    assert forall|a: AccountId| #[trigger] t.held(a).no_duplicates() by {
        if a == dest {
            let base = if a == owner { rest } else { s.held(a) };
            assert(!base.contains(item)) by {
                if a != owner && base.contains(item) {
                    let m = choose|m: int| 0 <= m < base.len() && base[m] == item;
                    assert(s.owners[s.held(a)[m]] == a);
                }
            }
            assert(base.no_duplicates());
        }
    }
}

} // verus!
