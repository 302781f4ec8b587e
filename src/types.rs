use vstd::prelude::*;

verus! {

/// Identifier of an item: a 32-byte hash supplied by the caller.
pub type CommodityId = [u8; 32];

/// Identifier of an account, as handed over by the host's identity layer.
pub type AccountId = u64;

/// Why an operation was refused. A refused operation changes nothing.
#[derive(Debug, Clone, Copy, PartialEq, Eq, Structural)]
pub enum Error {
    /// `mint` of an item that already exists.
    AlreadyExists,
    /// `burn` or `transfer` of an item that does not exist.
    DoesNotExist,
    /// `burn` or `transfer` naming an account whose index does not hold the item.
    NotTheOwner,
}

/// Notification produced by a successful operation, for the host to deliver.
#[derive(Debug, Clone, Copy, PartialEq, Eq)]
pub enum Event {
    Burned(AccountId, CommodityId),
    Minted(AccountId, CommodityId),
    Transferred { item: CommodityId, from: AccountId, to: AccountId },
}

/// Whether two item identifiers hold the same bytes.
pub fn same_id(a: &CommodityId, b: &CommodityId) -> (r: bool)
    ensures
        r == (a@ == b@),
{
    let mut i: usize = 0;
    while i < 32
        invariant
            0 <= i <= 32,
            a@.len() == 32,
            b@.len() == 32,
            forall|j: int| 0 <= j < i ==> a@[j] == b@[j],
        decreases 32 - i,
    {
        if a[i] != b[i] {
            return false;
        }
        i = i + 1;
    }
    proof {
        assert(a@ =~= b@);
    }
    true
}

} // verus!
