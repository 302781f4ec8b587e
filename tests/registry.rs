use oraclegate::types::same_id;
use oraclegate::{AccountId, CommodityId, Error, Event, Pallet};

const ALICE: AccountId = 1;
const BOB: AccountId = 2;
const CAROL: AccountId = 3;

fn id(n: u8) -> CommodityId {
    let mut c = [0u8; 32];
    c[31] = n;
    c
}

#[test]
fn scenario_alice_and_bob() {
    let mut p = Pallet::new();
    assert_eq!(p.mint(ALICE, id(0xA), ALICE), Ok(Event::Minted(ALICE, id(0xA))));
    assert_eq!(p.total_nft(), 1);
    assert_eq!(p.mint(BOB, id(0xA), BOB), Err(Error::AlreadyExists));
    assert_eq!(p.total_nft(), 1);
    assert_eq!(p.burn(BOB, id(0xA), BOB), Err(Error::NotTheOwner));
    assert_eq!(p.total_nft(), 1);
    assert_eq!(p.burn(ALICE, id(0xA), ALICE), Ok(Event::Burned(ALICE, id(0xA))));
    assert_eq!(p.total_nft(), 0);
    assert_eq!(p.get_item(&id(0xA)), None);
    assert!(p.commodities_for_account(ALICE).is_empty());
    assert!(p.commodities_for_account(BOB).is_empty());
}

#[test]
fn absent_item_cannot_be_burned_or_transferred() {
    let mut p = Pallet::new();
    assert_eq!(p.burn(ALICE, id(1), ALICE), Err(Error::DoesNotExist));
    assert_eq!(p.transfer(ALICE, id(1), ALICE, BOB), Err(Error::DoesNotExist));
    p.mint(ALICE, id(1), ALICE).unwrap();
    p.burn(ALICE, id(1), ALICE).unwrap();
    assert_eq!(p.burn(ALICE, id(1), ALICE), Err(Error::DoesNotExist));
    assert_eq!(p.transfer(ALICE, id(1), ALICE, BOB), Err(Error::DoesNotExist));
    assert_eq!(p.total_nft(), 0);
}

#[test]
fn second_mint_changes_nothing() {
    let mut p = Pallet::new();
    p.mint(ALICE, id(7), ALICE).unwrap();
    assert_eq!(p.mint(ALICE, id(7), BOB), Err(Error::AlreadyExists));
    assert_eq!(p.mint(ALICE, id(7), ALICE), Err(Error::AlreadyExists));
    assert_eq!(p.total_nft(), 1);
    assert_eq!(p.get_item(&id(7)), Some(ALICE));
    assert_eq!(p.commodities_for_account(ALICE), vec![id(7)]);
    assert!(p.commodities_for_account(BOB).is_empty());
}

#[test]
fn mint_records_owner_and_index() {
    let mut p = Pallet::new();
    p.mint(CAROL, id(3), BOB).unwrap();
    assert_eq!(p.total_nft(), 1);
    assert_eq!(p.get_item(&id(3)), Some(BOB));
    assert_eq!(p.commodities_for_account(BOB), vec![id(3)]);
    assert!(p.commodities_for_account(CAROL).is_empty());
}

#[test]
fn burn_erases_owner_and_index_entry() {
    let mut p = Pallet::new();
    p.mint(ALICE, id(1), ALICE).unwrap();
    p.mint(ALICE, id(2), ALICE).unwrap();
    p.mint(ALICE, id(3), ALICE).unwrap();
    assert_eq!(p.burn(ALICE, id(2), ALICE), Ok(Event::Burned(ALICE, id(2))));
    assert_eq!(p.total_nft(), 2);
    assert_eq!(p.get_item(&id(2)), None);
    assert_eq!(p.commodities_for_account(ALICE), vec![id(1), id(3)]);
}

#[test]
fn mint_then_burn_round_trip() {
    let mut p = Pallet::new();
    p.mint(ALICE, id(1), ALICE).unwrap();
    p.mint(ALICE, id(2), BOB).unwrap();
    let before_alice = p.commodities_for_account(ALICE);
    let before_bob = p.commodities_for_account(BOB);
    p.mint(ALICE, id(9), ALICE).unwrap();
    p.burn(ALICE, id(9), ALICE).unwrap();
    assert_eq!(p.total_nft(), 2);
    assert_eq!(p.get_item(&id(9)), None);
    assert_eq!(p.get_item(&id(1)), Some(ALICE));
    assert_eq!(p.get_item(&id(2)), Some(BOB));
    assert_eq!(p.commodities_for_account(ALICE), before_alice);
    assert_eq!(p.commodities_for_account(BOB), before_bob);
}

#[test]
fn transfer_moves_item_to_dest() {
    let mut p = Pallet::new();
    p.mint(ALICE, id(1), ALICE).unwrap();
    p.mint(ALICE, id(2), ALICE).unwrap();
    assert_eq!(
        p.transfer(ALICE, id(1), ALICE, BOB),
        Ok(Event::Transferred { item: id(1), from: ALICE, to: BOB })
    );
    assert_eq!(p.total_nft(), 2);
    assert_eq!(p.get_item(&id(1)), Some(BOB));
    assert_eq!(p.commodities_for_account(ALICE), vec![id(2)]);
    assert_eq!(p.commodities_for_account(BOB), vec![id(1)]);
    assert_eq!(p.burn(ALICE, id(1), ALICE), Err(Error::NotTheOwner));
    assert_eq!(p.burn(BOB, id(1), BOB), Ok(Event::Burned(BOB, id(1))));
}

#[test]
fn transfer_by_non_owner_is_refused() {
    let mut p = Pallet::new();
    p.mint(ALICE, id(4), ALICE).unwrap();
    assert_eq!(p.transfer(BOB, id(4), BOB, CAROL), Err(Error::NotTheOwner));
    assert_eq!(p.get_item(&id(4)), Some(ALICE));
    assert_eq!(p.commodities_for_account(ALICE), vec![id(4)]);
    assert!(p.commodities_for_account(CAROL).is_empty());
}

#[test]
fn transfer_to_same_account_moves_item_last() {
    let mut p = Pallet::new();
    p.mint(ALICE, id(1), ALICE).unwrap();
    p.mint(ALICE, id(2), ALICE).unwrap();
    p.transfer(ALICE, id(1), ALICE, ALICE).unwrap();
    assert_eq!(p.get_item(&id(1)), Some(ALICE));
    assert_eq!(p.commodities_for_account(ALICE), vec![id(2), id(1)]);
    assert_eq!(p.total_nft(), 2);
}

#[test]
fn sequential_mints_fill_one_index_entry() {
    let mut p = Pallet::new();
    let n: u8 = 20;
    for i in 0..n {
        p.mint(ALICE, id(i), ALICE).unwrap();
    }
    assert_eq!(p.total_nft(), n as u32);
    let held = p.commodities_for_account(ALICE);
    assert_eq!(held.len(), n as usize);
    for i in 0..n {
        assert_eq!(held[i as usize], id(i));
    }
}

#[test]
fn ids_differing_in_first_byte_are_distinct() {
    let mut a = id(5);
    let b = id(5);
    assert!(same_id(&a, &b));
    a[0] = 1;
    assert!(!same_id(&a, &b));
    let mut p = Pallet::new();
    p.mint(ALICE, a, ALICE).unwrap();
    p.mint(ALICE, b, BOB).unwrap();
    assert_eq!(p.get_item(&a), Some(ALICE));
    assert_eq!(p.get_item(&b), Some(BOB));
}
