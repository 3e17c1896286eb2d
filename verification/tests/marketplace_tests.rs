use std::collections::HashMap;

use collectables::registry::Pallet;
use collectables::types::{Error, Event};

fn id(n: u8) -> [u8; 32] {
    let mut d = [0u8; 32];
    d[0] = n;
    d
}

/// A toy host-side balance ledger: debit `from` and credit `to` exactly
/// `amount`, failing atomically when `from` cannot pay.
fn move_funds(
    balances: &mut HashMap<u64, u64>,
    from: u64,
    to: u64,
    amount: u64,
) -> Result<(), ()> {
    let have = *balances.get(&from).unwrap_or(&0);
    if have < amount {
        return Err(());
    }
    *balances.entry(from).or_insert(0) -= amount;
    *balances.entry(to).or_insert(0) += amount;
    Ok(())
}

#[test]
fn set_price_lists_and_clears() {
    let mut p = Pallet::new();
    let d = id(1);
    p.mint(1, d).unwrap();
    assert_eq!(
        p.set_price(1, d, Some(7)),
        Ok(Event::PriceSet { owner: 1, kitty_id: d, price: Some(7) })
    );
    assert_eq!(p.get_kitty(&d).unwrap().price, Some(7));
    // Clearing still reports an event.
    assert_eq!(
        p.set_price(1, d, None),
        Ok(Event::PriceSet { owner: 1, kitty_id: d, price: None })
    );
    assert_eq!(p.get_kitty(&d).unwrap().price, None);
}

#[test]
fn set_price_by_non_owner_rejected() {
    let mut p = Pallet::new();
    let d = id(1);
    p.mint(1, d).unwrap();
    let before = p.clone();
    assert_eq!(p.set_price(2, d, Some(7)), Err(Error::NotOwner));
    assert_eq!(p.set_price(1, id(9), Some(7)), Err(Error::NoKitty));
    assert_eq!(p, before);
}

#[test]
fn buy_below_asking_price_rejected() {
    let mut p = Pallet::new();
    let d = id(1);
    p.mint(1, d).unwrap();
    p.set_price(1, d, Some(100)).unwrap();
    let before = p.clone();
    assert_eq!(p.buy_kitty(2, d, 50), Err(Error::MaxPriceTooLow));
    assert_eq!(p.complete_buy(2, d, 50), Err(Error::MaxPriceTooLow));
    // The asset stays listed at its price.
    assert_eq!(p.get_kitty(&d).unwrap().price, Some(100));
    assert_eq!(p, before);
}

#[test]
fn buy_at_asking_price_settles_exactly() {
    let mut p = Pallet::new();
    let d = id(1);
    p.mint(1, d).unwrap();
    p.set_price(1, d, Some(100)).unwrap();

    let mut balances: HashMap<u64, u64> = HashMap::new();
    balances.insert(1, 50);
    balances.insert(2, 150);

    // Validation authorizes the exact listed price, not the maximum.
    let price = p.buy_kitty(2, d, 100).unwrap();
    assert_eq!(price, 100);
    let seller = p.owner_of(&d).unwrap();
    assert_eq!(seller, 1);
    move_funds(&mut balances, 2, seller, price).unwrap();
    assert_eq!(
        p.complete_buy(2, d, 100),
        Ok(Event::Sold { buyer: 2, kitty_id: d, price: 100 })
    );

    assert_eq!(balances[&2], 50);
    assert_eq!(balances[&1], 150);
    assert_eq!(p.owner_of(&d), Some(2));
    assert_eq!(p.get_kitty(&d).unwrap().price, None);
    assert_eq!(p.owned_count(1), 0);
    assert_eq!(p.owned_count(2), 1);
}

#[test]
fn failed_fund_movement_leaves_registry_untouched() {
    let mut p = Pallet::new();
    let d = id(1);
    p.mint(1, d).unwrap();
    p.set_price(1, d, Some(100)).unwrap();

    let mut balances: HashMap<u64, u64> = HashMap::new();
    balances.insert(2, 30);

    let before = p.clone();
    let price = p.buy_kitty(2, d, 100).unwrap();
    // The buyer cannot pay: the host moves nothing and never commits,
    // so the registry is untouched.
    assert!(move_funds(&mut balances, 2, 1, price).is_err());
    assert_eq!(p, before);
    assert_eq!(balances[&2], 30);
}

#[test]
fn buy_unlisted_asset_rejected() {
    let mut p = Pallet::new();
    let d = id(1);
    p.mint(1, d).unwrap();
    let before = p.clone();
    assert_eq!(p.buy_kitty(2, d, 100), Err(Error::NotForSale));
    assert_eq!(p.complete_buy(2, d, 100), Err(Error::NotForSale));
    assert_eq!(p.buy_kitty(2, id(9), 100), Err(Error::NoKitty));
    assert_eq!(p, before);
}

#[test]
fn buy_own_asset_rejected() {
    let mut p = Pallet::new();
    let d = id(1);
    p.mint(1, d).unwrap();
    p.set_price(1, d, Some(10)).unwrap();
    let before = p.clone();
    assert_eq!(p.buy_kitty(1, d, 10), Err(Error::TransferToSelf));
    assert_eq!(p.complete_buy(1, d, 10), Err(Error::TransferToSelf));
    assert_eq!(p, before);
}

#[test]
fn buy_into_full_account_rejected() {
    let mut p = Pallet::new();
    for n in 0..100u8 {
        let mut d = [0u8; 32];
        d[0] = n;
        d[1] = 0xDD;
        p.mint(2, d).unwrap();
    }
    let d = id(1);
    p.mint(1, d).unwrap();
    p.set_price(1, d, Some(10)).unwrap();
    let before = p.clone();
    assert_eq!(p.buy_kitty(2, d, 10), Err(Error::TooManyOwned));
    assert_eq!(p.complete_buy(2, d, 10), Err(Error::TooManyOwned));
    assert_eq!(p, before);
}

#[test]
fn buy_above_asking_price_charges_listed_price() {
    let mut p = Pallet::new();
    let d = id(1);
    p.mint(1, d).unwrap();
    p.set_price(1, d, Some(60)).unwrap();
    // The buyer tolerates up to 90 but owes exactly the listed 60.
    assert_eq!(p.buy_kitty(2, d, 90), Ok(60));
    assert_eq!(
        p.complete_buy(2, d, 90),
        Ok(Event::Sold { buyer: 2, kitty_id: d, price: 60 })
    );
    assert_eq!(p.owner_of(&d), Some(2));
}
