use collectables::registry::Pallet;
use collectables::types::{Error, Event, Kitty};

fn dna(n: u8) -> [u8; 32] {
    let mut d = [0u8; 32];
    d[0] = n;
    d
}

/// Is `id` listed in `who`'s ownership-index entry?
fn listed_under(p: &Pallet, who: u64, id: &[u8; 32]) -> bool {
    p.kitties_owned
        .iter()
        .any(|e| e.account == who && e.ids.iter().any(|d| d == id))
}

#[test]
fn mint_creates_unlisted_asset() {
    let mut p = Pallet::new();
    let d = dna(1);
    assert_eq!(p.mint(7, d), Ok(Event::Created { owner: 7 }));
    assert_eq!(p.count_for_kitties, 1);
    assert_eq!(
        p.get_kitty(&d),
        Some(Kitty { dna: d, owner: 7, price: None })
    );
    assert_eq!(p.owner_of(&d), Some(7));
    assert_eq!(p.owned_count(7), 1);
    assert_eq!(p.owned_count(8), 0);
}

#[test]
fn mint_duplicate_rejected() {
    let mut p = Pallet::new();
    let d = dna(1);
    p.mint(7, d).unwrap();
    let before = p.clone();
    assert_eq!(p.mint(8, d), Err(Error::DuplicateKitty));
    assert_eq!(p, before);
}

#[test]
fn mint_when_counter_saturated_rejected() {
    // A registry whose counter sits at its maximum refuses to mint rather
    // than wrap.
    let mut p = Pallet::new();
    p.count_for_kitties = u32::MAX;
    assert_eq!(p.mint(7, dna(1)), Err(Error::TooManyKitties));
    assert_eq!(p.count_for_kitties, u32::MAX);
    assert!(p.kitties.is_empty());
}

#[test]
fn counter_always_matches_assets() {
    let mut p = Pallet::new();
    for n in 0..10u8 {
        p.mint(u64::from(n % 3), dna(n)).unwrap();
        assert_eq!(p.count_for_kitties as usize, p.kitties.len());
    }
    assert_eq!(p.mint(0, dna(3)), Err(Error::DuplicateKitty));
    assert_eq!(p.count_for_kitties as usize, p.kitties.len());
}

#[test]
fn asset_listed_under_exactly_its_owner() {
    let mut p = Pallet::new();
    p.mint(1, dna(1)).unwrap();
    p.mint(2, dna(2)).unwrap();
    p.mint(1, dna(3)).unwrap();
    p.transfer(1, 3, dna(3)).unwrap();
    for k in &p.kitties {
        assert!(listed_under(&p, k.owner, &k.dna));
        for e in &p.kitties_owned {
            if e.account != k.owner {
                assert!(e.ids.iter().all(|d| d != &k.dna));
            }
        }
    }
}

#[test]
fn holdings_never_exceed_capacity() {
    let mut p = Pallet::new();
    for n in 0..100u8 {
        let mut d = [0u8; 32];
        d[0] = n;
        d[1] = 0xAA;
        p.mint(1, d).unwrap();
    }
    assert_eq!(p.owned_count(1), 100);
    for e in &p.kitties_owned {
        assert!(e.ids.len() <= 100);
    }
}

#[test]
fn mint_into_full_account_rejected() {
    let mut p = Pallet::new();
    for n in 0..100u8 {
        let mut d = [0u8; 32];
        d[0] = n;
        d[1] = 0xBB;
        p.mint(1, d).unwrap();
    }
    let before = p.clone();
    assert_eq!(p.mint(1, dna(7)), Err(Error::TooManyOwned));
    assert_eq!(p.count_for_kitties, before.count_for_kitties);
    assert_eq!(p, before);
    // Another account can still mint.
    assert_eq!(p.mint(2, dna(7)), Ok(Event::Created { owner: 2 }));
}

#[test]
fn transfer_into_full_account_rejected() {
    let mut p = Pallet::new();
    for n in 0..100u8 {
        let mut d = [0u8; 32];
        d[0] = n;
        d[1] = 0xCC;
        p.mint(1, d).unwrap();
    }
    p.mint(2, dna(1)).unwrap();
    let before = p.clone();
    assert_eq!(p.transfer(2, 1, dna(1)), Err(Error::TooManyOwned));
    assert_eq!(p, before);
}

#[test]
fn transfer_to_self_rejected() {
    let mut p = Pallet::new();
    let d = dna(1);
    p.mint(1, d).unwrap();
    let before = p.clone();
    assert_eq!(p.transfer(1, 1, d), Err(Error::TransferToSelf));
    assert_eq!(p, before);
}

#[test]
fn transfer_unknown_asset_rejected() {
    let mut p = Pallet::new();
    p.mint(1, dna(1)).unwrap();
    let before = p.clone();
    assert_eq!(p.transfer(1, 2, dna(9)), Err(Error::NoKitty));
    assert_eq!(p, before);
}

#[test]
fn transfer_by_non_owner_rejected() {
    let mut p = Pallet::new();
    let d = dna(1);
    p.mint(1, d).unwrap();
    let before = p.clone();
    assert_eq!(p.transfer(2, 3, d), Err(Error::NotOwner));
    assert_eq!(p, before);
}

#[test]
fn transfer_moves_ownership() {
    let mut p = Pallet::new();
    let d = dna(1);
    p.mint(1, d).unwrap();
    assert_eq!(
        p.transfer(1, 2, d),
        Ok(Event::Transferred { from: 1, to: 2, kitty_id: d })
    );
    assert_eq!(p.owner_of(&d), Some(2));
    assert_eq!(p.owned_count(1), 0);
    assert_eq!(p.owned_count(2), 1);
    assert!(listed_under(&p, 2, &d));
    assert!(!listed_under(&p, 1, &d));
    assert_eq!(p.count_for_kitties, 1);
}

#[test]
fn transfer_keeps_acquisition_order() {
    let mut p = Pallet::new();
    p.mint(1, dna(1)).unwrap();
    p.mint(1, dna(2)).unwrap();
    p.mint(1, dna(3)).unwrap();
    p.transfer(1, 2, dna(2)).unwrap();
    let entry = p.kitties_owned.iter().find(|e| e.account == 1).unwrap();
    assert_eq!(entry.ids, vec![dna(1), dna(3)]);
}

#[test]
fn transfer_of_unlisted_keeps_price_none_and_of_listed_clears_it() {
    let mut p = Pallet::new();
    let d = dna(1);
    p.mint(1, d).unwrap();
    // Not listed: price was None and stays None.
    p.transfer(1, 2, d).unwrap();
    assert_eq!(p.get_kitty(&d).unwrap().price, None);
    // Listed: a transfer clears the listing.
    p.set_price(2, d, Some(40)).unwrap();
    assert_eq!(p.get_kitty(&d).unwrap().price, Some(40));
    p.transfer(2, 1, d).unwrap();
    assert_eq!(p.get_kitty(&d).unwrap().price, None);
}
