use collectables::dna::gen_dna;
use collectables::registry::Pallet;
use collectables::types::Event;

#[test]
fn gen_dna_exact_value() {
    // With zero entropy and a zero counter, only the account identity is
    // folded in: byte i of the little-endian account word, cycled.
    let entropy = [0u8; 32];
    let d = gen_dna(0xFF, &entropy, 0);
    for (i, b) in d.iter().enumerate() {
        if i % 8 == 0 {
            assert_eq!(*b, 0xFF);
        } else {
            assert_eq!(*b, 0);
        }
    }
}

#[test]
fn gen_dna_folds_entropy_account_and_counter() {
    let mut entropy = [0u8; 32];
    for (i, e) in entropy.iter_mut().enumerate() {
        *e = i as u8;
    }
    let d = gen_dna(0x0102_0304_0506_0708, &entropy, 0x0A0B_0C0D);
    // Byte 0: entropy 0x00 ^ account byte 0x08 ^ counter byte 0x0D.
    assert_eq!(d[0], 0x00 ^ 0x08 ^ 0x0D);
    // Byte 9: entropy 0x09 ^ account byte 1 (0x07) ^ counter byte 1 (0x0C).
    assert_eq!(d[9], 0x09 ^ 0x07 ^ 0x0C);
}

#[test]
fn gen_dna_deterministic_in_its_inputs() {
    let entropy = [0x5Au8; 32];
    assert_eq!(gen_dna(3, &entropy, 9), gen_dna(3, &entropy, 9));
    assert_ne!(gen_dna(3, &entropy, 9), gen_dna(3, &entropy, 10));
    assert_ne!(gen_dna(3, &entropy, 9), gen_dna(4, &entropy, 9));
}

#[test]
fn create_kitty_mints_derived_identifier() {
    let mut p = Pallet::new();
    let entropy = [0x11u8; 32];
    let expected = gen_dna(5, &entropy, 0);
    assert_eq!(p.create_kitty(5, &entropy), Ok(Event::Created { owner: 5 }));
    assert_eq!(p.owner_of(&expected), Some(5));
    // The counter is folded in, so the same entropy still yields a fresh
    // identifier for the next mint.
    let expected2 = gen_dna(5, &entropy, 1);
    assert_eq!(p.create_kitty(5, &entropy), Ok(Event::Created { owner: 5 }));
    assert_eq!(p.owner_of(&expected2), Some(5));
    assert_eq!(p.owned_count(5), 2);
    assert_eq!(p.count_for_kitties, 2);
}
