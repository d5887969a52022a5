use kitties::codec::encode;
use kitties::genetics::{cross_dna, gender_from};
use kitties::ledger::Ledger;
use kitties::pallet::{GenesisConfig, Pallet};
use kitties::types::{Config, Dna, Entropy, Error, Event, Gender, Kitty, KittyId};

fn config() -> Config {
    Config { max_kitty_owned: 3, min_name_length: 2, max_name_length: 5 }
}

fn entropy(seed: u8) -> Entropy {
    Entropy {
        dna_random: [seed; 32],
        gender_random: [seed.wrapping_add(1); 32],
        breed_random: [seed.wrapping_add(2); 32],
        extrinsic_index: Some(7),
        block_number: 42,
    }
}

fn dna(b: u8) -> Dna {
    [b; 16]
}

fn mint_ok(p: &mut Pallet, owner: u64, d: Dna, g: Gender) -> KittyId {
    p.mint(owner, Some(d), Some(g), &entropy(0)).expect("mint")
}

#[test]
fn mint_stores_new_kitty_and_counts() {
    let mut p = Pallet::new(config());
    assert_eq!(p.kitty_cnt(), 0);
    let id = mint_ok(&mut p, 1, dna(3), Gender::Male);
    assert_eq!(p.kitty_cnt(), 1);
    let k = p.kitties(&id).expect("stored");
    assert_eq!(k.owner, 1);
    assert_eq!(k.dna, dna(3));
    assert_eq!(k.price, None);
    assert_eq!(k.name, None);
    assert_eq!(k.gender, Gender::Male);
    assert_eq!(p.kitties_owned(1), vec![id]);
    assert_eq!(p.dna_to_kitty(&dna(3)), Some(id));
    assert_eq!(p.fetch_kitty_id(&dna(9)), None);
}

#[test]
fn identical_mint_collides() {
    let mut p = Pallet::new(config());
    mint_ok(&mut p, 1, dna(3), Gender::Male);
    let r = p.mint(1, Some(dna(3)), Some(Gender::Male), &entropy(0));
    assert_eq!(r, Err(Error::KittyExists));
    assert_eq!(p.kitty_cnt(), 1);
    assert_eq!(p.kitties_owned(1).len(), 1);
}

#[test]
fn dna_index_keeps_latest_mint() {
    let mut p = Pallet::new(config());
    let a = mint_ok(&mut p, 1, dna(3), Gender::Male);
    let b = mint_ok(&mut p, 2, dna(3), Gender::Male);
    assert_ne!(a, b);
    assert_eq!(p.fetch_kitty_id(&dna(3)), Some(b));
}

#[test]
fn kitty_id_is_digest_of_encoding() {
    let mut p = Pallet::new(config());
    let id = mint_ok(&mut p, 0x0102, dna(3), Gender::Female);
    let mut bytes = vec![3u8; 16];
    bytes.push(0);
    bytes.push(1);
    bytes.extend_from_slice(&[0x02, 0x01, 0, 0, 0, 0, 0, 0]);
    bytes.push(0);
    assert_eq!(encode(p.kitties(&id).unwrap()), bytes);
    assert_eq!(id, sp_io::hashing::blake2_256(&bytes));
}

#[test]
fn encoding_of_price_and_long_name() {
    let k = Kitty { dna: dna(1), price: Some(0x0100), gender: Gender::Male, owner: 5, name: Some(vec![b'a'; 70]) };
    let e = encode(&k);
    assert_eq!(&e[16..25], &[1, 0, 1, 0, 0, 0, 0, 0, 0]);
    assert_eq!(e[25], 0);
    assert_eq!(&e[26..34], &[5, 0, 0, 0, 0, 0, 0, 0]);
    assert_eq!(&e[34..37], &[1, 0x19, 0x01]);
    assert_eq!(e.len(), 37 + 70);
    let short = Kitty { name: Some(b"ab".to_vec()), ..k };
    let e = encode(&short);
    assert_eq!(&e[34..], &[1, 8, b'a', b'b']);
}

#[test]
fn create_kitty_derives_dna_and_gender() {
    let mut p = Pallet::new(config());
    let e = entropy(9);
    let ev = p.create_kitty(4, &e).expect("created");
    let id = match ev {
        Event::Created(who, id) => {
            assert_eq!(who, 4);
            id
        }
        other => panic!("unexpected {:?}", other),
    };
    let mut payload = vec![9u8; 32];
    payload.extend_from_slice(&[7, 0, 0, 0, 42, 0, 0, 0]);
    let k = p.kitties(&id).unwrap();
    assert_eq!(k.dna, sp_io::hashing::blake2_128(&payload));
    assert_eq!(k.gender, Gender::Male);
    assert_eq!(Pallet::gen_dna(&e), k.dna);
    assert_eq!(Pallet::gen_gender(&entropy(0)), Gender::Female);
}

#[test]
fn gender_follows_parity_of_first_byte() {
    assert_eq!(gender_from(&[0u8; 32]), Gender::Male);
    assert_eq!(gender_from(&[3u8; 32]), Gender::Female);
}

#[test]
fn crossover_takes_masked_bits() {
    let c = cross_dna(&[0xF0; 16], &[0xAA; 16], &[0x55; 16]);
    assert_eq!(c, [0xA5; 16]);
    let c = cross_dna(&[0x00; 16], &[0xAA; 16], &[0x55; 16]);
    assert_eq!(c, [0x55; 16]);
}

#[test]
fn set_price_by_owner_only() {
    let mut p = Pallet::new(config());
    let id = mint_ok(&mut p, 1, dna(1), Gender::Male);
    assert_eq!(p.set_price(2, &id, Some(5)), Err(Error::NotKittyOwner));
    assert_eq!(p.set_price(1, &[0u8; 32], Some(5)), Err(Error::KittyNotExist));
    assert_eq!(p.set_price(1, &id, Some(5)), Ok(Event::PriceSet(1, id, Some(5))));
    assert_eq!(p.kitties(&id).unwrap().price, Some(5));
    assert_eq!(p.set_price(1, &id, None), Ok(Event::PriceSet(1, id, None)));
    assert_eq!(p.kitties(&id).unwrap().price, None);
}

#[test]
fn transfer_moves_kitty_and_clears_price() {
    let mut p = Pallet::new(config());
    let a = mint_ok(&mut p, 1, dna(1), Gender::Male);
    let b = mint_ok(&mut p, 1, dna(2), Gender::Male);
    p.set_price(1, &a, Some(10)).unwrap();
    assert_eq!(p.transfer(1, 2, &a), Ok(Event::Transferred(1, 2, a)));
    let k = p.kitties(&a).unwrap();
    assert_eq!(k.owner, 2);
    assert_eq!(k.price, None);
    assert_eq!(p.kitties_owned(1), vec![b]);
    assert_eq!(p.kitties_owned(2), vec![a]);
}

#[test]
fn transfer_rejections() {
    let mut p = Pallet::new(config());
    let a = mint_ok(&mut p, 1, dna(1), Gender::Male);
    assert_eq!(p.transfer(2, 3, &a), Err(Error::NotKittyOwner));
    assert_eq!(p.transfer(1, 1, &a), Err(Error::TransferToSelf));
    assert_eq!(p.transfer(1, 2, &[7u8; 32]), Err(Error::KittyNotExist));
    assert_eq!(p.kitties(&a).unwrap().owner, 1);
}

#[test]
fn swap_remove_reorders_owner_list() {
    let mut p = Pallet::new(config());
    let a = mint_ok(&mut p, 1, dna(1), Gender::Male);
    let b = mint_ok(&mut p, 1, dna(2), Gender::Male);
    let c = mint_ok(&mut p, 1, dna(3), Gender::Male);
    p.transfer_kitty_to(&a, 2).unwrap();
    let mut left = p.kitties_owned(1);
    left.sort();
    let mut want = vec![b, c];
    want.sort();
    assert_eq!(left, want);
    assert_eq!(p.kitties_owned(2), vec![a]);
}

#[test]
fn full_owner_rejects_mint_transfer_and_buy() {
    let mut p = Pallet::new(config());
    let mut ledger = Ledger::new(1);
    ledger.set_balance(9, 1000);
    for b in 1..=3u8 {
        mint_ok(&mut p, 9, dna(b), Gender::Male);
    }
    let before = p.kitties_owned(9);
    assert_eq!(p.mint(9, Some(dna(4)), Some(Gender::Male), &entropy(0)), Err(Error::ExceedMaxKittyOwned));
    let x = mint_ok(&mut p, 1, dna(5), Gender::Male);
    assert_eq!(p.transfer(1, 9, &x), Err(Error::ExceedMaxKittyOwned));
    p.set_price(1, &x, Some(10)).unwrap();
    assert_eq!(p.buy_kitty(9, &x, 10, &mut ledger), Err(Error::ExceedMaxKittyOwned));
    assert_eq!(p.kitties_owned(9), before);
    assert_eq!(p.kitties(&x).unwrap().owner, 1);
    assert_eq!(ledger.free_balance(9), 1000);
}

#[test]
fn buy_moves_kitty_and_funds() {
    let mut p = Pallet::new(config());
    let mut ledger = Ledger::new(1);
    ledger.set_balance(2, 100);
    ledger.set_balance(1, 5);
    let a = mint_ok(&mut p, 1, dna(1), Gender::Male);
    p.set_price(1, &a, Some(30)).unwrap();
    assert_eq!(p.buy_kitty(2, &a, 40, &mut ledger), Ok(Event::Bought(2, 1, a, 40)));
    assert_eq!(ledger.free_balance(2), 60);
    assert_eq!(ledger.free_balance(1), 45);
    let k = p.kitties(&a).unwrap();
    assert_eq!(k.owner, 2);
    assert_eq!(k.price, None);
    assert_eq!(p.kitties_owned(1), Vec::<KittyId>::new());
    assert_eq!(p.kitties_owned(2), vec![a]);
}

#[test]
fn buy_rejections_change_nothing() {
    let mut p = Pallet::new(config());
    let mut ledger = Ledger::new(10);
    ledger.set_balance(2, 50);
    let a = mint_ok(&mut p, 1, dna(1), Gender::Male);
    assert_eq!(p.buy_kitty(2, &[1u8; 32], 5, &mut ledger), Err(Error::KittyNotExist));
    assert_eq!(p.buy_kitty(1, &a, 5, &mut ledger), Err(Error::BuyerIsKittyOwner));
    assert_eq!(p.buy_kitty(2, &a, 5, &mut ledger), Err(Error::KittyNotForSale));
    p.set_price(1, &a, Some(20)).unwrap();
    assert_eq!(p.buy_kitty(2, &a, 19, &mut ledger), Err(Error::KittyBidPriceTooLow));
    assert_eq!(p.buy_kitty(2, &a, 60, &mut ledger), Err(Error::NotEnoughBalance));
    // 45 of 50 would leave 5, under the minimum balance of 10.
    assert_eq!(p.buy_kitty(2, &a, 45, &mut ledger), Err(Error::NotEnoughBalance));
    assert_eq!(ledger.free_balance(2), 50);
    assert_eq!(ledger.free_balance(1), 0);
    let k = p.kitties(&a).unwrap();
    assert_eq!(k.owner, 1);
    assert_eq!(k.price, Some(20));
    assert_eq!(p.kitties_owned(1), vec![a]);
    assert_eq!(p.kitties_owned(2), Vec::<KittyId>::new());
}

#[test]
fn buy_credit_overflow_changes_nothing() {
    let mut p = Pallet::new(config());
    let mut ledger = Ledger::new(0);
    ledger.set_balance(2, 50);
    ledger.set_balance(1, u64::MAX);
    let a = mint_ok(&mut p, 1, dna(1), Gender::Male);
    p.set_price(1, &a, Some(20)).unwrap();
    assert_eq!(p.buy_kitty(2, &a, 20, &mut ledger), Err(Error::BalanceOverflow));
    assert_eq!(ledger.free_balance(2), 50);
    assert_eq!(p.kitties(&a).unwrap().owner, 1);
    assert_eq!(p.kitties(&a).unwrap().price, Some(20));
}

#[test]
fn ledger_transfer_rules() {
    let mut l = Ledger::new(5);
    l.set_balance(1, 20);
    assert_eq!(l.transfer(1, 2, 16, true), Err(Error::NotEnoughBalance));
    assert_eq!(l.transfer(1, 2, 21, false), Err(Error::NotEnoughBalance));
    assert_eq!(l.transfer(1, 2, 15, true), Ok(()));
    assert_eq!(l.free_balance(1), 5);
    assert_eq!(l.free_balance(2), 15);
    assert_eq!(l.transfer(1, 2, 5, false), Ok(()));
    assert_eq!(l.free_balance(1), 0);
    assert_eq!(l.free_balance(2), 20);
    assert_eq!(l.min_balance(), 5);
}

#[test]
fn breeding_crosses_parent_bits() {
    let mut p = Pallet::new(config());
    let d1: Dna = [0xAA; 16];
    let d2: Dna = [0x55; 16];
    let a = mint_ok(&mut p, 1, d1, Gender::Male);
    let b = mint_ok(&mut p, 1, d2, Gender::Female);
    let e = entropy(5);
    let expected = p.breed_dna(&a, &b, &e).unwrap();
    let c = p.breed_kitty(1, &a, &b, &e).expect("bred");
    let child = p.kitties(&c).unwrap();
    assert_eq!(child.dna, expected);
    assert_eq!(child.owner, 1);
    let mut payload = vec![7u8; 32];
    payload.extend_from_slice(&[7, 0, 0, 0, 42, 0, 0, 0]);
    let mask = sp_io::hashing::blake2_128(&payload);
    for i in 0..16 {
        assert_eq!(child.dna[i], (mask[i] & d1[i]) | (!mask[i] & d2[i]));
        for j in 0..8 {
            let bit = (child.dna[i] >> j) & 1;
            assert!(bit == (d1[i] >> j) & 1 || bit == (d2[i] >> j) & 1);
        }
    }
    assert_eq!(p.kitties(&a).unwrap().dna, d1);
    assert_eq!(p.kitties(&b).unwrap().dna, d2);
    assert_eq!(p.kitty_cnt(), 3);
}

#[test]
fn breeding_same_gender_fails() {
    let mut p = Pallet::new(config());
    let a = mint_ok(&mut p, 1, dna(1), Gender::Female);
    let b = mint_ok(&mut p, 1, dna(2), Gender::Female);
    assert_eq!(p.breed_kitty(1, &a, &b, &entropy(0)), Err(Error::SameSex));
    assert_eq!(p.kitty_cnt(), 2);
    assert_eq!(p.kitties_owned(1).len(), 2);
}

#[test]
fn breeding_rejections() {
    let mut p = Pallet::new(config());
    let a = mint_ok(&mut p, 1, dna(1), Gender::Male);
    let b = mint_ok(&mut p, 2, dna(2), Gender::Female);
    assert_eq!(p.breed_kitty(1, &a, &b, &entropy(0)), Err(Error::NotKittyOwner));
    assert_eq!(p.breed_kitty(1, &a, &[0u8; 32], &entropy(0)), Err(Error::KittyNotExist));
    assert_eq!(p.breed_dna(&a, &[0u8; 32], &entropy(0)), Err(Error::KittyNotExist));
    assert_eq!(p.kitty_cnt(), 2);
}

#[test]
fn naming_length_bounds() {
    let mut p = Pallet::new(config());
    let a = mint_ok(&mut p, 1, dna(1), Gender::Male);
    assert_eq!(p.name_kitty(1, &a, b"x".to_vec()), Err(Error::NameTooShort));
    assert_eq!(p.name_kitty(1, &a, b"abcdef".to_vec()), Err(Error::NameTooLong));
    assert_eq!(p.kitties(&a).unwrap().name, None);
    assert_eq!(p.name_kitty(1, &a, b"ab".to_vec()), Ok(()));
    assert_eq!(p.kitties(&a).unwrap().name, Some(b"ab".to_vec()));
    assert_eq!(p.name_kitty(1, &a, b"abcde".to_vec()), Ok(()));
    assert_eq!(p.kitties(&a).unwrap().name, Some(b"abcde".to_vec()));
    assert_eq!(p.name_kitty(2, &a, b"abc".to_vec()), Err(Error::NotKittyOwner));
    assert_eq!(p.add_kitty_name(&[0u8; 32], b"abc".to_vec()), Err(Error::KittyNotExist));
}

#[test]
fn ownership_query() {
    let mut p = Pallet::new(config());
    let a = mint_ok(&mut p, 1, dna(1), Gender::Male);
    assert_eq!(p.is_kitty_owner(&a, 1), Ok(true));
    assert_eq!(p.is_kitty_owner(&a, 2), Ok(false));
    assert_eq!(p.is_kitty_owner(&[0u8; 32], 1), Err(Error::KittyNotExist));
}

#[test]
fn genesis_mints_each_listed_kitty() {
    assert!(GenesisConfig::default().kitties.is_empty());
    let g = GenesisConfig {
        kitties: vec![(1, dna(1), Gender::Male), (2, dna(2), Gender::Female), (1, dna(1), Gender::Male)],
    };
    let p = g.build(config());
    assert_eq!(p.kitty_cnt(), 2);
    assert_eq!(p.kitties_owned(1).len(), 1);
    assert_eq!(p.kitties_owned(2).len(), 1);
    assert_eq!(p.config(), config());
}

#[test]
fn end_to_end_breed_and_sell() {
    let mut p = Pallet::new(Config { max_kitty_owned: 10, min_name_length: 2, max_name_length: 5 });
    let mut ledger = Ledger::new(1);
    let (x, y, z) = (1u64, 2u64, 3u64);
    ledger.set_balance(z, 200);
    let d1: Dna = [0x0F; 16];
    let d2: Dna = [0xF3; 16];
    let a = mint_ok(&mut p, x, d1, Gender::Male);
    let b = mint_ok(&mut p, y, d2, Gender::Female);
    assert_eq!(p.transfer(y, x, &b), Ok(Event::Transferred(y, x, b)));
    let c = p.breed_kitty(x, &a, &b, &entropy(11)).expect("bred");
    let child = p.kitties(&c).unwrap();
    assert_eq!(child.owner, x);
    for i in 0..16 {
        for j in 0..8 {
            let bit = (child.dna[i] >> j) & 1;
            assert!(bit == (d1[i] >> j) & 1 || bit == (d2[i] >> j) & 1);
        }
    }
    assert_eq!(p.set_price(x, &a, Some(100)), Ok(Event::PriceSet(x, a, Some(100))));
    assert_eq!(p.buy_kitty(z, &a, 150, &mut ledger), Ok(Event::Bought(z, x, a, 150)));
    assert_eq!(p.kitties(&a).unwrap().owner, z);
    assert_eq!(p.kitties(&a).unwrap().price, None);
    assert_eq!(ledger.free_balance(z), 50);
    assert_eq!(ledger.free_balance(x), 150);
}
