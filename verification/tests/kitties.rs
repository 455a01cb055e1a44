use std::collections::BTreeMap;
use substrate_lessons::dispatch::Origin;
use substrate_lessons::dna::{breed_dna, combine_dna, random_value};
use substrate_lessons::kitties::{Currency, CurrencyError, Error, Event, Kitty, Module};
use substrate_lessons::linked_list::LinkedItem;

const SEED: [u8; 32] = [7u8; 32];

#[test]
fn owned_kitties_can_append_values() {
    let mut kitties = Module::new();
    assert_eq!(kitties.create(Origin::Signed(1), SEED, Some(0)), Ok(()));

    assert_eq!(kitties.events().clone(), vec![Event::Created(1u64, 0)]);
}

#[test]
fn transfer_kitties() {
    let mut kitties = Module::new();
    assert_eq!(kitties.create(Origin::Signed(1), SEED, Some(0)), Ok(()));
    let id = kitties.kitties_count();
    assert_eq!(kitties.transfer(Origin::Signed(1), 2, id - 1), Ok(()));
    let events_before = kitties.events().clone();
    assert_eq!(
        kitties.transfer(Origin::Signed(1), 2, id - 1),
        Err(Error::NotVerifyKittyOwner)
    );
    assert_eq!(kitties.events().clone(), events_before);
    assert_eq!(kitties.kitty_owner(id - 1), Some(2));
    // The creation is reported too, before the transfer.
    assert_eq!(
        kitties.events()[1..].to_vec(),
        vec![Event::Transferred(1u64, 2, id - 1)]
    );
}

#[test]
fn create_stores_kitty_with_random_dna() {
    let mut kitties = Module::new();
    assert_eq!(kitties.create(Origin::Signed(5), SEED, Some(3)), Ok(()));
    let expected = random_value(&SEED, 5, Some(3));
    assert_eq!(kitties.kitties(0), Some(Kitty(expected)));
    assert_eq!(kitties.kitty_owner(0), Some(5));
    assert_eq!(kitties.kitties_count(), 1);
    assert_eq!(kitties.kitties(1), None);
}

#[test]
fn random_value_hashes_scale_encoded_payload() {
    let seed: [u8; 32] = core::array::from_fn(|i| i as u8);
    let sender: u64 = 0x0102_0304_0506_0708;
    let mut payload: Vec<u8> = seed.to_vec();
    payload.extend_from_slice(&sender.to_le_bytes());
    payload.push(1);
    payload.extend_from_slice(&9u32.to_le_bytes());
    assert_eq!(payload.len(), 45);
    let expected = sp_crypto_hashing::blake2_128(&payload);
    assert_eq!(random_value(&seed, sender, Some(9)), expected);

    let mut payload_none: Vec<u8> = seed.to_vec();
    payload_none.extend_from_slice(&sender.to_le_bytes());
    payload_none.push(0);
    assert_eq!(
        random_value(&seed, sender, None),
        sp_crypto_hashing::blake2_128(&payload_none)
    );
    assert_ne!(random_value(&seed, sender, None), random_value(&seed, sender, Some(0)));
}

#[test]
fn create_needs_signed_origin() {
    let mut kitties = Module::new();
    assert_eq!(kitties.create(Origin::Root, SEED, None), Err(Error::BadOrigin));
    assert_eq!(kitties.create(Origin::Unsigned, SEED, None), Err(Error::BadOrigin));
    assert_eq!(kitties.kitties_count(), 0);
    assert!(kitties.events().is_empty());
}

#[test]
fn owner_list_is_linked_in_creation_order() {
    let mut kitties = Module::new();
    for _ in 0..3 {
        assert_eq!(kitties.create(Origin::Signed(1), SEED, None), Ok(()));
    }
    assert_eq!(
        kitties.owner_kitties(1, None),
        Some(LinkedItem { prev: Some(2), next: Some(0) })
    );
    assert_eq!(
        kitties.owner_kitties(1, Some(0)),
        Some(LinkedItem { prev: None, next: Some(1) })
    );
    assert_eq!(
        kitties.owner_kitties(1, Some(1)),
        Some(LinkedItem { prev: Some(0), next: Some(2) })
    );
    assert_eq!(
        kitties.owner_kitties(1, Some(2)),
        Some(LinkedItem { prev: Some(1), next: None })
    );

    // Hand the middle one away: its neighbours are linked to each other.
    assert_eq!(kitties.transfer(Origin::Signed(1), 9, 1), Ok(()));
    assert_eq!(kitties.owner_kitties(1, Some(1)), None);
    assert_eq!(
        kitties.owner_kitties(1, Some(0)),
        Some(LinkedItem { prev: None, next: Some(2) })
    );
    assert_eq!(
        kitties.owner_kitties(1, Some(2)),
        Some(LinkedItem { prev: Some(0), next: None })
    );
    assert_eq!(
        kitties.owner_kitties(9, None),
        Some(LinkedItem { prev: Some(1), next: Some(1) })
    );
    assert_eq!(
        kitties.owner_kitties(9, Some(1)),
        Some(LinkedItem { prev: None, next: None })
    );
    assert_eq!(kitties.kitty_owner(1), Some(9));
}

#[test]
fn kitty_transfer_refusals() {
    let mut kitties = Module::new();
    assert_eq!(kitties.transfer(Origin::Signed(1), 2, 0), Err(Error::InvalidKittyId));
    assert_eq!(kitties.create(Origin::Signed(1), SEED, None), Ok(()));
    assert_eq!(kitties.transfer(Origin::Root, 2, 0), Err(Error::BadOrigin));
    assert_eq!(kitties.transfer(Origin::Signed(3), 2, 0), Err(Error::NotVerifyKittyOwner));
    assert_eq!(kitties.kitty_owner(0), Some(1));
    // Giving a kitty to oneself keeps it.
    assert_eq!(kitties.transfer(Origin::Signed(1), 1, 0), Ok(()));
    assert_eq!(kitties.kitty_owner(0), Some(1));
    assert_eq!(
        kitties.owner_kitties(1, None),
        Some(LinkedItem { prev: Some(0), next: Some(0) })
    );
}

#[test]
fn breed_mixes_parent_dna() {
    let mut kitties = Module::new();
    assert_eq!(kitties.create(Origin::Signed(1), [1u8; 32], None), Ok(()));
    assert_eq!(kitties.create(Origin::Signed(2), [2u8; 32], None), Ok(()));
    assert_eq!(kitties.breed(Origin::Signed(3), 0, 1, [3u8; 32], Some(4)), Ok(()));
    let Kitty(dna1) = kitties.kitties(0).unwrap();
    let Kitty(dna2) = kitties.kitties(1).unwrap();
    let selector = random_value(&[3u8; 32], 3, Some(4));
    let Kitty(child) = kitties.kitties(2).unwrap();
    for i in 0..16 {
        assert_eq!(child[i], (selector[i] & dna1[i]) | (!selector[i] & dna2[i]));
    }
    assert_eq!(child, breed_dna(&dna1, &dna2, &selector));
    assert_eq!(kitties.kitty_owner(2), Some(3));
    assert_eq!(kitties.events().last(), Some(&Event::Created(3, 2)));
}

#[test]
fn breed_refusals() {
    let mut kitties = Module::new();
    assert_eq!(kitties.create(Origin::Signed(1), SEED, None), Ok(()));
    assert_eq!(kitties.breed(Origin::Signed(1), 0, 5, SEED, None), Err(Error::InvalidKittyId));
    assert_eq!(kitties.breed(Origin::Signed(1), 5, 0, SEED, None), Err(Error::InvalidKittyId));
    assert_eq!(kitties.breed(Origin::Signed(1), 0, 0, SEED, None), Err(Error::RequireDifferentParent));
    assert_eq!(kitties.breed(Origin::Unsigned, 0, 0, SEED, None), Err(Error::BadOrigin));
    assert_eq!(kitties.kitties_count(), 1);
    assert_eq!(kitties.do_breed(1, 0, 0, &SEED, None), Err(Error::RequireDifferentParent));
}

#[test]
fn next_kitty_id_is_the_count() {
    let mut kitties = Module::new();
    assert_eq!(kitties.next_kitty_id(), Ok(0));
    kitties.insert_kitty(4, 0, Kitty([9u8; 16]));
    assert_eq!(kitties.next_kitty_id(), Ok(1));
    assert_eq!(kitties.kitties(0), Some(Kitty([9u8; 16])));
    assert_eq!(kitties.kitty_owner(0), Some(4));
    kitties.transfer_owner_kitty(4, 6, 0);
    assert_eq!(kitties.kitty_owner(0), Some(6));
    assert_eq!(kitties.owner_kitties(4, Some(0)), None);
    assert_eq!(
        kitties.owner_kitties(6, Some(0)),
        Some(LinkedItem { prev: None, next: None })
    );
    // No event comes from these helpers.
    assert!(kitties.events().is_empty());
}

#[test]
fn combine_dna_takes_selected_bits() {
    assert_eq!(combine_dna(0b1010_1010, 0b0101_0101, 0b1111_0000), 0b1010_0101);
    assert_eq!(combine_dna(0x12, 0x34, 0xff), 0x12);
    assert_eq!(combine_dna(0x12, 0x34, 0x00), 0x34);
    assert_eq!(combine_dna(0x5a, 0x5a, 0x3c), 0x5a);
}

#[derive(Clone)]
struct TestCurrency {
    free: BTreeMap<u64, u64>,
    reserved: BTreeMap<u64, u64>,
    frozen: Vec<u64>,
}

impl Currency for TestCurrency {
    fn can_reserve(&self, who: u64, amount: u64) -> bool {
        *self.free.get(&who).unwrap_or(&0) >= amount
    }

    fn after_reserve(&self, who: u64, amount: u64) -> Self {
        let mut c = self.clone();
        let _ = c.reserve(who, amount);
        c
    }

    fn unreserve_left(&self, who: u64, amount: u64) -> u64 {
        self.clone().unreserve(who, amount)
    }

    fn after_unreserve(&self, who: u64, amount: u64) -> Self {
        let mut c = self.clone();
        let _ = c.unreserve(who, amount);
        c
    }

    fn transfer_result(&self, from: u64, to: u64, amount: u64) -> Result<(), CurrencyError> {
        self.clone().transfer(from, to, amount)
    }

    fn after_transfer(&self, from: u64, to: u64, amount: u64) -> Self {
        let mut c = self.clone();
        let _ = c.transfer(from, to, amount);
        c
    }

    fn reserve(&mut self, who: u64, amount: u64) -> Result<(), ()> {
        let free = *self.free.get(&who).unwrap_or(&0);
        if free < amount {
            return Err(());
        }
        self.free.insert(who, free - amount);
        *self.reserved.entry(who).or_insert(0) += amount;
        Ok(())
    }

    fn unreserve(&mut self, who: u64, amount: u64) -> u64 {
        let reserved = *self.reserved.get(&who).unwrap_or(&0);
        let moved = reserved.min(amount);
        self.reserved.insert(who, reserved - moved);
        *self.free.entry(who).or_insert(0) += moved;
        amount - moved
    }

    fn snapshot(&self) -> Self {
        self.clone()
    }

    fn transfer(&mut self, from: u64, to: u64, amount: u64) -> Result<(), CurrencyError> {
        if self.frozen.contains(&from) {
            return Err(CurrencyError(8));
        }
        let free = *self.free.get(&from).unwrap_or(&0);
        if free < amount {
            return Err(CurrencyError(7));
        }
        self.free.insert(from, free - amount);
        *self.free.entry(to).or_insert(0) += amount;
        Ok(())
    }
}

#[test]
fn funds_calls_report_events() {
    let mut kitties = Module::new();
    let mut currency = TestCurrency { free: BTreeMap::new(), reserved: BTreeMap::new(), frozen: vec![] };
    currency.free.insert(1, 100);
    assert!(currency.can_reserve(1, 100));
    assert_eq!(currency.unreserve_left(1, 5), 5);
    assert_eq!(currency.transfer_result(2, 1, 1), Err(CurrencyError(7)));
    assert_eq!(currency.after_transfer(1, 2, 1).free.get(&2), Some(&1));
    assert_eq!(currency.after_reserve(1, 1).reserved.get(&1), Some(&1));
    assert_eq!(currency.after_unreserve(1, 1).free.get(&1), Some(&100));

    assert_eq!(kitties.reserve_funds(&mut currency, Origin::Signed(1), 40, 10), Ok(()));
    assert_eq!(kitties.reserve_funds(&mut currency, Origin::Signed(1), 100, 10), Err(Error::CannotAffordLock));
    assert_eq!(kitties.reserve_funds(&mut currency, Origin::Root, 1, 10), Err(Error::BadOrigin));
    assert_eq!(kitties.unreserve_funds(&mut currency, Origin::Signed(1), 10, 11), Ok(()));
    assert_eq!(kitties.transfer_funds(&mut currency, Origin::Signed(1), 2, 20, 12), Ok(()));
    assert_eq!(kitties.transfer_funds(&mut currency, Origin::Signed(2), 3, 21, 12), Err(Error::Currency(CurrencyError(7))));
    // 30 are reserved; asking for 50 moves the 30.
    assert_eq!(kitties.unreserve_and_transfer(&mut currency, Origin::Signed(7), 1, 3, 50, 13), Ok(()));
    assert_eq!(
        kitties.events().clone(),
        vec![
            Event::LockFunds(1, 40, 10),
            Event::UnlockFunds(1, 10, 11),
            Event::TransferFunds(1, 2, 20, 12),
            Event::TransferFunds(1, 3, 30, 13),
        ]
    );
    assert_eq!(currency.free.get(&3), Some(&30));
    assert_eq!(currency.free.get(&1), Some(&50));
    assert_eq!(kitties.unreserve_and_transfer(&mut currency, Origin::Unsigned, 1, 3, 50, 13), Err(Error::BadOrigin));
}

#[test]
fn helpers_work_on_any_index() {
    let mut kitties = Module::new();
    // A kitty stored under an index above the count moves the count past it.
    kitties.insert_kitty(1, 5, Kitty([1u8; 16]));
    assert_eq!(kitties.kitties_count(), 6);
    assert_eq!(kitties.kitty_owner(5), Some(1));
    assert_eq!(kitties.owner_kitties(1, None), Some(LinkedItem { prev: Some(5), next: Some(5) }));
    // Giving an unowned index to an account appends it to that account's list.
    kitties.insert_owner_kitty(1, 3);
    assert_eq!(kitties.kitty_owner(3), Some(1));
    assert_eq!(kitties.owner_kitties(1, None), Some(LinkedItem { prev: Some(3), next: Some(5) }));
    assert_eq!(kitties.owner_kitties(1, Some(3)), Some(LinkedItem { prev: Some(5), next: None }));
    assert_eq!(kitties.kitties(3), None);
    // Moving a kitty that `from` does not hold only appends it for `to`.
    kitties.transfer_owner_kitty(2, 4, 5);
    assert_eq!(kitties.kitty_owner(5), Some(4));
    assert_eq!(kitties.owner_kitties(1, Some(5)), Some(LinkedItem { prev: None, next: Some(3) }));
    assert_eq!(kitties.owner_kitties(4, Some(5)), Some(LinkedItem { prev: None, next: None }));
}

#[test]
fn refused_breed_keeps_stored_entries() {
    let mut kitties = Module::new();
    assert_eq!(kitties.create(Origin::Signed(1), SEED, None), Ok(()));
    let head = kitties.owner_kitties(1, None);
    let node = kitties.owner_kitties(1, Some(0));
    assert_eq!(kitties.breed(Origin::Signed(1), 0, 0, SEED, None), Err(Error::RequireDifferentParent));
    assert_eq!(kitties.owner_kitties(1, None), head);
    assert_eq!(kitties.owner_kitties(1, Some(0)), node);
    assert_eq!(kitties.owner_kitties(1, Some(1)), None);
}

#[test]
fn refused_unreserve_and_transfer_rolls_back() {
    let mut kitties = Module::new();
    let mut currency = TestCurrency { free: BTreeMap::new(), reserved: BTreeMap::new(), frozen: vec![1] };
    currency.free.insert(1, 10);
    currency.reserved.insert(1, 30);
    assert_eq!(
        kitties.unreserve_and_transfer(&mut currency, Origin::Signed(9), 1, 3, 50, 1),
        Err(Error::Currency(CurrencyError(8)))
    );
    assert_eq!(currency.free.get(&1), Some(&10));
    assert_eq!(currency.reserved.get(&1), Some(&30));
    assert_eq!(currency.free.get(&3), None);
    assert!(kitties.events().is_empty());
}
