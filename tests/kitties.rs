use kitties::currency::{Balances, Trait};
use kitties::genome::{combine_dna, combine_genomes, random_dna, Kitty};
use kitties::registry::{Error, Event, Module};

const RESERVE: u64 = 10_000;

fn new_test_ext() -> (Module, Balances) {
    let mut balances = Balances::new();
    balances.set_balance(1, 100_000_000);
    balances.set_balance(2, 100_000_000);
    balances.set_balance(3, 100_000_000);
    balances.set_balance(9, 100);
    (Module::new(RESERVE), balances)
}

fn seed_at(block: u8) -> [u8; 32] {
    [block; 32]
}

#[test]
fn create_kitty_works() {
    let (mut kitties, mut balances) = new_test_ext();
    assert_eq!(kitties.create(&mut balances, 1, &seed_at(5), None), Ok(0));
    assert_eq!(kitties.events()[0], Event::Created(1, 0));
}

#[test]
fn create_kitty_failed_when_not_enough_money() {
    let (mut kitties, mut balances) = new_test_ext();
    assert_eq!(
        kitties.create(&mut balances, 9, &seed_at(5), None),
        Err(Error::MoneyNotEnough)
    );
    assert_eq!(kitties.kitties_count(), 0);
    assert!(kitties.events().is_empty());
}

#[test]
fn transfer_kitty_success() {
    let (mut kitties, mut balances) = new_test_ext();
    let _ = kitties.create(&mut balances, 1, &seed_at(5), None);
    assert_eq!(kitties.transfer(&mut balances, 1, 2, 0), Ok(()));
    assert_eq!(kitties.events()[1], Event::Transferred(1, 2, 0));
}

#[test]
fn transfer_kitty_failed_when_not_exists() {
    let (mut kitties, mut balances) = new_test_ext();
    assert_eq!(kitties.transfer(&mut balances, 1, 2, 0), Err(Error::KittyNotExists));
    assert!(kitties.events().is_empty());
}

#[test]
fn transfer_kitty_failed_when_not_owner() {
    let (mut kitties, mut balances) = new_test_ext();
    let _ = kitties.create(&mut balances, 1, &seed_at(5), None);
    assert_eq!(kitties.transfer(&mut balances, 2, 3, 0), Err(Error::KittyNotOwner));
    assert_eq!(kitties.kitty_owner(0), Some(1));
}

#[test]
fn transfer_kitty_when_transfer_self() {
    let (mut kitties, mut balances) = new_test_ext();
    let _ = kitties.create(&mut balances, 1, &seed_at(5), None);
    assert_eq!(kitties.transfer(&mut balances, 1, 1, 0), Err(Error::TransferSelf));
    assert_eq!(kitties.kitty_owner(0), Some(1));
}

#[test]
fn breed_kitty_success() {
    let (mut kitties, mut balances) = new_test_ext();
    let _ = kitties.create(&mut balances, 1, &seed_at(5), None);
    let _ = kitties.create(&mut balances, 1, &seed_at(5), None);
    assert_eq!(kitties.breed(&mut balances, 1, 0, 1, &seed_at(5), None), Ok(2));
    assert_eq!(kitties.events()[0], Event::Created(1, 0));
    assert_eq!(kitties.events()[2], Event::Created(1, 2));
}

#[test]
fn breed_kitty_when_not_exists() {
    let (mut kitties, mut balances) = new_test_ext();
    assert_eq!(
        kitties.breed(&mut balances, 1, 0, 1, &seed_at(0), None),
        Err(Error::KittyNotExists)
    );
}

#[test]
fn breed_kitty_when_not_owner() {
    let (mut kitties, mut balances) = new_test_ext();
    let _ = kitties.create(&mut balances, 1, &seed_at(10), None);
    let _ = kitties.create(&mut balances, 1, &seed_at(10), None);
    assert_eq!(
        kitties.breed(&mut balances, 2, 0, 1, &seed_at(10), None),
        Err(Error::KittyNotOwner)
    );
    assert_eq!(kitties.kitties_count(), 2);
}

#[test]
fn breed_kitty_when_parents_same() {
    let (mut kitties, mut balances) = new_test_ext();
    let _ = kitties.create(&mut balances, 1, &seed_at(10), None);
    assert_eq!(
        kitties.breed(&mut balances, 1, 0, 0, &seed_at(10), None),
        Err(Error::RequiredDiffrentParent)
    );
    assert_eq!(kitties.kitties_count(), 1);
}

#[test]
fn creates_hand_out_indices_in_order() {
    let (mut kitties, mut balances) = new_test_ext();
    for n in 0..5u32 {
        let who = 1 + (n as u64 % 3);
        assert_eq!(kitties.create(&mut balances, who, &seed_at(1), Some(n)), Ok(n));
        assert_eq!(kitties.kitties_count(), n + 1);
    }
}

#[test]
fn create_reserves_the_stake_and_records_the_owner() {
    let (mut kitties, mut balances) = new_test_ext();
    assert_eq!(kitties.create(&mut balances, 2, &seed_at(3), Some(4)), Ok(0));
    assert_eq!(kitties.kitty_owner(0), Some(2));
    assert_eq!(kitties.owned_kitties(2, 0), Some(0));
    assert_eq!(kitties.owned_kitties(1, 0), None);
    assert_eq!(kitties.kitty_parents(0), None);
    assert_eq!(balances.free_of(2), 100_000_000 - RESERVE);
    assert_eq!(balances.reserved_of(2), RESERVE);
    assert_eq!(balances.free_of(1), 100_000_000);
    let genome = random_dna(2, &seed_at(3), Some(4));
    assert_eq!(kitties.kitties(0), Some(Kitty(genome)));
}

#[test]
fn refused_transfers_change_nothing() {
    let (mut kitties, mut balances) = new_test_ext();
    assert_eq!(kitties.create(&mut balances, 1, &seed_at(2), None), Ok(0));
    assert_eq!(kitties.transfer(&mut balances, 2, 3, 0), Err(Error::KittyNotOwner));
    assert_eq!(kitties.transfer(&mut balances, 1, 1, 0), Err(Error::TransferSelf));
    assert_eq!(kitties.transfer(&mut balances, 1, 9, 0), Err(Error::MoneyNotEnough));
    assert_eq!(kitties.transfer(&mut balances, 1, 2, 7), Err(Error::KittyNotExists));
    assert_eq!(kitties.kitty_owner(0), Some(1));
    assert_eq!(kitties.owned_kitties(1, 0), Some(0));
    assert_eq!(kitties.owned_kitties(9, 0), None);
    assert_eq!(kitties.events().len(), 1);
    assert_eq!(balances.free_of(9), 100);
    assert_eq!(balances.reserved_of(9), 0);
    assert_eq!(balances.reserved_of(1), RESERVE);
}

#[test]
fn transfer_moves_ownership_and_stake() {
    let (mut kitties, mut balances) = new_test_ext();
    assert_eq!(kitties.create(&mut balances, 1, &seed_at(2), None), Ok(0));
    assert_eq!(kitties.transfer(&mut balances, 1, 3, 0), Ok(()));
    assert_eq!(kitties.kitty_owner(0), Some(3));
    assert_eq!(kitties.owned_kitties(1, 0), None);
    assert_eq!(kitties.owned_kitties(3, 0), Some(0));
    assert_eq!(balances.reserved_of(1), 0);
    assert_eq!(balances.free_of(1), 100_000_000);
    assert_eq!(balances.reserved_of(3), RESERVE);
    assert_eq!(balances.free_of(3), 100_000_000 - RESERVE);
}

#[test]
fn breeding_a_kitty_with_itself_is_refused_for_anyone() {
    let (mut kitties, mut balances) = new_test_ext();
    assert_eq!(
        kitties.breed(&mut balances, 1, 4, 4, &seed_at(0), None),
        Err(Error::RequiredDiffrentParent)
    );
    let _ = kitties.create(&mut balances, 1, &seed_at(0), None);
    assert_eq!(
        kitties.breed(&mut balances, 2, 0, 0, &seed_at(0), None),
        Err(Error::RequiredDiffrentParent)
    );
}

#[test]
fn bred_genome_crosses_the_parents_under_the_selector() {
    let (mut kitties, mut balances) = new_test_ext();
    let _ = kitties.create(&mut balances, 1, &seed_at(7), Some(0));
    let _ = kitties.create(&mut balances, 1, &seed_at(7), Some(1));
    assert_eq!(kitties.breed(&mut balances, 1, 0, 1, &seed_at(8), Some(2)), Ok(2));
    let a = kitties.kitties(0).unwrap().0;
    let b = kitties.kitties(1).unwrap().0;
    let child = kitties.kitties(2).unwrap().0;
    let selector = random_dna(1, &seed_at(8), Some(2));
    for i in 0..16 {
        assert_eq!(child[i], (selector[i] & a[i]) | (!selector[i] & b[i]));
    }
}

#[test]
fn breeding_records_the_lineage() {
    let (mut kitties, mut balances) = new_test_ext();
    assert_eq!(kitties.create(&mut balances, 1, &seed_at(1), None), Ok(0));
    assert_eq!(kitties.create(&mut balances, 1, &seed_at(1), Some(1)), Ok(1));
    assert_eq!(kitties.breed(&mut balances, 1, 0, 1, &seed_at(1), Some(2)), Ok(2));
    assert_eq!(kitties.kitty_parents(2), Some((0, 1)));
    assert_eq!(kitties.kitty_children(0, 2), Some(2));
    assert_eq!(kitties.kitty_children(1, 2), Some(2));
    assert_eq!(kitties.kitty_partners(0, 1), Some(1));
    assert_eq!(kitties.kitty_partners(1, 0), Some(0));
    assert_eq!(kitties.kitties_count(), 3);
    assert_eq!(kitties.kitty_owner(2), Some(1));
    assert_eq!(kitties.owned_kitties(1, 2), Some(2));
    assert_eq!(kitties.kitty_children(2, 0), None);
    assert_eq!(kitties.kitty_partners(0, 2), None);
    assert_eq!(balances.reserved_of(1), 3 * RESERVE);
}

#[test]
fn create_below_the_reserve_keeps_the_count() {
    let (mut kitties, mut balances) = new_test_ext();
    assert_eq!(kitties.create(&mut balances, 1, &seed_at(1), None), Ok(0));
    assert_eq!(
        kitties.create(&mut balances, 9, &seed_at(1), None),
        Err(Error::MoneyNotEnough)
    );
    assert_eq!(kitties.kitties_count(), 1);
    assert_eq!(balances.free_of(9), 100);
}

#[test]
fn breed_short_of_stake_is_refused() {
    let (mut kitties, mut balances) = new_test_ext();
    balances.set_balance(4, 2 * RESERVE);
    let _ = kitties.create(&mut balances, 4, &seed_at(1), None);
    let _ = kitties.create(&mut balances, 4, &seed_at(1), Some(1));
    assert_eq!(
        kitties.breed(&mut balances, 4, 0, 1, &seed_at(1), Some(2)),
        Err(Error::MoneyNotEnough)
    );
    assert_eq!(kitties.kitties_count(), 2);
    assert_eq!(kitties.kitty_partners(0, 1), None);
}

#[test]
fn next_index_is_the_count() {
    let (mut kitties, mut balances) = new_test_ext();
    assert_eq!(kitties.next_kitty_id(), Ok(0));
    let _ = kitties.create(&mut balances, 1, &seed_at(1), None);
    assert_eq!(kitties.next_kitty_id(), Ok(1));
}

#[test]
fn combine_dna_takes_bits_by_the_selector() {
    assert_eq!(combine_dna(0b1100_1010, 0b0101_0101, 0b1111_0000), 0b1100_0101);
    assert_eq!(combine_dna(0xAB, 0xCD, 0xFF), 0xAB);
    assert_eq!(combine_dna(0xAB, 0xCD, 0x00), 0xCD);
}

#[test]
fn combine_genomes_works_byte_by_byte() {
    let a = [0xFFu8; 16];
    let b = [0x00u8; 16];
    let mut selector = [0u8; 16];
    selector[3] = 0x0F;
    selector[15] = 0xFF;
    let r = combine_genomes(&a, &b, &selector);
    let mut expected = [0u8; 16];
    expected[3] = 0x0F;
    expected[15] = 0xFF;
    assert_eq!(r, expected);
}

#[test]
fn random_dna_hashes_seed_account_and_ordinal() {
    let seed = seed_at(9);
    let mut payload: Vec<u8> = seed.to_vec();
    payload.extend_from_slice(&0x0102_0304_0506_0708u64.to_le_bytes());
    payload.push(1);
    payload.extend_from_slice(&77u32.to_le_bytes());
    let expected = sp_io::hashing::blake2_128(&payload);
    assert_eq!(random_dna(0x0102_0304_0506_0708, &seed, Some(77)), expected);

    let mut without: Vec<u8> = seed.to_vec();
    without.extend_from_slice(&5u64.to_le_bytes());
    without.push(0);
    assert_eq!(random_dna(5, &seed, None), sp_io::hashing::blake2_128(&without));
    assert_ne!(random_dna(5, &seed, None), random_dna(5, &seed, Some(0)));
    assert_ne!(random_dna(5, &seed, None), random_dna(6, &seed, None));
}

#[test]
fn ledger_reserves_and_releases() {
    let mut balances = Balances::new();
    balances.set_balance(1, 50);
    assert!(!balances.reserve(1, 51));
    assert_eq!(balances.free_of(1), 50);
    assert!(balances.reserve(1, 30));
    assert_eq!(balances.free_of(1), 20);
    assert_eq!(balances.reserved_of(1), 30);
    assert_eq!(balances.unreserve(1, 40), 10);
    assert_eq!(balances.free_of(1), 50);
    assert_eq!(balances.reserved_of(1), 0);
}
