use albatross::coin::Coin;
use albatross::keys::{Address, CompressedPublicKey, ADDRESS_SIZE, PUBLIC_KEY_SIZE};
use albatross::mock::{Tendermint, ViewChangeHandel};
use albatross::policy::{Policy, BATCH_LENGTH, SLOTS};

#[test]
fn parameters_must_be_positive() {
    assert_eq!(Policy::new(0, 32), None);
    assert_eq!(Policy::new(512, 0), None);
    assert_eq!(Policy::new(0, 0), None);
    let policy = Policy::new(10, 4).unwrap();
    assert_eq!(policy.slots(), 10);
    assert_eq!(policy.batch_length(), 4);
}

#[test]
fn main_network_parameters() {
    let policy = Policy::default();
    assert_eq!(policy.slots(), SLOTS);
    assert_eq!(policy.batch_length(), BATCH_LENGTH);
    assert_eq!(policy.slots(), 512);
    assert_eq!(policy.batch_length(), 32);
}

#[test]
fn batch_numbers() {
    let policy = Policy::new(10, 4).unwrap();
    let got: Vec<u32> = (0..10).map(|block| policy.batch_at(block)).collect();
    assert_eq!(got, vec![0, 1, 1, 1, 1, 2, 2, 2, 2, 3]);
    assert_eq!(policy.batch_at(u32::MAX), 1 << 30);
    assert_eq!(Policy::new(10, 1).unwrap().batch_at(u32::MAX), u32::MAX);
}

#[test]
fn coin_arithmetic() {
    assert_eq!(Coin::zero(), Coin(0));
    assert_eq!(Coin(3).checked_add(Coin(4)), Some(Coin(7)));
    assert_eq!(Coin(u64::MAX).checked_add(Coin(0)), Some(Coin(u64::MAX)));
    assert_eq!(Coin(u64::MAX).checked_add(Coin(1)), None);
    assert_eq!(Coin(10).checked_mul(5), Some(Coin(50)));
    assert_eq!(Coin(10).checked_mul(0), Some(Coin(0)));
    assert_eq!(Coin(u64::MAX / 2 + 1).checked_mul(2), None);
}

#[test]
fn burn_address_is_all_zero() {
    assert_eq!(Address::burn_address(), Address([0; 20]));
}

#[test]
fn widths_of_addresses_and_keys() {
    assert_eq!(Address::burn_address().0.len(), ADDRESS_SIZE);
    assert_eq!(CompressedPublicKey([0; 285]).0.len(), PUBLIC_KEY_SIZE);
}

#[test]
fn stand_ins() {
    assert_eq!(Tendermint::new(), Tendermint);
    assert_eq!(ViewChangeHandel, ViewChangeHandel);
}
