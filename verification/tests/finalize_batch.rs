use albatross::blockchain::{
    Blockchain, BlockchainState, ChainInfo, MacroHeader, NetworkInfo,
};
use albatross::coin::Coin;
use albatross::error::InherentError;
use albatross::inherent::{Inherent, InherentType};
use albatross::keys::Address;
use albatross::policy::Policy;
use albatross::slots::SlotBand;

fn registry() -> Address {
    Address([0xaa; 20])
}

fn address(byte: u8) -> Address {
    Address([byte; 20])
}

fn chain(slots: u16) -> Blockchain {
    Blockchain {
        network: NetworkInfo { network_id: 4, validator_registry: Some(registry()) },
        policy: Policy::new(slots, 32).unwrap(),
    }
}

fn head(block_number: u32, block_reward: u64, fees: u64) -> ChainInfo {
    ChainInfo {
        head: MacroHeader { block_number },
        cum_tx_fees: Coin(fees),
        block_reward: Coin(block_reward),
    }
}

fn reward(target: Address, value: u64) -> Inherent {
    Inherent { ty: InherentType::Reward, target, value: Coin(value), data: vec![] }
}

fn burn(value: u64) -> Inherent {
    reward(Address([0; 20]), value)
}

fn marker() -> Inherent {
    Inherent { ty: InherentType::FinalizeBatch, target: registry(), value: Coin(0), data: vec![] }
}

fn two_bands() -> Vec<SlotBand> {
    vec![
        SlotBand { num_slots: 5, reward_address: address(1) },
        SlotBand { num_slots: 5, reward_address: address(2) },
    ]
}

fn mixed_state() -> BlockchainState {
    // Slot 3 both lost its reward and was disabled; slot 7 only lost its reward.
    BlockchainState { validator_slots: two_bands(), lost_rewards: vec![3, 7], disabled_slots: vec![3] }
}

fn clean_state() -> BlockchainState {
    BlockchainState { validator_slots: two_bands(), lost_rewards: vec![], disabled_slots: vec![] }
}

fn total(list: &[Inherent]) -> u64 {
    list.iter().map(|inherent| inherent.value.0).sum()
}

#[test]
fn two_bands_remainder_to_first_band() {
    let got = chain(10).finalize_previous_batch(&mixed_state(), &head(64, 100, 3), &vec![true, true], 3);
    assert_eq!(
        got,
        Ok(vec![reward(address(1), 43), reward(address(2), 50), burn(10), marker()])
    );
}

#[test]
fn two_bands_remainder_to_second_band() {
    let got = chain(10).finalize_previous_batch(&mixed_state(), &head(64, 100, 3), &vec![true, true], 4);
    assert_eq!(
        got,
        Ok(vec![reward(address(1), 40), reward(address(2), 53), burn(10), marker()])
    );
}

#[test]
fn two_bands_lottery_follows_the_weights() {
    // Weights 4 and 5: of nine tickets in a row four go to the first band.
    let mut first = 0;
    let mut second = 0;
    for ticket in 0..9u64 {
        let list = chain(10)
            .finalize_previous_batch(&mixed_state(), &head(64, 100, 3), &vec![true, true], ticket)
            .unwrap();
        assert_eq!(list.len(), 4);
        assert_eq!(list[2], burn(10));
        assert_eq!(list[3], marker());
        match (list[0].value.0, list[1].value.0) {
            (43, 50) => first += 1,
            (40, 53) => second += 1,
            other => panic!("unexpected rewards {:?}", other),
        }
    }
    assert_eq!((first, second), (4, 5));
}

#[test]
fn ticket_counts_modulo_the_total_weight() {
    let low = chain(10).finalize_previous_batch(&mixed_state(), &head(64, 100, 3), &vec![true, true], 5);
    let high = chain(10).finalize_previous_batch(
        &mixed_state(),
        &head(64, 100, 3),
        &vec![true, true],
        5 + 9 * 1_000_000_007,
    );
    assert_eq!(low, high);
    let last = chain(10).finalize_previous_batch(&mixed_state(), &head(64, 100, 3), &vec![true, true], u64::MAX);
    // u64::MAX mod 9 is 6, which selects the second band.
    assert_eq!(last, Ok(vec![reward(address(1), 40), reward(address(2), 53), burn(10), marker()]));
}

#[test]
fn rewards_and_burn_add_up_to_the_pot() {
    let outcomes = [[true, true], [true, false], [false, true], [false, false]];
    let slashed: [Vec<u16>; 4] = [vec![], vec![3], vec![0, 1, 2, 3, 4], vec![0, 1, 2, 3, 4, 5, 6, 7, 8, 9]];
    for accepted in outcomes.iter() {
        for set in slashed.iter() {
            for ticket in 0..12u64 {
                let state = BlockchainState {
                    validator_slots: two_bands(),
                    lost_rewards: set.clone(),
                    disabled_slots: set.clone(),
                };
                let list = chain(10)
                    .finalize_previous_batch(&state, &head(64, 100, 3), &accepted.to_vec(), ticket)
                    .unwrap();
                assert_eq!(total(&list), 103);
                let last = list.len() - 1;
                assert_eq!(list[last], marker());
                assert_eq!(list[last - 1].target, Address::burn_address());
                assert_eq!(total(&list[..last - 1]) + list[last - 1].value.0, 103);
            }
        }
    }
}

#[test]
fn first_batch_gives_nothing() {
    for block_number in [0u32, 1, 31, 32] {
        let got =
            chain(10).finalize_previous_batch(&mixed_state(), &head(block_number, 100, 3), &vec![true, true], 0);
        assert_eq!(got, Ok(vec![]));
    }
}

#[test]
fn first_batch_gives_nothing_whatever_else_is_wrong() {
    let mut blockchain = chain(10);
    blockchain.network.validator_registry = None;
    let state = BlockchainState { validator_slots: two_bands(), lost_rewards: vec![4, 2], disabled_slots: vec![] };
    let got = blockchain.finalize_previous_batch(&state, &head(32, u64::MAX, 3), &vec![], 0);
    assert_eq!(got, Ok(vec![]));
}

#[test]
fn second_batch_is_rewarded() {
    let got = chain(10).finalize_previous_batch(&clean_state(), &head(33, 100, 0), &vec![true, true], 0);
    assert_eq!(got, Ok(vec![reward(address(1), 50), reward(address(2), 50), burn(0), marker()]));
}

#[test]
fn burn_of_nothing_is_still_emitted() {
    let got = chain(10).finalize_previous_batch(&clean_state(), &head(64, 100, 0), &vec![true, true], 7);
    assert_eq!(got, Ok(vec![reward(address(1), 50), reward(address(2), 50), burn(0), marker()]));
}

#[test]
fn exactly_one_recipient_gets_the_remainder() {
    let bands = vec![
        SlotBand { num_slots: 3, reward_address: address(1) },
        SlotBand { num_slots: 3, reward_address: address(2) },
        SlotBand { num_slots: 4, reward_address: address(3) },
    ];
    let state = BlockchainState { validator_slots: bands, lost_rewards: vec![], disabled_slots: vec![] };
    for ticket in 0..20u64 {
        let list = chain(10)
            .finalize_previous_batch(&state, &head(64, 1009, 0), &vec![true, true, true], ticket)
            .unwrap();
        let base = [300u64, 300, 400];
        let raised: Vec<usize> = (0..3).filter(|&i| list[i].value.0 != base[i]).collect();
        assert_eq!(raised.len(), 1);
        assert_eq!(list[raised[0]].value.0, base[raised[0]] + 9);
        let expected = match ticket % 10 {
            0..=2 => 0,
            3..=5 => 1,
            _ => 2,
        };
        assert_eq!(raised[0], expected);
        assert_eq!(list[3], burn(0));
    }
}

#[test]
fn same_inputs_give_the_same_list() {
    let a = chain(10).finalize_previous_batch(&mixed_state(), &head(64, 100, 3), &vec![true, true], 77);
    let b = chain(10).finalize_previous_batch(&mixed_state(), &head(64, 100, 3), &vec![true, true], 77);
    assert!(a.is_ok());
    assert_eq!(a, b);
}

#[test]
fn all_slashed_and_refused_burns_the_pot() {
    let all: Vec<u16> = (0..10).collect();
    let state = BlockchainState { validator_slots: two_bands(), lost_rewards: all.clone(), disabled_slots: all };
    let got = chain(10).finalize_previous_batch(&state, &head(64, 100, 3), &vec![false, false], 5);
    assert_eq!(got, Ok(vec![burn(103), marker()]));
}

#[test]
fn all_slashed_and_accepted_pays_nothing_and_burns_the_pot() {
    let all: Vec<u16> = (0..10).collect();
    let state = BlockchainState { validator_slots: two_bands(), lost_rewards: all.clone(), disabled_slots: all };
    let got = chain(10).finalize_previous_batch(&state, &head(64, 100, 3), &vec![true, true], 5);
    assert_eq!(got, Ok(vec![reward(address(1), 0), reward(address(2), 0), burn(103), marker()]));
}

#[test]
fn universal_rejection_burns_the_pot() {
    let got = chain(10).finalize_previous_batch(&mixed_state(), &head(64, 100, 3), &vec![false, false], 5);
    assert_eq!(got, Ok(vec![burn(103), marker()]));
}

#[test]
fn refused_band_is_burned_whole() {
    let got = chain(10).finalize_previous_batch(&mixed_state(), &head(64, 100, 3), &vec![false, true], 0);
    // Band one: 10 burned for its slashed slot, 40 because it refused.
    assert_eq!(got, Ok(vec![reward(address(2), 53), burn(50), marker()]));
}

#[test]
fn slots_beyond_the_bands_are_ignored() {
    let state = BlockchainState {
        validator_slots: two_bands(),
        lost_rewards: vec![9, 10, 400],
        disabled_slots: vec![9, 10, 400],
    };
    let got = chain(10).finalize_previous_batch(&state, &head(64, 100, 0), &vec![true, true], 0);
    assert_eq!(got, Ok(vec![reward(address(1), 50), reward(address(2), 40), burn(10), marker()]));
}

#[test]
fn no_bands_burns_the_remainder() {
    let state = BlockchainState { validator_slots: vec![], lost_rewards: vec![], disabled_slots: vec![] };
    let got = chain(10).finalize_previous_batch(&state, &head(64, 100, 3), &vec![], 0);
    assert_eq!(got, Ok(vec![burn(3), marker()]));
}

#[test]
fn outcomes_must_pair_up_with_bands() {
    let got = chain(10).finalize_previous_batch(&mixed_state(), &head(64, 100, 3), &vec![true], 0);
    assert_eq!(got, Err(InherentError::CountMismatch));
    let got = chain(10).finalize_previous_batch(&mixed_state(), &head(64, 100, 3), &vec![true, true, true], 0);
    assert_eq!(got, Err(InherentError::CountMismatch));
}

#[test]
fn slot_lists_must_ascend() {
    let state = BlockchainState { validator_slots: two_bands(), lost_rewards: vec![7, 3], disabled_slots: vec![3] };
    let got = chain(10).finalize_previous_batch(&state, &head(64, 100, 3), &vec![true, true], 0);
    assert_eq!(got, Err(InherentError::SlotOrder));
    let state = BlockchainState { validator_slots: two_bands(), lost_rewards: vec![3], disabled_slots: vec![3, 3] };
    let got = chain(10).finalize_previous_batch(&state, &head(64, 100, 3), &vec![true, true], 0);
    assert_eq!(got, Err(InherentError::SlotOrder));
}

#[test]
fn pot_must_fit() {
    let got = chain(10).finalize_previous_batch(&clean_state(), &head(64, u64::MAX, 1), &vec![true, true], 0);
    assert_eq!(got, Err(InherentError::Overflow));
    let got = chain(10).finalize_previous_batch(&clean_state(), &head(64, u64::MAX, 0), &vec![true, true], 0);
    assert!(got.is_ok());
}

#[test]
fn band_reward_must_fit() {
    // One slot in the policy, but a band that claims three of them.
    let bands = vec![SlotBand { num_slots: 3, reward_address: address(1) }];
    let state = BlockchainState { validator_slots: bands, lost_rewards: vec![], disabled_slots: vec![] };
    let got = chain(1).finalize_previous_batch(&state, &head(64, u64::MAX, 0), &vec![true], 0);
    assert_eq!(got, Err(InherentError::Overflow));
}

#[test]
fn burned_amount_must_fit() {
    let bands = vec![
        SlotBand { num_slots: 1, reward_address: address(1) },
        SlotBand { num_slots: 1, reward_address: address(2) },
    ];
    let state = BlockchainState { validator_slots: bands, lost_rewards: vec![], disabled_slots: vec![] };
    let got = chain(1).finalize_previous_batch(&state, &head(64, u64::MAX, 0), &vec![false, false], 0);
    assert_eq!(got, Err(InherentError::Overflow));
}

#[test]
fn missing_registry_is_a_fault() {
    let mut blockchain = chain(10);
    blockchain.network.validator_registry = None;
    let got = blockchain.finalize_previous_batch(&clean_state(), &head(64, 100, 3), &vec![true, true], 0);
    assert_eq!(got, Err(InherentError::NoValidatorRegistry));
}

#[test]
fn faults_come_in_a_fixed_order() {
    let mut blockchain = chain(10);
    blockchain.network.validator_registry = None;
    let unsorted = BlockchainState { validator_slots: two_bands(), lost_rewards: vec![2, 1], disabled_slots: vec![] };
    let got = blockchain.finalize_previous_batch(&unsorted, &head(64, u64::MAX, 9), &vec![true], 0);
    assert_eq!(got, Err(InherentError::CountMismatch));
    let got = blockchain.finalize_previous_batch(&unsorted, &head(64, u64::MAX, 9), &vec![true, true], 0);
    assert_eq!(got, Err(InherentError::SlotOrder));
    let got = blockchain.finalize_previous_batch(&clean_state(), &head(64, u64::MAX, 9), &vec![true, true], 0);
    assert_eq!(got, Err(InherentError::Overflow));
}

#[test]
fn candidates_are_one_per_band() {
    let got = chain(10).reward_candidates(&mixed_state(), &head(64, 100, 3));
    assert_eq!(got, Ok(vec![reward(address(1), 40), reward(address(2), 50)]));
}

#[test]
fn candidates_of_the_first_batch_are_none() {
    let got = chain(10).reward_candidates(&mixed_state(), &head(32, 100, 3));
    assert_eq!(got, Ok(vec![]));
}

#[test]
fn candidates_report_faults() {
    let unsorted = BlockchainState { validator_slots: two_bands(), lost_rewards: vec![2, 1], disabled_slots: vec![] };
    assert_eq!(chain(10).reward_candidates(&unsorted, &head(64, 100, 3)), Err(InherentError::SlotOrder));
    assert_eq!(
        chain(10).reward_candidates(&clean_state(), &head(64, u64::MAX, 3)),
        Err(InherentError::Overflow)
    );
    let bands = vec![SlotBand { num_slots: 3, reward_address: address(1) }];
    let state = BlockchainState { validator_slots: bands, lost_rewards: vec![], disabled_slots: vec![] };
    assert_eq!(chain(1).reward_candidates(&state, &head(64, u64::MAX, 0)), Err(InherentError::Overflow));
}

#[test]
fn candidates_need_no_registry() {
    let mut blockchain = chain(10);
    blockchain.network.validator_registry = None;
    let got = blockchain.reward_candidates(&clean_state(), &head(64, 100, 3));
    assert_eq!(got, Ok(vec![reward(address(1), 50), reward(address(2), 50)]));
}

#[test]
fn epoch_marker() {
    let got = chain(10).finalize_previous_epoch();
    assert_eq!(
        got,
        Ok(Inherent { ty: InherentType::FinalizeEpoch, target: registry(), value: Coin(0), data: vec![] })
    );
}

#[test]
fn epoch_marker_needs_a_registry() {
    let mut blockchain = chain(10);
    blockchain.network.validator_registry = None;
    assert_eq!(blockchain.finalize_previous_epoch(), Err(InherentError::NoValidatorRegistry));
}

#[test]
fn main_network_has_512_slots() {
    let blockchain = Blockchain {
        network: NetworkInfo { network_id: 42, validator_registry: Some(registry()) },
        policy: Policy::default(),
    };
    let bands = vec![
        SlotBand { num_slots: 500, reward_address: address(1) },
        SlotBand { num_slots: 12, reward_address: address(2) },
    ];
    let state = BlockchainState { validator_slots: bands, lost_rewards: vec![499, 500], disabled_slots: vec![499, 500] };
    let got = blockchain.finalize_previous_batch(&state, &head(64, 5120, 7), &vec![true, true], 509);
    // Slot reward 10, remainder 7; weights 499 and 11, ticket 509 selects the second band.
    assert_eq!(got, Ok(vec![reward(address(1), 4990), reward(address(2), 117), burn(20), marker()]));
}

#[test]
fn accounts_are_asked_for_each_band() {
    let asked = std::cell::RefCell::new(Vec::new());
    let got = chain(10).finalize_previous_batch_with(
        &mixed_state(),
        &head(64, 100, 3),
        |inherent: &Inherent, block_number: u32| {
            asked.borrow_mut().push((inherent.clone(), block_number));
            inherent.target != address(1)
        },
        4,
    );
    assert_eq!(got, Ok(vec![reward(address(2), 53), burn(50), marker()]));
    assert_eq!(asked.into_inner(), vec![(reward(address(1), 40), 64), (reward(address(2), 50), 64)]);
}

#[test]
fn asking_gives_what_the_answers_give() {
    for first in [false, true] {
        for second in [false, true] {
            for ticket in 0..10u64 {
                let asked = chain(10).finalize_previous_batch_with(
                    &mixed_state(),
                    &head(64, 100, 3),
                    |inherent: &Inherent, _: u32| if inherent.target == address(1) { first } else { second },
                    ticket,
                );
                let given =
                    chain(10).finalize_previous_batch(&mixed_state(), &head(64, 100, 3), &vec![first, second], ticket);
                assert!(asked.is_ok());
                assert_eq!(asked, given);
            }
        }
    }
}

#[test]
fn nobody_is_asked_for_the_first_batch() {
    let got = chain(10).finalize_previous_batch_with(
        &mixed_state(),
        &head(32, 100, 3),
        |_: &Inherent, _: u32| panic!("asked"),
        0,
    );
    assert_eq!(got, Ok(vec![]));
}

#[test]
fn nobody_is_asked_where_the_candidates_fail() {
    let unsorted = BlockchainState { validator_slots: two_bands(), lost_rewards: vec![2, 1], disabled_slots: vec![] };
    let got = chain(10).finalize_previous_batch_with(&unsorted, &head(64, 100, 3), |_: &Inherent, _: u32| panic!("asked"), 0);
    assert_eq!(got, Err(InherentError::SlotOrder));
    let got = chain(10).finalize_previous_batch_with(
        &clean_state(),
        &head(64, u64::MAX, 3),
        |_: &Inherent, _: u32| panic!("asked"),
        0,
    );
    assert_eq!(got, Err(InherentError::Overflow));
}
