use albatross::blockchain::{Blockchain, NetworkInfo};
use albatross::coin::Coin;
use albatross::error::InherentError;
use albatross::evidence::{ForkProof, MicroHeader, SlotRecord, SlotTable, ViewChanges};
use albatross::inherent::{Inherent, InherentType};
use albatross::keys::{Address, CompressedPublicKey};
use albatross::policy::Policy;
use albatross::slashed_slot::SlashedSlot;

fn registry() -> Address {
    Address([0xaa; 20])
}

fn chain() -> Blockchain {
    Blockchain {
        network: NetworkInfo { network_id: 4, validator_registry: Some(registry()) },
        policy: Policy::new(10, 32).unwrap(),
    }
}

fn chain_without_registry() -> Blockchain {
    Blockchain {
        network: NetworkInfo { network_id: 4, validator_registry: None },
        policy: Policy::new(10, 32).unwrap(),
    }
}

fn key(byte: u8) -> CompressedPublicKey {
    CompressedPublicKey([byte; 285])
}

fn record(block_number: u32, view_number: u32, slot: u16) -> SlotRecord {
    SlotRecord { block_number, view_number, validator_key: key(slot as u8), slot }
}

fn table() -> SlotTable {
    SlotTable {
        records: vec![
            record(100, 0, 7),
            record(100, 1, 8),
            record(100, 2, 9),
            record(100, 3, 1),
            record(205, 4, 3),
            record(100, 0, 6),
        ],
    }
}

fn fork_proof(block_number: u32, view_number: u32) -> ForkProof {
    let header = MicroHeader { block_number, view_number };
    ForkProof { header1: header, header2: header }
}

fn slash(slot: u16, event_block: u32) -> Inherent {
    let mut data = vec![(slot >> 8) as u8, slot as u8];
    data.extend_from_slice(&[slot as u8; 285]);
    data.extend_from_slice(&event_block.to_be_bytes());
    Inherent { ty: InherentType::Slash, target: registry(), value: Coin(0), data }
}

#[test]
fn fork_proof_gives_one_slash() {
    let got = chain().inherent_from_fork_proof(&fork_proof(205, 4), &table());
    assert_eq!(got, Ok(slash(3, 205)));
}

#[test]
fn fork_proof_data_is_the_slashed_slot() {
    let inherent = chain().inherent_from_fork_proof(&fork_proof(205, 4), &table()).unwrap();
    assert_eq!(inherent.data.len(), 291);
    assert_eq!(
        SlashedSlot::deserialize_from_vec(&inherent.data),
        Some(SlashedSlot { slot: 3, validator_key: key(3), event_block: 205 })
    );
}

#[test]
fn fork_proof_reads_the_first_header() {
    let proof = ForkProof {
        header1: MicroHeader { block_number: 100, view_number: 2 },
        header2: MicroHeader { block_number: 205, view_number: 4 },
    };
    assert_eq!(chain().inherent_from_fork_proof(&proof, &table()), Ok(slash(9, 100)));
}

#[test]
fn earlier_record_counts() {
    let got = chain().inherent_from_fork_proof(&fork_proof(100, 0), &table());
    assert_eq!(got, Ok(slash(7, 100)));
}

#[test]
fn fork_proof_without_slot_is_a_fault() {
    let got = chain().inherent_from_fork_proof(&fork_proof(205, 5), &table());
    assert_eq!(got, Err(InherentError::SlotNotFound));
}

#[test]
fn fork_proof_without_registry_is_a_fault() {
    let got = chain_without_registry().inherent_from_fork_proof(&fork_proof(205, 4), &table());
    assert_eq!(got, Err(InherentError::NoValidatorRegistry));
    let got = chain_without_registry().inherent_from_fork_proof(&fork_proof(205, 5), &table());
    assert_eq!(got, Err(InherentError::NoValidatorRegistry));
}

#[test]
fn view_changes_skip_the_last_view() {
    let changes = ViewChanges { block_number: 100, first_view_number: 0, last_view_number: 3 };
    let got = chain().inherents_from_view_changes(&changes, &table());
    assert_eq!(got, Ok(vec![slash(7, 100), slash(8, 100), slash(9, 100)]));
}

#[test]
fn view_changes_may_start_late() {
    let changes = ViewChanges { block_number: 100, first_view_number: 2, last_view_number: 4 };
    let got = chain().inherents_from_view_changes(&changes, &table());
    assert_eq!(got, Ok(vec![slash(9, 100), slash(1, 100)]));
}

#[test]
fn no_view_given_up_gives_nothing() {
    let changes = ViewChanges { block_number: 100, first_view_number: 2, last_view_number: 2 };
    assert_eq!(chain().inherents_from_view_changes(&changes, &table()), Ok(vec![]));
    let changes = ViewChanges { block_number: 100, first_view_number: 3, last_view_number: 1 };
    assert_eq!(chain().inherents_from_view_changes(&changes, &table()), Ok(vec![]));
}

#[test]
fn view_changes_without_slot_are_a_fault() {
    let changes = ViewChanges { block_number: 100, first_view_number: 2, last_view_number: 6 };
    let got = chain().inherents_from_view_changes(&changes, &table());
    assert_eq!(got, Err(InherentError::SlotNotFound));
}

#[test]
fn view_changes_without_registry_are_a_fault() {
    let changes = ViewChanges { block_number: 100, first_view_number: 2, last_view_number: 2 };
    let got = chain_without_registry().inherents_from_view_changes(&changes, &table());
    assert_eq!(got, Err(InherentError::NoValidatorRegistry));
}

#[test]
fn slash_count_with_view_changes() {
    let proofs = [fork_proof(205, 4), fork_proof(100, 1)];
    let changes = ViewChanges { block_number: 100, first_view_number: 1, last_view_number: 4 };
    let list = chain().create_slash_inherents(&proofs, &Some(changes), &table()).unwrap();
    assert_eq!(list.len(), 2 + (4 - 1));
}

#[test]
fn slash_count_without_view_changes() {
    let proofs = [fork_proof(205, 4), fork_proof(100, 1), fork_proof(100, 3)];
    let list = chain().create_slash_inherents(&proofs, &None, &table()).unwrap();
    assert_eq!(list.len(), 3);
}

#[test]
fn fork_proofs_come_first_and_order_is_kept() {
    let proofs = [fork_proof(205, 4), fork_proof(100, 1)];
    let changes = ViewChanges { block_number: 100, first_view_number: 2, last_view_number: 4 };
    let got = chain().create_slash_inherents(&proofs, &Some(changes), &table());
    assert_eq!(got, Ok(vec![slash(3, 205), slash(8, 100), slash(9, 100), slash(1, 100)]));
}

#[test]
fn no_evidence_gives_nothing() {
    assert_eq!(chain().create_slash_inherents(&[], &None, &table()), Ok(vec![]));
    assert_eq!(chain_without_registry().create_slash_inherents(&[], &None, &table()), Ok(vec![]));
}

#[test]
fn evidence_without_registry_is_a_fault() {
    let proofs = [fork_proof(205, 4)];
    assert_eq!(
        chain_without_registry().create_slash_inherents(&proofs, &None, &table()),
        Err(InherentError::NoValidatorRegistry)
    );
    let changes = ViewChanges { block_number: 100, first_view_number: 2, last_view_number: 2 };
    assert_eq!(
        chain_without_registry().create_slash_inherents(&[], &Some(changes), &table()),
        Err(InherentError::NoValidatorRegistry)
    );
}

#[test]
fn evidence_without_slot_is_a_fault() {
    let proofs = [fork_proof(205, 4), fork_proof(1, 1)];
    assert_eq!(chain().create_slash_inherents(&proofs, &None, &table()), Err(InherentError::SlotNotFound));
    let changes = ViewChanges { block_number: 205, first_view_number: 3, last_view_number: 5 };
    assert_eq!(
        chain().create_slash_inherents(&proofs[..1], &Some(changes), &table()),
        Err(InherentError::SlotNotFound)
    );
}

#[test]
fn same_evidence_gives_the_same_list() {
    let proofs = [fork_proof(205, 4), fork_proof(100, 1)];
    let changes = ViewChanges { block_number: 100, first_view_number: 0, last_view_number: 4 };
    let a = chain().create_slash_inherents(&proofs, &Some(changes), &table());
    let b = chain().create_slash_inherents(&proofs, &Some(changes), &table());
    assert!(a.is_ok());
    assert_eq!(a, b);
}

#[test]
fn table_lookup() {
    assert_eq!(table().get_slot_at(100, 3), Some(record(100, 3, 1)));
    assert_eq!(table().get_slot_at(100, 4), None);
    assert_eq!(table().get_slot_at(4, 205), None);
    assert_eq!(SlotTable { records: vec![] }.get_slot_at(0, 0), None);
}

fn resolver(block_number: u32, view_number: u32) -> Option<(CompressedPublicKey, u16)> {
    table().get_slot_at(block_number, view_number).map(|record| (record.validator_key, record.slot))
}

#[test]
fn table_is_gathered_from_the_resolver() {
    let proofs = [fork_proof(205, 4), fork_proof(1, 1), fork_proof(100, 1)];
    let changes = ViewChanges { block_number: 100, first_view_number: 2, last_view_number: 5 };
    let got = SlotTable::for_evidence(&proofs, &Some(changes), resolver);
    assert_eq!(
        got,
        SlotTable { records: vec![record(205, 4, 3), record(100, 1, 8), record(100, 2, 9), record(100, 3, 1)] }
    );
    assert_eq!(SlotTable::for_evidence(&[], &None, resolver), SlotTable { records: vec![] });
}

#[test]
fn resolver_is_asked_in_order() {
    let asked = std::cell::RefCell::new(Vec::new());
    let proofs = [fork_proof(205, 4), fork_proof(100, 1)];
    let changes = ViewChanges { block_number: 100, first_view_number: 2, last_view_number: 4 };
    let got = chain().create_slash_inherents_with(&proofs, &Some(changes), |block_number: u32, view_number: u32| {
        asked.borrow_mut().push((block_number, view_number));
        resolver(block_number, view_number)
    });
    assert_eq!(got, Ok(vec![slash(3, 205), slash(8, 100), slash(9, 100), slash(1, 100)]));
    assert_eq!(asked.into_inner(), vec![(205, 4), (100, 1), (100, 2), (100, 3)]);
}

#[test]
fn unknown_producer_is_a_fault() {
    let proofs = [fork_proof(205, 4)];
    let changes = ViewChanges { block_number: 100, first_view_number: 3, last_view_number: 5 };
    assert_eq!(
        chain().create_slash_inherents_with(&proofs, &Some(changes), resolver),
        Err(InherentError::SlotNotFound)
    );
    assert_eq!(
        chain().create_slash_inherents_with(&proofs, &None, |_: u32, _: u32| None),
        Err(InherentError::SlotNotFound)
    );
    assert_eq!(chain().create_slash_inherents_with(&[], &None, |_: u32, _: u32| None), Ok(vec![]));
    assert_eq!(
        chain_without_registry().create_slash_inherents_with(&proofs, &None, resolver),
        Err(InherentError::NoValidatorRegistry)
    );
}

#[test]
fn asking_gives_what_the_table_gives() {
    let proofs = [fork_proof(205, 4), fork_proof(100, 0), fork_proof(100, 0)];
    let changes = ViewChanges { block_number: 100, first_view_number: 0, last_view_number: 4 };
    let asked = chain().create_slash_inherents_with(&proofs, &Some(changes), resolver);
    let given = chain().create_slash_inherents(&proofs, &Some(changes), &table());
    assert!(asked.is_ok());
    assert_eq!(asked, given);
}
