use albatross::keys::CompressedPublicKey;
use albatross::slashed_slot::{SlashedSlot, SLASHED_SLOT_SIZE};

fn sample_key() -> CompressedPublicKey {
    let mut bytes = [0u8; 285];
    for (i, byte) in bytes.iter_mut().enumerate() {
        *byte = (i % 251) as u8;
    }
    CompressedPublicKey(bytes)
}

#[test]
fn bytes_are_slot_key_block() {
    let record = SlashedSlot { slot: 0x0102, validator_key: sample_key(), event_block: 0x0a0b0c0d };
    let bytes = record.serialize_to_vec();
    assert_eq!(bytes.len(), SLASHED_SLOT_SIZE);
    assert_eq!(bytes.len(), 291);
    assert_eq!(&bytes[..2], &[0x01, 0x02]);
    assert_eq!(&bytes[2..287], &sample_key().0[..]);
    assert_eq!(&bytes[287..], &[0x0a, 0x0b, 0x0c, 0x0d]);
}

#[test]
fn reading_gives_back_what_was_written() {
    for (slot, event_block) in [(0u16, 0u32), (1, 1), (255, 256), (256, 65535), (u16::MAX, u32::MAX), (511, 4_000_000)] {
        let record = SlashedSlot { slot, validator_key: sample_key(), event_block };
        assert_eq!(SlashedSlot::deserialize_from_vec(&record.serialize_to_vec()), Some(record));
    }
}

#[test]
fn writing_gives_back_what_was_read() {
    let mut bytes = vec![0u8; 291];
    for (i, byte) in bytes.iter_mut().enumerate() {
        *byte = (7 * i % 256) as u8;
    }
    let record = SlashedSlot::deserialize_from_vec(&bytes).unwrap();
    assert_eq!(record.slot, 7);
    assert_eq!(record.event_block, u32::from_be_bytes([bytes[287], bytes[288], bytes[289], bytes[290]]));
    assert_eq!(record.serialize_to_vec(), bytes);
}

#[test]
fn wrong_length_is_refused() {
    assert_eq!(SlashedSlot::deserialize_from_vec(&vec![]), None);
    assert_eq!(SlashedSlot::deserialize_from_vec(&vec![0; 290]), None);
    assert_eq!(SlashedSlot::deserialize_from_vec(&vec![0; 292]), None);
}

#[test]
fn different_records_have_different_bytes() {
    let a = SlashedSlot { slot: 1, validator_key: sample_key(), event_block: 2 };
    let b = SlashedSlot { slot: 1, validator_key: sample_key(), event_block: 2 << 8 };
    let c = SlashedSlot { slot: 1 << 8, validator_key: sample_key(), event_block: 2 };
    let d = SlashedSlot { slot: 1, validator_key: CompressedPublicKey([0; 285]), event_block: 2 };
    assert_ne!(a.serialize_to_vec(), b.serialize_to_vec());
    assert_ne!(a.serialize_to_vec(), c.serialize_to_vec());
    assert_ne!(a.serialize_to_vec(), d.serialize_to_vec());
}
