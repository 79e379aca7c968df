use vstd::prelude::*;
use crate::keys::{CompressedPublicKey, PUBLIC_KEY_SIZE};

verus! {

/// The number of bytes that a slashed slot is written in.
pub const SLASHED_SLOT_SIZE: usize = 291;

/// The record of an offence: the slot that misbehaved, the key of the
/// validator that held it, and the block at which it happened. It travels in
/// the data of a slash inherent.
#[derive(Clone, Copy, Debug, PartialEq, Eq, Hash)]
pub struct SlashedSlot {
    pub slot: u16,
    pub validator_key: CompressedPublicKey,
    pub event_block: u32,
}

/// The two bytes of a number, the high one first.
pub open spec fn be_bytes_u16(x: u16) -> Seq<u8> {
    seq![(x / 256) as u8, (x % 256) as u8]
}

/// The four bytes of a number, the highest first.
pub open spec fn be_bytes_u32(x: u32) -> Seq<u8> {
    seq![
        (x / 0x100_0000) as u8,
        (x / 0x1_0000 % 256) as u8,
        (x / 0x100 % 256) as u8,
        (x % 256) as u8,
    ]
}

/// Two bytes are the bytes of the number that they spell.
proof fn lemma_be_bytes_u16(high: u8, low: u8)
    ensures
        high * 256 + low <= u16::MAX,
        be_bytes_u16((high * 256 + low) as u16) == seq![high, low],
{
    let x = (high * 256 + low) as u16;
    assert(x / 256 == high && x % 256 == low);
    assert(be_bytes_u16(x) =~= seq![high, low]);
}

/// Four bytes are the bytes of the number that they spell.
proof fn lemma_be_bytes_u32(b3: u8, b2: u8, b1: u8, b0: u8)
    ensures
        b3 * 0x100_0000 + b2 * 0x1_0000 + b1 * 0x100 + b0 <= u32::MAX,
        be_bytes_u32((b3 * 0x100_0000 + b2 * 0x1_0000 + b1 * 0x100 + b0) as u32) == seq![
            b3,
            b2,
            b1,
            b0,
        ],
{
    let x = (b3 * 0x100_0000 + b2 * 0x1_0000 + b1 * 0x100 + b0) as u32;
    assert(x / 0x100_0000 == b3);
    assert(x / 0x1_0000 == b3 * 256 + b2);
    assert(x / 0x100 == b3 * 0x1_0000 + b2 * 256 + b1);
    assert(x % 256 == b0);
    assert(be_bytes_u32(x) =~= seq![b3, b2, b1, b0]);
}

/// The bytes of a number spell it.
proof fn lemma_be_bytes_spell(x: u16, y: u32)
    ensures
        be_bytes_u16(x)[0] * 256 + be_bytes_u16(x)[1] == x,
        be_bytes_u32(y)[0] * 0x100_0000 + be_bytes_u32(y)[1] * 0x1_0000 + be_bytes_u32(y)[2]
            * 0x100 + be_bytes_u32(y)[3] == y,
{
}

impl SlashedSlot {
    /// The bytes of the record: the slot in two bytes, the key as it is, and
    /// the event block in four bytes, numbers with the high byte first.
    pub open spec fn spec_serialize(self) -> Seq<u8> {
        be_bytes_u16(self.slot) + self.validator_key.0@ + be_bytes_u32(self.event_block)
    }

    /// The bytes of the record.
    pub fn serialize_to_vec(&self) -> (bytes: Vec<u8>)
        ensures
            bytes@ == self.spec_serialize(),
            bytes.len() == SLASHED_SLOT_SIZE,
    {
        let mut bytes: Vec<u8> = Vec::new();
        bytes.push((self.slot / 256) as u8);
        bytes.push((self.slot % 256) as u8);
        let mut i: usize = 0;
        while i < PUBLIC_KEY_SIZE
            invariant
                i <= PUBLIC_KEY_SIZE,
                bytes@ == be_bytes_u16(self.slot) + self.validator_key.0@.subrange(0, i as int),
            decreases PUBLIC_KEY_SIZE - i,
        {
            bytes.push(self.validator_key.0[i]);
            proof {
                let key = self.validator_key.0@;
                assert(key.subrange(0, i + 1) =~= key.subrange(0, i as int).push(key[i as int]));
            }
            i += 1;
        }
        proof {
            let key = self.validator_key.0@;
            assert(key.subrange(0, PUBLIC_KEY_SIZE as int) =~= key);
        }
        bytes.push((self.event_block / 0x100_0000) as u8);
        bytes.push((self.event_block / 0x1_0000 % 256) as u8);
        bytes.push((self.event_block / 0x100 % 256) as u8);
        bytes.push((self.event_block % 256) as u8);
        assert(bytes@ =~= self.spec_serialize());
        bytes
    }

    /// The record that the bytes are the writing of, or `None` where they are
    /// not as many as a record takes.
    pub fn deserialize_from_vec(bytes: &Vec<u8>) -> (r: Option<SlashedSlot>)
        ensures
            bytes.len() == SLASHED_SLOT_SIZE ==> r.is_some(),
            bytes.len() != SLASHED_SLOT_SIZE ==> r.is_none(),
            r matches Some(record) ==> record.spec_serialize() == bytes@,
    {
        if bytes.len() != SLASHED_SLOT_SIZE {
            return None;
        }
        let slot: u16 = (bytes[0] as u16) * 256 + bytes[1] as u16;
        let mut key: [u8; 285] = [0u8; 285];
        let mut i: usize = 0;
        while i < PUBLIC_KEY_SIZE
            invariant
                i <= PUBLIC_KEY_SIZE,
                bytes.len() == SLASHED_SLOT_SIZE,
                forall|j: int| 0 <= j < i ==> key@[j] == bytes[2 + j],
            decreases PUBLIC_KEY_SIZE - i,
        {
            key[i] = bytes[2 + i];
            i += 1;
        }
        let event_block: u32 = (bytes[287] as u32) * 0x100_0000 + (bytes[288] as u32) * 0x1_0000
            + (bytes[289] as u32) * 0x100 + bytes[290] as u32;
        let record = SlashedSlot { slot, validator_key: CompressedPublicKey(key), event_block };
        proof {
            lemma_be_bytes_u16(bytes[0], bytes[1]);
            lemma_be_bytes_u32(bytes[287], bytes[288], bytes[289], bytes[290]);
            let head = be_bytes_u16(slot);
            let tail = be_bytes_u32(event_block);
            let written = record.spec_serialize();
            assert forall|j: int| 0 <= j < written.len() implies written[j] == bytes[j] by {
                if j < 2 {
                    assert(written[j] == head[j]);
                } else if j < 287 {
                    assert(written[j] == key@[j - 2]);
                } else {
                    assert(written[j] == tail[j - 287]);
                }
            }
            assert(written =~= bytes@);
        }
        Some(record)
    }

    /// The bytes of a record say which record it is: two records with the
    /// same bytes are the same, so that reading gives back what was written.
    pub proof fn lemma_serialize_injective(self, other: SlashedSlot)
        requires
            self.spec_serialize() == other.spec_serialize(),
        ensures
            self == other,
    {
        let a = self.spec_serialize();
        let b = other.spec_serialize();
        lemma_be_bytes_spell(self.slot, self.event_block);
        lemma_be_bytes_spell(other.slot, other.event_block);
        // The slot stands in the first two bytes.
        assert(a[0] == be_bytes_u16(self.slot)[0] && a[1] == be_bytes_u16(self.slot)[1]);
        assert(b[0] == be_bytes_u16(other.slot)[0] && b[1] == be_bytes_u16(other.slot)[1]);
        // The key stands in the next 285 bytes.
        assert forall|i: int| 0 <= i < 285 implies self.validator_key.0[i]
            == other.validator_key.0[i] by {
            assert(a[2 + i] == self.validator_key.0@[i]);
            assert(b[2 + i] == other.validator_key.0@[i]);
        }
        assert(self.validator_key.0 =~= other.validator_key.0);
        // The event block stands in the last four bytes.
        assert forall|i: int| 0 <= i < 4 implies be_bytes_u32(self.event_block)[i] == be_bytes_u32(
            other.event_block,
        )[i] by {
            assert(a[287 + i] == be_bytes_u32(self.event_block)[i]);
            assert(b[287 + i] == be_bytes_u32(other.event_block)[i]);
        }
    }
}

} // verus!
