use vstd::prelude::*;

verus! {

/// The usual number of validator slots.
pub const SLOTS: u16 = 512;

/// The usual number of blocks in a batch.
pub const BATCH_LENGTH: u32 = 32;

/// The protocol parameters that inherent generation depends on.
///
/// Both parameters are positive in every `Policy`.
#[derive(Clone, Copy, Debug, PartialEq, Eq)]
pub struct Policy {
    slots: u16,
    batch_length: u32,
}

impl Policy {
    #[verifier::type_invariant]
    spec fn positive(self) -> bool {
        self.slots > 0 && self.batch_length > 0
    }

    /// The number of validator slots.
    pub closed spec fn spec_slots(&self) -> u16 {
        self.slots
    }

    /// The number of blocks in a batch.
    pub closed spec fn spec_batch_length(&self) -> u32 {
        self.batch_length
    }

    /// The number of the batch that holds block `block_number`: block 0 alone
    /// is batch 0, and each following run of `batch_length` blocks is one batch.
    pub open spec fn spec_batch_at(&self, block_number: u32) -> int {
        if block_number == 0 {
            0
        } else {
            (block_number - 1) / (self.spec_batch_length() as int) + 1
        }
    }

    /// A policy with the given parameters, or `None` where one of them is zero.
    pub fn new(slots: u16, batch_length: u32) -> (p: Option<Policy>)
        ensures
            (slots > 0 && batch_length > 0) ==> p.is_some(),
            (slots == 0 || batch_length == 0) ==> p.is_none(),
            p matches Some(q) ==> q.spec_slots() == slots && q.spec_batch_length() == batch_length,
    {
        if slots == 0 || batch_length == 0 {
            None
        } else {
            Some(Policy { slots, batch_length })
        }
    }

    /// The number of validator slots, which is positive.
    #[verifier::when_used_as_spec(spec_slots)]
    pub fn slots(&self) -> (s: u16)
        ensures
            s == self.spec_slots(),
            s > 0,
    {
        proof {
            use_type_invariant(self);
        }
        self.slots
    }

    /// The number of blocks in a batch, which is positive.
    #[verifier::when_used_as_spec(spec_batch_length)]
    pub fn batch_length(&self) -> (l: u32)
        ensures
            l == self.spec_batch_length(),
            l > 0,
    {
        proof {
            use_type_invariant(self);
        }
        self.batch_length
    }

    /// The number of the batch that holds block `block_number`.
    pub fn batch_at(&self, block_number: u32) -> (b: u32)
        ensures
            b == self.spec_batch_at(block_number),
    {
        proof {
            use_type_invariant(self);
        }
        if block_number == 0 {
            0
        } else {
            (block_number - 1) / self.batch_length + 1
        }
    }
}

impl Default for Policy {
    /// The usual parameters.
    fn default() -> (p: Policy)
        ensures
            p.spec_slots() == SLOTS,
            p.spec_batch_length() == BATCH_LENGTH,
    {
        Policy { slots: SLOTS, batch_length: BATCH_LENGTH }
    }
}

} // verus!
