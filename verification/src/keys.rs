use vstd::prelude::*;

verus! {

/// The width of an account address in bytes.
pub const ADDRESS_SIZE: usize = 20;

/// The width of a compressed validator key in bytes.
pub const PUBLIC_KEY_SIZE: usize = 285;

/// The address of an account: `ADDRESS_SIZE` bytes.
#[derive(Clone, Copy, Debug, PartialEq, Eq, Hash)]
pub struct Address(pub [u8; 20]);

impl Address {
    /// The address at which value is destroyed: every byte of it is zero.
    pub open spec fn spec_burn_address() -> Address {
        Address(vstd::array::spec_array_fill_for_copy_type::<u8, 20>(0u8))
    }

    /// The address that stands for destroyed value.
    #[verifier::when_used_as_spec(spec_burn_address)]
    pub fn burn_address() -> (a: Address)
        ensures
            a == Address::spec_burn_address(),
            forall|i: int| 0 <= i < 20 ==> a.0[i] == 0u8,
    {
        Address([0u8; 20])
    }
}

/// A validator's signing key in compressed form: `PUBLIC_KEY_SIZE` bytes.
#[derive(Clone, Copy, Debug, PartialEq, Eq, Hash)]
pub struct CompressedPublicKey(pub [u8; 285]);

} // verus!
