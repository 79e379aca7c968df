use vstd::prelude::*;

verus! {

/// An internal fault met while inherents were built. Each one shows corrupted
/// state or a caller that broke its side of the contract, and ends the
/// operation that was under way.
#[derive(Clone, Copy, Debug, PartialEq, Eq, Structural, Hash)]
pub enum InherentError {
    /// The network has no validator registry address.
    NoValidatorRegistry,
    /// An amount of reward or of burned value does not fit.
    Overflow,
    /// The slashed slot indices do not come in strictly ascending order.
    SlotOrder,
    /// The acceptance outcomes do not pair up with the slot bands.
    CountMismatch,
    /// No slot is known for the block and view that a piece of evidence names.
    SlotNotFound,
}

} // verus!
