use vstd::prelude::*;

verus! {

/// The stand-in for the agreement by which the validators produce a macro
/// block. It holds no state.
#[derive(Clone, Copy, Debug, PartialEq, Eq, Structural)]
pub struct Tendermint;

impl Tendermint {
    /// A fresh stand-in.
    pub fn new() -> (t: Tendermint)
        ensures
            t == Tendermint,
    {
        Tendermint
    }
}

/// The stand-in for the aggregation by which the validators agree to give up
/// a view. It holds no state.
#[derive(Clone, Copy, Debug, PartialEq, Eq, Structural)]
pub struct ViewChangeHandel;

} // verus!
