use vstd::prelude::*;
use crate::coin::Coin;
use crate::keys::Address;

verus! {

/// What an inherent does.
#[derive(Clone, Copy, Debug, PartialEq, Eq, Structural, Hash)]
pub enum InherentType {
    /// Records the misbehaviour of a validator slot.
    Slash,
    /// Credits an account.
    Reward,
    /// Closes a batch in the staking contract.
    FinalizeBatch,
    /// Closes an epoch in the staking contract.
    FinalizeEpoch,
}

/// An instruction that the protocol itself gives to the accounts: it has no
/// sender, no signature and no fee.
#[derive(Clone, Debug, PartialEq, Eq, Hash)]
pub struct Inherent {
    pub ty: InherentType,
    pub target: Address,
    pub value: Coin,
    pub data: Vec<u8>,
}

/// An inherent as a mathematical value.
pub struct InherentView {
    pub ty: InherentType,
    pub target: Address,
    pub value: int,
    pub data: Seq<u8>,
}

impl View for Inherent {
    type V = InherentView;

    open spec fn view(&self) -> InherentView {
        InherentView {
            ty: self.ty,
            target: self.target,
            value: self.value.0 as int,
            data: self.data@,
        }
    }
}

/// The views of a list of inherents, in order.
pub open spec fn inherent_views(list: Seq<Inherent>) -> Seq<InherentView> {
    Seq::new(list.len(), |i: int| list[i]@)
}

impl InherentView {
    /// A credit of `value` to `target`.
    pub open spec fn reward(target: Address, value: int) -> InherentView {
        InherentView { ty: InherentType::Reward, target, value, data: Seq::empty() }
    }

    /// The marker with which `registry` closes a batch.
    pub open spec fn finalize_batch(registry: Address) -> InherentView {
        InherentView {
            ty: InherentType::FinalizeBatch,
            target: registry,
            value: 0,
            data: Seq::empty(),
        }
    }

    /// The marker with which `registry` closes an epoch.
    pub open spec fn finalize_epoch(registry: Address) -> InherentView {
        InherentView {
            ty: InherentType::FinalizeEpoch,
            target: registry,
            value: 0,
            data: Seq::empty(),
        }
    }

    /// The record of an offence for `registry`, carrying `data`.
    pub open spec fn slash(registry: Address, data: Seq<u8>) -> InherentView {
        InherentView { ty: InherentType::Slash, target: registry, value: 0, data }
    }
}

} // verus!
