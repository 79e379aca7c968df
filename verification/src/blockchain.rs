use vstd::prelude::*;
use crate::coin::Coin;
use crate::keys::Address;
use crate::policy::Policy;
use crate::slots::SlotBand;

verus! {

/// What is known of the network that a chain runs on.
#[derive(Clone, Copy, Debug, PartialEq, Eq)]
pub struct NetworkInfo {
    /// The number that names the network.
    pub network_id: u8,
    /// The address of the contract that keeps the validators, if the network
    /// has one.
    pub validator_registry: Option<Address>,
}

impl NetworkInfo {
    /// The address of the network's validator registry.
    pub fn validator_registry_address(&self) -> (a: Option<Address>)
        ensures
            a == self.validator_registry,
    {
        self.validator_registry
    }
}

/// The header of a macro block, as far as inherents depend on it.
#[derive(Clone, Copy, Debug, PartialEq, Eq)]
pub struct MacroHeader {
    pub block_number: u32,
}

/// The head of the chain with what has been added up for its batch.
#[derive(Clone, Copy, Debug, PartialEq, Eq)]
pub struct ChainInfo {
    /// The macro block that closes the batch.
    pub head: MacroHeader,
    /// The fees of all transactions of the batch.
    pub cum_tx_fees: Coin,
    /// The newly issued reward of the batch.
    pub block_reward: Coin,
}

/// The staking state of the batch that is being closed.
#[derive(Clone, Debug, PartialEq, Eq)]
pub struct BlockchainState {
    /// The validator slot bands of the batch, in slot order.
    pub validator_slots: Vec<SlotBand>,
    /// The slots that lost their reward, in ascending order.
    pub lost_rewards: Vec<u16>,
    /// The slots that were disabled, in ascending order.
    pub disabled_slots: Vec<u16>,
}

/// The staking state of a batch as a mathematical value.
pub struct StateView {
    pub validator_slots: Seq<SlotBand>,
    pub lost_rewards: Seq<u16>,
    pub disabled_slots: Seq<u16>,
}

impl View for BlockchainState {
    type V = StateView;

    open spec fn view(&self) -> StateView {
        StateView {
            validator_slots: self.validator_slots@,
            lost_rewards: self.lost_rewards@,
            disabled_slots: self.disabled_slots@,
        }
    }
}

/// The part of a chain that builds inherents.
#[derive(Clone, Copy, Debug, PartialEq, Eq)]
pub struct Blockchain {
    pub network: NetworkInfo,
    pub policy: Policy,
}

} // verus!
