//! Verified parts of a node of a proof-of-stake chain.
//!
//! The heart of the library makes inherents, the instructions that the
//! protocol itself gives to the accounts: `slashing` turns evidence of
//! misbehaviour into slash inherents, and `finalization` distributes the
//! reward of a batch and marks the end of batches and epochs. `reward` holds
//! the rules of the distribution, `conservation` what is proved of them,
//! `lottery` the draw that gives out the remainder, and `slots` the slot
//! bands and the slashed set.
//!
//! Beside it stand the NAT state of a node (`autonat`), the cutting of
//! messages into tagged chunks for a WebSocket (`websocket`), and the sent
//! form of a level update (`level_update`).

pub mod autonat;
pub mod blockchain;
pub mod coin;
pub mod conservation;
pub mod error;
pub mod evidence;
pub mod finalization;
pub mod inherent;
pub mod keys;
pub mod level_update;
pub mod lottery;
pub mod mock;
pub mod policy;
pub mod reward;
pub mod slashed_slot;
pub mod slashing;
pub mod slots;
pub mod websocket;
