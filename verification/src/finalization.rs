use vstd::prelude::*;
use crate::blockchain::{Blockchain, BlockchainState, ChainInfo, StateView};
use crate::coin::Coin;
use crate::error::InherentError;
use crate::inherent::{inherent_views, Inherent, InherentType, InherentView};
use crate::keys::Address;
use crate::reward::{all_accepting, distribute, propose, round_of, total_value, RewardRound};
use crate::slots::{slashed_set, slot_set, strictly_ascending, total_slots};

verus! {

impl Blockchain {
    /// The number of the batch before the one that the head of `chain_info`
    /// closes. It is below 1 at the start of the chain.
    pub open spec fn previous_batch(&self, chain_info: ChainInfo) -> int {
        self.policy.spec_batch_at(chain_info.head.block_number) - 1
    }

    /// The reward pot of the batch: the newly issued reward and the fees.
    pub open spec fn reward_pot(chain_info: ChainInfo) -> int {
        chain_info.block_reward.0 + chain_info.cum_tx_fees.0
    }

    /// The slashed set of the batch: the slots that both lost their reward
    /// and were disabled.
    pub open spec fn slashed(state: StateView) -> Set<int> {
        slot_set(state.lost_rewards).intersect(slot_set(state.disabled_slots))
    }

    /// What the rewards of the batch are computed from.
    pub open spec fn reward_round(
        &self,
        state: StateView,
        chain_info: ChainInfo,
        accepted: Seq<bool>,
        ticket: u64,
    ) -> RewardRound {
        RewardRound {
            bands: state.validator_slots,
            slashed: Self::slashed(state),
            accepted,
            pot: Self::reward_pot(chain_info),
            slots: self.policy.spec_slots() as int,
            ticket: ticket as int,
        }
    }

    /// What finalizing the previous batch gives.
    ///
    /// Nothing where there is no batch before the first. Else the faults are
    /// looked for in this order: acceptance outcomes that do not pair up with
    /// the bands, slot lists out of order, an amount that does not fit, no
    /// validator registry. Without a fault the result is the round's
    /// inherents.
    pub open spec fn spec_finalize_previous_batch(
        &self,
        state: StateView,
        chain_info: ChainInfo,
        accepted: Seq<bool>,
        ticket: u64,
    ) -> Result<Seq<InherentView>, InherentError> {
        let round = self.reward_round(state, chain_info, accepted, ticket);
        if self.previous_batch(chain_info) <= 0 {
            Ok(Seq::empty())
        } else if accepted.len() != state.validator_slots.len() {
            Err(InherentError::CountMismatch)
        } else if !strictly_ascending(state.lost_rewards) || !strictly_ascending(
            state.disabled_slots,
        ) {
            Err(InherentError::SlotOrder)
        } else if Self::reward_pot(chain_info) > u64::MAX || round.overflows() {
            Err(InherentError::Overflow)
        } else if self.network.validator_registry is None {
            Err(InherentError::NoValidatorRegistry)
        } else {
            Ok(round.inherents(self.network.validator_registry->0))
        }
    }

    /// The inherents that close the batch before the one that the head of
    /// `chain_info` closes: a reward for each band whose address accepts it,
    /// the burn, and the marker for the staking contract.
    ///
    /// `accepted` says for each band whether its reward address accepts the
    /// band's reward, and `ticket` is the draw from the head's seed that
    /// decides who gets the remainder.
    pub fn finalize_previous_batch(
        &self,
        state: &BlockchainState,
        chain_info: &ChainInfo,
        accepted: &Vec<bool>,
        ticket: u64,
    ) -> (r: Result<Vec<Inherent>, InherentError>)
        ensures
            match r {
                Ok(list) => self.spec_finalize_previous_batch(
                    state@,
                    *chain_info,
                    accepted@,
                    ticket,
                ) == Ok::<Seq<InherentView>, InherentError>(inherent_views(list@)),
                Err(fault) => self.spec_finalize_previous_batch(
                    state@,
                    *chain_info,
                    accepted@,
                    ticket,
                ) == Err::<Seq<InherentView>, InherentError>(fault),
            },
            self.previous_batch(*chain_info) <= 0 ==> r is Ok && r->Ok_0.len() == 0,
            r matches Ok(list) ==> (self.previous_batch(*chain_info) > 0 && total_slots(
                state.validator_slots@,
            ) == self.policy.spec_slots() ==> total_value(inherent_views(list@))
                == Self::reward_pot(*chain_info)),
    {
        let slots: u16 = self.policy.slots();
        proof {
            if self.previous_batch(*chain_info) > 0 && total_slots(state.validator_slots@) == slots
                && self.spec_finalize_previous_batch(state@, *chain_info, accepted@, ticket)
                is Ok {
                self.lemma_conservation(state@, *chain_info, accepted@, ticket);
            }
        }
        if self.policy.batch_at(chain_info.head.block_number) <= 1 {
            let empty: Vec<Inherent> = Vec::new();
            assert(inherent_views(empty@) =~= Seq::empty());
            return Ok(empty);
        }
        if accepted.len() != state.validator_slots.len() {
            return Err(InherentError::CountMismatch);
        }
        let slashed = match slashed_set(&state.lost_rewards, &state.disabled_slots) {
            Ok(slashed) => slashed,
            Err(fault) => {
                return Err(fault);
            },
        };
        let pot = match chain_info.block_reward.checked_add(chain_info.cum_tx_fees) {
            Some(pot) => pot,
            None => {
                return Err(InherentError::Overflow);
            },
        };
        let mut inherents = match distribute(
            &state.validator_slots,
            &slashed,
            accepted,
            pot,
            &self.policy,
            ticket,
        ) {
            Ok(payments) => payments,
            Err(fault) => {
                return Err(fault);
            },
        };
        let registry: Address = match self.network.validator_registry {
            Some(address) => address,
            None => {
                return Err(InherentError::NoValidatorRegistry);
            },
        };
        let ghost payments = inherents@;
        inherents.push(
            Inherent {
                ty: InherentType::FinalizeBatch,
                target: registry,
                value: Coin(0),
                data: Vec::new(),
            },
        );
        assert(inherent_views(inherents@) =~= inherent_views(payments).push(
            InherentView::finalize_batch(registry),
        ));
        Ok(inherents)
    }

    /// What `finalize_previous_epoch` gives: the marker that closes an epoch,
    /// or the fault `NoValidatorRegistry` where the network has no registry.
    pub open spec fn spec_finalize_previous_epoch(&self) -> Result<InherentView, InherentError> {
        match self.network.validator_registry {
            Some(registry) => Ok(InherentView::finalize_epoch(registry)),
            None => Err(InherentError::NoValidatorRegistry),
        }
    }

    /// The inherent that closes the previous epoch in the staking contract.
    pub fn finalize_previous_epoch(&self) -> (r: Result<Inherent, InherentError>)
        ensures
            match r {
                Ok(inherent) => self.spec_finalize_previous_epoch() == Ok::<
                    InherentView,
                    InherentError,
                >(inherent@),
                Err(fault) => self.spec_finalize_previous_epoch() == Err::<
                    InherentView,
                    InherentError,
                >(fault),
            },
    {
        match self.network.validator_registry_address() {
            Some(validator_registry) => Ok(
                Inherent {
                    ty: InherentType::FinalizeEpoch,
                    target: validator_registry,
                    value: Coin::zero(),
                    data: Vec::new(),
                },
            ),
            None => Err(InherentError::NoValidatorRegistry),
        }
    }

    /// What `reward_candidates` gives: nothing where there is no batch before
    /// the first; else the fault `SlotOrder` where a slot list is out of
    /// order, else `Overflow` where the pot or the reward of a band does not
    /// fit; else one candidate for each band.
    pub open spec fn spec_reward_candidates(
        &self,
        state: StateView,
        chain_info: ChainInfo,
    ) -> Result<Seq<InherentView>, InherentError> {
        let round = self.reward_round(
            state,
            chain_info,
            all_accepting(state.validator_slots.len()),
            0,
        );
        if self.previous_batch(chain_info) <= 0 {
            Ok(Seq::empty())
        } else if !strictly_ascending(state.lost_rewards) || !strictly_ascending(
            state.disabled_slots,
        ) {
            Err(InherentError::SlotOrder)
        } else if Self::reward_pot(chain_info) > u64::MAX || round.reward_overflows() {
            Err(InherentError::Overflow)
        } else {
            Ok(round.candidates())
        }
    }

    /// The reward inherents that the bands of the previous batch are to be
    /// offered, one for each band and in band order. The accounts say for
    /// each whether its target accepts it, and `finalize_previous_batch` takes
    /// their answers.
    pub fn reward_candidates(&self, state: &BlockchainState, chain_info: &ChainInfo) -> (r: Result<
        Vec<Inherent>,
        InherentError,
    >)
        ensures
            match r {
                Ok(list) => self.spec_reward_candidates(state@, *chain_info) == Ok::<
                    Seq<InherentView>,
                    InherentError,
                >(inherent_views(list@)),
                Err(fault) => self.spec_reward_candidates(state@, *chain_info) == Err::<
                    Seq<InherentView>,
                    InherentError,
                >(fault),
            },
            r matches Ok(list) ==> list.len() == if self.previous_batch(*chain_info) <= 0 {
                0
            } else {
                state.validator_slots.len() as int
            },
    {
        if self.policy.batch_at(chain_info.head.block_number) <= 1 {
            let empty: Vec<Inherent> = Vec::new();
            assert(inherent_views(empty@) =~= Seq::empty());
            return Ok(empty);
        }
        let slashed = match slashed_set(&state.lost_rewards, &state.disabled_slots) {
            Ok(slashed) => slashed,
            Err(fault) => {
                return Err(fault);
            },
        };
        let pot = match chain_info.block_reward.checked_add(chain_info.cum_tx_fees) {
            Some(pot) => pot,
            None => {
                return Err(InherentError::Overflow);
            },
        };
        let candidates = propose(&state.validator_slots, &slashed, pot, &self.policy);
        proof {
            if candidates is Ok {
                assert(inherent_views(candidates->Ok_0@).len() == candidates->Ok_0.len());
            }
        }
        candidates
    }

    /// Whether the inputs of a finalization are sound: the slot lists are in
    /// order, the bands cover the slots exactly, there is one acceptance
    /// outcome for each band, the pot fits, and the network has a registry.
    pub open spec fn sound_inputs(
        &self,
        state: StateView,
        chain_info: ChainInfo,
        accepted: Seq<bool>,
    ) -> bool {
        &&& strictly_ascending(state.lost_rewards)
        &&& strictly_ascending(state.disabled_slots)
        &&& total_slots(state.validator_slots) == self.policy.spec_slots()
        &&& accepted.len() == state.validator_slots.len()
        &&& Self::reward_pot(chain_info) <= u64::MAX
        &&& self.network.validator_registry is Some
    }

    /// Conservation: a finalization that gives inherents for bands that cover
    /// the slots exactly gives out the reward pot, no more and no less. The
    /// values of the reward inherents and of the burn add up to the pot, for
    /// every slashed set and every combination of acceptance outcomes.
    pub proof fn lemma_conservation(
        &self,
        state: StateView,
        chain_info: ChainInfo,
        accepted: Seq<bool>,
        ticket: u64,
    )
        requires
            self.policy.spec_slots() > 0,
            self.previous_batch(chain_info) > 0,
            total_slots(state.validator_slots) == self.policy.spec_slots(),
            self.spec_finalize_previous_batch(state, chain_info, accepted, ticket) is Ok,
        ensures
            ({
                let round = self.reward_round(state, chain_info, accepted, ticket);
                let list = self.spec_finalize_previous_batch(
                    state,
                    chain_info,
                    accepted,
                    ticket,
                )->Ok_0;
                &&& list == round.reward_inherents().push(round.burn_inherent()).push(
                    InherentView::finalize_batch(self.network.validator_registry->0),
                )
                &&& total_value(round.reward_inherents()) + round.burn_inherent().value
                    == Self::reward_pot(chain_info)
                &&& total_value(list) == Self::reward_pot(chain_info)
            }),
    {
        let round = self.reward_round(state, chain_info, accepted, ticket);
        round.lemma_conservation();
    }

    /// Sound inputs give no fault: after the first batch the finalization
    /// gives the inherents of its round.
    pub proof fn lemma_sound_inputs_finalize(
        &self,
        state: StateView,
        chain_info: ChainInfo,
        accepted: Seq<bool>,
        ticket: u64,
    )
        requires
            self.policy.spec_slots() > 0,
            self.previous_batch(chain_info) > 0,
            self.sound_inputs(state, chain_info, accepted),
        ensures
            self.spec_finalize_previous_batch(state, chain_info, accepted, ticket) == Ok::<
                Seq<InherentView>,
                InherentError,
            >(
                self.reward_round(state, chain_info, accepted, ticket).inherents(
                    self.network.validator_registry->0,
                ),
            ),
    {
        let round = self.reward_round(state, chain_info, accepted, ticket);
        round.lemma_no_overflow();
    }

    /// The first batch has no predecessor to reward: finalizing it gives no
    /// inherent, whatever else is handed in.
    pub proof fn lemma_first_batch(
        &self,
        state: StateView,
        chain_info: ChainInfo,
        accepted: Seq<bool>,
        ticket: u64,
    )
        requires
            self.previous_batch(chain_info) <= 0,
        ensures
            self.spec_finalize_previous_batch(state, chain_info, accepted, ticket) == Ok::<
                Seq<InherentView>,
                InherentError,
            >(Seq::empty()),
    {
    }

    /// Where every slot of every band is slashed, sound inputs give reward
    /// inherents that are worth nothing, no lottery, and a burn of the whole
    /// pot. Where no band accepts, the burn and the marker are all there is.
    pub proof fn lemma_all_slashed(
        &self,
        state: StateView,
        chain_info: ChainInfo,
        accepted: Seq<bool>,
        ticket: u64,
    )
        requires
            self.policy.spec_slots() > 0,
            self.previous_batch(chain_info) > 0,
            self.sound_inputs(state, chain_info, accepted),
            forall|slot: int|
                0 <= slot < total_slots(state.validator_slots) ==> Self::slashed(state).contains(
                    slot,
                ),
        ensures
            ({
                let round = self.reward_round(state, chain_info, accepted, ticket);
                let registry = self.network.validator_registry->0;
                let list = self.spec_finalize_previous_batch(state, chain_info, accepted, ticket);
                &&& list == Ok::<Seq<InherentView>, InherentError>(round.inherents(registry))
                &&& !round.lottery_held()
                &&& round.burn_inherent() == InherentView::reward(
                    Address::spec_burn_address(),
                    Self::reward_pot(chain_info),
                )
                &&& forall|i: int|
                    0 <= i < round.reward_inherents().len() ==> (
                    #[trigger] round.reward_inherents()[i]).value == 0
                &&& round.all_rejected() ==> list == Ok::<Seq<InherentView>, InherentError>(
                    seq![
                        InherentView::reward(
                            Address::spec_burn_address(),
                            Self::reward_pot(chain_info),
                        ),
                        InherentView::finalize_batch(registry),
                    ],
                )
            }),
    {
        let round = self.reward_round(state, chain_info, accepted, ticket);
        let registry = self.network.validator_registry->0;
        round.lemma_all_slashed();
        if round.all_rejected() {
            round.lemma_all_rejected(registry);
        }
    }

    /// Where the reward address of every band refuses its reward, sound
    /// inputs give the burn of the whole pot and the marker, and nothing else.
    pub proof fn lemma_all_rejected(
        &self,
        state: StateView,
        chain_info: ChainInfo,
        accepted: Seq<bool>,
        ticket: u64,
    )
        requires
            self.policy.spec_slots() > 0,
            self.previous_batch(chain_info) > 0,
            self.sound_inputs(state, chain_info, accepted),
            forall|k: int| 0 <= k < accepted.len() ==> !accepted[k],
        ensures
            self.spec_finalize_previous_batch(state, chain_info, accepted, ticket) == Ok::<
                Seq<InherentView>,
                InherentError,
            >(
                seq![
                    InherentView::reward(
                        Address::spec_burn_address(),
                        Self::reward_pot(chain_info),
                    ),
                    InherentView::finalize_batch(self.network.validator_registry->0),
                ],
            ),
    {
        let round = self.reward_round(state, chain_info, accepted, ticket);
        self.lemma_sound_inputs_finalize(state, chain_info, accepted, ticket);
        round.lemma_all_rejected(self.network.validator_registry->0);
    }

    /// Determinism: what a finalization gives is a function of its inputs.
    /// Two results for inputs that are alike hold the same inherents, one by
    /// one, and two faults are the same fault.
    pub proof fn lemma_finalize_deterministic(
        &self,
        other: Blockchain,
        state1: BlockchainState,
        state2: BlockchainState,
        chain_info: ChainInfo,
        accepted1: Vec<bool>,
        accepted2: Vec<bool>,
        ticket: u64,
        result1: Result<Vec<Inherent>, InherentError>,
        result2: Result<Vec<Inherent>, InherentError>,
    )
        requires
            *self == other,
            state1@ == state2@,
            accepted1@ == accepted2@,
            self.finalize_result(state1@, chain_info, accepted1@, ticket, result1),
            other.finalize_result(state2@, chain_info, accepted2@, ticket, result2),
        ensures
            result1 is Ok <==> result2 is Ok,
            result1 is Err ==> result1->Err_0 == result2->Err_0,
            result1 is Ok ==> {
                &&& result1->Ok_0.len() == result2->Ok_0.len()
                &&& forall|i: int|
                    0 <= i < result1->Ok_0.len() ==> (#[trigger] result1->Ok_0[i])@
                        == result2->Ok_0[i]@
            },
    {
        if result1 is Ok {
            let list1 = result1->Ok_0;
            let list2 = result2->Ok_0;
            assert(inherent_views(list1@) == inherent_views(list2@));
            assert forall|i: int| 0 <= i < list1.len() implies (#[trigger] list1[i])@
                == list2[i]@ by {
                assert(inherent_views(list1@)[i] == inherent_views(list2@)[i]);
            }
        }
    }

    /// Whether `result` is what `finalize_previous_batch` may return for the
    /// given inputs.
    pub open spec fn finalize_result(
        &self,
        state: StateView,
        chain_info: ChainInfo,
        accepted: Seq<bool>,
        ticket: u64,
        result: Result<Vec<Inherent>, InherentError>,
    ) -> bool {
        match result {
            Ok(list) => self.spec_finalize_previous_batch(state, chain_info, accepted, ticket)
                == Ok::<Seq<InherentView>, InherentError>(inherent_views(list@)),
            Err(fault) => self.spec_finalize_previous_batch(state, chain_info, accepted, ticket)
                == Err::<Seq<InherentView>, InherentError>(fault),
        }
    }

    /// Whether `accepted` holds, for each candidate, an answer that `accept`
    /// may give when asked whether the candidate is taken at `block_number`.
    pub open spec fn answers_of<A: Fn(&Inherent, u32) -> bool>(
        accept: A,
        candidates: Seq<Inherent>,
        block_number: u32,
        accepted: Seq<bool>,
    ) -> bool {
        &&& accepted.len() == candidates.len()
        &&& forall|k: int|
            0 <= k < candidates.len() ==> call_ensures(
                accept,
                (&#[trigger] candidates[k], block_number),
                accepted[k],
            )
    }

    /// Whether `result` is what `finalize_previous_batch_with` may return:
    /// the fault of the candidates where there is one, and else what
    /// `finalize_previous_batch` returns for answers that `accept` gave for
    /// the candidates at the block number of the head.
    pub open spec fn asked_result<A: Fn(&Inherent, u32) -> bool>(
        &self,
        state: StateView,
        chain_info: ChainInfo,
        accept: A,
        ticket: u64,
        result: Result<Vec<Inherent>, InherentError>,
    ) -> bool {
        match self.spec_reward_candidates(state, chain_info) {
            Err(fault) => result == Err::<Vec<Inherent>, InherentError>(fault),
            Ok(offered) => exists|candidates: Seq<Inherent>, accepted: Seq<bool>|
                {
                    &&& inherent_views(candidates) == offered
                    &&& #[trigger] Self::answers_of(
                        accept,
                        candidates,
                        chain_info.head.block_number,
                        accepted,
                    )
                    &&& self.finalize_result(state, chain_info, accepted, ticket, result)
                },
        }
    }

    /// The inherents that close the previous batch, with the accounts asked
    /// on the way: `accept` is asked for each band's candidate, in band
    /// order and at the block number of the head, whether the candidate's
    /// target takes it, and the answers go into `finalize_previous_batch`.
    pub fn finalize_previous_batch_with<A: Fn(&Inherent, u32) -> bool>(
        &self,
        state: &BlockchainState,
        chain_info: &ChainInfo,
        accept: A,
        ticket: u64,
    ) -> (r: Result<Vec<Inherent>, InherentError>)
        requires
            forall|inherent: &Inherent, block_number: u32|
                call_requires(accept, (inherent, block_number)),
        ensures
            self.asked_result(state@, *chain_info, accept, ticket, r),
            self.previous_batch(*chain_info) <= 0 ==> r is Ok && r->Ok_0.len() == 0,
    {
        let candidates = match self.reward_candidates(state, chain_info) {
            Ok(candidates) => candidates,
            Err(fault) => {
                return Err(fault);
            },
        };
        let mut accepted: Vec<bool> = Vec::new();
        let mut k: usize = 0;
        while k < candidates.len()
            invariant
                forall|inherent: &Inherent, block_number: u32|
                    call_requires(accept, (inherent, block_number)),
                k <= candidates.len(),
                accepted.len() == k,
                forall|i: int|
                    0 <= i < k ==> call_ensures(
                        accept,
                        (&#[trigger] candidates[i], chain_info.head.block_number),
                        accepted[i],
                    ),
            decreases candidates.len() - k,
        {
            let answer = accept(&candidates[k], chain_info.head.block_number);
            accepted.push(answer);
            k += 1;
        }
        let r = self.finalize_previous_batch(state, chain_info, &accepted, ticket);
        assert(Self::answers_of(
            accept,
            candidates@,
            chain_info.head.block_number,
            accepted@,
        ));
        r
    }
}

} // verus!
