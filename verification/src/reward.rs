use vstd::prelude::*;
use vstd::arithmetic::div_mod::{lemma_fundamental_div_mod, lemma_mod_bound};
use vstd::arithmetic::mul::{lemma_mul_is_distributive_add, lemma_mul_nonnegative};
use crate::coin::Coin;
use crate::error::InherentError;
use crate::inherent::{inherent_views, Inherent, InherentType, InherentView};
use crate::keys::Address;
use crate::lottery::{draw, total_weight, winner};
use crate::policy::Policy;
use crate::slots::{
    count_in_band,
    lemma_count_in_band_bounds,
    slashed_per_band,
    slot_set,
    strictly_ascending,
    total_slots,
    SlotBand,
};

verus! {

/// The bands among the first `n` whose reward was accepted, by their position
/// in the list of bands and in that order.
pub open spec fn accepted_bands(accepted: Seq<bool>, n: int) -> Seq<int>
    decreases n,
{
    if n <= 0 {
        Seq::empty()
    } else if accepted[n - 1] {
        accepted_bands(accepted, n - 1).push(n - 1)
    } else {
        accepted_bands(accepted, n - 1)
    }
}

/// The sum of the values of the first `n` inherents of a list.
pub open spec fn value_before(list: Seq<InherentView>, n: int) -> int
    decreases n,
{
    if n <= 0 {
        0
    } else {
        value_before(list, n - 1) + list[n - 1].value
    }
}

/// The sum of the values of all the inherents of a list.
pub open spec fn total_value(list: Seq<InherentView>) -> int {
    value_before(list, list.len() as int)
}

/// What the distribution of one batch's reward is computed from.
pub struct RewardRound {
    /// The validator slot bands of the batch, in slot order.
    pub bands: Seq<SlotBand>,
    /// The slots that get no reward.
    pub slashed: Set<int>,
    /// For each band, whether its reward address accepts the reward.
    pub accepted: Seq<bool>,
    /// The amount to distribute.
    pub pot: int,
    /// The number of validator slots.
    pub slots: int,
    /// The draw that decides who gets the remainder.
    pub ticket: int,
}

impl RewardRound {
    /// The amount is not negative, there is at least one slot, there is one
    /// acceptance outcome for each band, and the ticket is not negative.
    pub open spec fn well_formed(self) -> bool {
        &&& self.pot >= 0
        &&& self.slots > 0
        &&& self.ticket >= 0
        &&& self.accepted.len() == self.bands.len()
    }

    /// The reward of one slot.
    pub open spec fn slot_reward(self) -> int {
        self.pot / self.slots
    }

    /// What is left of the pot when every slot has been given the slot reward.
    pub open spec fn remainder(self) -> int {
        self.pot % self.slots
    }

    /// The number of slashed slots in band `k`.
    pub open spec fn slashed_slots(self, k: int) -> int {
        count_in_band(self.slashed, self.bands, k)
    }

    /// The number of slots in band `k` that are not slashed.
    pub open spec fn eligible_slots(self, k: int) -> int {
        self.bands[k].num_slots - self.slashed_slots(k)
    }

    /// The reward of band `k`: the slot reward for each eligible slot.
    pub open spec fn band_reward(self, k: int) -> int {
        self.slot_reward() * self.eligible_slots(k)
    }

    /// What band `k` adds to the burned amount: the slot reward for each
    /// slashed slot and, where the reward was not accepted, all of the reward.
    pub open spec fn band_burn(self, k: int) -> int {
        self.slot_reward() * self.slashed_slots(k) + if self.accepted[k] {
            0
        } else {
            self.band_reward(k)
        }
    }

    /// What the first `n` bands add to the burned amount.
    pub open spec fn burned_before(self, n: int) -> int
        decreases n,
    {
        if n <= 0 {
            0
        } else {
            self.burned_before(n - 1) + self.band_burn(n - 1)
        }
    }

    /// The bands whose reward was accepted, by position and in order. Each
    /// gets one reward inherent.
    pub open spec fn recipients(self) -> Seq<int> {
        accepted_bands(self.accepted, self.bands.len() as int)
    }

    /// The lottery weights: for each recipient, the number of its eligible slots.
    pub open spec fn weights(self) -> Seq<u32> {
        Seq::new(self.recipients().len(), |i: int| self.eligible_slots(self.recipients()[i]) as u32)
    }

    /// Whether the remainder is given out by lottery. It is unless no
    /// recipient has an eligible slot; then the remainder is burned.
    pub open spec fn lottery_held(self) -> bool {
        total_weight(self.weights()) > 0
    }

    /// The recipient that the lottery selects, by position among the
    /// recipients. The ticket counts modulo the total weight.
    pub open spec fn lottery_winner(self) -> int {
        winner(self.weights(), self.ticket % total_weight(self.weights()))
    }

    /// What recipient `i` gets on top of its band's reward.
    pub open spec fn bonus(self, i: int) -> int {
        if self.lottery_held() && i == self.lottery_winner() {
            self.remainder()
        } else {
            0
        }
    }

    /// The value of the reward inherent of recipient `i`.
    pub open spec fn payout(self, i: int) -> int {
        self.band_reward(self.recipients()[i]) + self.bonus(i)
    }

    /// The burned amount.
    pub open spec fn burned(self) -> int {
        self.burned_before(self.bands.len() as int) + if self.lottery_held() {
            0
        } else {
            self.remainder()
        }
    }

    /// The reward inherents of the recipients, in order.
    pub open spec fn reward_inherents(self) -> Seq<InherentView> {
        Seq::new(
            self.recipients().len(),
            |i: int|
                InherentView::reward(
                    self.bands[self.recipients()[i]].reward_address,
                    self.payout(i),
                ),
        )
    }

    /// The inherent that burns the burned amount.
    pub open spec fn burn_inherent(self) -> InherentView {
        InherentView::reward(Address::spec_burn_address(), self.burned())
    }

    /// The inherents that move value: the recipients' rewards and the burn.
    pub open spec fn payments(self) -> Seq<InherentView> {
        self.reward_inherents().push(self.burn_inherent())
    }

    /// All the inherents of the round: the recipients' rewards, the burn, and
    /// the marker that closes the batch.
    pub open spec fn inherents(self, registry: Address) -> Seq<InherentView> {
        self.payments().push(InherentView::finalize_batch(registry))
    }

    /// One inherent for each band with the band's reward, as it is proposed to
    /// the band's reward address.
    pub open spec fn candidates(self) -> Seq<InherentView> {
        Seq::new(
            self.bands.len(),
            |k: int| InherentView::reward(self.bands[k].reward_address, self.band_reward(k)),
        )
    }

    /// Whether the reward of some band does not fit.
    pub open spec fn reward_overflows(self) -> bool {
        exists|k: int| 0 <= k < self.bands.len() && #[trigger] self.band_reward(k) > u64::MAX
    }

    /// Whether some amount of the round does not fit: the reward of a band,
    /// the burned amount, or the winner's reward with the remainder.
    pub open spec fn overflows(self) -> bool {
        ||| self.reward_overflows()
        ||| self.burned() > u64::MAX
        ||| self.lottery_held() && self.payout(self.lottery_winner()) > u64::MAX
    }

    /// Every slot of every band is slashed.
    pub open spec fn all_slashed(self) -> bool {
        forall|slot: int| 0 <= slot < total_slots(self.bands) ==> self.slashed.contains(slot)
    }

    /// No band's reward was accepted.
    pub open spec fn all_rejected(self) -> bool {
        forall|k: int| 0 <= k < self.bands.len() ==> !self.accepted[k]
    }

    /// The bands cover the slots exactly.
    pub open spec fn covers_slots(self) -> bool {
        total_slots(self.bands) == self.slots
    }
}

impl RewardRound {
    /// The amounts of a band are not negative, and the band's reward and what
    /// its slashed slots burn make up the slot reward for each of its slots.
    pub proof fn lemma_band_amounts(self, k: int)
        requires
            self.well_formed(),
            0 <= k < self.bands.len(),
        ensures
            0 <= self.slashed_slots(k) <= self.bands[k].num_slots,
            0 <= self.eligible_slots(k) <= self.bands[k].num_slots,
            0 <= self.slot_reward(),
            0 <= self.remainder() < self.slots,
            0 <= self.band_reward(k),
            0 <= self.slot_reward() * self.slashed_slots(k),
            0 <= self.band_burn(k),
            self.band_reward(k) + self.slot_reward() * self.slashed_slots(k) == self.slot_reward()
                * self.bands[k].num_slots,
    {
        lemma_count_in_band_bounds(self.slashed, self.bands, k);
        lemma_fundamental_div_mod(self.pot, self.slots);
        lemma_mod_bound(self.pot, self.slots);
        let slot_reward = self.slot_reward();
        assert(slot_reward >= 0) by (nonlinear_arith)
            requires
                self.pot >= 0,
                self.slots > 0,
                slot_reward == self.pot / self.slots,
        ;
        lemma_mul_nonnegative(slot_reward, self.eligible_slots(k));
        lemma_mul_nonnegative(slot_reward, self.slashed_slots(k));
        lemma_mul_is_distributive_add(slot_reward, self.eligible_slots(k), self.slashed_slots(k));
    }

    /// The burned amount does not fall as more bands are counted.
    pub proof fn lemma_burned_before_monotonic(self, m: int, n: int)
        requires
            self.well_formed(),
            0 <= m <= n <= self.bands.len(),
        ensures
            0 <= self.burned_before(m) <= self.burned_before(n),
        decreases n,
    {
        if n > 0 {
            self.lemma_band_amounts(n - 1);
            if m == n {
                self.lemma_burned_before_monotonic(m - 1, n - 1);
            } else {
                self.lemma_burned_before_monotonic(m, n - 1);
            }
        }
    }

    /// The recipients are bands, each named once and in ascending order.
    pub proof fn lemma_recipients_are_bands(self, i: int)
        requires
            0 <= i < self.recipients().len(),
        ensures
            0 <= self.recipients()[i] < self.bands.len(),
            self.accepted[self.recipients()[i]],
    {
        lemma_accepted_bands(self.accepted, self.bands.len() as int, i);
    }
}

/// Each of the bands that `accepted_bands` names is one of the first `n` and
/// was accepted, and there are at most `n` of them.
pub proof fn lemma_accepted_bands(accepted: Seq<bool>, n: int, i: int)
    requires
        0 <= i < accepted_bands(accepted, n).len(),
    ensures
        0 <= accepted_bands(accepted, n)[i] < n,
        accepted[accepted_bands(accepted, n)[i]],
        accepted_bands(accepted, n).len() <= n,
    decreases n,
{
    if n > 0 {
        let before = accepted_bands(accepted, n - 1);
        if i < before.len() {
            lemma_accepted_bands(accepted, n - 1, i);
        }
        lemma_accepted_bands_len(accepted, n - 1);
    }
}

/// Of the first `n` bands at most `n` were accepted.
pub proof fn lemma_accepted_bands_len(accepted: Seq<bool>, n: int)
    ensures
        accepted_bands(accepted, n).len() <= if n > 0 { n } else { 0 },
    decreases n,
{
    if n > 0 {
        lemma_accepted_bands_len(accepted, n - 1);
    }
}

impl RewardRound {
    /// The burned amount of the round is at least what the first `n` bands
    /// add to it.
    pub proof fn lemma_burned_at_least(self, n: int)
        requires
            self.well_formed(),
            0 <= n <= self.bands.len(),
        ensures
            0 <= self.burned_before(n) <= self.burned(),
    {
        self.lemma_burned_before_monotonic(n, self.bands.len() as int);
        lemma_mod_bound(self.pot, self.slots);
    }
}

/// The round that `distribute` works on.
pub open spec fn round_of(
    bands: Seq<SlotBand>,
    slashed: Seq<u16>,
    accepted: Seq<bool>,
    pot: Coin,
    policy: Policy,
    ticket: u64,
) -> RewardRound {
    RewardRound {
        bands,
        slashed: slot_set(slashed),
        accepted,
        pot: pot.0 as int,
        slots: policy.spec_slots() as int,
        ticket: ticket as int,
    }
}

/// What `distribute` gives: a fault where the acceptance outcomes do not pair
/// up with the bands, else where the slashed slots are out of order, else
/// where an amount does not fit; and without a fault the payments of the
/// round.
pub open spec fn spec_distribute(
    bands: Seq<SlotBand>,
    slashed: Seq<u16>,
    accepted: Seq<bool>,
    pot: Coin,
    policy: Policy,
    ticket: u64,
) -> Result<Seq<InherentView>, InherentError> {
    let round = round_of(bands, slashed, accepted, pot, policy, ticket);
    if accepted.len() != bands.len() {
        Err(InherentError::CountMismatch)
    } else if !strictly_ascending(slashed) {
        Err(InherentError::SlotOrder)
    } else if round.overflows() {
        Err(InherentError::Overflow)
    } else {
        Ok(round.payments())
    }
}

/// Distributes the reward pot of a batch over its slot bands.
///
/// Each slot is worth the pot divided by the number of slots. A band is paid
/// for its slots that are not in `slashed`, if `accepted` says that its
/// address takes the reward. What the slashed slots and the refused bands
/// would have got is burned. The remainder of the division goes to the
/// recipient that `ticket` selects, each eligible slot weighing the same;
/// it is burned too where no recipient has an eligible slot.
///
/// The result holds the recipients' reward inherents in band order, followed
/// by the inherent that credits the burn address.
pub fn distribute(
    bands: &Vec<SlotBand>,
    slashed: &Vec<u16>,
    accepted: &Vec<bool>,
    pot: Coin,
    policy: &Policy,
    ticket: u64,
) -> (r: Result<Vec<Inherent>, InherentError>)
    ensures
        match r {
            Ok(list) => spec_distribute(bands@, slashed@, accepted@, pot, *policy, ticket) == Ok::<
                Seq<InherentView>,
                InherentError,
            >(inherent_views(list@)),
            Err(fault) => spec_distribute(bands@, slashed@, accepted@, pot, *policy, ticket)
                == Err::<Seq<InherentView>, InherentError>(fault),
        },
{
    if accepted.len() != bands.len() {
        return Err(InherentError::CountMismatch);
    }
    let counts = match slashed_per_band(bands, slashed) {
        Ok(counts) => counts,
        Err(fault) => {
            return Err(fault);
        },
    };
    let slots: u16 = policy.slots();
    let slot_reward: u64 = pot.0 / (slots as u64);
    let remainder: u64 = pot.0 % (slots as u64);
    let ghost round = round_of(bands@, slashed@, accepted@, pot, *policy, ticket);

    let mut targets: Vec<Address> = Vec::new();
    let mut values: Vec<u64> = Vec::new();
    let mut weights: Vec<u32> = Vec::new();
    let mut burned: u64 = 0;
    let mut k: usize = 0;
    while k < bands.len()
        invariant
            round == round_of(bands@, slashed@, accepted@, pot, *policy, ticket),
            round.well_formed(),
            strictly_ascending(slashed@),
            slot_reward == round.slot_reward(),
            counts.len() == bands.len(),
            forall|m: int| 0 <= m < bands.len() ==> #[trigger] counts[m] == round.slashed_slots(m),
            k <= bands.len(),
            burned == round.burned_before(k as int),
            forall|m: int| 0 <= m < k ==> #[trigger] round.band_reward(m) <= u64::MAX,
            targets.len() == accepted_bands(accepted@, k as int).len(),
            values.len() == targets.len(),
            weights.len() == targets.len(),
            forall|i: int|
                #![trigger accepted_bands(accepted@, k as int)[i]]
                0 <= i < targets.len() ==> {
                    let band = accepted_bands(accepted@, k as int)[i];
                    &&& 0 <= band < k
                    &&& targets[i] == bands[band].reward_address
                    &&& values[i] == round.band_reward(band)
                    &&& weights[i] == round.eligible_slots(band)
                },
        decreases bands.len() - k,
    {
        let band = bands[k];
        let slashed_slots: u16 = counts[k];
        proof {
            round.lemma_band_amounts(k as int);
            round.lemma_burned_at_least(k + 1);
        }
        let eligible: u16 = band.num_slots - slashed_slots;
        let reward: u64 = match slot_reward.checked_mul(eligible as u64) {
            Some(reward) => reward,
            None => {
                return Err(InherentError::Overflow);
            },
        };
        let slash_burn: u64 = match slot_reward.checked_mul(slashed_slots as u64) {
            Some(amount) => amount,
            None => {
                return Err(InherentError::Overflow);
            },
        };
        burned = match burned.checked_add(slash_burn) {
            Some(amount) => amount,
            None => {
                return Err(InherentError::Overflow);
            },
        };
        if accepted[k] {
            targets.push(band.reward_address);
            values.push(reward);
            weights.push(eligible as u32);
        } else {
            burned = match burned.checked_add(reward) {
                Some(amount) => amount,
                None => {
                    return Err(InherentError::Overflow);
                },
            };
        }
        k += 1;
    }
    assert(weights@ =~= round.weights());
    match draw(&weights, ticket) {
        Some(index) => {
            let raised: u64 = match values[index].checked_add(remainder) {
                Some(amount) => amount,
                None => {
                    return Err(InherentError::Overflow);
                },
            };
            values.set(index, raised);
        },
        None => {
            burned = match burned.checked_add(remainder) {
                Some(amount) => amount,
                None => {
                    return Err(InherentError::Overflow);
                },
            };
        },
    }

    let mut payments: Vec<Inherent> = Vec::new();
    let mut i: usize = 0;
    while i < targets.len()
        invariant
            i <= targets.len(),
            values.len() == targets.len(),
            payments.len() == i,
            forall|j: int|
                0 <= j < i ==> (#[trigger] payments[j])@ == InherentView::reward(
                    targets[j],
                    values[j] as int,
                ),
        decreases targets.len() - i,
    {
        payments.push(
            Inherent {
                ty: InherentType::Reward,
                target: targets[i],
                value: Coin(values[i]),
                data: Vec::new(),
            },
        );
        i += 1;
    }
    payments.push(
        Inherent {
            ty: InherentType::Reward,
            target: Address::burn_address(),
            value: Coin(burned),
            data: Vec::new(),
        },
    );
    assert(inherent_views(payments@) =~= round.payments());
    Ok(payments)
}

/// Acceptance outcomes that say yes for each of `n` bands.
pub open spec fn all_accepting(n: nat) -> Seq<bool> {
    Seq::new(n, |k: int| true)
}

/// What `propose` gives: the fault `SlotOrder` where the slashed slots are
/// out of order, else `Overflow` where the reward of a band does not fit, else
/// one candidate for each band.
pub open spec fn spec_propose(
    bands: Seq<SlotBand>,
    slashed: Seq<u16>,
    pot: Coin,
    policy: Policy,
) -> Result<Seq<InherentView>, InherentError> {
    let round = round_of(bands, slashed, all_accepting(bands.len()), pot, policy, 0);
    if !strictly_ascending(slashed) {
        Err(InherentError::SlotOrder)
    } else if round.reward_overflows() {
        Err(InherentError::Overflow)
    } else {
        Ok(round.candidates())
    }
}

/// The reward inherent that each band is to be offered, in band order: a
/// band's candidate credits its reward address with the slot reward for each
/// of its slots that is not in `slashed`. Whether an address accepts its
/// candidate is for the accounts to say.
pub fn propose(bands: &Vec<SlotBand>, slashed: &Vec<u16>, pot: Coin, policy: &Policy) -> (r: Result<
    Vec<Inherent>,
    InherentError,
>)
    ensures
        match r {
            Ok(list) => spec_propose(bands@, slashed@, pot, *policy) == Ok::<
                Seq<InherentView>,
                InherentError,
            >(inherent_views(list@)),
            Err(fault) => spec_propose(bands@, slashed@, pot, *policy) == Err::<
                Seq<InherentView>,
                InherentError,
            >(fault),
        },
{
    let counts = match slashed_per_band(bands, slashed) {
        Ok(counts) => counts,
        Err(fault) => {
            return Err(fault);
        },
    };
    let slots: u16 = policy.slots();
    let slot_reward: u64 = pot.0 / (slots as u64);
    let ghost round = round_of(bands@, slashed@, all_accepting(bands@.len()), pot, *policy, 0);
    let mut candidates: Vec<Inherent> = Vec::new();
    let mut k: usize = 0;
    while k < bands.len()
        invariant
            round == round_of(bands@, slashed@, all_accepting(bands@.len()), pot, *policy, 0),
            round.well_formed(),
            strictly_ascending(slashed@),
            slot_reward == round.slot_reward(),
            counts.len() == bands.len(),
            forall|m: int| 0 <= m < bands.len() ==> #[trigger] counts[m] == round.slashed_slots(m),
            k <= bands.len(),
            candidates.len() == k,
            forall|m: int| 0 <= m < k ==> #[trigger] round.band_reward(m) <= u64::MAX,
            forall|m: int|
                0 <= m < k ==> (#[trigger] candidates[m])@ == InherentView::reward(
                    bands[m].reward_address,
                    round.band_reward(m),
                ),
        decreases bands.len() - k,
    {
        let band = bands[k];
        let slashed_slots: u16 = counts[k];
        proof {
            round.lemma_band_amounts(k as int);
        }
        let eligible: u16 = band.num_slots - slashed_slots;
        let reward: u64 = match slot_reward.checked_mul(eligible as u64) {
            Some(reward) => reward,
            None => {
                return Err(InherentError::Overflow);
            },
        };
        candidates.push(
            Inherent {
                ty: InherentType::Reward,
                target: band.reward_address,
                value: Coin(reward),
                data: Vec::new(),
            },
        );
        k += 1;
    }
    assert(inherent_views(candidates@) =~= round.candidates());
    Ok(candidates)
}

} // verus!
