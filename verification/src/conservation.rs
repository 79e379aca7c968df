use vstd::prelude::*;
use vstd::arithmetic::div_mod::{lemma_fundamental_div_mod, lemma_mod_bound};
use vstd::arithmetic::mul::{lemma_mul_basics, lemma_mul_is_distributive_add};
use crate::inherent::InherentView;
use crate::keys::Address;
use crate::lottery::{lemma_winner_exists, lemma_zero_weights, total_weight};
use crate::reward::{accepted_bands, total_value, value_before, RewardRound};
use crate::slots::{lemma_count_between_full, lemma_slots_before_monotonic, slots_before};

verus! {

/// The sum of the first `n` values depends on the first `n` inherents only.
pub proof fn lemma_value_before_of_prefix(a: Seq<InherentView>, b: Seq<InherentView>, n: int)
    requires
        n <= a.len(),
        n <= b.len(),
        forall|i: int| 0 <= i < n ==> a[i] == b[i],
    ensures
        value_before(a, n) == value_before(b, n),
    decreases n,
{
    if n > 0 {
        lemma_value_before_of_prefix(a, b, n - 1);
    }
}

/// Where no value is negative, the sum of the first `n` values is not
/// negative, and none of them is larger than the sum.
pub proof fn lemma_value_before_bounds(list: Seq<InherentView>, n: int, i: int)
    requires
        0 <= i < n <= list.len(),
        forall|j: int| 0 <= j < list.len() ==> list[j].value >= 0,
    ensures
        0 <= list[i].value <= value_before(list, n),
        0 <= value_before(list, i),
    decreases n,
{
    if i < n - 1 {
        lemma_value_before_bounds(list, n - 1, i);
    } else if i > 0 {
        lemma_value_before_bounds(list, n - 1, i - 1);
    }
}

impl RewardRound {
    /// The sum of the band rewards of the first `m` of the listed bands.
    pub open spec fn rewards_of(self, listed: Seq<int>, m: int) -> int
        decreases m,
    {
        if m <= 0 {
            0
        } else {
            self.rewards_of(listed, m - 1) + self.band_reward(listed[m - 1])
        }
    }

    proof fn lemma_rewards_of_prefix(self, a: Seq<int>, b: Seq<int>, m: int)
        requires
            m <= a.len(),
            m <= b.len(),
            forall|i: int| 0 <= i < m ==> a[i] == b[i],
        ensures
            self.rewards_of(a, m) == self.rewards_of(b, m),
        decreases m,
    {
        if m > 0 {
            self.lemma_rewards_of_prefix(a, b, m - 1);
        }
    }

    /// The rewards of the bands that accept and what the bands burn make up
    /// the slot reward for each slot of the first `n` bands.
    proof fn lemma_bands_add_up(self, n: int)
        requires
            self.well_formed(),
            0 <= n <= self.bands.len(),
        ensures
            self.rewards_of(
                accepted_bands(self.accepted, n),
                accepted_bands(self.accepted, n).len() as int,
            ) + self.burned_before(n) == self.slot_reward() * slots_before(self.bands, n),
        decreases n,
    {
        if n > 0 {
            let before = accepted_bands(self.accepted, n - 1);
            let now = accepted_bands(self.accepted, n);
            self.lemma_bands_add_up(n - 1);
            self.lemma_band_amounts(n - 1);
            self.lemma_rewards_of_prefix(before, now, before.len() as int);
            lemma_mul_is_distributive_add(
                self.slot_reward(),
                slots_before(self.bands, n - 1),
                self.bands[n - 1].num_slots as int,
            );
        }
    }

    /// The winner of the lottery is one of the recipients and has an eligible
    /// slot.
    pub proof fn lemma_winner_is_recipient(self)
        requires
            self.well_formed(),
            self.lottery_held(),
        ensures
            0 <= self.lottery_winner() < self.recipients().len(),
            self.eligible_slots(self.recipients()[self.lottery_winner()]) > 0,
    {
        let weights = self.weights();
        let total = total_weight(weights);
        lemma_mod_bound(self.ticket, total);
        lemma_winner_exists(weights, self.ticket % total);
        let index = self.lottery_winner();
        self.lemma_recipients_are_bands(index);
        self.lemma_band_amounts(self.recipients()[index]);
    }

    /// The values of the first `m` reward inherents: their bands' rewards,
    /// and the remainder if the winner is among them.
    proof fn lemma_reward_inherents_add_up(self, m: int)
        requires
            self.well_formed(),
            0 <= m <= self.recipients().len(),
        ensures
            value_before(self.reward_inherents(), m) == self.rewards_of(self.recipients(), m)
                + if self.lottery_held() && self.lottery_winner() < m {
                self.remainder()
            } else {
                0
            },
        decreases m,
    {
        if self.lottery_held() {
            self.lemma_winner_is_recipient();
        }
        if m > 0 {
            self.lemma_reward_inherents_add_up(m - 1);
        }
    }

    /// Conservation: where the bands cover the slots exactly, the values of
    /// the reward inherents and the burned amount add up to the pot, whatever
    /// is slashed and whoever accepts. No coin is made and none is lost.
    pub proof fn lemma_conservation(self)
        requires
            self.well_formed(),
            self.covers_slots(),
        ensures
            total_value(self.reward_inherents()) + self.burned() == self.pot,
            total_value(self.payments()) == self.pot,
            forall|registry: Address| total_value(#[trigger] self.inherents(registry)) == self.pot,
    {
        let count = self.recipients().len() as int;
        self.lemma_bands_add_up(self.bands.len() as int);
        self.lemma_reward_inherents_add_up(count);
        if self.lottery_held() {
            self.lemma_winner_is_recipient();
        }
        lemma_fundamental_div_mod(self.pot, self.slots);
        assert(self.slot_reward() * self.slots == self.slots * self.slot_reward())
            by (nonlinear_arith);
        lemma_value_before_of_prefix(self.reward_inherents(), self.payments(), count);
        assert forall|registry: Address| total_value(#[trigger] self.inherents(registry))
            == self.pot by {
            let all = self.inherents(registry);
            lemma_value_before_of_prefix(self.payments(), all, count + 1);
        }
    }

    /// The remainder is less than the number of slots, and where the lottery
    /// is held it goes to exactly one recipient: the winner gets its band's
    /// reward and the remainder, every other recipient its band's reward.
    /// Where no lottery is held, each gets its band's reward and the
    /// remainder is burned.
    pub proof fn lemma_remainder_to_one(self)
        requires
            self.well_formed(),
        ensures
            0 <= self.remainder() < self.slots,
            self.lottery_held() ==> 0 <= self.lottery_winner() < self.recipients().len(),
            forall|i: int|
                0 <= i < self.recipients().len() ==> (#[trigger] self.reward_inherents()[i]).value
                    == self.band_reward(self.recipients()[i]) + if self.lottery_held() && i
                    == self.lottery_winner() {
                    self.remainder()
                } else {
                    0
                },
            self.burned() == self.burned_before(self.bands.len() as int) + if self.lottery_held() {
                0
            } else {
                self.remainder()
            },
    {
        lemma_mod_bound(self.pot, self.slots);
        if self.lottery_held() {
            self.lemma_winner_is_recipient();
        }
    }

    /// Where the bands cover the slots exactly and the pot fits, every amount
    /// of the round fits.
    pub proof fn lemma_no_overflow(self)
        requires
            self.well_formed(),
            self.covers_slots(),
            self.pot <= u64::MAX,
        ensures
            !self.overflows(),
    {
        self.lemma_conservation();
        lemma_fundamental_div_mod(self.pot, self.slots);
        lemma_mod_bound(self.pot, self.slots);
        let slot_reward = self.slot_reward();
        assert(slot_reward * self.slots == self.slots * slot_reward) by (nonlinear_arith);
        assert forall|k: int| 0 <= k < self.bands.len() implies #[trigger] self.band_reward(k)
            <= u64::MAX by {
            self.lemma_band_amounts(k);
            lemma_slots_before_monotonic(self.bands, 0, k);
            lemma_slots_before_monotonic(self.bands, k + 1, self.bands.len() as int);
            let eligible = self.eligible_slots(k);
            let slots = self.slots;
            assert(slot_reward * eligible <= slot_reward * slots) by (nonlinear_arith)
                requires
                    0 <= slot_reward,
                    0 <= eligible <= slots,
            ;
        }
        let rewards = self.reward_inherents();
        assert forall|j: int| 0 <= j < rewards.len() implies rewards[j].value >= 0 by {
            self.lemma_recipients_are_bands(j);
            self.lemma_band_amounts(self.recipients()[j]);
        }
        self.lemma_burned_at_least(0);
        if rewards.len() > 0 {
            lemma_value_before_bounds(rewards, rewards.len() as int, 0);
        }
        if self.lottery_held() {
            self.lemma_winner_is_recipient();
            lemma_value_before_bounds(rewards, rewards.len() as int, self.lottery_winner());
        }
    }

    /// Where every slot of every band is slashed, no slot is eligible: every
    /// reward inherent is worth nothing, no lottery is held, and where the
    /// bands cover the slots exactly all of the pot is burned.
    pub proof fn lemma_all_slashed(self)
        requires
            self.well_formed(),
            self.all_slashed(),
        ensures
            forall|k: int| 0 <= k < self.bands.len() ==> #[trigger] self.eligible_slots(k) == 0,
            forall|i: int|
                0 <= i < self.recipients().len() ==> (#[trigger] self.reward_inherents()[i]).value
                    == 0,
            !self.lottery_held(),
            self.covers_slots() ==> self.burned() == self.pot,
    {
        assert forall|k: int| 0 <= k < self.bands.len() implies #[trigger] self.eligible_slots(k)
            == 0 by {
            lemma_slots_before_monotonic(self.bands, k, k + 1);
            lemma_slots_before_monotonic(self.bands, k + 1, self.bands.len() as int);
            lemma_count_between_full(
                self.slashed,
                slots_before(self.bands, k),
                slots_before(self.bands, k + 1),
            );
        }
        let weights = self.weights();
        assert forall|i: int| 0 <= i < weights.len() implies weights[i] == 0 by {
            self.lemma_recipients_are_bands(i);
        }
        lemma_zero_weights(weights, weights.len() as int);
        assert forall|i: int| 0 <= i < self.recipients().len() implies (
        #[trigger] self.reward_inherents()[i]).value == 0 by {
            self.lemma_recipients_are_bands(i);
            assert(self.eligible_slots(self.recipients()[i]) == 0);
            lemma_mul_basics(self.slot_reward());
        }
        if self.covers_slots() {
            self.lemma_conservation();
            let rewards = self.reward_inherents();
            self.lemma_values_all_zero(rewards.len() as int);
        }
    }

    proof fn lemma_values_all_zero(self, m: int)
        requires
            0 <= m <= self.reward_inherents().len(),
            forall|i: int|
                0 <= i < self.reward_inherents().len() ==> (
                #[trigger] self.reward_inherents()[i]).value == 0,
        ensures
            value_before(self.reward_inherents(), m) == 0,
        decreases m,
    {
        if m > 0 {
            self.lemma_values_all_zero(m - 1);
        }
    }

    /// What a band is offered does not depend on who accepts or on the
    /// ticket, and each reward inherent is the candidate of its band, raised
    /// by the remainder for the winner of the lottery.
    pub proof fn lemma_candidates(self, other: RewardRound)
        requires
            self.bands == other.bands,
            self.slashed == other.slashed,
            self.pot == other.pot,
            self.slots == other.slots,
        ensures
            self.candidates() == other.candidates(),
            self.reward_overflows() == other.reward_overflows(),
            forall|i: int|
                0 <= i < self.recipients().len() ==> {
                    let band = self.recipients()[i];
                    &&& 0 <= band < self.bands.len()
                    &&& (#[trigger] self.reward_inherents()[i]).target
                        == other.candidates()[band].target
                    &&& self.reward_inherents()[i].value == other.candidates()[band].value
                        + self.bonus(i)
                },
    {
        assert forall|k: int| 0 <= k < self.bands.len() implies self.band_reward(k)
            == other.band_reward(k) by {}
        assert forall|i: int| 0 <= i < self.recipients().len() implies {
            let band = self.recipients()[i];
            &&& 0 <= band < self.bands.len()
            &&& (#[trigger] self.reward_inherents()[i]).target == other.candidates()[band].target
            &&& self.reward_inherents()[i].value == other.candidates()[band].value + self.bonus(i)
        } by {
            self.lemma_recipients_are_bands(i);
        }
    }

    /// Where no band's reward is accepted, there is no reward inherent, and
    /// where the bands cover the slots exactly the round gives the burn of
    /// the whole pot and the marker, and nothing else.
    pub proof fn lemma_all_rejected(self, registry: Address)
        requires
            self.well_formed(),
            self.all_rejected(),
        ensures
            self.recipients().len() == 0,
            !self.lottery_held(),
            self.covers_slots() ==> self.burned() == self.pot && self.inherents(registry) == seq![
                InherentView::reward(Address::spec_burn_address(), self.pot),
                InherentView::finalize_batch(registry),
            ],
    {
        lemma_none_accepted(self.accepted, self.bands.len() as int);
        if self.covers_slots() {
            self.lemma_conservation();
        }
    }
}

/// Where none of the first `n` bands was accepted, `accepted_bands` names none.
pub proof fn lemma_none_accepted(accepted: Seq<bool>, n: int)
    requires
        n <= accepted.len(),
        forall|k: int| 0 <= k < n ==> !accepted[k],
    ensures
        accepted_bands(accepted, n).len() == 0,
    decreases n,
{
    if n > 0 {
        lemma_none_accepted(accepted, n - 1);
    }
}

} // verus!
