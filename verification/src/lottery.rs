use vstd::prelude::*;
use vstd::arithmetic::div_mod::{lemma_mod_bound, lemma_mod_decreases};

verus! {

/// The sum of the first `n` weights.
pub open spec fn weight_before(weights: Seq<u32>, n: int) -> int
    decreases n,
{
    if n <= 0 {
        0
    } else {
        weight_before(weights, n - 1) + weights[n - 1]
    }
}

/// The sum of all the weights.
pub open spec fn total_weight(weights: Seq<u32>) -> int {
    weight_before(weights, weights.len() as int)
}

/// Whether `ticket` selects `index`. The tickets from 0 up to the total
/// weight are dealt out in order: the first `weights[0]` of them select index
/// 0, the next `weights[1]` select index 1, and so on.
pub open spec fn selects(weights: Seq<u32>, ticket: int, index: int) -> bool {
    &&& 0 <= index < weights.len()
    &&& weight_before(weights, index) <= ticket < weight_before(weights, index + 1)
}

/// The index that `ticket` selects.
pub open spec fn winner(weights: Seq<u32>, ticket: int) -> int {
    choose|index: int| selects(weights, ticket, index)
}

/// The sums of the weights do not fall as more weights are taken.
pub proof fn lemma_weight_before_monotonic(weights: Seq<u32>, m: int, n: int)
    requires
        m <= n,
    ensures
        0 <= weight_before(weights, m) <= weight_before(weights, n),
    decreases n,
{
    if n > 0 {
        if m == n {
            lemma_weight_before_monotonic(weights, m - 1, n - 1);
        } else {
            lemma_weight_before_monotonic(weights, m, n - 1);
        }
    }
}

/// Weights that are all zero add up to zero.
pub proof fn lemma_zero_weights(weights: Seq<u32>, n: int)
    requires
        n <= weights.len(),
        forall|i: int| 0 <= i < weights.len() ==> weights[i] == 0,
    ensures
        weight_before(weights, n) == 0,
    decreases n,
{
    if n > 0 {
        lemma_zero_weights(weights, n - 1);
    }
}

/// A ticket selects at most one index.
pub proof fn lemma_selects_unique(weights: Seq<u32>, ticket: int, i: int, j: int)
    requires
        selects(weights, ticket, i),
        selects(weights, ticket, j),
    ensures
        i == j,
{
    if i < j {
        lemma_weight_before_monotonic(weights, i + 1, j);
    } else if j < i {
        lemma_weight_before_monotonic(weights, j + 1, i);
    }
}

/// Every ticket below the total weight selects an index, and that index has a
/// positive weight.
pub proof fn lemma_winner_exists(weights: Seq<u32>, ticket: int)
    requires
        0 <= ticket < total_weight(weights),
    ensures
        selects(weights, ticket, winner(weights, ticket)),
        weights[winner(weights, ticket)] > 0,
{
    lemma_selected_below(weights, ticket, weights.len() as int);
}

/// A ticket below the sum of the first `n` weights selects one of the first
/// `n` indices.
proof fn lemma_selected_below(weights: Seq<u32>, ticket: int, n: int)
    requires
        0 <= n <= weights.len(),
        0 <= ticket < weight_before(weights, n),
    ensures
        selects(weights, ticket, winner(weights, ticket)),
        winner(weights, ticket) < n,
    decreases n,
{
    if ticket >= weight_before(weights, n - 1) {
        lemma_selects_unique(weights, ticket, n - 1, winner(weights, ticket));
    } else {
        lemma_selected_below(weights, ticket, n - 1);
    }
}

/// Each index is selected by as many tickets as its weight says: the tickets
/// that select `index` are the `weights[index]` consecutive ones that start
/// at the sum of the weights before it. So a ticket drawn evenly from below
/// the total weight selects each index in proportion to its weight.
pub proof fn lemma_selected_in_proportion(weights: Seq<u32>, index: int)
    requires
        0 <= index < weights.len(),
    ensures
        forall|ticket: int|
            selects(weights, ticket, index) <==> weight_before(weights, index) <= ticket
                < weight_before(weights, index) + weights[index],
        forall|ticket: int|
            #![trigger winner(weights, ticket)]
            0 <= ticket < total_weight(weights) ==> (winner(weights, ticket) == index
                <==> weight_before(weights, index) <= ticket < weight_before(weights, index)
                + weights[index]),
        0 <= weight_before(weights, index),
        weight_before(weights, index) + weights[index] <= total_weight(weights),
{
    lemma_weight_before_monotonic(weights, 0, index);
    lemma_weight_before_monotonic(weights, index + 1, weights.len() as int);
    assert forall|ticket: int|
        #![trigger winner(weights, ticket)]
        0 <= ticket < total_weight(weights) implies (winner(weights, ticket) == index
        <==> weight_before(weights, index) <= ticket < weight_before(weights, index)
        + weights[index]) by {
        lemma_winner_exists(weights, ticket);
        if selects(weights, ticket, index) {
            lemma_selects_unique(weights, ticket, index, winner(weights, ticket));
        }
    }
}

/// The sum of all the weights.
pub fn sum_weights(weights: &Vec<u32>) -> (total: u128)
    ensures
        total == total_weight(weights@),
{
    let mut total: u128 = 0;
    let mut i: usize = 0;
    while i < weights.len()
        invariant
            i <= weights.len(),
            total == weight_before(weights@, i as int),
            total <= i * 0xffff_ffff,
        decreases weights.len() - i,
    {
        total = total + weights[i] as u128;
        i += 1;
    }
    total
}

/// The index that a ticket below the total weight selects.
fn select(weights: &Vec<u32>, ticket: u64) -> (index: usize)
    requires
        ticket < total_weight(weights@),
    ensures
        selects(weights@, ticket as int, index as int),
        index == winner(weights@, ticket as int),
{
    let mut passed: u128 = 0;
    let mut i: usize = 0;
    loop
        invariant
            i < weights.len(),
            passed == weight_before(weights@, i as int),
            passed <= ticket,
            ticket < total_weight(weights@),
        ensures
            selects(weights@, ticket as int, i as int),
        decreases weights.len() - i,
    {
        let next: u128 = passed + weights[i] as u128;
        if (ticket as u128) < next {
            break ;
        }
        passed = next;
        i += 1;
    }
    proof {
        lemma_selects_unique(weights@, ticket as int, i as int, winner(weights@, ticket as int));
    }
    i
}

/// The index that `ticket` selects among the weights, or `None` where the
/// ticket is not below their total.
pub fn sample(weights: &Vec<u32>, ticket: u64) -> (r: Option<usize>)
    ensures
        ticket < total_weight(weights@) ==> r == Some(winner(weights@, ticket as int) as usize),
        ticket >= total_weight(weights@) ==> r.is_none(),
        r matches Some(index) ==> selects(weights@, ticket as int, index as int),
{
    let total: u128 = sum_weights(weights);
    if (ticket as u128) < total {
        Some(select(weights, ticket))
    } else {
        None
    }
}

/// The index that `ticket`, counted modulo the total weight, selects among
/// the weights, or `None` where the total weight is zero.
pub fn draw(weights: &Vec<u32>, ticket: u64) -> (r: Option<usize>)
    ensures
        total_weight(weights@) > 0 ==> r == Some(
            winner(weights@, ticket as int % total_weight(weights@)) as usize,
        ),
        total_weight(weights@) <= 0 ==> r.is_none(),
        r matches Some(index) ==> selects(
            weights@,
            ticket as int % total_weight(weights@),
            index as int,
        ),
{
    let total: u128 = sum_weights(weights);
    if total == 0 {
        return None;
    }
    proof {
        lemma_mod_decreases(ticket as nat, total as nat);
        lemma_mod_bound(ticket as int, total as int);
    }
    let reduced: u64 = (ticket as u128 % total) as u64;
    Some(select(weights, reduced))
}

} // verus!
