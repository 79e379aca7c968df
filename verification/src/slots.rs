use vstd::prelude::*;
use crate::error::InherentError;
use crate::keys::Address;

verus! {

/// A run of consecutive validator slots that belongs to one validator, with
/// the address that its rewards go to.
#[derive(Clone, Copy, Debug, PartialEq, Eq, Hash)]
pub struct SlotBand {
    pub num_slots: u16,
    pub reward_address: Address,
}

impl SlotBand {
    /// The number of slots in the band.
    pub fn num_slots(&self) -> (n: u16)
        ensures
            n == self.num_slots,
    {
        self.num_slots
    }

    /// The address that the band's rewards go to.
    pub fn reward_address(&self) -> (a: Address)
        ensures
            a == self.reward_address,
    {
        self.reward_address
    }
}

/// The number of slots in the first `k` bands, which is the index of the
/// first slot of band `k`.
pub open spec fn slots_before(bands: Seq<SlotBand>, k: int) -> int
    decreases k,
{
    if k <= 0 {
        0
    } else {
        slots_before(bands, k - 1) + bands[k - 1].num_slots
    }
}

/// The number of slots in all the bands.
pub open spec fn total_slots(bands: Seq<SlotBand>) -> int {
    slots_before(bands, bands.len() as int)
}

/// Each index is larger than the one before it.
pub open spec fn strictly_ascending(indices: Seq<u16>) -> bool {
    forall|i: int, j: int| 0 <= i < j < indices.len() ==> indices[i] < indices[j]
}

/// The set of slot indices that a list holds.
pub open spec fn slot_set(indices: Seq<u16>) -> Set<int> {
    Set::new(|slot: int| exists|i: int| 0 <= i < indices.len() && indices[i] == slot)
}

/// The number of slots `lo <= slot < hi` that are in `set`.
pub open spec fn count_between(set: Set<int>, lo: int, hi: int) -> int
    decreases hi - lo,
{
    if hi <= lo {
        0
    } else {
        count_between(set, lo, hi - 1) + if set.contains(hi - 1) { 1int } else { 0int }
    }
}

/// The number of slots of band `k` that are in `set`.
pub open spec fn count_in_band(set: Set<int>, bands: Seq<SlotBand>, k: int) -> int {
    count_between(set, slots_before(bands, k), slots_before(bands, k + 1))
}

/// A range holds no more members of a set than it has slots.
pub proof fn lemma_count_between_bounds(set: Set<int>, lo: int, hi: int)
    requires
        lo <= hi,
    ensures
        0 <= count_between(set, lo, hi) <= hi - lo,
    decreases hi - lo,
{
    if hi > lo {
        lemma_count_between_bounds(set, lo, hi - 1);
    }
}

/// A band holds no more members of a set than it has slots.
pub proof fn lemma_count_in_band_bounds(set: Set<int>, bands: Seq<SlotBand>, k: int)
    requires
        0 <= k < bands.len(),
    ensures
        0 <= count_in_band(set, bands, k) <= bands[k].num_slots,
{
    lemma_count_between_bounds(set, slots_before(bands, k), slots_before(bands, k + 1));
}

/// The first slot of a band does not lie before that of an earlier band.
pub proof fn lemma_slots_before_monotonic(bands: Seq<SlotBand>, m: int, n: int)
    requires
        m <= n,
    ensures
        0 <= slots_before(bands, m) <= slots_before(bands, n),
    decreases n,
{
    if n > 0 {
        if m == n {
            lemma_slots_before_monotonic(bands, m - 1, n - 1);
        } else {
            lemma_slots_before_monotonic(bands, m, n - 1);
        }
    }
}

/// A range whose slots are all in the set holds as many members as it has
/// slots.
pub proof fn lemma_count_between_full(set: Set<int>, lo: int, hi: int)
    requires
        lo <= hi,
        forall|slot: int| lo <= slot < hi ==> set.contains(slot),
    ensures
        count_between(set, lo, hi) == hi - lo,
    decreases hi - lo,
{
    if hi > lo {
        lemma_count_between_full(set, lo, hi - 1);
    }
}

/// In an ascending list, the entries from position `p` up to `q` are those
/// that fall into a range which the entries before `p` lie below and the
/// entries from `q` on lie above: the range holds `q - p` of the list's slots.
proof fn lemma_count_of_window(s: Seq<u16>, p: int, q: int, lo: int, hi: int)
    requires
        strictly_ascending(s),
        0 <= p <= q <= s.len(),
        lo <= hi,
        forall|i: int| 0 <= i < p ==> s[i] < lo,
        forall|i: int| p <= i < q ==> lo <= #[trigger] s[i] && s[i] < hi,
        forall|i: int| q <= i < s.len() ==> s[i] >= hi,
    ensures
        count_between(slot_set(s), lo, hi) == q - p,
    decreases hi - lo,
{
    if hi == lo {
        if p < q {
            assert(lo <= s[p] < hi);
        }
    } else if p < q && s[q - 1] == hi - 1 {
        lemma_count_of_window(s, p, q - 1, lo, hi - 1);
    } else {
        lemma_count_of_window(s, p, q, lo, hi - 1);
    }
}

/// Whether one of the first `n` entries of the list is `slot`.
spec fn held_among(indices: Seq<u16>, n: int, slot: int) -> bool {
    exists|i: int| 0 <= i < n && i < indices.len() && indices[i] == slot
}

/// Whether each index of the list is larger than the one before it.
pub fn is_strictly_ascending(indices: &Vec<u16>) -> (b: bool)
    ensures
        b == strictly_ascending(indices@),
{
    if indices.len() < 2 {
        return true;
    }
    let mut i: usize = 1;
    while i < indices.len()
        invariant
            1 <= i <= indices.len(),
            forall|a: int, b: int| 0 <= a < b < i ==> indices[a] < indices[b],
        decreases indices.len() - i,
    {
        if indices[i - 1] >= indices[i] {
            return false;
        }
        i += 1;
    }
    true
}

/// Every one of the first `i` entries of `low` is less than every entry of
/// `high` from place `j` on.
spec fn below(low: Seq<u16>, i: int, high: Seq<u16>, j: int) -> bool {
    forall|x: int, y: int|
        #![trigger low[x], high[y]]
        0 <= x < i && x < low.len() && j <= y < high.len() ==> low[x] < high[y]
}

/// What the first `i` entries of `a` and the first `j` entries of `b` have
/// in common is in `common`.
spec fn gathered(a: Seq<u16>, i: int, b: Seq<u16>, j: int, common: Seq<u16>) -> bool {
    forall|x: int, y: int|
        #![trigger a[x], b[y]]
        0 <= x < i && 0 <= y < j && a[x] == b[y] ==> slot_set(common).contains(a[x] as int)
}

/// Every entry of `common` is among the first `n` entries of `list`.
spec fn drawn_from(common: Seq<u16>, list: Seq<u16>, n: int) -> bool {
    forall|m: int| 0 <= m < common.len() ==> held_among(list, n, #[trigger] common[m] as int)
}

/// The indices that two ascending lists have in common, in ascending order.
fn intersection(a: &Vec<u16>, b: &Vec<u16>) -> (common: Vec<u16>)
    requires
        strictly_ascending(a@),
        strictly_ascending(b@),
    ensures
        strictly_ascending(common@),
        slot_set(common@) == slot_set(a@).intersect(slot_set(b@)),
{
    let mut common: Vec<u16> = Vec::new();
    let mut i: usize = 0;
    let mut j: usize = 0;
    while i < a.len() && j < b.len()
        invariant
            strictly_ascending(a@),
            strictly_ascending(b@),
            strictly_ascending(common@),
            i <= a.len(),
            j <= b.len(),
            below(a@, i as int, b@, j as int),
            below(b@, j as int, a@, i as int),
            below(common@, common.len() as int, a@, i as int),
            drawn_from(common@, a@, i as int),
            drawn_from(common@, b@, j as int),
            gathered(a@, i as int, b@, j as int, common@),
        decreases (a.len() - i) + (b.len() - j),
    {
        let u: u16 = a[i];
        let v: u16 = b[j];
        if u < v {
            i += 1;
        } else if v < u {
            j += 1;
        } else {
            let ghost before = common@;
            common.push(u);
            proof {
                let last = before.len() as int;
                assert forall|x: int, y: int|
                    #![trigger a[x], b[y]]
                    0 <= x < i + 1 && 0 <= y < j + 1 && a[x] == b[y] implies slot_set(
                    common@,
                ).contains(a[x] as int) by {
                    if x == i || y == j {
                        assert(common[last] == a[x]);
                    } else {
                        let m = choose|m: int| 0 <= m < before.len() && before[m] == a[x] as int;
                        assert(common[m] == a[x]);
                    }
                }
            }
            i += 1;
            j += 1;
        }
    }
    common
}

/// The slashed set of a batch: the slots that both lost their reward and were
/// disabled, in ascending order. Both lists must come in strictly ascending
/// order, else the fault `SlotOrder` is returned.
pub fn slashed_set(lost_rewards: &Vec<u16>, disabled_slots: &Vec<u16>) -> (r: Result<
    Vec<u16>,
    InherentError,
>)
    ensures
        strictly_ascending(lost_rewards@) && strictly_ascending(disabled_slots@) ==> r.is_ok(),
        !(strictly_ascending(lost_rewards@) && strictly_ascending(disabled_slots@)) ==> r == Err::<
            Vec<u16>,
            InherentError,
        >(InherentError::SlotOrder),
        r matches Ok(slashed) ==> strictly_ascending(slashed@) && slot_set(slashed@) == slot_set(
            lost_rewards@,
        ).intersect(slot_set(disabled_slots@)),
{
    if !is_strictly_ascending(lost_rewards) || !is_strictly_ascending(disabled_slots) {
        return Err(InherentError::SlotOrder);
    }
    Ok(intersection(lost_rewards, disabled_slots))
}

/// For each band in order, the number of its slots that `slashed` holds.
///
/// The bands are laid out one after the other from slot 0 on, and the list
/// is walked once beside them. It must come in strictly ascending order, else
/// the fault `SlotOrder` is returned.
pub fn slashed_per_band(bands: &Vec<SlotBand>, slashed: &Vec<u16>) -> (r: Result<
    Vec<u16>,
    InherentError,
>)
    ensures
        strictly_ascending(slashed@) ==> r.is_ok(),
        !strictly_ascending(slashed@) ==> r == Err::<Vec<u16>, InherentError>(
            InherentError::SlotOrder,
        ),
        r matches Ok(counts) ==> {
            &&& counts.len() == bands.len()
            &&& forall|k: int|
                0 <= k < bands.len() ==> #[trigger] counts[k] == count_in_band(
                    slot_set(slashed@),
                    bands@,
                    k,
                )
        },
{
    if !is_strictly_ascending(slashed) {
        return Err(InherentError::SlotOrder);
    }
    let ghost set = slot_set(slashed@);
    let mut counts: Vec<u16> = Vec::new();
    let mut next: usize = 0;
    let mut first: u32 = 0;
    let mut k: usize = 0;
    while k < bands.len()
        invariant
            strictly_ascending(slashed@),
            set == slot_set(slashed@),
            k <= bands.len(),
            counts.len() == k,
            next <= slashed.len(),
            first <= 65536,
            first == if slots_before(bands@, k as int) < 65536 {
                slots_before(bands@, k as int)
            } else {
                65536
            },
            forall|i: int| 0 <= i < next ==> slashed[i] < slots_before(bands@, k as int),
            forall|i: int|
                next <= i < slashed.len() ==> slashed[i] >= slots_before(bands@, k as int),
            forall|m: int| 0 <= m < k ==> #[trigger] counts[m] == count_in_band(set, bands@, m),
        decreases bands.len() - k,
    {
        let ghost lo = slots_before(bands@, k as int);
        let ghost hi = slots_before(bands@, k + 1);
        let num_slots: u16 = bands[k].num_slots;
        let last: u32 = if first + num_slots as u32 > 65536 {
            65536
        } else {
            first + num_slots as u32
        };
        let start: usize = next;
        while next < slashed.len() && (slashed[next] as u32) < last
            invariant
                start <= next <= slashed.len(),
                hi == lo + num_slots,
                last == if hi < 65536 { hi } else { 65536 },
                forall|i: int| start <= i < next ==> slashed[i] < hi,
            decreases slashed.len() - next,
        {
            next += 1;
        }
        proof {
            lemma_count_of_window(slashed@, start as int, next as int, lo, hi);
            lemma_count_between_bounds(set, lo, hi);
        }
        counts.push((next - start) as u16);
        first = last;
        k += 1;
    }
    Ok(counts)
}

} // verus!
