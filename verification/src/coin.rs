use vstd::prelude::*;

verus! {

/// An amount of the chain's currency, counted in its smallest unit.
#[derive(Clone, Copy, Debug, PartialEq, Eq, Structural, PartialOrd, Ord, Hash)]
pub struct Coin(pub u64);

impl Coin {
    /// The empty amount.
    pub fn zero() -> (c: Coin)
        ensures
            c == Coin(0),
    {
        Coin(0)
    }

    /// The sum of two amounts, or `None` where the sum does not fit.
    pub fn checked_add(self, other: Coin) -> (r: Option<Coin>)
        ensures
            self.0 + other.0 <= u64::MAX ==> r == Some(Coin((self.0 + other.0) as u64)),
            self.0 + other.0 > u64::MAX ==> r.is_none(),
    {
        match self.0.checked_add(other.0) {
            Some(v) => Some(Coin(v)),
            None => None,
        }
    }

    /// The amount taken `times` times, or `None` where the product does not fit.
    pub fn checked_mul(self, times: u64) -> (r: Option<Coin>)
        ensures
            self.0 * times <= u64::MAX ==> r == Some(Coin((self.0 * times) as u64)),
            self.0 * times > u64::MAX ==> r.is_none(),
    {
        match self.0.checked_mul(times) {
            Some(v) => Some(Coin(v)),
            None => None,
        }
    }
}

} // verus!
