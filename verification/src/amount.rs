use vstd::prelude::*;

verus! {

/// The saturating sum of two 64-bit signed values, as a mathematical integer.
pub open spec fn saturating_sum(a: int, b: int) -> int {
    if a + b > i64::MAX {
        i64::MAX as int
    } else if a + b < i64::MIN {
        i64::MIN as int
    } else {
        a + b
    }
}

/// A signed amount of the smallest currency unit.
///
/// A negative amount on a transaction marks it as value-creating; a
/// non-negative one is the fee that the transaction pays.
#[derive(Clone, Copy, Debug, PartialEq, Eq, Structural)]
pub struct AleoAmount(pub i64);

impl AleoAmount {
    /// The amount zero.
    pub fn zero() -> (r: Self)
        ensures
            r.0 == 0,
    {
        AleoAmount(0)
    }

    /// Whether the amount is below zero.
    pub fn is_negative(&self) -> (r: bool)
        ensures
            r == (self.0 < 0),
    {
        self.0 < 0
    }

    /// What `add` returns.
    pub open spec fn spec_add(self, b: Self) -> Self {
        AleoAmount(saturating_sum(self.0 as int, b.0 as int) as i64)
    }

    /// Adds two amounts. The sum never wraps: past either end of the 64-bit
    /// range it stays at that end.
    pub fn add(self, b: Self) -> (r: Self)
        ensures
            r == self.spec_add(b),
            r.0 == saturating_sum(self.0 as int, b.0 as int),
    {
        if b.0 > 0 && self.0 > i64::MAX - b.0 {
            AleoAmount(i64::MAX)
        } else if b.0 < 0 && self.0 < i64::MIN - b.0 {
            AleoAmount(i64::MIN)
        } else {
            AleoAmount(self.0 + b.0)
        }
    }
}

} // verus!
