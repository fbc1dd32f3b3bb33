use vstd::prelude::*;

verus! {

/// A signed amount of money in minor currency units (hundredths).
#[derive(Clone, Copy, Debug, PartialEq, Eq, Structural)]
pub struct Money(pub i32);

impl Money {
    /// The amount as a mathematical integer.
    pub open spec fn val(self) -> int {
        self.0 as int
    }

    /// Sum of two amounts, or `None` when it does not fit.
    pub fn checked_add(self, other: Money) -> (r: Option<Money>)
        ensures
            r == (if i32::MIN <= self.val() + other.val() <= i32::MAX {
                Some(Money((self.val() + other.val()) as i32))
            } else {
                None::<Money>
            }),
    {
        match self.0.checked_add(other.0) {
            Some(v) => Some(Money(v)),
            None => None,
        }
    }

    /// Difference of two amounts, or `None` when it does not fit.
    pub fn checked_sub(self, other: Money) -> (r: Option<Money>)
        ensures
            r == (if i32::MIN <= self.val() - other.val() <= i32::MAX {
                Some(Money((self.val() - other.val()) as i32))
            } else {
                None::<Money>
            }),
    {
        match self.0.checked_sub(other.0) {
            Some(v) => Some(Money(v)),
            None => None,
        }
    }

    /// `self < other`.
    pub fn less_than(self, other: Money) -> (r: bool)
        ensures
            r == (self.val() < other.val()),
    {
        self.0 < other.0
    }

    /// `true` when the amount is strictly positive.
    pub fn is_positive(self) -> (r: bool)
        ensures
            r == (self.val() > 0),
    {
        self.0 > 0
    }
}

} // verus!
