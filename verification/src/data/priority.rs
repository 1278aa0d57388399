use vstd::prelude::*;

verus! {

/// A representation of how important something is relative to something else. Lower values run
/// first.
pub struct Priority {
    value: u128,
}

impl Priority {
    pub closed spec fn spec_value(&self) -> u128 {
        self.value
    }

    pub fn new(priority: u128) -> (r: Self)
        ensures
            r.spec_value() == priority,
    {
        Self { value: priority }
    }

    pub fn default() -> (r: Self)
        ensures
            r.spec_value() == 100,
    {
        Self { value: 100 }
    }

    pub fn highest() -> (r: Self)
        ensures
            r.spec_value() == 0,
    {
        Self { value: 0 }
    }

    pub fn lowest() -> (r: Self)
        ensures
            r.spec_value() == u128::MAX,
    {
        Self { value: u128::MAX }
    }

    /// The priority one step lower than `other` (saturating at the lowest priority).
    pub fn lower_than(other: &Priority) -> (r: Self)
        ensures
            r.spec_value() == (if other.spec_value() == u128::MAX {
                u128::MAX
            } else {
                (other.spec_value() + 1) as u128
            }),
    {
        Self {
            value: if other.value == u128::MAX {
                u128::MAX
            } else {
                other.value + 1
            },
        }
    }

    /// The priority one step higher than `other` (saturating at the highest priority).
    pub fn higher_than(other: &Priority) -> (r: Self)
        ensures
            r.spec_value() == (if other.spec_value() == 0 {
                0
            } else {
                (other.spec_value() - 1) as u128
            }),
    {
        Self {
            value: if other.value == 0 {
                0
            } else {
                other.value - 1
            },
        }
    }

    /// The numeric value of the priority.
    pub fn value(&self) -> (r: u128)
        ensures
            r == self.spec_value(),
    {
        self.value
    }
}

} // verus!
