use vstd::prelude::*;

verus! {

/// A number that was checked, with what the check found. Its view is the
/// pair of the two.
#[derive(Debug, Clone, Copy, PartialEq, Eq, Structural)]
pub struct PositiveNumber {
    value: u64,
    is_prime: bool,
}

impl View for PositiveNumber {
    type V = (u64, bool);

    closed spec fn view(&self) -> (u64, bool) {
        (self.value, self.is_prime)
    }
}

impl PositiveNumber {
    pub fn new(value: u64, is_prime: bool) -> (number: PositiveNumber)
        ensures
            number@ == (value, is_prime),
    {
        PositiveNumber { value, is_prime }
    }

    pub fn is_prime(&self) -> (is_prime: bool)
        ensures
            is_prime == self@.1,
    {
        self.is_prime
    }

    pub fn value(&self) -> (value: u64)
        ensures
            value == self@.0,
    {
        self.value
    }
}

} // verus!
