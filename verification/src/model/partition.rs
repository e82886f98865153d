use vstd::prelude::*;

verus! {

/// A run of numbers without gaps, from `start` up to `end`; both belong to
/// it. One worker checks one partition.
#[derive(Debug, Clone, Copy, PartialEq, Eq, Structural)]
pub struct Partition {
    pub start: u64,
    pub end: u64,
}

impl Partition {
    /// `value` is one of the numbers of the partition.
    pub open spec fn contains(self, value: int) -> bool {
        self.start <= value <= self.end
    }

    /// How many numbers the partition has.
    pub open spec fn size(self) -> int {
        if self.start <= self.end {
            self.end - self.start + 1
        } else {
            0
        }
    }
}

} // verus!
