use crate::api::common::break_down_search_range_into_partitions;
use crate::model::partition::Partition;
use crate::model::validation_error::ValidationError;
use crate::partitioning::{partitions_of, valid, validation_failure};
use vstd::prelude::*;

verus! {

/// A range of numbers that was accepted for a search, with the partitions
/// it is split into.
pub struct SearchRange {
    numbers: Partition,
    partitions: Vec<Partition>,
}

/// What a `SearchRange` stands for: the first and the last number of the
/// range, and its partitions, partition 1 first.
pub ghost struct SearchRangeView {
    pub start: u64,
    pub end: u64,
    pub partitions: Seq<Partition>,
}

impl View for SearchRange {
    type V = SearchRangeView;

    closed spec fn view(&self) -> SearchRangeView {
        SearchRangeView {
            start: self.numbers.start,
            end: self.numbers.end,
            partitions: self.partitions@,
        }
    }
}

impl SearchRange {
    /// The request that led to this value was accepted, and the partitions
    /// are those of that request.
    #[verifier::type_invariant]
    spec fn well_formed(&self) -> bool {
        &&& valid(self.partitions@.len() as u64, self.numbers.start, self.numbers.end)
        &&& self.partitions@ == partitions_of(
            self.partitions@.len() as u64,
            self.numbers.start,
            self.numbers.end,
        )
    }

    /// Accepts the range from `start` to `end` for a search with
    /// `partitions` partitions and splits it, or turns the request down as
    /// `validate` does.
    pub fn new(start: u64, end: u64, partitions: u64) -> (result: Result<
        SearchRange,
        ValidationError,
    >)
        ensures
            match result {
                Ok(range) => valid(partitions, start, end) && range@ == (SearchRangeView {
                    start,
                    end,
                    partitions: partitions_of(partitions, start, end),
                }),
                Err(error) => validation_failure(partitions, start, end) == Some(error@),
            },
    {
        match break_down_search_range_into_partitions(partitions, start, end) {
            Ok(all) => Ok(SearchRange { numbers: Partition { start, end }, partitions: all }),
            Err(error) => Err(error),
        }
    }

    /// The partitions of the range, partition 1 first.
    pub fn partitions(&self) -> (partitions: Vec<Partition>)
        ensures
            partitions@ == self@.partitions,
            valid(partitions@.len() as u64, self@.start, self@.end),
            partitions@ == partitions_of(partitions@.len() as u64, self@.start, self@.end),
    {
        proof {
            use_type_invariant(self);
        }
        self.partitions.clone()
    }
}

} // verus!
