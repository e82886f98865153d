use crate::aggregation::{
    all_finished, batches_of_partitions, checked_numbers, first_arrival, joined,
    law_joined_batches_are_checked_range, ordered, views,
};
use crate::api::common::is_prime;
use crate::model::partition::Partition;
use crate::model::positive_number::PositiveNumber;
use crate::model::search_range::SearchRange;
use crate::model::validation_error::{ValidationError, ValidationErrorKind};
use crate::partitioning::{range_size, valid, validation_failure};
use crate::primality::prime;
use vstd::prelude::*;

verus! {

/// The work of one worker: checks every number of `partition` in ascending
/// order and returns the numbers with what was found. A partition that
/// starts after its end has no numbers.
pub fn check_for_primes(partition: Partition) -> (checked: Vec<PositiveNumber>)
    ensures
        views(checked@) == checked_numbers(partition.start, partition.end),
{
    let mut checked: Vec<PositiveNumber> = Vec::new();
    if partition.start > partition.end {
        assert(views(checked@) =~= checked_numbers(partition.start, partition.end));
        return checked;
    }
    let mut num: u64 = partition.start;
    while num < partition.end
        invariant
            partition.start <= num <= partition.end,
            checked@.len() == num - partition.start,
            forall|i: int|
                0 <= i < checked@.len() ==> (#[trigger] checked@[i])@ == (
                    (partition.start + i) as u64,
                    prime(partition.start + i),
                ),
        decreases partition.end - num,
    {
        checked.push(PositiveNumber::new(num, is_prime(num)));
        num = num + 1;
    }
    checked.push(PositiveNumber::new(num, is_prime(num)));
    assert(views(checked@) =~= checked_numbers(partition.start, partition.end));
    checked
}

/// Puts the batches that arrived in the order of the partitions. Every
/// batch comes with the place of its partition, counted from 0; `amount` is
/// the number of partitions. Of two batches for one partition the one that
/// arrived first is kept, a batch for a partition that does not exist is
/// left out, and a partition without a batch has `None`.
pub fn order_batches(amount: usize, arrived: Vec<(usize, Vec<PositiveNumber>)>) -> (batches: Vec<
    Option<Vec<PositiveNumber>>,
>)
    ensures
        batches@ == ordered(arrived@, amount),
{
    let mut batches: Vec<Option<Vec<PositiveNumber>>> = Vec::new();
    while batches.len() < amount
        invariant
            batches@.len() <= amount,
            forall|i: int| 0 <= i < batches@.len() ==> (#[trigger] batches@[i]) is None,
        decreases amount - batches@.len(),
    {
        batches.push(None);
    }
    let mut waiting = arrived;
    while waiting.len() > 0
        invariant
            batches@.len() == amount,
            waiting@.len() <= arrived@.len(),
            waiting@ == arrived@.take(waiting@.len() as int),
            forall|i: int|
                0 <= i < amount ==> #[trigger] batches@[i] == first_arrival(
                    arrived@.skip(waiting@.len() as int),
                    i as usize,
                ),
        decreases waiting@.len(),
    {
        let ghost later = arrived@.skip(waiting@.len() as int);
        let ghost place = waiting@.len() - 1;
        match waiting.pop() {
            Some(arrival) => {
                let index = arrival.0;
                if index < amount {
                    batches.set(index, Some(arrival.1));
                }
                proof {
                    let now = arrived@.skip(place);
                    assert(now.first() == arrived@[place]);
                    assert(now.drop_first() =~= later);
                    assert(waiting@ =~= arrived@.take(place));
                }
            },
            None => {},
        }
    }
    assert(arrived@.skip(0) =~= arrived@);
    assert(batches@ =~= ordered(arrived@, amount));
    batches
}

/// Joins what the workers handed in, in the order of `batches`. A worker
/// that did not finish has `None` in place of its batch; where there is one,
/// nothing is returned but the error.
pub fn join_batches(batches: Vec<Option<Vec<PositiveNumber>>>) -> (result: Result<
    Vec<PositiveNumber>,
    ValidationError,
>)
    ensures
        match result {
            Ok(numbers) => all_finished(batches@) && numbers@ == joined(batches@),
            Err(error) => !all_finished(batches@) && error@
                == ValidationErrorKind::ThreadPanicError,
        },
{
    let mut numbers: Vec<PositiveNumber> = Vec::new();
    let mut done: usize = 0;
    while done < batches.len()
        invariant
            done <= batches.len(),
            all_finished(batches@.take(done as int)),
            numbers@ == joined(batches@.take(done as int)),
        decreases batches.len() - done,
    {
        match &batches[done] {
            None => {
                return Err(ValidationError::new(ValidationErrorKind::ThreadPanicError));
            },
            Some(batch) => {
                let ghost before = numbers@;
                let mut copied: usize = 0;
                while copied < batch.len()
                    invariant
                        copied <= batch.len(),
                        numbers@ == before + batch@.take(copied as int),
                    decreases batch.len() - copied,
                {
                    numbers.push(batch[copied]);
                    copied = copied + 1;
                    assert(batch@.take(copied as int) =~= batch@.take(copied - 1).push(
                        batch@[copied - 1],
                    ));
                }
                assert(batch@.take(copied as int) =~= batch@);
            },
        }
        done = done + 1;
        proof {
            let taken = batches@.take(done as int);
            assert(taken.drop_last() =~= batches@.take(done - 1));
            assert(taken.last() == batches@[done - 1]);
        }
    }
    assert(batches@.take(done as int) =~= batches@);
    Ok(numbers)
}

/// Checks every number from `lower` to `upper` for primality, split into
/// `threads_amount` partitions, and returns the numbers in ascending order,
/// each with what was found.
///
/// The partitions are checked one after the other, each by
/// `check_for_primes`, and the batches are joined by `join_batches`: a
/// caller that gives every partition to a thread of its own and joins the
/// batches in the order of the partitions gets the same numbers.
pub fn find_primes_parallel(threads_amount: u64, lower: u64, upper: u64) -> (result: Result<
    Vec<PositiveNumber>,
    ValidationError,
>)
    ensures
        match result {
            Ok(numbers) => valid(threads_amount, lower, upper) && views(numbers@)
                == checked_numbers(lower, upper) && numbers@.len() == range_size(lower, upper),
            Err(error) => validation_failure(threads_amount, lower, upper) == Some(error@),
        },
{
    let search_range = match SearchRange::new(lower, upper, threads_amount) {
        Ok(search_range) => search_range,
        Err(error) => {
            return Err(error);
        },
    };
    let partitions = search_range.partitions();
    let mut batches: Vec<Option<Vec<PositiveNumber>>> = Vec::new();
    let mut started: usize = 0;
    while started < partitions.len()
        invariant
            started <= partitions.len(),
            batches@.len() == started,
            forall|i: int|
                0 <= i < started ==> (#[trigger] batches@[i]) is Some && views(
                    batches@[i]->Some_0@,
                ) == checked_numbers(partitions@[i].start, partitions@[i].end),
        decreases partitions.len() - started,
    {
        batches.push(Some(check_for_primes(partitions[started])));
        started = started + 1;
    }
    proof {
        assert(batches_of_partitions(batches@, threads_amount, lower, upper));
        law_joined_batches_are_checked_range(batches@, threads_amount, lower, upper);
        assert(views(joined(batches@)).len() == joined(batches@).len());
    }
    join_batches(batches)
}

} // verus!
