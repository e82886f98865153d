//! What checking a run of numbers yields, how the batches of the workers are
//! joined, and why the joined batches are the checked range.

use crate::model::partition::Partition;
use crate::model::positive_number::PositiveNumber;
use crate::partitioning::{lemma_partition_bounds, partition_at, partitions_of, valid};
use crate::primality::prime;
use vstd::prelude::*;

verus! {

/// The numbers from `lower` to `upper` in ascending order, each with whether
/// it is prime. Empty where `lower` lies above `upper`.
pub open spec fn checked_numbers(lower: u64, upper: u64) -> Seq<(u64, bool)> {
    Seq::new(
        (Partition { start: lower, end: upper }).size() as nat,
        |i: int| ((lower + i) as u64, prime(lower + i)),
    )
}

/// The views of `numbers`, in their order.
pub open spec fn views(numbers: Seq<PositiveNumber>) -> Seq<(u64, bool)> {
    numbers.map_values(|number: PositiveNumber| number@)
}

/// Every worker handed in a batch.
pub open spec fn all_finished(batches: Seq<Option<Vec<PositiveNumber>>>) -> bool {
    forall|i: int| 0 <= i < batches.len() ==> (#[trigger] batches[i]) is Some
}

/// The batches one after the other, the first batch first. A missing batch
/// adds nothing.
pub open spec fn joined(batches: Seq<Option<Vec<PositiveNumber>>>) -> Seq<PositiveNumber>
    decreases batches.len(),
{
    if batches.len() == 0 {
        Seq::empty()
    } else {
        joined(batches.drop_last()) + (match batches.last() {
            Some(batch) => batch@,
            None => Seq::empty(),
        })
    }
}

/// Batch `i` holds the checked numbers of partition `i + 1` of the request,
/// for every partition.
pub open spec fn batches_of_partitions(
    batches: Seq<Option<Vec<PositiveNumber>>>,
    amount: u64,
    lower: u64,
    upper: u64,
) -> bool {
    &&& batches.len() == amount
    &&& forall|i: int|
        0 <= i < amount ==> (#[trigger] batches[i]) is Some && views(batches[i]->Some_0@)
            == checked_numbers(
            partitions_of(amount, lower, upper)[i].start,
            partitions_of(amount, lower, upper)[i].end,
        )
}

/// The checked numbers up to `middle`, followed by those after it, are the
/// checked numbers of the whole run.
pub proof fn lemma_checked_numbers_split(lower: u64, middle: u64, upper: u64)
    requires
        lower <= middle < upper,
    ensures
        checked_numbers(lower, middle) + checked_numbers((middle + 1) as u64, upper)
            == checked_numbers(lower, upper),
{
    assert(checked_numbers(lower, middle) + checked_numbers((middle + 1) as u64, upper)
        =~= checked_numbers(lower, upper));
}

/// The views of two runs of numbers, one after the other, are the views of
/// the first followed by those of the second.
pub proof fn lemma_views_of_concatenation(first: Seq<PositiveNumber>, second: Seq<PositiveNumber>)
    ensures
        views(first + second) == views(first) + views(second),
{
    assert(views(first + second) =~= views(first) + views(second));
}

/// The first `count` batches of the partitions, joined, are the checked
/// numbers from the start of the range to the end of partition `count`.
proof fn lemma_joined_prefix(
    batches: Seq<Option<Vec<PositiveNumber>>>,
    count: int,
    amount: u64,
    lower: u64,
    upper: u64,
)
    requires
        valid(amount, lower, upper),
        batches_of_partitions(batches, amount, lower, upper),
        1 <= count <= amount,
    ensures
        views(joined(batches.take(count))) == checked_numbers(
            lower,
            partition_at(count, amount, lower, upper).end,
        ),
    decreases count,
{
    let parts = partitions_of(amount, lower, upper);
    let taken = batches.take(count);
    let batch = batches[count - 1]->Some_0@;
    let part = partition_at(count, amount, lower, upper);
    assert(taken.last() == batches[count - 1]);
    assert(taken.drop_last() =~= batches.take(count - 1));
    assert(joined(taken) == joined(batches.take(count - 1)) + batch);
    assert(parts[count - 1] == part);
    assert(views(batch) == checked_numbers(part.start, part.end));
    lemma_partition_bounds(count, amount, lower, upper);
    lemma_views_of_concatenation(joined(batches.take(count - 1)), batch);
    if count == 1 {
        assert(joined(batches.take(0)) =~= Seq::<PositiveNumber>::empty());
        assert(views(joined(batches.take(0))) =~= Seq::<(u64, bool)>::empty());
        assert(views(joined(taken)) =~= views(batch));
    } else {
        let before = partition_at(count - 1, amount, lower, upper);
        lemma_joined_prefix(batches, count - 1, amount, lower, upper);
        lemma_partition_bounds(count - 1, amount, lower, upper);
        assert(part.start == before.end + 1);
        lemma_checked_numbers_split(lower, before.end, part.end);
    }
}

/// Where every partition of an accepted request was checked by a worker of
/// its own, the batches joined in the order of the partitions are the
/// numbers of the whole range in ascending order, each with whether it is
/// prime.
pub proof fn law_joined_batches_are_checked_range(
    batches: Seq<Option<Vec<PositiveNumber>>>,
    amount: u64,
    lower: u64,
    upper: u64,
)
    requires
        valid(amount, lower, upper),
        batches_of_partitions(batches, amount, lower, upper),
    ensures
        all_finished(batches),
        views(joined(batches)) == checked_numbers(lower, upper),
{
    lemma_joined_prefix(batches, amount as int, amount, lower, upper);
    lemma_partition_bounds(amount as int, amount, lower, upper);
    assert(batches.take(amount as int) =~= batches);
}

/// The batch that arrived first for the partition at `index`, counted from
/// 0, if one arrived.
pub open spec fn first_arrival(
    arrived: Seq<(usize, Vec<PositiveNumber>)>,
    index: usize,
) -> Option<Vec<PositiveNumber>>
    decreases arrived.len(),
{
    if arrived.len() == 0 {
        None
    } else if arrived.first().0 == index {
        Some(arrived.first().1)
    } else {
        first_arrival(arrived.drop_first(), index)
    }
}

/// The batches that arrived, put in the order of `amount` partitions: a
/// partition for which nothing arrived has `None`.
pub open spec fn ordered(arrived: Seq<(usize, Vec<PositiveNumber>)>, amount: usize) -> Seq<
    Option<Vec<PositiveNumber>>,
> {
    Seq::new(amount as nat, |i: int| first_arrival(arrived, i as usize))
}

/// A batch arrived for the partition at `index`.
pub open spec fn has_arrival(arrived: Seq<(usize, Vec<PositiveNumber>)>, index: int) -> bool {
    exists|k: int| 0 <= k < arrived.len() && (#[trigger] arrived[k]).0 == index
}

/// What is found as the first arrival for `index` did arrive for it, and
/// something is found as soon as anything arrived for it.
pub proof fn lemma_first_arrival(arrived: Seq<(usize, Vec<PositiveNumber>)>, index: usize)
    ensures
        match first_arrival(arrived, index) {
            Some(batch) => exists|k: int|
                0 <= k < arrived.len() && #[trigger] arrived[k] == (index, batch),
            None => forall|k: int| 0 <= k < arrived.len() ==> (#[trigger] arrived[k]).0 != index,
        },
    decreases arrived.len(),
{
    if arrived.len() > 0 {
        if arrived.first().0 == index {
            assert(arrived[0] == (index, arrived.first().1));
        } else {
            let rest = arrived.drop_first();
            lemma_first_arrival(rest, index);
            match first_arrival(rest, index) {
                Some(batch) => {
                    let k = choose|k: int|
                        0 <= k < rest.len() && #[trigger] rest[k] == (index, batch);
                    assert(arrived[k + 1] == (index, batch));
                },
                None => {
                    assert forall|k: int| 0 <= k < arrived.len() implies (#[trigger] arrived[k]).0
                        != index by {
                        if k > 0 {
                            assert(rest[k - 1] == arrived[k]);
                        }
                    }
                },
            }
        }
    }
}

/// The order in which the batches arrive does not matter. Where every
/// arrival holds the checked numbers of the partition that it names, and
/// something arrived for every partition of an accepted request, the batches
/// put in the order of the partitions and joined are the numbers of the
/// whole range in ascending order, each with whether it is prime.
pub proof fn law_arrival_order_does_not_matter(
    arrived: Seq<(usize, Vec<PositiveNumber>)>,
    amount: u64,
    lower: u64,
    upper: u64,
)
    requires
        valid(amount, lower, upper),
        amount <= usize::MAX,
        forall|k: int|
            0 <= k < arrived.len() ==> (#[trigger] arrived[k]).0 < amount && views(arrived[k].1@)
                == checked_numbers(
                partitions_of(amount, lower, upper)[arrived[k].0 as int].start,
                partitions_of(amount, lower, upper)[arrived[k].0 as int].end,
            ),
        forall|i: int| 0 <= i < amount ==> #[trigger] has_arrival(arrived, i),
    ensures
        all_finished(ordered(arrived, amount as usize)),
        views(joined(ordered(arrived, amount as usize))) == checked_numbers(lower, upper),
{
    let batches = ordered(arrived, amount as usize);
    assert forall|i: int| 0 <= i < amount implies (#[trigger] batches[i]) is Some && views(
        batches[i]->Some_0@,
    ) == checked_numbers(
        partitions_of(amount, lower, upper)[i].start,
        partitions_of(amount, lower, upper)[i].end,
    ) by {
        lemma_first_arrival(arrived, i as usize);
        assert(has_arrival(arrived, i));
        let k = choose|k: int| 0 <= k < arrived.len() && (#[trigger] arrived[k]).0 == i;
        assert(arrived[k].0 == i as usize);
    }
    law_joined_batches_are_checked_range(batches, amount, lower, upper);
}

} // verus!
