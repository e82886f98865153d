//! Which requests are accepted, which partitions an accepted request is split
//! into, and what holds of those partitions.
//!
//! A range is given by its first and its last number, `lower` and `upper`.
//! Partitions are numbered from 1.

use crate::model::partition::Partition;
use crate::model::validation_error::ValidationErrorKind;
use vstd::arithmetic::div_mod::lemma_fundamental_div_mod;
use vstd::arithmetic::mul::lemma_mul_is_commutative;
use vstd::prelude::*;

verus! {

/// How many numbers the range from `lower` to `upper` has. It is not
/// positive where `lower` lies above `upper`.
pub open spec fn range_size(lower: u64, upper: u64) -> int {
    upper - lower + 1
}

/// Why a request is turned down, if it is. The checks are made in this
/// order, and the first that fails decides.
pub open spec fn validation_failure(amount: u64, lower: u64, upper: u64) -> Option<
    ValidationErrorKind,
> {
    if amount == 0 {
        Some(ValidationErrorKind::ZeroThreadsError)
    } else if amount > range_size(lower, upper) {
        Some(ValidationErrorKind::ThreadAmountError)
    } else if lower > upper {
        Some(ValidationErrorKind::SearchRangeStartErrror)
    } else if lower == upper {
        Some(ValidationErrorKind::SearchRangeStartAndEndEqualErrror)
    } else {
        None
    }
}

/// The request is accepted.
pub open spec fn valid(amount: u64, lower: u64, upper: u64) -> bool {
    validation_failure(amount, lower, upper) is None
}

/// How many numbers every partition but the last has.
pub open spec fn step(amount: u64, lower: u64, upper: u64) -> int {
    range_size(lower, upper) / (amount as int)
}

/// The place in the range, counted from 1, of the first number of partition
/// `nr`.
pub open spec fn lower_bound(nr: int, amount: u64, lower: u64, upper: u64) -> int {
    step(amount, lower, upper) * (nr - 1) + 1
}

/// The place in the range, counted from 1, of the last number of partition
/// `nr`. The last partition ends where the range ends.
pub open spec fn upper_bound(nr: int, amount: u64, lower: u64, upper: u64) -> int {
    if nr == amount {
        range_size(lower, upper)
    } else {
        step(amount, lower, upper) * nr
    }
}

/// Partition `nr` of the range: the number at place `p` is `lower + p - 1`.
pub open spec fn partition_at(nr: int, amount: u64, lower: u64, upper: u64) -> Partition {
    Partition {
        start: (lower + lower_bound(nr, amount, lower, upper) - 1) as u64,
        end: (lower + upper_bound(nr, amount, lower, upper) - 1) as u64,
    }
}

/// All partitions of the range, partition 1 first.
pub open spec fn partitions_of(amount: u64, lower: u64, upper: u64) -> Seq<Partition> {
    Seq::new(amount as nat, |i: int| partition_at(i + 1, amount, lower, upper))
}

/// Why partition `nr` is not computed, if it is not: its number is checked
/// first, then the request.
pub open spec fn partition_failure(nr: u64, amount: u64, lower: u64, upper: u64) -> Option<
    ValidationErrorKind,
> {
    if nr == 0 || nr > amount {
        Some(ValidationErrorKind::ThreadNumberError)
    } else {
        validation_failure(amount, lower, upper)
    }
}

/// The requests that are accepted are those with at least one partition, a
/// range of at least two numbers, and no more partitions than numbers. All
/// others are turned down.
pub proof fn law_accepted_requests(amount: u64, lower: u64, upper: u64)
    ensures
        valid(amount, lower, upper) <==> (1 <= amount <= range_size(lower, upper) && lower
            < upper),
{
}

/// A range that starts after its end is turned down for its number of
/// partitions, whatever that number is: the number of partitions is looked
/// at before the bounds, and such a range has no numbers to give.
pub proof fn law_inverted_range_has_too_many_partitions(amount: u64, lower: u64, upper: u64)
    requires
        lower > upper,
    ensures
        validation_failure(amount, lower, upper) == Some(
            if amount == 0 {
                ValidationErrorKind::ZeroThreadsError
            } else {
                ValidationErrorKind::ThreadAmountError
            },
        ),
{
}

/// Where partition `nr` of an accepted request starts and ends. Both lie in
/// the range, and the partition is not empty.
pub proof fn lemma_partition_bounds(nr: int, amount: u64, lower: u64, upper: u64)
    requires
        valid(amount, lower, upper),
        1 <= nr <= amount,
    ensures
        1 <= step(amount, lower, upper),
        step(amount, lower, upper) * amount <= range_size(lower, upper),
        partition_at(nr, amount, lower, upper).start == lower + step(amount, lower, upper) * (nr
            - 1),
        partition_at(nr, amount, lower, upper).end == (if nr == amount {
            upper as int
        } else {
            lower + step(amount, lower, upper) * nr - 1
        }),
        step(amount, lower, upper) * nr == step(amount, lower, upper) * (nr - 1) + step(
            amount,
            lower,
            upper,
        ),
        nr == 1 ==> partition_at(nr, amount, lower, upper).start == lower,
        lower <= partition_at(nr, amount, lower, upper).start <= partition_at(
            nr,
            amount,
            lower,
            upper,
        ).end <= upper,
{
    let size = range_size(lower, upper);
    let step = step(amount, lower, upper);
    let count = amount as int;
    lemma_fundamental_div_mod(size, count);
    lemma_mul_is_commutative(count, step);
    assert(step * count <= size);
    assert(1 <= step) by {
        if step <= 0 {
            assert(step * count <= 0) by (nonlinear_arith)
                requires
                    step <= 0,
                    count >= 1,
            ;
        }
    }
    assert(step * nr == step * (nr - 1) + step) by (nonlinear_arith);
    assert(nr == 1 ==> step * (nr - 1) == 0) by (nonlinear_arith);
    assert(step * (nr - 1) >= 0) by (nonlinear_arith)
        requires
            step >= 1,
            nr >= 1,
    ;
    assert(step * nr <= step * count) by (nonlinear_arith)
        requires
            step >= 1,
            nr <= count,
    ;
}

/// The partitions follow one another without a gap: the first starts where
/// the range starts, each other one right after the one before it ends, and
/// the last ends where the range ends.
pub proof fn law_partitions_are_contiguous(amount: u64, lower: u64, upper: u64)
    requires
        valid(amount, lower, upper),
    ensures
        partitions_of(amount, lower, upper).first().start == lower,
        partitions_of(amount, lower, upper).last().end == upper,
        forall|i: int|
            #![trigger partitions_of(amount, lower, upper)[i]]
            0 <= i < amount - 1 ==> partitions_of(amount, lower, upper)[i + 1].start
                == partitions_of(amount, lower, upper)[i].end + 1,
{
    let parts = partitions_of(amount, lower, upper);
    lemma_partition_bounds(1, amount, lower, upper);
    lemma_partition_bounds(amount as int, amount, lower, upper);
    assert forall|i: int| 0 <= i < amount - 1 implies #[trigger] parts[i + 1].start == parts[i].end
        + 1 by {
        lemma_partition_bounds(i + 1, amount, lower, upper);
        lemma_partition_bounds(i + 2, amount, lower, upper);
    }
}

/// The partitions come in ascending order and no number belongs to two of
/// them.
pub proof fn law_partitions_are_disjoint(amount: u64, lower: u64, upper: u64)
    requires
        valid(amount, lower, upper),
    ensures
        forall|i: int, j: int|
            #![trigger partitions_of(amount, lower, upper)[i], partitions_of(amount, lower, upper)[j]]
            0 <= i < j < amount ==> partitions_of(amount, lower, upper)[i].end < partitions_of(
                amount,
                lower,
                upper,
            )[j].start,
        forall|i: int, j: int, value: int|
            #![trigger partitions_of(amount, lower, upper)[i].contains(value), partitions_of(amount, lower, upper)[j].contains(value)]
            0 <= i < j < amount ==> !(partitions_of(amount, lower, upper)[i].contains(value)
                && partitions_of(amount, lower, upper)[j].contains(value)),
{
    let parts = partitions_of(amount, lower, upper);
    let step = step(amount, lower, upper);
    assert forall|i: int, j: int| 0 <= i < j < amount implies #[trigger] parts[i].end
        < #[trigger] parts[j].start by {
        lemma_partition_bounds(i + 1, amount, lower, upper);
        lemma_partition_bounds(j + 1, amount, lower, upper);
        assert(step * (i + 1) <= step * j) by (nonlinear_arith)
            requires
                step >= 1,
                i + 1 <= j,
        ;
    }
}

/// The numbers from `lower` to `upper`.
pub open spec fn numbers_between(lower: u64, upper: u64) -> Set<int> {
    Set::new(|value: int| lower <= value <= upper)
}

/// The numbers that belong to at least one of `parts`.
pub open spec fn numbers_of(parts: Seq<Partition>) -> Set<int> {
    Set::new(
        |value: int| exists|i: int| 0 <= i < parts.len() && #[trigger] parts[i].contains(value),
    )
}

/// Together the partitions hold the numbers of the range and no others:
/// every partition lies in the range, and every number of the range belongs
/// to a partition.
pub proof fn law_partitions_cover_range(amount: u64, lower: u64, upper: u64)
    requires
        valid(amount, lower, upper),
    ensures
        numbers_of(partitions_of(amount, lower, upper)) == numbers_between(lower, upper),
{
    let parts = partitions_of(amount, lower, upper);
    let step = step(amount, lower, upper);
    assert forall|value: int| lower <= value <= upper implies numbers_of(parts).contains(
        value,
    ) by {
        let offset = value - lower;
        let quotient = offset / step;
        lemma_partition_bounds(1, amount, lower, upper);
        lemma_fundamental_div_mod(offset, step);
        assert(0 <= quotient) by (nonlinear_arith)
            requires
                offset == step * quotient + offset % step,
                0 <= offset % step < step,
                0 <= offset,
                step >= 1,
        ;
        let index = if quotient < amount - 1 {
            quotient
        } else {
            amount - 1
        };
        lemma_partition_bounds(index + 1, amount, lower, upper);
        assert(step * index <= step * quotient) by (nonlinear_arith)
            requires
                step >= 1,
                index <= quotient,
        ;
        assert(parts[index].contains(value));
    }
    assert forall|value: int| numbers_of(parts).contains(value) implies lower <= value
        <= upper by {
        let index = choose|i: int| 0 <= i < parts.len() && #[trigger] parts[i].contains(value);
        lemma_partition_bounds(index + 1, amount, lower, upper);
    }
    assert(numbers_of(parts) =~= numbers_between(lower, upper));
}

/// Every partition but the last has `step` numbers. The last has those and
/// the remainder of the division besides, so it alone differs in size where
/// the remainder is not zero.
pub proof fn law_remainder_goes_to_last(amount: u64, lower: u64, upper: u64)
    requires
        valid(amount, lower, upper),
    ensures
        forall|i: int|
            #![trigger partitions_of(amount, lower, upper)[i]]
            0 <= i < amount - 1 ==> partitions_of(amount, lower, upper)[i].size() == step(
                amount,
                lower,
                upper,
            ),
        partitions_of(amount, lower, upper).last().size() == step(amount, lower, upper)
            + range_size(lower, upper) % (amount as int),
{
    let parts = partitions_of(amount, lower, upper);
    let step = step(amount, lower, upper);
    assert forall|i: int| 0 <= i < amount - 1 implies (#[trigger] parts[i]).size() == step by {
        lemma_partition_bounds(i + 1, amount, lower, upper);
    }
    lemma_partition_bounds(amount as int, amount, lower, upper);
    lemma_fundamental_div_mod(range_size(lower, upper), amount as int);
    lemma_mul_is_commutative(amount as int, step);
}

} // verus!
