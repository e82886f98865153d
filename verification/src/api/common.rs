use crate::model::partition::Partition;
use crate::model::validation_error::{ValidationError, ValidationErrorKind};
use crate::partitioning::{
    law_partitions_are_disjoint, law_partitions_cover_range, law_remainder_goes_to_last,
    lemma_partition_bounds, numbers_between, numbers_of, partition_at, partition_failure,
    partitions_of, range_size, step, valid, validation_failure,
};
use crate::primality::{
    among_first_eight_primes, divides, lemma_first_eight_are_prime,
    lemma_multiple_of_first_eight_is_not_prime, lemma_no_divisor_below_nineteen,
    lemma_no_divisor_below_two_more, lemma_no_divisor_up_to_root, multiple_of_first_eight_primes,
    no_divisor_below, prime,
};
use vstd::arithmetic::div_mod::lemma_div_is_ordered_by_denominator;
use vstd::prelude::*;

verus! {

/// Checks a request for `amount_of_partitions` partitions of the range from
/// `lower` to `upper`. It returns why the request is turned down, or `None`
/// for one that is accepted.
///
/// A request is turned down for having no partition, for having more
/// partitions than the range has numbers, for a range that starts after its
/// end, and for a range of a single number. Where several of these hold, the
/// one that is named first here is returned.
pub fn validate(amount_of_partitions: u64, lower: u64, upper: u64) -> (result: Option<
    ValidationError,
>)
    ensures
        match result {
            Some(error) => validation_failure(amount_of_partitions, lower, upper) == Some(error@),
            None => validation_failure(amount_of_partitions, lower, upper) is None,
        },
        result is Some <==> (amount_of_partitions == 0 || amount_of_partitions > range_size(
            lower,
            upper,
        ) || lower > upper || lower == upper),
{
    if amount_of_partitions == 0 {
        Some(ValidationError::new(ValidationErrorKind::ZeroThreadsError))
    } else if lower > upper || amount_of_partitions - 1 > upper - lower {
        // a range that starts after its end has no numbers: one partition is too many
        Some(ValidationError::new(ValidationErrorKind::ThreadAmountError))
    } else if lower == upper {
        Some(ValidationError::new(ValidationErrorKind::SearchRangeStartAndEndEqualErrror))
    } else {
        None
    }
}

/// What `break_down_search_range_into_partitions` returns for a request:
/// the partitions of an accepted one, and else the error that `validate`
/// finds.
pub open spec fn is_break_down(
    result: Result<Vec<Partition>, ValidationError>,
    amount: u64,
    lower: u64,
    upper: u64,
) -> bool {
    match result {
        Ok(partitions) => valid(amount, lower, upper) && partitions@ == partitions_of(
            amount,
            lower,
            upper,
        ),
        Err(error) => validation_failure(amount, lower, upper) == Some(error@),
    }
}

/// Two results of `break_down_search_range_into_partitions` for the same
/// request are the same: both hold the same partitions in the same order, or
/// both the same kind of error.
pub proof fn law_break_down_is_deterministic(
    first: Result<Vec<Partition>, ValidationError>,
    second: Result<Vec<Partition>, ValidationError>,
    amount: u64,
    lower: u64,
    upper: u64,
)
    requires
        is_break_down(first, amount, lower, upper),
        is_break_down(second, amount, lower, upper),
    ensures
        match (first, second) {
            (Ok(partitions), Ok(others)) => partitions@ == others@,
            (Err(error), Err(other)) => error@ == other@,
            _ => false,
        },
{
}

/// Splits the range from `lower` to `upper` into `amount_of_partitions`
/// partitions, partition 1 first. A request that `validate` turns down is
/// turned down here with the same error.
///
/// The partitions of an accepted request are as many as were asked for;
/// they come in ascending order, each right after the one before it, so that
/// no number belongs to two of them; together they hold the numbers of the
/// range and no others; and all but the last have the same size, the last
/// taking the remainder.
pub fn break_down_search_range_into_partitions(
    amount_of_partitions: u64,
    lower: u64,
    upper: u64,
) -> (result: Result<Vec<Partition>, ValidationError>)
    ensures
        is_break_down(result, amount_of_partitions, lower, upper),
        result matches Ok(partitions) ==> {
            &&& partitions@.len() == amount_of_partitions
            &&& numbers_of(partitions@) == numbers_between(lower, upper)
            &&& forall|i: int, j: int|
                #![trigger partitions@[i], partitions@[j]]
                0 <= i < j < partitions@.len() ==> partitions@[i].end < partitions@[j].start
            &&& forall|i: int, j: int, value: int|
                #![trigger partitions@[i].contains(value), partitions@[j].contains(value)]
                0 <= i < j < partitions@.len() ==> !(partitions@[i].contains(value)
                    && partitions@[j].contains(value))
            &&& forall|i: int|
                #![trigger partitions@[i]]
                0 <= i < partitions@.len() - 1 ==> partitions@[i].size() == step(
                    amount_of_partitions,
                    lower,
                    upper,
                )
            &&& partitions@.last().size() == step(amount_of_partitions, lower, upper)
                + range_size(lower, upper) % (amount_of_partitions as int)
        },
{
    if let Some(error) = validate(amount_of_partitions, lower, upper) {
        return Err(error);
    }
    let mut partitions: Vec<Partition> = Vec::new();
    let mut partition_nr: u64 = 0;
    while partition_nr < amount_of_partitions
        invariant
            valid(amount_of_partitions, lower, upper),
            partition_nr <= amount_of_partitions,
            partitions@.len() == partition_nr,
            forall|i: int|
                0 <= i < partition_nr ==> partitions@[i] == partition_at(
                    i + 1,
                    amount_of_partitions,
                    lower,
                    upper,
                ),
        decreases amount_of_partitions - partition_nr,
    {
        partition_nr = partition_nr + 1;
        match calculate_partition(partition_nr, amount_of_partitions, lower, upper) {
            Ok(partition) => partitions.push(partition),
            Err(error) => return Err(error),
        }
    }
    proof {
        assert(partitions@ =~= partitions_of(amount_of_partitions, lower, upper));
        law_partitions_cover_range(amount_of_partitions, lower, upper);
        law_partitions_are_disjoint(amount_of_partitions, lower, upper);
        law_remainder_goes_to_last(amount_of_partitions, lower, upper);
    }
    Ok(partitions)
}

/// Computes partition `partition_nr` of the `amount_of_partitions`
/// partitions of the range from `lower` to `upper`. Every partition but the
/// last has as many numbers as the range has, divided by the number of
/// partitions and rounded down; the last one takes what is left.
pub fn calculate_partition(
    partition_nr: u64,
    amount_of_partitions: u64,
    lower: u64,
    upper: u64,
) -> (result: Result<Partition, ValidationError>)
    ensures
        match result {
            Ok(partition) => partition_failure(partition_nr, amount_of_partitions, lower, upper)
                is None && partition == partition_at(
                partition_nr as int,
                amount_of_partitions,
                lower,
                upper,
            ),
            Err(error) => partition_failure(partition_nr, amount_of_partitions, lower, upper)
                == Some(error@),
        },
{
    if partition_nr == 0 || partition_nr > amount_of_partitions {
        return Err(ValidationError::new(ValidationErrorKind::ThreadNumberError));
    }
    if let Some(error) = validate(amount_of_partitions, lower, upper) {
        return Err(error);
    }
    proof {
        lemma_partition_bounds(partition_nr as int, amount_of_partitions, lower, upper);
    }
    let range_size: u128 = (upper - lower) as u128 + 1;
    let step: u128 = range_size / (amount_of_partitions as u128);
    let lower_bound: u128 = step * ((partition_nr - 1) as u128) + 1;
    let upper_bound: u128 = if amount_of_partitions == partition_nr {
        range_size
    } else {
        step * (partition_nr as u128)
    };
    Ok(
        Partition {
            start: (lower as u128 + lower_bound - 1) as u64,
            end: (lower as u128 + upper_bound - 1) as u64,
        },
    )
}

fn is_among_first_eight_primes(n: u64) -> (found: bool)
    ensures
        found == among_first_eight_primes(n as int),
{
    n == 2 || n == 3 || n == 5 || n == 7 || n == 11 || n == 13 || n == 17 || n == 19
}

fn is_multiple_of_first_eight_primes(n: u64) -> (found: bool)
    ensures
        found == multiple_of_first_eight_primes(n as int),
{
    n % 2 == 0 || n % 3 == 0 || n % 5 == 0 || n % 7 == 0 || n % 11 == 0 || n % 13 == 0 || n % 17
        == 0 || n % 19 == 0
}

/// Tells whether `n` is a prime number, by trial division: first by the
/// eight smallest primes, then by the odd numbers from 19 up to the square
/// root of `n`.
pub fn is_prime(n: u64) -> (result: bool)
    ensures
        result == prime(n as int),
{
    if n == 1 {
        return false;
    }
    if is_among_first_eight_primes(n) {
        proof {
            lemma_first_eight_are_prime(n as int);
        }
        return true;
    }
    if is_multiple_of_first_eight_primes(n) {
        proof {
            lemma_multiple_of_first_eight_is_not_prime(n as int);
        }
        return false;
    }
    proof {
        lemma_no_divisor_below_nineteen(n as int);
    }
    let mut candidate: u64 = 19;
    while candidate <= n / candidate
        invariant
            2 <= n,
            19 <= candidate,
            candidate % 2 == 1,
            candidate <= u64::MAX - 2,
            no_divisor_below(n as int, candidate as int),
        decreases n - candidate,
    {
        if n % candidate == 0 {
            assert(divides(candidate as int, n as int));
            assert(candidate < n) by {
                lemma_div_is_ordered_by_denominator(n as int, 2, candidate as int);
            }
            return false;
        }
        proof {
            lemma_no_divisor_below_two_more(n as int, candidate as int);
            lemma_div_is_ordered_by_denominator(n as int, 2, candidate as int);
        }
        candidate = candidate + 2;
    }
    proof {
        lemma_no_divisor_up_to_root(n as int, candidate as int);
    }
    true
}

} // verus!
