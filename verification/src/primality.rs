//! What it means for a number to be prime, and the facts about divisors that
//! trial division rests on.

use vstd::arithmetic::div_mod::{
    lemma_div_is_ordered_by_denominator, lemma_fundamental_div_mod, lemma_mod_multiples_basic,
};
use vstd::arithmetic::mul::{lemma_mul_is_associative, lemma_mul_is_commutative};
use vstd::prelude::*;

verus! {

/// `d` is a positive number that `n` is a multiple of.
pub open spec fn divides(d: int, n: int) -> bool {
    0 < d && n % d == 0
}

/// `n` is at least 2 and no number from 2 up to `n - 1` divides it.
pub open spec fn prime(n: int) -> bool {
    2 <= n && forall|d: int| 2 <= d < n ==> !#[trigger] divides(d, n)
}

/// No number from 2 up to `bound - 1` divides `n`.
pub open spec fn no_divisor_below(n: int, bound: int) -> bool {
    forall|d: int| 2 <= d < bound ==> !#[trigger] divides(d, n)
}

/// `n` is one of 2, 3, 5, 7, 11, 13, 17, 19.
pub open spec fn among_first_eight_primes(n: int) -> bool {
    n == 2 || n == 3 || n == 5 || n == 7 || n == 11 || n == 13 || n == 17 || n == 19
}

/// One of 2, 3, 5, 7, 11, 13, 17, 19 divides `n`.
pub open spec fn multiple_of_first_eight_primes(n: int) -> bool {
    divides(2, n) || divides(3, n) || divides(5, n) || divides(7, n) || divides(11, n)
        || divides(13, n) || divides(17, n) || divides(19, n)
}

/// A divisor of a divisor of `n` divides `n`.
pub proof fn lemma_divides_is_transitive(p: int, a: int, n: int)
    requires
        divides(p, a),
        divides(a, n),
    ensures
        divides(p, n),
{
    lemma_fundamental_div_mod(a, p);
    lemma_fundamental_div_mod(n, a);
    let s = a / p;
    let t = n / a;
    assert(n == (p * s) * t);
    lemma_mul_is_associative(p, s, t);
    lemma_mul_is_commutative(p, s * t);
    lemma_mod_multiples_basic(s * t, p);
}

/// A divisor `d` of `n` below `n` has a partner `n / d`, which divides `n`
/// too and is at least 2.
pub proof fn lemma_partner_divides(d: int, n: int)
    requires
        2 <= d < n,
        divides(d, n),
    ensures
        2 <= n / d,
        divides(n / d, n),
        d * (n / d) == n,
{
    lemma_fundamental_div_mod(n, d);
    let q = n / d;
    assert(d * q == n);
    if q <= 1 {
        assert(d * q <= d) by (nonlinear_arith)
            requires
                q <= 1,
                d >= 2,
        ;
    }
    lemma_mul_is_commutative(d, q);
    lemma_mod_multiples_basic(d, q);
}

/// The eight numbers that trial division starts from are prime.
pub proof fn lemma_first_eight_are_prime(n: int)
    requires
        among_first_eight_primes(n),
    ensures
        prime(n),
{
    assert forall|d: int| 2 <= d < n implies !#[trigger] divides(d, n) by {
        if d == 2 {
        } else if d == 3 {
        } else if d == 4 {
        } else if d == 5 {
        } else if d == 6 {
        } else if d == 7 {
        } else if d == 8 {
        } else if d == 9 {
        } else if d == 10 {
        } else if d == 11 {
        } else if d == 12 {
        } else if d == 13 {
        } else if d == 14 {
        } else if d == 15 {
        } else if d == 16 {
        } else if d == 17 {
        } else {
            assert(d == 18);
        }
    }
}

/// A number with one of the eight as a divisor, and not itself one of them,
/// is not prime.
pub proof fn lemma_multiple_of_first_eight_is_not_prime(n: int)
    requires
        multiple_of_first_eight_primes(n),
        !among_first_eight_primes(n),
    ensures
        !prime(n),
{
    if 2 <= n {
        let p: int = if divides(2, n) {
            2
        } else if divides(3, n) {
            3
        } else if divides(5, n) {
            5
        } else if divides(7, n) {
            7
        } else if divides(11, n) {
            11
        } else if divides(13, n) {
            13
        } else if divides(17, n) {
            17
        } else {
            19
        };
        assert(divides(p, n));
        assert(p < n) by {
            if n < p {
                assert(n % p == n);
            }
        }
    }
}

/// Where none of the eight divides `n`, no number from 2 to 18 does.
pub proof fn lemma_no_divisor_below_nineteen(n: int)
    requires
        !multiple_of_first_eight_primes(n),
    ensures
        no_divisor_below(n, 19),
{
    assert forall|d: int| 2 <= d < 19 implies !#[trigger] divides(d, n) by {
        if divides(d, n) {
            if d % 2 == 0 {
                lemma_divides_is_transitive(2, d, n);
            } else if d % 3 == 0 {
                lemma_divides_is_transitive(3, d, n);
            }
        }
    }
}

/// Trial division may skip an even candidate: where neither 2 nor the odd
/// `d` divides `n`, `d + 1` does not either.
pub proof fn lemma_no_divisor_below_two_more(n: int, d: int)
    requires
        3 <= d,
        d % 2 == 1,
        no_divisor_below(n, d),
        !divides(d, n),
    ensures
        no_divisor_below(n, d + 2),
{
    assert forall|k: int| 2 <= k < d + 2 implies !#[trigger] divides(k, n) by {
        if k == d + 1 && divides(k, n) {
            lemma_divides_is_transitive(2, k, n);
            assert(divides(2, n));
        }
    }
}

/// Trial division may stop at the square root: where nothing below `d`
/// divides `n` and `d` is above `n / d`, `n` is prime.
pub proof fn lemma_no_divisor_up_to_root(n: int, d: int)
    requires
        2 <= n,
        2 <= d,
        n / d < d,
        no_divisor_below(n, d),
    ensures
        prime(n),
{
    assert forall|k: int| 2 <= k < n implies !#[trigger] divides(k, n) by {
        if divides(k, n) && d <= k {
            lemma_partner_divides(k, n);
            lemma_div_is_ordered_by_denominator(n, d, k);
            assert(!divides(n / k, n));
        }
    }
}

} // verus!
