use prime_finder::api::common::is_prime;

#[test]
fn common_lib_zero_is_not_prime() {
    assert_eq!(is_prime(0), false);
}

#[test]
fn common_lib_one_is_not_prime() {
    assert_eq!(is_prime(1), false);
}

#[test]
fn common_lib_true_for_first_eight_primes() {
    let one_and_nine_primes = [2, 3, 5, 7, 11, 13, 17, 19];

    for prime in one_and_nine_primes {
        assert_eq!(is_prime(prime), true);
    }
}

#[test]
fn common_lib_true_for_five_more_primes() {
    let five_more_primes = [23, 29, 31, 37, 41];

    for prime in five_more_primes {
        assert_eq!(is_prime(prime), true);
    }
}

#[test]
fn common_lib_false_for_multiples_of_eight_primes() {
    let first_eight_primes = [2, 3, 5, 7, 11, 13, 17, 19];

    for prime in first_eight_primes {
        assert_eq!(is_prime(prime * prime), false);
    }
}

#[test]
fn finder_lib_zero_is_not_prime() {
    assert_eq!(is_prime(0), false);
}

#[test]
fn finder_lib_one_is_not_prime() {
    assert_eq!(is_prime(1), false);
}

#[test]
fn finder_lib_true_for_first_eight_primes() {
    let one_and_nine_primes = [2, 3, 5, 7, 11, 13, 17, 19];

    for prime in one_and_nine_primes {
        assert_eq!(is_prime(prime), true);
    }
}

#[test]
fn finder_lib_true_for_five_more_primes() {
    let five_more_primes = [23, 29, 31, 37, 41];

    for prime in five_more_primes {
        assert_eq!(is_prime(prime), true);
    }
}

#[test]
fn finder_lib_false_for_multiples_of_eight_primes() {
    let first_eight_primes = [2, 3, 5, 7, 11, 13, 17, 19];

    for prime in first_eight_primes {
        assert_eq!(is_prime(prime * prime), false);
    }
}

#[test]
fn finder_v1_lib_zero_is_not_prime() {
    assert_eq!(is_prime(0), false);
}

#[test]
fn finder_v1_lib_one_is_not_prime() {
    assert_eq!(is_prime(1), false);
}

#[test]
fn finder_v1_lib_true_for_first_eight_primes() {
    let one_and_nine_primes = [2, 3, 5, 7, 11, 13, 17, 19];

    for prime in one_and_nine_primes {
        assert_eq!(is_prime(prime), true);
    }
}

#[test]
fn finder_v1_lib_true_for_five_more_primes() {
    let five_more_primes = [23, 29, 31, 37, 41];

    for prime in five_more_primes {
        assert_eq!(is_prime(prime), true);
    }
}

#[test]
fn finder_v1_lib_false_for_multiples_of_eight_primes() {
    let first_eight_primes = [2, 3, 5, 7, 11, 13, 17, 19];

    for prime in first_eight_primes {
        assert_eq!(is_prime(prime * prime), false);
    }
}

#[test]
fn lib_lib_zero_is_not_prime() {
    assert_eq!(is_prime(0), false);
}

#[test]
fn lib_lib_one_is_not_prime() {
    assert_eq!(is_prime(1), false);
}

#[test]
fn lib_lib_true_for_first_eight_primes() {
    let one_and_nine_primes = [2, 3, 5, 7, 11, 13, 17, 19];

    for prime in one_and_nine_primes {
        assert_eq!(is_prime(prime), true);
    }
}

#[test]
fn lib_lib_true_for_five_more_primes() {
    let five_more_primes = [23, 29, 31, 37, 41];

    for prime in five_more_primes {
        assert_eq!(is_prime(prime), true);
    }
}

#[test]
fn lib_lib_false_for_multiples_of_eight_primes() {
    let first_eight_primes = [2, 3, 5, 7, 11, 13, 17, 19];

    for prime in first_eight_primes {
        assert_eq!(is_prime(prime * prime), false);
    }
}

#[test]
fn composites_without_small_factor_are_not_prime() {
    // 23 * 23, 23 * 29, 29 * 31, 37 * 41
    for composite in [529u64, 667, 899, 1517] {
        assert_eq!(is_prime(composite), false);
    }
}

#[test]
fn square_of_a_large_prime_is_not_prime() {
    assert_eq!(is_prime(1_000_003), true);
    assert_eq!(is_prime(1_000_003 * 1_000_003), false);
}

#[test]
fn large_primes_are_prime() {
    assert_eq!(is_prime(999_999_937), true);
    assert_eq!(is_prime(1_000_000_007), true);
    assert_eq!(is_prime(2_147_483_647), true);
}

#[test]
fn primes_below_one_hundred() {
    let primes: Vec<u64> = (0..100u64).filter(|n| is_prime(*n)).collect();
    assert_eq!(
        primes,
        vec![
            2, 3, 5, 7, 11, 13, 17, 19, 23, 29, 31, 37, 41, 43, 47, 53, 59, 61, 67, 71, 73, 79,
            83, 89, 97
        ]
    );
}

#[test]
fn three_hundred_sixty_one_is_not_prime() {
    // the first candidate of the trial division is its square root
    assert_eq!(is_prime(361), false);
    assert_eq!(is_prime(359), true);
    assert_eq!(is_prime(367), true);
}
