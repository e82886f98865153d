use prime_finder::api::common::validate;
use prime_finder::model::validation_error::{ValidationError, ValidationErrorKind};

fn failure(amount: u64, lower: u64, upper: u64) -> Option<ValidationErrorKind> {
    validate(amount, lower, upper).map(|error| *error.kind())
}

#[test]
fn zero_partitions_are_rejected_for_any_range() {
    for (lower, upper) in [(1u64, 100u64), (5, 5), (9, 3), (0, u64::MAX)] {
        assert_eq!(
            failure(0, lower, upper),
            Some(ValidationErrorKind::ZeroThreadsError)
        );
    }
}

#[test]
fn single_number_range_is_rejected() {
    assert_eq!(
        failure(1, 5, 5),
        Some(ValidationErrorKind::SearchRangeStartAndEndEqualErrror)
    );
}

#[test]
fn number_of_partitions_is_checked_before_the_bounds() {
    // one number, two partitions
    assert_eq!(failure(2, 5, 5), Some(ValidationErrorKind::ThreadAmountError));
    // no number at all
    assert_eq!(failure(1, 9, 3), Some(ValidationErrorKind::ThreadAmountError));
    assert_eq!(
        failure(u64::MAX, u64::MAX, 0),
        Some(ValidationErrorKind::ThreadAmountError)
    );
}

#[test]
fn more_partitions_than_numbers_are_rejected() {
    assert_eq!(failure(11, 1, 10), Some(ValidationErrorKind::ThreadAmountError));
    assert_eq!(failure(3, 0, 1), Some(ValidationErrorKind::ThreadAmountError));
}

#[test]
fn as_many_partitions_as_numbers_are_accepted() {
    assert_eq!(failure(10, 1, 10), None);
    assert_eq!(failure(2, 0, 1), None);
}

#[test]
fn ordinary_requests_are_accepted() {
    assert_eq!(failure(1, 1, 100), None);
    assert_eq!(failure(2, 1, 100), None);
    assert_eq!(failure(3, 1_000_000_100_000, 1_000_000_100_030), None);
    assert_eq!(failure(u64::MAX, 0, u64::MAX), None);
    assert_eq!(failure(1, u64::MAX - 1, u64::MAX), None);
}

#[test]
fn error_keeps_its_kind() {
    let error = ValidationError::new(ValidationErrorKind::ThreadPanicError);
    assert_eq!(error.kind(), &ValidationErrorKind::ThreadPanicError);
}

#[test]
fn every_kind_has_its_message() {
    let expected = [
        (
            ValidationErrorKind::SearchRangeStartAndEndEqualErrror,
            "search range start and end can not be equal",
        ),
        (
            ValidationErrorKind::SearchRangeStartErrror,
            "search range start must be smaller than search range end",
        ),
        (ValidationErrorKind::ThreadPanicError, "thread paniced"),
        (
            ValidationErrorKind::ZeroThreadsError,
            "there must be at least one thread",
        ),
        (
            ValidationErrorKind::ThreadNumberError,
            "thread number must be smaller than thread amount",
        ),
        (
            ValidationErrorKind::ThreadAmountError,
            "total number of threads must be smaller than highest number",
        ),
    ];
    for (kind, text) in expected {
        assert_eq!(ValidationError::new(kind).message(), text);
    }
}
