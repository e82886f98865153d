use vstd::prelude::*;

verus! {

/// Why a search was turned down, or why it did not finish.
#[derive(Debug, Clone, Copy, PartialEq, Eq, Structural)]
pub enum ValidationErrorKind {
    /// The search range has only one number: start and end are equal.
    SearchRangeStartAndEndEqualErrror,
    /// The search range starts after its end.
    SearchRangeStartErrror,
    /// A worker did not run to its end.
    ThreadPanicError,
    /// No partition was asked for.
    ZeroThreadsError,
    /// A partition number lies outside `1..=partitions`.
    ThreadNumberError,
    /// More partitions were asked for than the range has numbers.
    ThreadAmountError,
}

/// The text that is shown for each kind of error.
pub open spec fn message_text(kind: ValidationErrorKind) -> Seq<char> {
    match kind {
        ValidationErrorKind::SearchRangeStartAndEndEqualErrror => {
            "search range start and end can not be equal"@
        },
        ValidationErrorKind::SearchRangeStartErrror => {
            "search range start must be smaller than search range end"@
        },
        ValidationErrorKind::ThreadPanicError => "thread paniced"@,
        ValidationErrorKind::ZeroThreadsError => "there must be at least one thread"@,
        ValidationErrorKind::ThreadNumberError => {
            "thread number must be smaller than thread amount"@
        },
        ValidationErrorKind::ThreadAmountError => {
            "total number of threads must be smaller than highest number"@
        },
    }
}

/// An error of the search. Its view is its kind.
#[derive(Debug, Clone, Copy, PartialEq, Eq, Structural)]
pub struct ValidationError {
    kind: ValidationErrorKind,
}

impl View for ValidationError {
    type V = ValidationErrorKind;

    closed spec fn view(&self) -> ValidationErrorKind {
        self.kind
    }
}

impl ValidationError {
    pub fn new(kind: ValidationErrorKind) -> (error: ValidationError)
        ensures
            error@ == kind,
    {
        ValidationError { kind }
    }

    pub fn kind(&self) -> (kind: &ValidationErrorKind)
        ensures
            *kind == self@,
    {
        &self.kind
    }

    /// The message for a reader, as `message_text` gives it for the kind.
    pub fn message(&self) -> (text: String)
        ensures
            text@ == message_text(self@),
    {
        match self.kind {
            ValidationErrorKind::SearchRangeStartAndEndEqualErrror => {
                "search range start and end can not be equal".to_owned()
            },
            ValidationErrorKind::SearchRangeStartErrror => {
                "search range start must be smaller than search range end".to_owned()
            },
            ValidationErrorKind::ThreadPanicError => "thread paniced".to_owned(),
            ValidationErrorKind::ZeroThreadsError => "there must be at least one thread".to_owned(),
            ValidationErrorKind::ThreadNumberError => {
                "thread number must be smaller than thread amount".to_owned()
            },
            ValidationErrorKind::ThreadAmountError => {
                "total number of threads must be smaller than highest number".to_owned()
            },
        }
    }
}

} // verus!
