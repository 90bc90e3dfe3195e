//! The errors that the runtime reports.

use vstd::prelude::*;

verus! {

/// What went wrong, with the message shown to the user.
#[derive(Debug, Clone, PartialEq, Eq)]
pub enum BitFunError {
    /// The input or the state of the workspace is not acceptable.
    Validation(String),
    /// A file, directory or command failed.
    Io(String),
}

pub type BitFunResult<T> = Result<T, BitFunError>;

/// The kind and the message of a [`BitFunError`].
pub enum ErrorView {
    Validation(Seq<char>),
    Io(Seq<char>),
}

impl View for BitFunError {
    type V = ErrorView;

    open spec fn view(&self) -> ErrorView {
        match self {
            BitFunError::Validation(message) => ErrorView::Validation(message@),
            BitFunError::Io(message) => ErrorView::Io(message@),
        }
    }
}

impl BitFunError {
    /// The message without the kind.
    pub fn message(&self) -> (message: &str)
        ensures
            message@ == self@.message(),
    {
        match self {
            BitFunError::Validation(message) => message.as_str(),
            BitFunError::Io(message) => message.as_str(),
        }
    }
}

impl ErrorView {
    /// The message without the kind.
    pub open spec fn message(self) -> Seq<char> {
        match self {
            ErrorView::Validation(message) => message,
            ErrorView::Io(message) => message,
        }
    }

    /// The error that a result holds, if it holds one.
    pub open spec fn of<T>(result: BitFunResult<T>) -> Option<ErrorView> {
        match result {
            Ok(_) => None,
            Err(error) => Some(error@),
        }
    }

    /// The first error in a sequence of checks.
    pub open spec fn first(checks: Seq<Option<ErrorView>>) -> Option<ErrorView>
        decreases checks.len(),
    {
        if checks.len() == 0 {
            None
        } else {
            match Self::first(checks.drop_last()) {
                Some(error) => Some(error),
                None => checks.last(),
            }
        }
    }
}

/// There is no first error exactly when every check passes.
pub proof fn lemma_first_error_none(checks: Seq<Option<ErrorView>>)
    ensures
        ErrorView::first(checks) is None <==> forall|i: int|
            0 <= i < checks.len() ==> (#[trigger] checks[i]) is None,
    decreases checks.len(),
{
    if checks.len() > 0 {
        let rest = checks.drop_last();
        lemma_first_error_none(rest);
        if ErrorView::first(checks) is None {
            assert forall|i: int| 0 <= i < checks.len() implies (#[trigger] checks[i]) is None by {
                if i < rest.len() {
                    assert(rest[i] == checks[i]);
                }
            }
        } else if ErrorView::first(rest) is Some {
            let i = choose|i: int| 0 <= i < rest.len() && (#[trigger] rest[i]) is Some;
            assert(checks[i] is Some);
        } else {
            assert(checks[checks.len() - 1] is Some);
        }
    }
}

/// The first error is that of the earliest check that fails.
pub proof fn lemma_first_error_at(checks: Seq<Option<ErrorView>>, index: int)
    requires
        0 <= index < checks.len(),
        checks[index] is Some,
        forall|i: int| 0 <= i < index ==> (#[trigger] checks[i]) is None,
    ensures
        ErrorView::first(checks) == checks[index],
    decreases checks.len(),
{
    let rest = checks.drop_last();
    if index == checks.len() - 1 {
        lemma_first_error_none(rest);
        assert forall|i: int| 0 <= i < rest.len() implies (#[trigger] rest[i]) is None by {
            assert(checks[i] is None);
        }
    } else {
        lemma_first_error_at(rest, index);
    }
}

} // verus!
