//! What can go wrong.
use crate::text::concat;
use vstd::prelude::*;

verus! {

/// What went wrong.
#[derive(Debug)]
pub enum EngramError {
    /// No engram has this identifier.
    NotFound(String),
    /// The request makes no sense.
    Validation(String),
    /// The database did not do what it was asked, or holds what it should not.
    Database(String),
}

/// What went wrong, as seen in contracts.
#[verifier::ext_equal]
pub enum ErrorView {
    NotFound(Seq<char>),
    Validation(Seq<char>),
    Database(Seq<char>),
}

impl View for EngramError {
    type V = ErrorView;

    open spec fn view(&self) -> ErrorView {
        match self {
            EngramError::NotFound(s) => ErrorView::NotFound(s@),
            EngramError::Validation(s) => ErrorView::Validation(s@),
            EngramError::Database(s) => ErrorView::Database(s@),
        }
    }
}

impl EngramError {
    /// The message.
    pub fn message(&self) -> (r: String)
        ensures
            r@ == match self@ {
                ErrorView::NotFound(s) => "engram not found: "@ + s,
                ErrorView::Validation(s) => "validation error: "@ + s,
                ErrorView::Database(s) => "database error: "@ + s,
            },
    {
        match self {
            EngramError::NotFound(s) => concat("engram not found: ", s.as_str()),
            EngramError::Validation(s) => concat("validation error: ", s.as_str()),
            EngramError::Database(s) => concat("database error: ", s.as_str()),
        }
    }
}

/// What is said of an error is said of its kind and of its text.
pub proof fn law_error_is_seen_as_it_is(s: String)
    ensures
        EngramError::NotFound(s)@ == ErrorView::NotFound(s@),
        EngramError::Validation(s)@ == ErrorView::Validation(s@),
        EngramError::Database(s)@ == ErrorView::Database(s@),
{
}

} // verus!
