//! The failures that the library reports.

use vstd::prelude::*;
use vstd::string::*;

verus! {

/// A failure of the library. Each variant carries the text that describes
/// the failure.
#[derive(Clone, Debug, PartialEq, Eq)]
pub enum Error {
    /// The linear-time regular-expression engine refuses the search text.
    Regex(String),
    /// The backtracking regular-expression engine refuses the search text.
    AdvancedRegex(String),
    /// A glob was refused.
    Glob(String),
    /// The configuration is invalid; the text lists every fault found.
    Validation(String),
}

/// A failure as a value.
pub enum ErrorView {
    Regex(Seq<char>),
    AdvancedRegex(Seq<char>),
    Glob(Seq<char>),
    Validation(Seq<char>),
}

impl View for Error {
    type V = ErrorView;

    open spec fn view(&self) -> ErrorView {
        match self {
            Error::Regex(text) => ErrorView::Regex(text@),
            Error::AdvancedRegex(text) => ErrorView::AdvancedRegex(text@),
            Error::Glob(text) => ErrorView::Glob(text@),
            Error::Validation(text) => ErrorView::Validation(text@),
        }
    }
}

impl ErrorView {
    /// The text that describes the failure.
    pub open spec fn message(self) -> Seq<char> {
        match self {
            ErrorView::Regex(text) => text,
            ErrorView::AdvancedRegex(text) => text,
            ErrorView::Glob(text) => text,
            ErrorView::Validation(text) => text,
        }
    }
}

impl Error {
    /// The text that describes the failure.
    pub fn message(&self) -> (text: String)
        ensures
            text@ == self@.message(),
    {
        match self {
            Error::Regex(text) => text.clone(),
            Error::AdvancedRegex(text) => text.clone(),
            Error::Glob(text) => text.clone(),
            Error::Validation(text) => text.clone(),
        }
    }
}

} // verus!
