//! The error categories of a fetch from a balance source.

use vstd::prelude::*;

verus! {

/// Why a source could not be read.
#[derive(Debug, PartialEq, Eq)]
pub enum FetchError {
    /// Transport, timeout or decoding failure, with a short reason.
    Network(String),
    /// A required target was not resolvable; names the missing field.
    InvalidConfig(String),
    /// A response arrived but did not have the expected shape.
    InvalidResponse,
}

/// Mathematical value of a [`FetchError`].
pub enum FetchErrorView {
    Network(Seq<char>),
    InvalidConfig(Seq<char>),
    InvalidResponse,
}

impl View for FetchError {
    type V = FetchErrorView;

    open spec fn view(&self) -> FetchErrorView {
        match self {
            FetchError::Network(reason) => FetchErrorView::Network(reason@),
            FetchError::InvalidConfig(field) => FetchErrorView::InvalidConfig(field@),
            FetchError::InvalidResponse => FetchErrorView::InvalidResponse,
        }
    }
}

/// The text shown for an error: its category, then the diagnostic.
pub open spec fn message_text(e: FetchErrorView) -> Seq<char> {
    match e {
        FetchErrorView::Network(reason) => "network error: "@ + reason,
        FetchErrorView::InvalidConfig(field) => "invalid config: "@ + field,
        FetchErrorView::InvalidResponse => "invalid response"@,
    }
}

impl FetchError {
    /// A transport failure with the given reason.
    pub fn network(reason: &str) -> (e: FetchError)
        ensures
            e@ == FetchErrorView::Network(reason@),
    {
        FetchError::Network(String::from_str(reason))
    }

    /// The failure reported for a call that did not answer in time.
    pub fn timeout() -> (e: FetchError)
        ensures
            e@ == FetchErrorView::Network("timeout"@),
    {
        FetchError::Network(String::from_str("timeout"))
    }

    /// A missing configuration target.
    pub fn invalid_config(field: &str) -> (e: FetchError)
        ensures
            e@ == FetchErrorView::InvalidConfig(field@),
    {
        FetchError::InvalidConfig(String::from_str(field))
    }

    /// The user-visible text of this error.
    pub fn message(&self) -> (s: String)
        ensures
            s@ == message_text(self@),
    {
        match self {
            FetchError::Network(reason) => String::from_str("network error: ").concat(
                reason.as_str(),
            ),
            FetchError::InvalidConfig(field) => String::from_str("invalid config: ").concat(
                field.as_str(),
            ),
            FetchError::InvalidResponse => String::from_str("invalid response"),
        }
    }

}

impl Clone for FetchError {
    fn clone(&self) -> (e: Self)
        ensures
            e@ == self@,
    {
        match self {
            FetchError::Network(reason) => FetchError::Network(reason.clone()),
            FetchError::InvalidConfig(field) => FetchError::InvalidConfig(field.clone()),
            FetchError::InvalidResponse => FetchError::InvalidResponse,
        }
    }
}

} // verus!
