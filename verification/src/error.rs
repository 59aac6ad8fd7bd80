//! The errors of the store.

use crate::crypto::{CryptoError, CryptoErrorView};
use crate::domain::{DomainError, DomainErrorView};
use vstd::prelude::*;
use vstd::std_specs::convert::FromSpecImpl;

verus! {

/// Why the store refuses a request or cannot be read.
#[derive(Debug)]
pub enum StoreError {
    Domain(DomainError),
    Crypto(CryptoError),
    Sql(String),
    DataDir,
    InvalidTimestamp(String),
    InvalidId(String),
    InvalidSyncPayload(String),
}

/// `StoreError` with its texts as character sequences.
pub enum StoreErrorView {
    Domain(DomainErrorView),
    Crypto(CryptoErrorView),
    Sql(Seq<char>),
    DataDir,
    InvalidTimestamp(Seq<char>),
    InvalidId(Seq<char>),
    InvalidSyncPayload(Seq<char>),
}

impl View for StoreError {
    type V = StoreErrorView;

    open spec fn view(&self) -> StoreErrorView {
        match *self {
            StoreError::Domain(error) => StoreErrorView::Domain(error@),
            StoreError::Crypto(error) => StoreErrorView::Crypto(error@),
            StoreError::Sql(detail) => StoreErrorView::Sql(detail@),
            StoreError::DataDir => StoreErrorView::DataDir,
            StoreError::InvalidTimestamp(text) => StoreErrorView::InvalidTimestamp(text@),
            StoreError::InvalidId(text) => StoreErrorView::InvalidId(text@),
            StoreError::InvalidSyncPayload(detail) => StoreErrorView::InvalidSyncPayload(detail@),
        }
    }
}

impl StoreErrorView {
    /// What the user reads.
    pub open spec fn message(self) -> Seq<char> {
        match self {
            StoreErrorView::Domain(error) => error.message(),
            StoreErrorView::Crypto(error) => error.message(),
            StoreErrorView::Sql(detail) => "database error: "@ + detail,
            StoreErrorView::DataDir => "could not resolve envctl data directory"@,
            StoreErrorView::InvalidTimestamp(text) => "invalid timestamp in database: "@ + text,
            StoreErrorView::InvalidId(text) => "invalid id in database: "@ + text,
            StoreErrorView::InvalidSyncPayload(detail) => "invalid sync payload: "@ + detail,
        }
    }
}

impl StoreError {
    /// What the user reads.
    pub fn message(&self) -> (r: String)
        ensures
            r@ == self@.message(),
    {
        match self {
            StoreError::Domain(error) => error.message(),
            StoreError::Crypto(error) => error.message(),
            StoreError::Sql(detail) => "database error: ".to_owned().concat(detail.as_str()),
            StoreError::DataDir => "could not resolve envctl data directory".to_owned(),
            StoreError::InvalidTimestamp(text) => "invalid timestamp in database: ".to_owned().concat(
                text.as_str(),
            ),
            StoreError::InvalidId(text) => "invalid id in database: ".to_owned().concat(
                text.as_str(),
            ),
            StoreError::InvalidSyncPayload(detail) => "invalid sync payload: ".to_owned().concat(
                detail.as_str(),
            ),
        }
    }
}

impl From<DomainError> for StoreError {
    fn from(error: DomainError) -> (r: StoreError) {
        StoreError::Domain(error)
    }
}

impl FromSpecImpl<DomainError> for StoreError {
    open spec fn obeys_from_spec() -> bool {
        true
    }

    open spec fn from_spec(error: DomainError) -> StoreError {
        StoreError::Domain(error)
    }
}

impl From<CryptoError> for StoreError {
    fn from(error: CryptoError) -> (r: StoreError) {
        StoreError::Crypto(error)
    }
}

impl FromSpecImpl<CryptoError> for StoreError {
    open spec fn obeys_from_spec() -> bool {
        true
    }

    open spec fn from_spec(error: CryptoError) -> StoreError {
        StoreError::Crypto(error)
    }
}

} // verus!
