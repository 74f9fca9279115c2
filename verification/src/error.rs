//! Error taxonomy of the pipeline.
use vstd::prelude::*;

verus! {

/// Errors the pipeline distinguishes.
///
/// `MalformedIdentifier` is recoverable (the dictionary loader skips the
/// entry); `MissingIdentifierField` aborts the ingestion of the current
/// record (it indicates upstream schema drift); `SourceUnavailable` and
/// `StoreError` report collaborator failures (fetch/archive/document and
/// relational store) and abort the run.
#[derive(Clone, Copy, Debug, PartialEq, Eq, Structural)]
pub enum CpeError {
    MalformedIdentifier,
    MissingIdentifierField,
    SourceUnavailable,
    StoreError,
}

impl CpeError {
    /// A short human-readable description of the error.
    pub fn message(&self) -> (r: &'static str)
        ensures
            r@ == match self {
                CpeError::MalformedIdentifier => "malformed identifier"@,
                CpeError::MissingIdentifierField => "missing identifier field"@,
                CpeError::SourceUnavailable => "source unavailable"@,
                CpeError::StoreError => "store error"@,
            },
    {
        match self {
            CpeError::MalformedIdentifier => "malformed identifier",
            CpeError::MissingIdentifierField => "missing identifier field",
            CpeError::SourceUnavailable => "source unavailable",
            CpeError::StoreError => "store error",
        }
    }
}

} // verus!
