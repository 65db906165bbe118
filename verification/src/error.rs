use vstd::prelude::*;

verus! {

/// Error surface of the storage engine.
///
/// `Conflict` is the only transient error: the retry loop catches it and
/// re-enters.  All other variants are terminal and surfaced to the caller.
#[derive(Debug)]
pub enum MaemioError {
    /// A read's prior snapshot has vanished entirely during validation.
    ValidationFailed,
    /// No committed version is visible at the transaction's timestamp.
    NoVisibleVersion,
    /// Optimistic validation detected a conflicting writer.
    Conflict,
    /// The record id is not present in the store.
    RecordNotFound(u64),
    /// The named table is not present.
    TableNotFound(String),
    /// A timestamp was rejected.
    InvalidTimestamp,
    /// A general system error, with a message.
    System(String),
    /// Installing a version would violate a record's structural invariants.
    VersionInstallationFailed,
}

impl MaemioError {
    /// A transient error may be retried by the transaction retry loop;
    /// a terminal one is surfaced to the caller.
    pub fn is_transient(&self) -> (r: bool)
        ensures
            r <==> self is Conflict,
    {
        match self {
            MaemioError::Conflict => true,
            _ => false,
        }
    }
}

} // verus!
