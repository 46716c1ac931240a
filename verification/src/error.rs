//! The failures of the engine.

use vstd::prelude::*;
use vstd::string::*;

verus! {

/// Why the engine refused or could not complete an operation.
#[derive(Debug, PartialEq, Eq)]
pub enum LedgerError {
    /// The store cannot take the write: the balance would leave the range
    /// of amounts that the store can hold.
    StorageFault,
    /// A required configuration key is absent; the key is carried along.
    ConfigMissing(String),
    /// An amount that is not positive, or text that is not an amount.
    InvalidAmount,
    /// The expense would take the balance below the overdraft limit.
    OverLimit,
    /// No recurring income is recorded for the current month or any month
    /// before it, so walking back through the months would never end.
    SetupIncomplete,
}

/// A failure as mathematics sees it: the key of a missing configuration
/// value is a sequence of characters.
pub enum Failure {
    StorageFault,
    ConfigMissing(Seq<char>),
    InvalidAmount,
    OverLimit,
    SetupIncomplete,
}

impl View for LedgerError {
    type V = Failure;

    open spec fn view(&self) -> Failure {
        match self {
            LedgerError::StorageFault => Failure::StorageFault,
            LedgerError::ConfigMissing(key) => Failure::ConfigMissing(key@),
            LedgerError::InvalidAmount => Failure::InvalidAmount,
            LedgerError::OverLimit => Failure::OverLimit,
            LedgerError::SetupIncomplete => Failure::SetupIncomplete,
        }
    }
}

impl Clone for LedgerError {
    fn clone(&self) -> (copy: LedgerError)
        ensures
            copy@ == self@,
    {
        match self {
            LedgerError::StorageFault => LedgerError::StorageFault,
            LedgerError::ConfigMissing(key) => LedgerError::ConfigMissing(key.clone()),
            LedgerError::InvalidAmount => LedgerError::InvalidAmount,
            LedgerError::OverLimit => LedgerError::OverLimit,
            LedgerError::SetupIncomplete => LedgerError::SetupIncomplete,
        }
    }
}

/// The failure in an answer of the engine, if the answer is one.
pub open spec fn failure_of<T>(outcome: Result<T, LedgerError>) -> Option<Failure> {
    match outcome {
        Ok(_) => None,
        Err(e) => Some(e@),
    }
}

} // verus!
