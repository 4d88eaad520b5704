use vstd::prelude::*;

verus! {

/// Failures of the storage layer.
#[derive(Clone, Debug, PartialEq, Eq)]
pub enum StdError {
    /// No record is stored under the requested key.
    NotFound { kind: String },
    /// The token counter cannot grow any further.
    Overflow {},
}

#[derive(Clone, Debug, PartialEq, Eq)]
pub enum ContractError {
    Std(StdError),
    Unauthorized {},
    Claimed {},
    Expired {},
    SourceNotFound(String),
}

} // verus!
