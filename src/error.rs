use vstd::prelude::*;

verus! {

/// Error kinds reported by the stream and subscription engines.
#[derive(Clone, Copy, Debug, PartialEq, Eq, Structural)]
pub enum Error {
    AlreadyInitialized,
    InvalidParameters,
    ContractInsufficientBalance,
    StreamNotFound,
    StreamInactive,
    NothingToWithdraw,
    SubscriptionNotFound,
    SubscriptionInactive,
    NotDueYet,
    InsufficientContractBalance,
    NotInitialized,
}

} // verus!
