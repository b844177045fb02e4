use vstd::prelude::*;

verus! {

/// Every way in which an operation of the engine can fail. Each kind is
/// distinct so that a client can tell, say, "nothing to withdraw yet" from
/// "not authorized".
#[derive(Clone, Copy, Debug, PartialEq, Eq, Structural)]
pub enum Error {
    AlreadyInitialized,
    InvalidTimeRange,
    InvalidAmount,
    StreamNotFound,
    Unauthorized,
    AlreadyCancelled,
    InsufficientBalance,
    ProposalNotFound,
    ProposalExpired,
    AlreadyApproved,
    ProposalAlreadyExecuted,
    InvalidApprovalThreshold,
    NotReceiptOwner,
    StreamPaused,
    Reentrant,
    NotInitialized,
    InvalidFee,
    InvalidStrategy,
    ContractPaused,
    Overflow,
}

} // verus!
