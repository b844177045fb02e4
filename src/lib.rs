//! A payment-streaming and settlement engine: funds locked by a sender unlock
//! to a receiver over time, behind an optional cliff, with multi-party
//! approval, pausing, cancellation and yield distribution.
//!
//! Everything here is plain state and arithmetic. The host (ledger clock,
//! authorization, token transfers, storage) stays outside: operations take the
//! current time and the already-authenticated caller as arguments, and record
//! the token movements they decide in an outbox.

pub mod errors;
pub mod math;
pub mod types;
pub mod interest;
pub mod contract;

pub use contract::{Config, StellarStreamContract};
pub use errors::Error;
pub use math::{
    calculate_unlocked, calculate_unlocked_amount, calculate_withdrawable,
    calculate_withdrawable_amount,
};
pub use types::{
    Address, Holder, InterestDistribution, MetadataRef, ReceiptMetadata, Stream, StreamProposal, StreamReceipt,
    StreamRequest, Transfer,
};
