//! The records the engine keeps and hands out.
use vstd::prelude::*;

verus! {

/// Interest strategy bit: the sender shares in the vault's yield.
pub const INTEREST_TO_SENDER: u32 = 0b001;

/// Interest strategy bit: the receiver shares in the vault's yield.
pub const INTEREST_TO_RECEIVER: u32 = 0b010;

/// Interest strategy bit: the protocol shares in the vault's yield.
pub const INTEREST_TO_PROTOCOL: u32 = 0b100;

/// Sender and receiver share the yield half and half.
pub const INTEREST_SPLIT_SENDER_RECEIVER: u32 = 0b011;

/// Sender, receiver and protocol share the yield in thirds.
pub const INTEREST_SPLIT_ALL: u32 = 0b111;

/// The largest valid strategy: all three bits set.
pub const MAX_STRATEGY: u32 = 0b111;

/// The identity of an account or a contract on the ledger: which of the two
/// it is, and its 32-byte public key or contract hash, read big-endian as
/// two 128-bit halves.
#[derive(Clone, Copy, Debug, PartialEq, Eq, Structural)]
pub struct Address {
    pub is_contract: bool,
    pub high: u128,
    pub low: u128,
}

/// A fixed-size (32-byte) off-chain reference attached to a stream, read
/// big-endian as two 128-bit halves.
#[derive(Clone, Copy, Debug, PartialEq, Eq, Structural)]
pub struct MetadataRef {
    pub high: u128,
    pub low: u128,
}

/// Who holds funds that move: the engine's own custody, or an account
/// (a party, a vault, the treasury).
#[derive(Clone, Copy, Debug, PartialEq, Eq, Structural)]
pub enum Holder {
    Custody,
    Account(Address),
}

/// A token movement that an operation has decided on. The host carries it out.
#[derive(Clone, Copy, Debug, PartialEq, Eq, Structural)]
pub struct Transfer {
    pub token: Address,
    pub from: Holder,
    pub to: Holder,
    pub amount: i128,
}

/// A single vesting arrangement.
#[derive(Clone, Copy, Debug, PartialEq, Eq, Structural)]
pub struct Stream {
    pub sender: Address,
    pub receiver: Address,
    pub token: Address,
    /// Net principal locked in the stream, after the protocol fee.
    pub total_amount: i128,
    pub start_time: u64,
    /// Nothing unlocks before this time; equal to `start_time` when the
    /// stream has no cliff.
    pub cliff_time: u64,
    pub end_time: u64,
    /// Principal paid out so far.
    pub withdrawn: i128,
    pub cancelled: bool,
    /// Holder of the right to withdraw.
    pub receipt_owner: Address,
    pub is_paused: bool,
    /// When the current pause began.
    pub paused_time: u64,
    /// Seconds of completed pauses, excluded from the elapsed time.
    pub total_paused_duration: u64,
    /// Which parties share the vault's yield (the `INTEREST_TO_*` bits).
    pub interest_strategy: u32,
    /// Custodian of the principal, when it is not the engine itself.
    pub vault_address: Option<Address>,
    /// Principal held by the vault on the stream's behalf: the baseline
    /// above which the vault's balance counts as interest. It starts at the
    /// net principal and falls by the principal paid out of the vault. Without
    /// a vault it stays equal to `total_amount`.
    pub deposited_principal: i128,
    /// Optional off-chain reference, carried as given.
    pub metadata: Option<MetadataRef>,
}

impl Stream {
    /// The invariant of a stream record.
    pub open spec fn wf(&self) -> bool {
        &&& self.start_time < self.end_time
        &&& self.start_time <= self.cliff_time < self.end_time
        &&& self.total_amount > 0
        &&& 0 <= self.withdrawn <= self.total_amount
        &&& self.interest_strategy <= MAX_STRATEGY
        &&& self.vault_address.is_none() ==> self.deposited_principal == self.total_amount
        &&& self.vault_address.is_some() && !self.cancelled ==> self.deposited_principal == self.total_amount
            - self.withdrawn
        &&& self.vault_address.is_some() && self.cancelled ==> self.deposited_principal == 0
    }
}

/// A request for a stream whose creation waits for a number of distinct
/// approvals before a deadline.
#[derive(Clone, Debug)]
pub struct StreamProposal {
    pub sender: Address,
    pub receiver: Address,
    pub token: Address,
    pub total_amount: i128,
    pub start_time: u64,
    pub end_time: u64,
    /// Approvers in the order in which they approved.
    pub approvers: Vec<Address>,
    pub required_approvals: u32,
    pub deadline: u64,
    pub executed: bool,
}

impl StreamProposal {
    /// The invariant of a proposal: a valid schedule and amount, distinct
    /// approvers, and `executed` set exactly when the approvals reached the
    /// threshold.
    pub open spec fn wf(&self) -> bool {
        &&& self.start_time < self.end_time
        &&& self.total_amount > 0
        &&& self.required_approvals >= 1
        &&& self.approvers@.no_duplicates()
        &&& self.executed ==> self.approvers@.len() == self.required_approvals
        &&& !self.executed ==> self.approvers@.len() < self.required_approvals
    }
}

/// One stream of a batch, or a stream with every option.
#[derive(Clone, Copy, Debug, PartialEq, Eq, Structural)]
pub struct StreamRequest {
    pub receiver: Address,
    pub amount: i128,
    pub start_time: u64,
    /// Equal to `start_time` for a stream without a cliff.
    pub cliff_time: u64,
    pub end_time: u64,
    pub interest_strategy: u32,
    pub vault_address: Option<Address>,
    pub metadata: Option<MetadataRef>,
}

/// The transferable right to withdraw from a stream.
#[derive(Clone, Copy, Debug, PartialEq, Eq, Structural)]
pub struct StreamReceipt {
    pub stream_id: u64,
    pub owner: Address,
    pub minted_at: u64,
}

/// Balances of a stream as seen by the holder of its receipt.
#[derive(Clone, Copy, Debug, PartialEq, Eq, Structural)]
pub struct ReceiptMetadata {
    pub stream_id: u64,
    /// Principal that has not unlocked yet.
    pub locked_balance: i128,
    /// Principal that has unlocked and not been withdrawn.
    pub unlocked_balance: i128,
    pub total_amount: i128,
    pub token: Address,
}

/// The three-way split of a vault's yield.
#[derive(Clone, Copy, Debug, PartialEq, Eq, Structural)]
pub struct InterestDistribution {
    pub to_sender: i128,
    pub to_receiver: i128,
    pub to_protocol: i128,
    pub total_interest: i128,
}

} // verus!
