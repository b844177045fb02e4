//! The stream and proposal registry: lifecycle state machines over streams,
//! their receipts and multisig proposals, with the fee and admin policy.
//!
//! Operations take the current ledger time and the caller, whose
//! authorization the host has already checked. Funds never move here: each
//! operation appends the token transfers it decides to an outbox, which the
//! host drains and carries out. A failed operation changes nothing.
use crate::errors::Error;
use crate::interest::{distribute_interest, interest_of, proportional_interest, split_of, vault_interest};
use crate::math::{mul_div_floor, unlocked_at, unlocked_with_pause};
use crate::types::{
    Address, Holder, MetadataRef, ReceiptMetadata, Stream, StreamProposal, StreamReceipt, StreamRequest,
    Transfer, MAX_STRATEGY,
};
use vstd::prelude::*;

verus! {

/// The protocol fee may not exceed 10% (1000 basis points).
pub const MAX_FEE_BPS: u32 = 1000;

/// Basis points in a whole.
pub const BPS_DENOMINATOR: u32 = 10000;

/// Fee and admin policy.
#[derive(Clone, Copy, Debug, PartialEq, Eq, Structural)]
pub struct Config {
    /// The only account allowed to change the policy; none before
    /// initialization.
    pub admin: Option<Address>,
    /// Where protocol fees and the protocol's share of yield go; the engine's
    /// own custody while none is set.
    pub treasury: Option<Address>,
    pub fee_bps: u32,
    /// While set, no stream can be created.
    pub paused: bool,
}

impl Config {
    pub open spec fn wf(&self) -> bool {
        self.fee_bps <= MAX_FEE_BPS
    }
}

/// The protocol fee on `amount`: `floor(amount * fee_bps / 10000)`.
pub open spec fn fee_of(amount: int, fee_bps: int) -> int {
    amount * fee_bps / (BPS_DENOMINATOR as int)
}

/// Where the protocol's money goes under `config`.
pub open spec fn protocol_holder(config: Config) -> Holder {
    match config.treasury {
        Some(t) => Holder::Account(t),
        None => Holder::Custody,
    }
}

/// Who holds a stream's principal: its vault, or the engine.
pub open spec fn custody_of(vault: Option<Address>) -> Holder {
    match vault {
        Some(v) => Holder::Account(v),
        None => Holder::Custody,
    }
}

/// `t` with a transfer of `amount` appended, when there is anything to move.
pub open spec fn pay(t: Seq<Transfer>, token: Address, from: Holder, to: Holder, amount: int) -> Seq<Transfer> {
    if amount > 0 {
        t.push(Transfer { token, from, to, amount: amount as i128 })
    } else {
        t
    }
}

/// Why a schedule and amount are refused, if they are.
pub open spec fn schedule_error(amount: int, start: u64, cliff: u64, end: u64, strategy: u32) -> Option<Error> {
    if start >= end || cliff < start || cliff >= end {
        Some(Error::InvalidTimeRange)
    } else if amount <= 0 {
        Some(Error::InvalidAmount)
    } else if strategy > MAX_STRATEGY {
        Some(Error::InvalidStrategy)
    } else {
        None
    }
}

/// Why a stream cannot be created under `config`, if it cannot.
pub open spec fn creation_error(config: Config, amount: int, start: u64, cliff: u64, end: u64, strategy: u32) -> Option<Error> {
    if config.paused {
        Some(Error::ContractPaused)
    } else {
        schedule_error(amount, start, cliff, end, strategy)
    }
}

/// The record of a stream just created with net principal `net`.
pub open spec fn opened_stream(
    sender: Address,
    receiver: Address,
    token: Address,
    net: int,
    start: u64,
    cliff: u64,
    end: u64,
    strategy: u32,
    vault: Option<Address>,
    metadata: Option<MetadataRef>,
) -> Stream {
    Stream {
        sender,
        receiver,
        token,
        total_amount: net as i128,
        start_time: start,
        cliff_time: cliff,
        end_time: end,
        withdrawn: 0,
        cancelled: false,
        receipt_owner: receiver,
        is_paused: false,
        paused_time: 0,
        total_paused_duration: 0,
        interest_strategy: strategy,
        vault_address: vault,
        metadata,
        deposited_principal: net as i128,
    }
}

/// The transfers that fund a stream of `amount` straight from the sender:
/// the net principal to its custodian, the fee to the protocol.
pub open spec fn funding(
    t: Seq<Transfer>,
    config: Config,
    sender: Address,
    token: Address,
    amount: int,
    vault: Option<Address>,
) -> Seq<Transfer> {
    let fee = fee_of(amount, config.fee_bps as int);
    pay(
        pay(t, token, Holder::Account(sender), custody_of(vault), amount - fee),
        token,
        Holder::Account(sender),
        protocol_holder(config),
        fee,
    )
}

/// The protocol fee on `amount`, which leaves a positive net amount.
pub fn protocol_fee(amount: i128, fee_bps: u32) -> (fee: i128)
    requires
        amount > 0,
        fee_bps <= MAX_FEE_BPS,
    ensures
        fee == fee_of(amount as int, fee_bps as int),
        0 <= fee < amount,
{
    let f = mul_div_floor(amount as u128, fee_bps as u128, BPS_DENOMINATOR as u128);
    proof {
        let a = amount as int;
        let b = fee_bps as int;
        assert(a * b < a * 10000) by (nonlinear_arith)
            requires
                a > 0,
                b <= 1000,
        ;
        assert(a * b / 10000 < a) by (nonlinear_arith)
            requires
                a * b < a * 10000,
                a > 0,
        ;
    }
    f as i128
}

/// The engine's whole state.
pub struct StellarStreamContract {
    config: Config,
    streams: Vec<Stream>,
    receipts: Vec<StreamReceipt>,
    proposals: Vec<StreamProposal>,
    locked: bool,
    outbox: Vec<Transfer>,
}

impl StellarStreamContract {
    /// The fee and admin policy.
    pub closed spec fn cfg(&self) -> Config {
        self.config
    }

    /// Streams, indexed by id.
    pub closed spec fn streams(&self) -> Seq<Stream> {
        self.streams@
    }

    /// Receipts, indexed by the id of their stream.
    pub closed spec fn receipts(&self) -> Seq<StreamReceipt> {
        self.receipts@
    }

    /// Proposals, indexed by id.
    pub closed spec fn proposals(&self) -> Seq<StreamProposal> {
        self.proposals@
    }

    /// Whether the reentrancy guard is held.
    pub closed spec fn is_locked(&self) -> bool {
        self.locked
    }

    /// Transfers decided and not yet handed to the host, oldest first.
    pub closed spec fn outbox(&self) -> Seq<Transfer> {
        self.outbox@
    }

    /// The invariant of the engine: valid policy, valid records, exactly one
    /// receipt per stream, owned by the stream's receipt owner.
    pub open spec fn wf(&self) -> bool {
        &&& self.cfg().wf()
        &&& self.receipts().len() == self.streams().len()
        &&& forall|i: int| 0 <= i < self.streams().len() ==> #[trigger] self.streams()[i].wf()
        &&& forall|i: int|
            0 <= i < self.receipts().len() ==> (#[trigger] self.receipts()[i]).stream_id == i
                && self.receipts()[i].owner == self.streams()[i].receipt_owner
        &&& forall|i: int| 0 <= i < self.proposals().len() ==> #[trigger] self.proposals()[i].wf()
    }

    /// An engine with no streams, no proposals and no policy set.
    pub fn new() -> (c: Self)
        ensures
            c.wf(),
            c.cfg() == (Config { admin: None, treasury: None, fee_bps: 0, paused: false }),
            c.streams().len() == 0,
            c.proposals().len() == 0,
            !c.is_locked(),
            c.outbox().len() == 0,
    {
        StellarStreamContract {
            config: Config { admin: None, treasury: None, fee_bps: 0, paused: false },
            streams: Vec::new(),
            receipts: Vec::new(),
            proposals: Vec::new(),
            locked: false,
            outbox: Vec::new(),
        }
    }

    /// The invariant, spelled out over the fields.
    proof fn lemma_unfold_wf(&self)
        requires
            self.wf(),
        ensures
            forall|i: int| 0 <= i < self.streams@.len() ==> #[trigger] self.streams@[i].wf(),
            forall|i: int| 0 <= i < self.proposals@.len() ==> #[trigger] self.proposals@[i].wf(),
            forall|i: int|
                0 <= i < self.receipts@.len() ==> (#[trigger] self.receipts@[i]).stream_id == i
                    && self.receipts@[i].owner == self.streams@[i].receipt_owner,
    {
        assert(forall|i: int| 0 <= i < self.proposals().len() ==> #[trigger] self.proposals()[i].wf());
        assert(forall|i: int| 0 <= i < self.streams().len() ==> #[trigger] self.streams()[i].wf());
    }

    /// Appends a transfer to the outbox when `amount` is positive.
    fn pay(&mut self, token: Address, from: Holder, to: Holder, amount: i128)
        ensures
            old(self).wf() ==> final(self).wf(),
            final(self).outbox() == pay(old(self).outbox(), token, from, to, amount as int),
            final(self).config == old(self).config,
            final(self).streams == old(self).streams,
            final(self).receipts == old(self).receipts,
            final(self).proposals == old(self).proposals,
            final(self).locked == old(self).locked,
    {
        proof {
            if old(self).wf() {
                old(self).lemma_unfold_wf();
            }
        }
        if amount > 0 {
            self.outbox.push(Transfer { token, from, to, amount });
        }
    }

    /// Where the protocol's money goes.
    fn protocol_account(&self) -> (h: Holder)
        ensures
            h == protocol_holder(self.cfg()),
    {
        match self.config.treasury {
            Some(t) => Holder::Account(t),
            None => Holder::Custody,
        }
    }

    /// Checks a schedule and amount.
    fn check_schedule(amount: i128, start: u64, cliff: u64, end: u64, strategy: u32) -> (r: Result<(), Error>)
        ensures
            match r {
                Ok(()) => schedule_error(amount as int, start, cliff, end, strategy).is_none(),
                Err(e) => schedule_error(amount as int, start, cliff, end, strategy) == Some(e),
            },
    {
        if start >= end || cliff < start || cliff >= end {
            return Err(Error::InvalidTimeRange);
        }
        if amount <= 0 {
            return Err(Error::InvalidAmount);
        }
        if strategy > MAX_STRATEGY {
            return Err(Error::InvalidStrategy);
        }
        Ok(())
    }

    /// Records a new stream with net principal `net` and mints its receipt.
    fn open_stream(
        &mut self,
        sender: Address,
        receiver: Address,
        token: Address,
        net: i128,
        start: u64,
        cliff: u64,
        end: u64,
        strategy: u32,
        vault: Option<Address>,
        metadata: Option<MetadataRef>,
        now: u64,
    ) -> (id: u64)
        requires
            old(self).wf(),
            schedule_error(net as int, start, cliff, end, strategy).is_none(),
        ensures
            final(self).wf(),
            id == old(self).streams().len(),
            final(self).streams() == old(self).streams().push(
                opened_stream(sender, receiver, token, net as int, start, cliff, end, strategy, vault, metadata),
            ),
            final(self).receipts() == old(self).receipts().push(
                StreamReceipt { stream_id: id, owner: receiver, minted_at: now },
            ),
            final(self).config == old(self).config,
            final(self).proposals == old(self).proposals,
            final(self).locked == old(self).locked,
            final(self).outbox == old(self).outbox,
    {
        proof {
            self.lemma_unfold_wf();
        }
        let id = self.streams.len() as u64;
        let stream = Stream {
            sender,
            receiver,
            token,
            total_amount: net,
            start_time: start,
            cliff_time: cliff,
            end_time: end,
            withdrawn: 0,
            cancelled: false,
            receipt_owner: receiver,
            is_paused: false,
            paused_time: 0,
            total_paused_duration: 0,
            interest_strategy: strategy,
            vault_address: vault,
            metadata,
            deposited_principal: net,
        };
        self.streams.push(stream);
        self.receipts.push(StreamReceipt { stream_id: id, owner: receiver, minted_at: now });
        proof {
            let s = self.streams@;
            let r = self.receipts@;
            assert forall|i: int| 0 <= i < s.len() implies #[trigger] s[i].wf() by {
                if i < s.len() - 1 {
                    assert(s[i] == old(self).streams@[i]);
                }
            }
            assert forall|i: int| 0 <= i < r.len() implies (#[trigger] r[i]).stream_id == i && r[i].owner
                == s[i].receipt_owner by {
                if i < r.len() - 1 {
                    assert(r[i] == old(self).receipts@[i]);
                    assert(s[i] == old(self).streams@[i]);
                }
            }
        }
        id
    }

    /// `post` is `pre` with the stream of `request` opened under id `id`,
    /// funded by `sender` with `token`, its receipt minted at `now`; proposals
    /// aside.
    pub open spec fn stream_opened(
        pre: &Self,
        post: &Self,
        sender: Address,
        token: Address,
        request: StreamRequest,
        now: u64,
        id: u64,
    ) -> bool {
        let fee = fee_of(request.amount as int, pre.cfg().fee_bps as int);
        &&& id == pre.streams().len()
        &&& post.streams() == pre.streams().push(
            opened_stream(
                sender,
                request.receiver,
                token,
                request.amount - fee,
                request.start_time,
                request.cliff_time,
                request.end_time,
                request.interest_strategy,
                request.vault_address,
                request.metadata,
            ),
        )
        &&& post.receipts() == pre.receipts().push(
            StreamReceipt { stream_id: id, owner: request.receiver, minted_at: now },
        )
        &&& post.outbox() == funding(
            pre.outbox(),
            pre.cfg(),
            sender,
            token,
            request.amount as int,
            request.vault_address,
        )
        &&& post.cfg() == pre.cfg()
        &&& post.is_locked() == pre.is_locked()
    }

    /// Why `request` cannot become a stream now, if it cannot.
    pub open spec fn request_error(&self, request: StreamRequest) -> Option<Error> {
        creation_error(
            self.cfg(),
            request.amount as int,
            request.start_time,
            request.cliff_time,
            request.end_time,
            request.interest_strategy,
        )
    }

    /// Funds and opens the stream of an already checked request.
    fn execute_request(&mut self, sender: Address, token: Address, request: StreamRequest, now: u64) -> (id: u64)
        requires
            old(self).wf(),
            old(self).request_error(request).is_none(),
        ensures
            final(self).wf(),
            Self::stream_opened(old(self), final(self), sender, token, request, now, id),
            final(self).proposals == old(self).proposals,
    {
        let fee = protocol_fee(request.amount, self.config.fee_bps);
        let net = request.amount - fee;
        let custodian = match request.vault_address {
            Some(v) => Holder::Account(v),
            None => Holder::Custody,
        };
        let treasury = self.protocol_account();
        self.pay(token, Holder::Account(sender), custodian, net);
        self.pay(token, Holder::Account(sender), treasury, fee);
        self.open_stream(
            sender,
            request.receiver,
            token,
            net,
            request.start_time,
            request.cliff_time,
            request.end_time,
            request.interest_strategy,
            request.vault_address,
            request.metadata,
            now,
        )
    }

    /// Creates a stream funded by `sender`, with every option of `request`:
    /// an optional cliff, an interest strategy and an optional vault.
    ///
    /// Fails, in this order, while the engine is paused, on a bad schedule
    /// (`end <= start`, or a cliff outside `[start, end)`), on a non-positive
    /// amount, and on a strategy above 7. Otherwise the protocol fee goes to
    /// the treasury, the rest to the vault or to the engine's custody, and the
    /// stream gets the next id.
    pub fn create_vesting_stream(&mut self, sender: Address, token: Address, request: StreamRequest, now: u64) -> (r:
        Result<u64, Error>)
        requires
            old(self).wf(),
        ensures
            final(self).wf(),
            match r {
                Err(e) => old(self).request_error(request) == Some(e) && *final(self) == *old(self),
                Ok(id) => {
                    &&& old(self).request_error(request).is_none()
                    &&& Self::stream_opened(old(self), final(self), sender, token, request, now, id)
                    &&& final(self).proposals() == old(self).proposals()
                },
            },
    {
        if self.config.paused {
            return Err(Error::ContractPaused);
        }
        let checked = Self::check_schedule(
            request.amount,
            request.start_time,
            request.cliff_time,
            request.end_time,
            request.interest_strategy,
        );
        if let Err(e) = checked {
            return Err(e);
        }
        Ok(self.execute_request(sender, token, request, now))
    }

    /// Proposes a stream that is created only once `required_approvals`
    /// distinct approvers have approved it, no later than `deadline`. No funds
    /// move yet.
    ///
    /// Fails, in this order, on `end_time <= start_time`, on a non-positive
    /// amount, on a zero threshold, and on a deadline not after `now`.
    /// Proposals are numbered from 0 in their own id space.
    pub fn create_proposal(
        &mut self,
        sender: Address,
        receiver: Address,
        token: Address,
        total_amount: i128,
        start_time: u64,
        end_time: u64,
        required_approvals: u32,
        deadline: u64,
        now: u64,
    ) -> (r: Result<u64, Error>)
        requires
            old(self).wf(),
        ensures
            final(self).wf(),
            match r {
                Err(e) => proposal_error(total_amount, start_time, end_time, required_approvals, deadline, now)
                    == Some(e) && *final(self) == *old(self),
                Ok(id) => {
                    let p = final(self).proposals().last();
                    &&& proposal_error(total_amount, start_time, end_time, required_approvals, deadline, now).is_none()
                    &&& id == old(self).proposals().len()
                    &&& final(self).proposals() == old(self).proposals().push(p)
                    &&& p.sender == sender && p.receiver == receiver && p.token == token
                    &&& p.total_amount == total_amount && p.start_time == start_time && p.end_time == end_time
                    &&& p.required_approvals == required_approvals && p.deadline == deadline
                    &&& p.approvers@ == Seq::<Address>::empty() && !p.executed
                    &&& final(self).streams() == old(self).streams()
                    &&& final(self).receipts() == old(self).receipts()
                    &&& final(self).outbox() == old(self).outbox()
                    &&& final(self).cfg() == old(self).cfg()
                    &&& final(self).is_locked() == old(self).is_locked()
                },
            },
    {
        if start_time >= end_time {
            return Err(Error::InvalidTimeRange);
        }
        if total_amount <= 0 {
            return Err(Error::InvalidAmount);
        }
        if required_approvals == 0 {
            return Err(Error::InvalidApprovalThreshold);
        }
        if deadline <= now {
            return Err(Error::ProposalExpired);
        }
        proof {
            self.lemma_unfold_wf();
        }
        let id = self.proposals.len() as u64;
        let proposal = StreamProposal {
            sender,
            receiver,
            token,
            total_amount,
            start_time,
            end_time,
            approvers: Vec::new(),
            required_approvals,
            deadline,
            executed: false,
        };
        self.proposals.push(proposal);
        proof {
            let ps = self.proposals@;
            assert forall|i: int| 0 <= i < ps.len() implies #[trigger] ps[i].wf() by {
                if i < ps.len() - 1 {
                    assert(ps[i] == old(self).proposals@[i]);
                }
            }
            assert(self.proposals() == old(self).proposals().push(self.proposals().last()));
        }
        Ok(id)
    }

    /// Why `approver` cannot approve proposal `proposal_id` at time `now`, if
    /// it cannot.
    pub open spec fn approval_error(&self, proposal_id: u64, approver: Address, now: u64) -> Option<Error> {
        if proposal_id >= self.proposals().len() {
            Some(Error::ProposalNotFound)
        } else {
            let p = self.proposals()[proposal_id as int];
            if p.executed {
                Some(Error::ProposalAlreadyExecuted)
            } else if now > p.deadline {
                Some(Error::ProposalExpired)
            } else if p.approvers@.contains(approver) {
                Some(Error::AlreadyApproved)
            } else if p.approvers@.len() + 1 >= p.required_approvals {
                self.request_error(proposal_request(p))
            } else {
                None
            }
        }
    }

    /// `post` is `pre` after `approver` approved proposal `proposal_id` at
    /// `now`: the approver joins the list, and the approval that reaches the
    /// threshold marks the proposal executed and opens its stream.
    pub open spec fn approved(pre: &Self, post: &Self, proposal_id: u64, approver: Address, now: u64) -> bool {
        let idx = proposal_id as int;
        let p = pre.proposals()[idx];
        let q = post.proposals()[idx];
        let reached = p.approvers@.len() + 1 == p.required_approvals;
        &&& post.proposals().len() == pre.proposals().len()
        &&& forall|i: int|
            0 <= i < pre.proposals().len() && i != idx ==> #[trigger] post.proposals()[i] == pre.proposals()[i]
        &&& same_terms(p, q)
        &&& q.approvers@ == p.approvers@.push(approver)
        &&& q.executed == reached
        &&& if reached {
            Self::stream_opened(pre, post, p.sender, p.token, proposal_request(p), now, pre.streams().len() as u64)
        } else {
            &&& post.streams() == pre.streams()
            &&& post.receipts() == pre.receipts()
            &&& post.outbox() == pre.outbox()
            &&& post.cfg() == pre.cfg()
            &&& post.is_locked() == pre.is_locked()
        }
    }

    /// A proposal that needs `k` approvals executes exactly on its `k`-th
    /// distinct approval: an accepted approval comes from a new approver of a
    /// proposal not yet executed, adds one approver, and leaves the proposal
    /// executed exactly when the count reaches `k`. From then on every
    /// approval is refused, and an approver already counted is refused as
    /// long as the proposal is pending.
    pub proof fn lemma_approval_threshold(
        pre: &Self,
        post: &Self,
        proposal_id: u64,
        approver: Address,
        now: u64,
        other: Address,
        later: u64,
    )
        requires
            pre.wf(),
            post.wf(),
            pre.approval_error(proposal_id, approver, now).is_none(),
            Self::approved(pre, post, proposal_id, approver, now),
        ensures
            ({
                let p = pre.proposals()[proposal_id as int];
                let q = post.proposals()[proposal_id as int];
                &&& !p.executed
                &&& !p.approvers@.contains(approver)
                &&& q.approvers@.len() == p.approvers@.len() + 1
                &&& q.approvers@.no_duplicates()
                &&& q.executed <==> q.approvers@.len() == q.required_approvals
                &&& q.executed ==> post.approval_error(proposal_id, other, later) == Some(
                    Error::ProposalAlreadyExecuted,
                )
                &&& !q.executed && later <= q.deadline ==> post.approval_error(proposal_id, approver, later)
                    == Some(Error::AlreadyApproved)
            }),
    {
        let idx = proposal_id as int;
        assert(post.proposals()[idx].wf());
        assert(post.proposals()[idx].approvers@.last() == approver);
        assert(post.proposals()[idx].approvers@[post.proposals()[idx].approvers@.len() - 1] == approver);
    }

    /// Records `approver`'s approval of proposal `proposal_id`.
    ///
    /// Fails, in this order, on an unknown proposal, on one already executed,
    /// after its deadline, and on a second approval by the same approver. The
    /// approval that brings the count to the threshold marks the proposal
    /// executed and creates its stream, fee, funding and receipt included; if
    /// that creation fails, the approval fails with it and nothing changes.
    pub fn approve_proposal(&mut self, proposal_id: u64, approver: Address, now: u64) -> (r: Result<(), Error>)
        requires
            old(self).wf(),
        ensures
            final(self).wf(),
            match r {
                Err(e) => old(self).approval_error(proposal_id, approver, now) == Some(e) && *final(self)
                    == *old(self),
                Ok(()) => old(self).approval_error(proposal_id, approver, now).is_none() && Self::approved(
                    old(self),
                    final(self),
                    proposal_id,
                    approver,
                    now,
                ),
            },
    {
        proof {
            self.lemma_unfold_wf();
        }
        if proposal_id >= self.proposals.len() as u64 {
            return Err(Error::ProposalNotFound);
        }
        let idx = proposal_id as usize;
        let p = &self.proposals[idx];
        if p.executed {
            return Err(Error::ProposalAlreadyExecuted);
        }
        if now > p.deadline {
            return Err(Error::ProposalExpired);
        }
        let n = p.approvers.len();
        if holds_address(&p.approvers, approver) {
            return Err(Error::AlreadyApproved);
        }
        proof {
            assert(p.wf());
        }
        let reached = n as u64 + 1 == p.required_approvals as u64;
        if reached && self.config.paused {
            return Err(Error::ContractPaused);
        }
        let request = StreamRequest {
            receiver: p.receiver,
            amount: p.total_amount,
            start_time: p.start_time,
            cliff_time: p.start_time,
            end_time: p.end_time,
            interest_strategy: 0,
            vault_address: None,
            metadata: None,
        };
        let sender = p.sender;
        let token = p.token;
        let ghost old_p = self.proposals@[idx as int];
        self.proposals[idx].approvers.push(approver);
        if reached {
            self.proposals[idx].executed = true;
        }
        proof {
            let ps = self.proposals@;
            let q = ps[idx as int];
            assert(q.approvers@ == old_p.approvers@.push(approver));
            assert(q.approvers@.no_duplicates()) by {
                assert forall|a: int, b: int| 0 <= a < b < q.approvers@.len() implies q.approvers@[a]
                    != q.approvers@[b] by {
                    if b == q.approvers@.len() - 1 {
                        assert(old_p.approvers@[a] == q.approvers@[a]);
                        assert(old_p.approvers@[a] != approver);
                    } else {
                        assert(old_p.approvers@[a] == q.approvers@[a]);
                        assert(old_p.approvers@[b] == q.approvers@[b]);
                    }
                }
            }
            assert(q.wf());
            assert forall|i: int| 0 <= i < ps.len() implies #[trigger] ps[i].wf() by {
                if i != idx {
                    assert(ps[i] == old(self).proposals@[i]);
                }
            }
            assert(self.wf());
        }
        if reached {
            let _ = self.execute_request(sender, token, request, now);
        }
        Ok(())
    }

    /// Replaces stream `idx`, keeping its receipt owner.
    fn replace_stream(&mut self, idx: usize, s: Stream)
        requires
            old(self).wf(),
            idx < old(self).streams().len(),
            s.wf(),
            s.receipt_owner == old(self).streams()[idx as int].receipt_owner,
        ensures
            final(self).wf(),
            final(self).streams() == old(self).streams().update(idx as int, s),
            final(self).config == old(self).config,
            final(self).receipts == old(self).receipts,
            final(self).proposals == old(self).proposals,
            final(self).locked == old(self).locked,
            final(self).outbox == old(self).outbox,
    {
        proof {
            self.lemma_unfold_wf();
        }
        self.streams.set(idx, s);
        proof {
            let ss = self.streams@;
            assert forall|i: int| 0 <= i < ss.len() implies #[trigger] ss[i].wf() by {
                if i != idx {
                    assert(ss[i] == old(self).streams@[i]);
                }
            }
            assert forall|i: int| 0 <= i < self.receipts@.len() implies (#[trigger] self.receipts@[i]).stream_id
                == i && self.receipts@[i].owner == ss[i].receipt_owner by {
                if i != idx {
                    assert(ss[i] == old(self).streams@[i]);
                }
            }
        }
    }

    /// Takes the reentrancy guard. Fails with `Reentrant`, changing nothing,
    /// while it is held. The host holds it while it carries out transfers, so
    /// that a call back into withdrawal or cancellation is refused.
    pub fn acquire_guard(&mut self) -> (r: Result<(), Error>)
        requires
            old(self).wf(),
        ensures
            final(self).wf(),
            old(self).is_locked() ==> r == Err::<(), Error>(Error::Reentrant) && *final(self) == *old(self),
            !old(self).is_locked() ==> r is Ok && final(self).is_locked() && final(self).cfg() == old(self).cfg()
                && final(self).streams() == old(self).streams() && final(self).receipts() == old(self).receipts()
                && final(self).proposals() == old(self).proposals() && final(self).outbox() == old(self).outbox(),
    {
        proof {
            self.lemma_unfold_wf();
        }
        if self.locked {
            return Err(Error::Reentrant);
        }
        self.locked = true;
        Ok(())
    }

    /// Releases the reentrancy guard.
    pub fn release_guard(&mut self)
        requires
            old(self).wf(),
        ensures
            final(self).wf(),
            !final(self).is_locked(),
            final(self).cfg() == old(self).cfg(),
            final(self).streams() == old(self).streams(),
            final(self).receipts() == old(self).receipts(),
            final(self).proposals() == old(self).proposals(),
            final(self).outbox() == old(self).outbox(),
    {
        proof {
            self.lemma_unfold_wf();
        }
        self.locked = false;
    }

    /// Principal of `stream` unlocked at `current_time`, frozen at the start
    /// of a pause while the stream is paused.
    pub fn calculate_unlocked(stream: &Stream, current_time: u64) -> (r: i128)
        requires
            stream.wf(),
        ensures
            r == stream_unlocked(*stream, current_time),
            0 <= r <= stream.total_amount,
    {
        let effective_time = if stream.is_paused { stream.paused_time } else { current_time };
        unlocked_with_pause(
            stream.total_amount,
            stream.start_time,
            stream.cliff_time,
            stream.end_time,
            stream.total_paused_duration,
            effective_time,
        )
    }

    /// Why `caller` cannot withdraw from stream `stream_id` at `now`, if it
    /// cannot.
    pub open spec fn withdraw_error(&self, stream_id: u64, caller: Address, now: u64, vault_balance: i128) -> Option<Error> {
        if self.is_locked() {
            Some(Error::Reentrant)
        } else if stream_id >= self.streams().len() {
            Some(Error::StreamNotFound)
        } else {
            let s = self.streams()[stream_id as int];
            if s.receipt_owner != caller {
                Some(Error::NotReceiptOwner)
            } else if s.cancelled {
                Some(Error::AlreadyCancelled)
            } else if s.is_paused {
                Some(Error::StreamPaused)
            } else if withdrawable_of(s, now) <= 0 {
                Some(Error::InsufficientBalance)
            } else {
                None
            }
        }
    }

    /// `post` is `pre` after `caller` withdrew from stream `stream_id` at
    /// `now`, with the vault holding `vault_balance`, and was paid `paid`.
    pub open spec fn withdrawn(
        pre: &Self,
        post: &Self,
        stream_id: u64,
        caller: Address,
        now: u64,
        vault_balance: i128,
        paid: i128,
    ) -> bool {
        let s = pre.streams()[stream_id as int];
        let w = withdrawable_of(s, now);
        let d = withdrawal_interest(s, now, vault_balance);
        &&& paid == w + d.1
        &&& post.streams() == pre.streams().update(stream_id as int, withdrawn_stream(s, w))
        &&& post.outbox() == withdrawal_transfers(pre.outbox(), pre.cfg(), s, caller, w, d)
        &&& post.receipts() == pre.receipts()
        &&& post.proposals() == pre.proposals()
        &&& post.cfg() == pre.cfg()
        &&& post.is_locked() == pre.is_locked()
    }

    /// Withdraws, for the holder of its receipt, everything of stream
    /// `stream_id` that has unlocked at `now` and was not yet withdrawn.
    ///
    /// With a vault attached, whose balance the host reads as
    /// `vault_balance`, the interest that goes with the withdrawn principal is
    /// split by the stream's strategy and paid out of the vault first. Returns
    /// what the caller receives: principal plus the receiver's share.
    ///
    /// Fails, in this order, while the guard is held, on an unknown stream,
    /// for a caller who does not hold the receipt, on a cancelled or paused
    /// stream, and when nothing is withdrawable.
    pub fn withdraw(&mut self, stream_id: u64, caller: Address, now: u64, vault_balance: i128) -> (r: Result<i128, Error>)
        requires
            old(self).wf(),
        ensures
            final(self).wf(),
            match r {
                Err(e) => old(self).withdraw_error(stream_id, caller, now, vault_balance) == Some(e) && *final(self)
                    == *old(self),
                Ok(paid) => old(self).withdraw_error(stream_id, caller, now, vault_balance).is_none()
                    && Self::withdrawn(old(self), final(self), stream_id, caller, now, vault_balance, paid),
            },
    {
        if self.locked {
            return Err(Error::Reentrant);
        }
        if stream_id >= self.streams.len() as u64 {
            return Err(Error::StreamNotFound);
        }
        proof {
            self.lemma_unfold_wf();
        }
        let idx = stream_id as usize;
        let s = self.streams[idx];
        proof {
            assert(s.wf());
        }
        if s.receipt_owner != caller {
            return Err(Error::NotReceiptOwner);
        }
        if s.cancelled {
            return Err(Error::AlreadyCancelled);
        }
        if s.is_paused {
            return Err(Error::StreamPaused);
        }
        let unlocked = Self::calculate_unlocked(&s, now);
        let withdrawable = unlocked - s.withdrawn;
        if withdrawable <= 0 {
            return Err(Error::InsufficientBalance);
        }
        let d = match s.vault_address {
            Some(_) => {
                let total_interest = vault_interest(vault_balance, s.deposited_principal);
                let share = proportional_interest(total_interest, withdrawable, s.total_amount);
                distribute_interest(share, s.interest_strategy)
            },
            None => crate::types::InterestDistribution {
                to_sender: 0,
                to_receiver: 0,
                to_protocol: 0,
                total_interest: 0,
            },
        };
        proof {
            crate::interest::lemma_distribution_conserves(
                d.total_interest as int,
                s.interest_strategy,
            );
        }
        // The payout never exceeds what the vault holds: the interest share
        // is at most the vault's excess over the deposited principal, which
        // is the principal still in it.
        let paid = withdrawable + d.to_receiver;
        let from = match s.vault_address {
            Some(v) => Holder::Account(v),
            None => Holder::Custody,
        };
        let treasury = self.protocol_account();
        self.locked = true;
        let deposited = match s.vault_address {
            Some(_) => s.deposited_principal - withdrawable,
            None => s.deposited_principal,
        };
        let updated = Stream { withdrawn: s.withdrawn + withdrawable, deposited_principal: deposited, ..s };
        self.replace_stream(idx, updated);
        self.pay(s.token, from, Holder::Account(s.sender), d.to_sender);
        self.pay(s.token, from, Holder::Account(caller), d.to_receiver);
        self.pay(s.token, from, treasury, d.to_protocol);
        self.pay(s.token, from, Holder::Account(caller), withdrawable);
        self.locked = false;
        Ok(paid)
    }

    /// Why `caller` cannot cancel stream `stream_id`, if it cannot.
    pub open spec fn cancel_error(&self, stream_id: u64, caller: Address) -> Option<Error> {
        if self.is_locked() {
            Some(Error::Reentrant)
        } else if stream_id >= self.streams().len() {
            Some(Error::StreamNotFound)
        } else {
            let s = self.streams()[stream_id as int];
            if s.sender != caller && s.receipt_owner != caller {
                Some(Error::Unauthorized)
            } else if s.cancelled {
                Some(Error::AlreadyCancelled)
            } else {
                None
            }
        }
    }

    /// `post` is `pre` after stream `stream_id` was cancelled at `now`, with
    /// the vault holding `vault_balance`.
    pub open spec fn cancelled(pre: &Self, post: &Self, stream_id: u64, now: u64, vault_balance: i128) -> bool {
        let s = pre.streams()[stream_id as int];
        let d = cancellation_interest(s, vault_balance);
        &&& post.streams() == pre.streams().update(
            stream_id as int,
            cancelled_stream(s, now),
        )
        &&& post.outbox() == cancellation_transfers(pre.outbox(), pre.cfg(), s, now, d)
        &&& post.receipts() == pre.receipts()
        &&& post.proposals() == pre.proposals()
        &&& post.cfg() == pre.cfg()
        &&& post.is_locked() == pre.is_locked()
    }

    /// Cancels stream `stream_id` at `now`, for its sender or the holder of
    /// its receipt. The receipt holder gets what has unlocked and was not
    /// withdrawn, the sender the principal that never unlocked; with a vault
    /// attached, all of its interest is split by the strategy and paid first.
    /// The stream ends cancelled, with everything unlocked counted as
    /// withdrawn.
    ///
    /// Fails, in this order, while the guard is held, on an unknown stream,
    /// for any other caller, and on a stream already cancelled.
    pub fn cancel(&mut self, stream_id: u64, caller: Address, now: u64, vault_balance: i128) -> (r: Result<(), Error>)
        requires
            old(self).wf(),
        ensures
            final(self).wf(),
            match r {
                Err(e) => old(self).cancel_error(stream_id, caller) == Some(e) && *final(self) == *old(self),
                Ok(()) => old(self).cancel_error(stream_id, caller).is_none() && Self::cancelled(
                    old(self),
                    final(self),
                    stream_id,
                    now,
                    vault_balance,
                ),
            },
    {
        if self.locked {
            return Err(Error::Reentrant);
        }
        if stream_id >= self.streams.len() as u64 {
            return Err(Error::StreamNotFound);
        }
        proof {
            self.lemma_unfold_wf();
        }
        let idx = stream_id as usize;
        let s = self.streams[idx];
        proof {
            assert(s.wf());
        }
        if s.sender != caller && s.receipt_owner != caller {
            return Err(Error::Unauthorized);
        }
        if s.cancelled {
            return Err(Error::AlreadyCancelled);
        }
        let unlocked = Self::calculate_unlocked(&s, now);
        let settled = if unlocked > s.withdrawn { unlocked } else { s.withdrawn };
        let to_receiver = settled - s.withdrawn;
        let to_sender = s.total_amount - settled;
        let d = match s.vault_address {
            Some(_) => {
                let total_interest = vault_interest(vault_balance, s.deposited_principal);
                distribute_interest(total_interest, s.interest_strategy)
            },
            None => crate::types::InterestDistribution {
                to_sender: 0,
                to_receiver: 0,
                to_protocol: 0,
                total_interest: 0,
            },
        };
        let from = match s.vault_address {
            Some(v) => Holder::Account(v),
            None => Holder::Custody,
        };
        let treasury = self.protocol_account();
        self.locked = true;
        let deposited = match s.vault_address {
            Some(_) => 0,
            None => s.deposited_principal,
        };
        let updated = Stream { cancelled: true, withdrawn: settled, deposited_principal: deposited, ..s };
        self.replace_stream(idx, updated);
        self.pay(s.token, from, Holder::Account(s.sender), d.to_sender);
        self.pay(s.token, from, Holder::Account(s.receipt_owner), d.to_receiver);
        self.pay(s.token, from, treasury, d.to_protocol);
        self.pay(s.token, from, Holder::Account(s.receipt_owner), to_receiver);
        self.pay(s.token, from, Holder::Account(s.sender), to_sender);
        self.locked = false;
        Ok(())
    }

    /// Why `caller` cannot pause or resume stream `stream_id`, if it cannot.
    pub open spec fn sender_error(&self, stream_id: u64, caller: Address) -> Option<Error> {
        if stream_id >= self.streams().len() {
            Some(Error::StreamNotFound)
        } else {
            let s = self.streams()[stream_id as int];
            if s.sender != caller {
                Some(Error::Unauthorized)
            } else if s.cancelled {
                Some(Error::AlreadyCancelled)
            } else {
                None
            }
        }
    }

    /// Pauses stream `stream_id` at `now`, for its sender. While paused, the
    /// unlocked amount stays what it was at `now` and nothing can be
    /// withdrawn. Pausing a paused stream changes nothing.
    ///
    /// Fails, in this order, on an unknown stream, for any caller but the
    /// sender, and on a cancelled stream.
    pub fn pause_stream(&mut self, stream_id: u64, caller: Address, now: u64) -> (r: Result<(), Error>)
        requires
            old(self).wf(),
        ensures
            final(self).wf(),
            match r {
                Err(e) => old(self).sender_error(stream_id, caller) == Some(e) && *final(self) == *old(self),
                Ok(()) => {
                    let s = old(self).streams()[stream_id as int];
                    &&& old(self).sender_error(stream_id, caller).is_none()
                    &&& s.is_paused ==> *final(self) == *old(self)
                    &&& !s.is_paused ==> final(self).streams() == old(self).streams().update(
                        stream_id as int,
                        paused_stream(s, now),
                    ) && Self::streams_only(old(self), final(self))
                },
            },
    {
        if stream_id >= self.streams.len() as u64 {
            return Err(Error::StreamNotFound);
        }
        proof {
            self.lemma_unfold_wf();
        }
        let idx = stream_id as usize;
        let s = self.streams[idx];
        proof {
            assert(s.wf());
        }
        if s.sender != caller {
            return Err(Error::Unauthorized);
        }
        if s.cancelled {
            return Err(Error::AlreadyCancelled);
        }
        if s.is_paused {
            return Ok(());
        }
        self.replace_stream(idx, Stream { is_paused: true, paused_time: now, ..s });
        Ok(())
    }

    /// Resumes stream `stream_id` at `now`, for its sender: the length of the
    /// pause joins the paused total, which pushes the end of the schedule
    /// back. Resuming a running stream changes nothing.
    ///
    /// Fails as [`Self::pause_stream`] does.
    pub fn unpause_stream(&mut self, stream_id: u64, caller: Address, now: u64) -> (r: Result<(), Error>)
        requires
            old(self).wf(),
        ensures
            final(self).wf(),
            match r {
                Err(e) => old(self).sender_error(stream_id, caller) == Some(e) && *final(self) == *old(self),
                Ok(()) => {
                    let s = old(self).streams()[stream_id as int];
                    &&& old(self).sender_error(stream_id, caller).is_none()
                    &&& !s.is_paused ==> *final(self) == *old(self)
                    &&& s.is_paused ==> final(self).streams() == old(self).streams().update(
                        stream_id as int,
                        resumed_stream(s, now),
                    ) && Self::streams_only(old(self), final(self))
                },
            },
    {
        if stream_id >= self.streams.len() as u64 {
            return Err(Error::StreamNotFound);
        }
        proof {
            self.lemma_unfold_wf();
        }
        let idx = stream_id as usize;
        let s = self.streams[idx];
        proof {
            assert(s.wf());
        }
        if s.sender != caller {
            return Err(Error::Unauthorized);
        }
        if s.cancelled {
            return Err(Error::AlreadyCancelled);
        }
        if !s.is_paused {
            return Ok(());
        }
        let length = now.saturating_sub(s.paused_time);
        let total = s.total_paused_duration.saturating_add(length);
        self.replace_stream(idx, Stream { is_paused: false, paused_time: 0, total_paused_duration: total, ..s });
        Ok(())
    }

    /// Only the streams differ between `pre` and `post`.
    pub open spec fn streams_only(pre: &Self, post: &Self) -> bool {
        &&& post.receipts() == pre.receipts()
        &&& post.proposals() == pre.proposals()
        &&& post.outbox() == pre.outbox()
        &&& post.cfg() == pre.cfg()
        &&& post.is_locked() == pre.is_locked()
    }

    /// Hands the withdrawal right of stream `stream_id` from `from`, who must
    /// hold it, to `to`. No funds move.
    ///
    /// Fails on an unknown stream, then for a `from` who does not hold the
    /// receipt.
    pub fn transfer_receipt(&mut self, stream_id: u64, from: Address, to: Address) -> (r: Result<(), Error>)
        requires
            old(self).wf(),
        ensures
            final(self).wf(),
            match r {
                Err(e) => e == (if stream_id >= old(self).streams().len() {
                    Error::StreamNotFound
                } else {
                    Error::NotReceiptOwner
                }) && (stream_id < old(self).streams().len() ==> old(self).receipts()[stream_id as int].owner
                    != from) && *final(self) == *old(self),
                Ok(()) => {
                    let id = stream_id as int;
                    let s = old(self).streams()[id];
                    &&& id < old(self).streams().len()
                    &&& old(self).receipts()[id].owner == from
                    &&& final(self).streams() == old(self).streams().update(id, Stream { receipt_owner: to, ..s })
                    &&& final(self).receipts() == old(self).receipts().update(
                        id,
                        StreamReceipt { owner: to, ..old(self).receipts()[id] },
                    )
                    &&& final(self).proposals() == old(self).proposals()
                    &&& final(self).outbox() == old(self).outbox()
                    &&& final(self).cfg() == old(self).cfg()
                    &&& final(self).is_locked() == old(self).is_locked()
                },
            },
    {
        if stream_id >= self.receipts.len() as u64 {
            return Err(Error::StreamNotFound);
        }
        let idx = stream_id as usize;
        if self.receipts[idx].owner != from {
            return Err(Error::NotReceiptOwner);
        }
        self.move_receipt(idx, to);
        Ok(())
    }

    /// Gives the receipt of stream `idx` to `to`, on both records.
    fn move_receipt(&mut self, idx: usize, to: Address)
        requires
            old(self).wf(),
            idx < old(self).streams().len(),
        ensures
            final(self).wf(),
            final(self).streams() == old(self).streams().update(
                idx as int,
                Stream { receipt_owner: to, ..old(self).streams()[idx as int] },
            ),
            final(self).receipts() == old(self).receipts().update(
                idx as int,
                StreamReceipt { owner: to, ..old(self).receipts()[idx as int] },
            ),
            final(self).config == old(self).config,
            final(self).proposals == old(self).proposals,
            final(self).locked == old(self).locked,
            final(self).outbox == old(self).outbox,
    {
        proof {
            self.lemma_unfold_wf();
        }
        let s = self.streams[idx];
        let receipt = self.receipts[idx];
        self.streams.set(idx, Stream { receipt_owner: to, ..s });
        self.receipts.set(idx, StreamReceipt { owner: to, ..receipt });
        proof {
            let ss = self.streams@;
            let rs = self.receipts@;
            assert(old(self).streams@[idx as int].wf());
            assert forall|i: int| 0 <= i < ss.len() implies #[trigger] ss[i].wf() by {
                if i != idx {
                    assert(ss[i] == old(self).streams@[i]);
                }
            }
            assert forall|i: int| 0 <= i < rs.len() implies (#[trigger] rs[i]).stream_id == i && rs[i].owner
                == ss[i].receipt_owner by {
                if i != idx {
                    assert(ss[i] == old(self).streams@[i]);
                    assert(rs[i] == old(self).receipts@[i]);
                }
            }
        }
    }

    /// Reassigns the receiver of stream `stream_id` from `caller`, who must be
    /// the current receiver, to `new_receiver`. The withdrawal right follows
    /// when the caller still holds it. No funds move.
    ///
    /// Fails on an unknown stream, then for any caller but the receiver.
    pub fn transfer_receiver(&mut self, stream_id: u64, caller: Address, new_receiver: Address) -> (r: Result<(), Error>)
        requires
            old(self).wf(),
        ensures
            final(self).wf(),
            match r {
                Err(e) => e == (if stream_id >= old(self).streams().len() {
                    Error::StreamNotFound
                } else {
                    Error::Unauthorized
                }) && (stream_id < old(self).streams().len() ==> old(self).streams()[stream_id as int].receiver
                    != caller) && *final(self) == *old(self),
                Ok(()) => {
                    let id = stream_id as int;
                    let s = old(self).streams()[id];
                    let moves = s.receipt_owner == caller;
                    &&& id < old(self).streams().len()
                    &&& s.receiver == caller
                    &&& final(self).streams() == old(self).streams().update(
                        id,
                        Stream {
                            receiver: new_receiver,
                            receipt_owner: if moves { new_receiver } else { s.receipt_owner },
                            ..s
                        },
                    )
                    &&& final(self).receipts() == old(self).receipts().update(
                        id,
                        StreamReceipt {
                            owner: if moves { new_receiver } else { s.receipt_owner },
                            ..old(self).receipts()[id]
                        },
                    )
                    &&& final(self).proposals() == old(self).proposals()
                    &&& final(self).outbox() == old(self).outbox()
                    &&& final(self).cfg() == old(self).cfg()
                    &&& final(self).is_locked() == old(self).is_locked()
                },
            },
    {
        if stream_id >= self.streams.len() as u64 {
            return Err(Error::StreamNotFound);
        }
        proof {
            self.lemma_unfold_wf();
        }
        let idx = stream_id as usize;
        let s = self.streams[idx];
        proof {
            assert(s.wf());
        }
        if s.receiver != caller {
            return Err(Error::Unauthorized);
        }
        if s.receipt_owner == caller {
            self.move_receipt(idx, new_receiver);
        }
        let moved = self.streams[idx];
        proof {
            assert(self.streams@[idx as int].wf()) by {
                self.lemma_unfold_wf();
            }
        }
        self.replace_stream(idx, Stream { receiver: new_receiver, ..moved });
        proof {
            if s.receipt_owner != caller {
                assert(self.receipts@ =~= old(self).receipts@.update(idx as int, StreamReceipt { owner: s.receipt_owner, ..old(self).receipts@[idx as int] }));
            }
        }
        Ok(())
    }

    /// Stream `stream_id` as it stands.
    pub fn get_stream(&self, stream_id: u64) -> (r: Result<Stream, Error>)
        ensures
            stream_id < self.streams().len() ==> r == Ok::<Stream, Error>(self.streams()[stream_id as int]),
            stream_id >= self.streams().len() ==> r == Err::<Stream, Error>(Error::StreamNotFound),
    {
        if stream_id >= self.streams.len() as u64 {
            return Err(Error::StreamNotFound);
        }
        Ok(self.streams[stream_id as usize])
    }

    /// The receipt of stream `stream_id`.
    pub fn get_receipt(&self, stream_id: u64) -> (r: Result<StreamReceipt, Error>)
        ensures
            stream_id < self.receipts().len() ==> r == Ok::<StreamReceipt, Error>(self.receipts()[stream_id as int]),
            stream_id >= self.receipts().len() ==> r == Err::<StreamReceipt, Error>(Error::StreamNotFound),
    {
        if stream_id >= self.receipts.len() as u64 {
            return Err(Error::StreamNotFound);
        }
        Ok(self.receipts[stream_id as usize])
    }

    /// Balances of stream `stream_id` at `now`: what has not unlocked yet, and
    /// what has unlocked and not been withdrawn.
    pub fn get_receipt_metadata(&self, stream_id: u64, now: u64) -> (r: Result<ReceiptMetadata, Error>)
        requires
            self.wf(),
        ensures
            stream_id >= self.streams().len() ==> r == Err::<ReceiptMetadata, Error>(Error::StreamNotFound),
            stream_id < self.streams().len() ==> {
                let s = self.streams()[stream_id as int];
                r == Ok::<ReceiptMetadata, Error>(
                    ReceiptMetadata {
                        stream_id,
                        locked_balance: (s.total_amount - stream_unlocked(s, now)) as i128,
                        unlocked_balance: (stream_unlocked(s, now) - s.withdrawn) as i128,
                        total_amount: s.total_amount,
                        token: s.token,
                    },
                )
            },
    {
        if stream_id >= self.streams.len() as u64 {
            return Err(Error::StreamNotFound);
        }
        proof {
            self.lemma_unfold_wf();
        }
        let s = self.streams[stream_id as usize];
        proof {
            assert(s.wf());
        }
        let unlocked = Self::calculate_unlocked(&s, now);
        Ok(ReceiptMetadata {
            stream_id,
            locked_balance: s.total_amount - unlocked,
            unlocked_balance: unlocked - s.withdrawn,
            total_amount: s.total_amount,
            token: s.token,
        })
    }

    /// Proposal `proposal_id` as it stands.
    pub fn get_proposal(&self, proposal_id: u64) -> (r: Result<StreamProposal, Error>)
        ensures
            proposal_id >= self.proposals().len() ==> r is Err && r->Err_0 == Error::ProposalNotFound,
            proposal_id < self.proposals().len() ==> r is Ok && same_terms(self.proposals()[proposal_id as int], r->Ok_0)
                && r->Ok_0.approvers@ == self.proposals()[proposal_id as int].approvers@
                && r->Ok_0.executed == self.proposals()[proposal_id as int].executed,
    {
        if proposal_id >= self.proposals.len() as u64 {
            return Err(Error::ProposalNotFound);
        }
        Ok(copy_proposal(&self.proposals[proposal_id as usize]))
    }

    /// Hands the decided transfers to the host, oldest first, and empties the
    /// outbox.
    pub fn take_transfers(&mut self) -> (r: Vec<Transfer>)
        requires
            old(self).wf(),
        ensures
            final(self).wf(),
            r@ == old(self).outbox(),
            final(self).outbox().len() == 0,
            final(self).cfg() == old(self).cfg(),
            final(self).streams() == old(self).streams(),
            final(self).receipts() == old(self).receipts(),
            final(self).proposals() == old(self).proposals(),
            final(self).is_locked() == old(self).is_locked(),
    {
        proof {
            self.lemma_unfold_wf();
        }
        let mut taken: Vec<Transfer> = Vec::new();
        std::mem::swap(&mut self.outbox, &mut taken);
        taken
    }

    /// The fee and admin policy.
    pub fn get_config(&self) -> (c: Config)
        ensures
            c == self.cfg(),
    {
        self.config
    }

    /// Installs a new policy.
    fn set_config(&mut self, c: Config)
        requires
            old(self).wf(),
            c.wf(),
        ensures
            final(self).wf(),
            final(self).cfg() == c,
            final(self).streams() == old(self).streams(),
            final(self).receipts() == old(self).receipts(),
            final(self).proposals() == old(self).proposals(),
            final(self).outbox() == old(self).outbox(),
            final(self).is_locked() == old(self).is_locked(),
    {
        proof {
            self.lemma_unfold_wf();
        }
        self.config = c;
    }

    /// Only the policy differs between `pre` and `post`, and it is `c`.
    pub open spec fn config_set(pre: &Self, post: &Self, c: Config) -> bool {
        &&& post.cfg() == c
        &&& post.streams() == pre.streams()
        &&& post.receipts() == pre.receipts()
        &&& post.proposals() == pre.proposals()
        &&& post.outbox() == pre.outbox()
        &&& post.is_locked() == pre.is_locked()
    }

    /// Sets the admin, the treasury and the protocol fee, once.
    ///
    /// Fails when an admin is already set, then on a fee above 1000 basis
    /// points.
    pub fn initialize(&mut self, admin: Address, treasury: Address, fee_bps: u32) -> (r: Result<(), Error>)
        requires
            old(self).wf(),
        ensures
            final(self).wf(),
            match r {
                Err(e) => e == (if old(self).cfg().admin.is_some() {
                    Error::AlreadyInitialized
                } else {
                    Error::InvalidFee
                }) && (old(self).cfg().admin.is_none() ==> fee_bps > MAX_FEE_BPS) && *final(self) == *old(self),
                Ok(()) => old(self).cfg().admin.is_none() && fee_bps <= MAX_FEE_BPS && Self::config_set(
                    old(self),
                    final(self),
                    Config { admin: Some(admin), treasury: Some(treasury), fee_bps, ..old(self).cfg() },
                ),
            },
    {
        if self.config.admin.is_some() {
            return Err(Error::AlreadyInitialized);
        }
        if fee_bps > MAX_FEE_BPS {
            return Err(Error::InvalidFee);
        }
        self.set_config(Config { admin: Some(admin), treasury: Some(treasury), fee_bps, ..self.config });
        Ok(())
    }

    /// Why `caller` may not change the policy, if it may not.
    pub open spec fn admin_error(&self, caller: Address) -> Option<Error> {
        match self.cfg().admin {
            None => Some(Error::NotInitialized),
            Some(a) => if a != caller {
                Some(Error::Unauthorized)
            } else {
                None
            },
        }
    }

    /// Checks that `caller` is the admin.
    fn check_admin(&self, caller: Address) -> (r: Result<(), Error>)
        ensures
            match r {
                Ok(()) => self.admin_error(caller).is_none(),
                Err(e) => self.admin_error(caller) == Some(e),
            },
    {
        match self.config.admin {
            None => Err(Error::NotInitialized),
            Some(a) => if a != caller {
                Err(Error::Unauthorized)
            } else {
                Ok(())
            },
        }
    }

    /// Sets the protocol fee, for the admin.
    ///
    /// Fails before initialization, for any other caller, then on a fee above
    /// 1000 basis points.
    pub fn set_fee_bps(&mut self, caller: Address, fee_bps: u32) -> (r: Result<(), Error>)
        requires
            old(self).wf(),
        ensures
            final(self).wf(),
            match r {
                Err(e) => (old(self).admin_error(caller) == Some(e) || (old(self).admin_error(caller).is_none()
                    && fee_bps > MAX_FEE_BPS && e == Error::InvalidFee)) && *final(self) == *old(self),
                Ok(()) => old(self).admin_error(caller).is_none() && fee_bps <= MAX_FEE_BPS && Self::config_set(
                    old(self),
                    final(self),
                    Config { fee_bps, ..old(self).cfg() },
                ),
            },
    {
        let checked = self.check_admin(caller);
        if let Err(e) = checked {
            return Err(e);
        }
        if fee_bps > MAX_FEE_BPS {
            return Err(Error::InvalidFee);
        }
        self.set_config(Config { fee_bps, ..self.config });
        Ok(())
    }

    /// Sets the treasury, for the admin.
    ///
    /// Fails before initialization, then for any other caller.
    pub fn set_treasury(&mut self, caller: Address, treasury: Address) -> (r: Result<(), Error>)
        requires
            old(self).wf(),
        ensures
            final(self).wf(),
            match r {
                Err(e) => old(self).admin_error(caller) == Some(e) && *final(self) == *old(self),
                Ok(()) => old(self).admin_error(caller).is_none() && Self::config_set(
                    old(self),
                    final(self),
                    Config { treasury: Some(treasury), ..old(self).cfg() },
                ),
            },
    {
        let checked = self.check_admin(caller);
        if let Err(e) = checked {
            return Err(e);
        }
        self.set_config(Config { treasury: Some(treasury), ..self.config });
        Ok(())
    }

    /// Pauses or resumes stream creation, for the admin.
    ///
    /// Fails before initialization, then for any other caller.
    pub fn set_paused(&mut self, caller: Address, paused: bool) -> (r: Result<(), Error>)
        requires
            old(self).wf(),
        ensures
            final(self).wf(),
            match r {
                Err(e) => old(self).admin_error(caller) == Some(e) && *final(self) == *old(self),
                Ok(()) => old(self).admin_error(caller).is_none() && Self::config_set(
                    old(self),
                    final(self),
                    Config { paused, ..old(self).cfg() },
                ),
            },
    {
        let checked = self.check_admin(caller);
        if let Err(e) = checked {
            return Err(e);
        }
        self.set_config(Config { paused, ..self.config });
        Ok(())
    }

    /// Creates one stream per request, all funded by `sender` with `token`,
    /// atomically: every request is checked before anything changes, one
    /// aggregate deposit of the sum of the amounts comes in, and the streams
    /// get consecutive ids, which are returned in order.
    ///
    /// Fails while the engine is paused, then with the first refused request's
    /// error (as for [`Self::create_vesting_stream`]), then when the sum of the
    /// amounts does not fit in an `i128`.
    pub fn create_batch_streams(
        &mut self,
        sender: Address,
        token: Address,
        requests: &Vec<StreamRequest>,
        now: u64,
    ) -> (r: Result<Vec<u64>, Error>)
        requires
            old(self).wf(),
        ensures
            final(self).wf(),
            match r {
                Err(e) => batch_error(old(self).cfg(), requests@) == Some(e) && *final(self) == *old(self),
                Ok(ids) => {
                    let first = old(self).streams().len();
                    &&& batch_error(old(self).cfg(), requests@).is_none()
                    &&& ids@ == Seq::new(requests@.len(), |i: int| (first + i) as u64)
                    &&& final(self).streams() == old(self).streams() + batch_streams(
                        old(self).cfg(),
                        sender,
                        token,
                        requests@,
                    )
                    &&& final(self).receipts() == old(self).receipts() + batch_receipts(first as int, requests@, now)
                    &&& final(self).outbox() == batch_transfers(
                        pay(old(self).outbox(), token, Holder::Account(sender), Holder::Custody, amount_sum(requests@)),
                        old(self).cfg(),
                        token,
                        requests@,
                    )
                    &&& final(self).proposals() == old(self).proposals()
                    &&& final(self).cfg() == old(self).cfg()
                    &&& final(self).is_locked() == old(self).is_locked()
                },
            },
    {
        if self.config.paused {
            return Err(Error::ContractPaused);
        }
        let n = requests.len();
        let mut i: usize = 0;
        while i < n
            invariant
                n == requests@.len(),
                0 <= i <= n,
                requests_error(requests@.subrange(0, i as int)).is_none(),
                *self == *old(self),
                old(self).wf(),
                !old(self).cfg().paused,
            decreases n - i,
        {
            let q = requests[i];
            proof {
                let pre = requests@.subrange(0, i as int + 1);
                assert(pre.drop_last() =~= requests@.subrange(0, i as int));
                assert(pre.last() == q);
            }
            let checked = Self::check_schedule(q.amount, q.start_time, q.cliff_time, q.end_time, q.interest_strategy);
            if let Err(e) = checked {
                proof {
                    lemma_requests_error_prefix(requests@, i as int + 1);
                }
                return Err(e);
            }
            i += 1;
        }
        proof {
            assert(requests@.subrange(0, n as int) =~= requests@);
            lemma_requests_valid(requests@);
        }
        let mut total: i128 = 0;
        let mut i: usize = 0;
        while i < n
            invariant
                n == requests@.len(),
                0 <= i <= n,
                total == amount_sum(requests@.subrange(0, i as int)),
                forall|j: int| 0 <= j < requests@.len() ==> (#[trigger] requests@[j]).amount > 0,
                *self == *old(self),
                old(self).wf(),
                !old(self).cfg().paused,
                requests_error(requests@).is_none(),
            decreases n - i,
        {
            proof {
                let pre = requests@.subrange(0, i as int + 1);
                assert(pre.drop_last() =~= requests@.subrange(0, i as int));
                assert(pre.last() == requests@[i as int]);
            }
            match total.checked_add(requests[i].amount) {
                Some(t) => {
                    total = t;
                },
                None => {
                    proof {
                        lemma_prefix_sum(requests@, i as int + 1);
                    }
                    return Err(Error::Overflow);
                },
            }
            i += 1;
        }
        proof {
            assert(requests@.subrange(0, n as int) =~= requests@);
            self.lemma_unfold_wf();
        }
        let first = self.streams.len();
        let ghost start = *self;
        self.pay(token, Holder::Account(sender), Holder::Custody, total);
        let ghost funded = self.outbox@;
        let treasury = self.protocol_account();
        let mut ids: Vec<u64> = Vec::new();
        let mut i: usize = 0;
        while i < n
            invariant
                n == requests@.len(),
                0 <= i <= n,
                first == start.streams().len(),
                start.wf(),
                self.wf(),
                !self.config.paused,
                treasury == protocol_holder(self.cfg()),
                self.cfg() == start.cfg(),
                self.proposals() == start.proposals(),
                self.is_locked() == start.is_locked(),
                forall|j: int|
                    0 <= j < requests@.len() ==> schedule_error(
                        (#[trigger] requests@[j]).amount as int,
                        requests@[j].start_time,
                        requests@[j].cliff_time,
                        requests@[j].end_time,
                        requests@[j].interest_strategy,
                    ).is_none(),
                ids@ == Seq::new(i as nat, |j: int| (first + j) as u64),
                self.streams() == start.streams() + batch_streams(
                    start.cfg(),
                    sender,
                    token,
                    requests@.subrange(0, i as int),
                ),
                self.receipts() == start.receipts() + batch_receipts(first as int, requests@.subrange(0, i as int), now),
                self.outbox() == batch_transfers(funded, start.cfg(), token, requests@.subrange(0, i as int)),
            decreases n - i,
        {
            let q = requests[i];
            let ghost before = *self;
            let fee = protocol_fee(q.amount, self.config.fee_bps);
            let net = q.amount - fee;
            self.pay(token, Holder::Custody, treasury, fee);
            match q.vault_address {
                Some(v) => self.pay(token, Holder::Custody, Holder::Account(v), net),
                None => {},
            }
            let id = self.open_stream(
                sender,
                q.receiver,
                token,
                net,
                q.start_time,
                q.cliff_time,
                q.end_time,
                q.interest_strategy,
                q.vault_address,
                q.metadata,
                now,
            );
            ids.push(id);
            proof {
                let pre = requests@.subrange(0, i as int);
                let post = requests@.subrange(0, i as int + 1);
                assert(post.drop_last() =~= pre);
                assert(post.last() == q);
                assert(post =~= pre.push(q));
                assert(batch_streams(start.cfg(), sender, token, post) =~= batch_streams(
                    start.cfg(),
                    sender,
                    token,
                    pre,
                ).push(
                    opened_stream(
                        sender,
                        q.receiver,
                        token,
                        net as int,
                        q.start_time,
                        q.cliff_time,
                        q.end_time,
                        q.interest_strategy,
                        q.vault_address,
                        q.metadata,
                    ),
                ));
                assert(self.streams() =~= start.streams() + batch_streams(start.cfg(), sender, token, post));
                assert(batch_receipts(first as int, post, now) =~= batch_receipts(first as int, pre, now).push(
                    StreamReceipt { stream_id: id, owner: q.receiver, minted_at: now },
                ));
                assert(self.receipts() =~= start.receipts() + batch_receipts(first as int, post, now));
                assert(ids@ =~= Seq::new((i + 1) as nat, |j: int| (first + j) as u64));
            }
            i += 1;
        }
        proof {
            assert(requests@.subrange(0, n as int) =~= requests@);
        }
        Ok(ids)
    }

    /// Withdrawing twice at the same time pays nothing the second time:
    /// right after a withdrawal, nothing more is withdrawable at that time,
    /// and a second withdrawal is refused with `InsufficientBalance`, whatever
    /// the vault then holds.
    pub proof fn lemma_no_double_withdrawal(
        pre: &Self,
        post: &Self,
        stream_id: u64,
        caller: Address,
        now: u64,
        vault_balance: i128,
        paid: i128,
        next_balance: i128,
    )
        requires
            pre.wf(),
            pre.withdraw_error(stream_id, caller, now, vault_balance).is_none(),
            Self::withdrawn(pre, post, stream_id, caller, now, vault_balance, paid),
        ensures
            withdrawable_of(post.streams()[stream_id as int], now) == 0,
            post.withdraw_error(stream_id, caller, now, next_balance) == Some(Error::InsufficientBalance),
    {
        let s = pre.streams()[stream_id as int];
        assert(s.wf());
        crate::math::lemma_unlocked_bounded(
            s.total_amount as int,
            s.start_time as int,
            s.cliff_time as int,
            s.end_time as int,
            s.total_paused_duration as int,
            now as int,
        );
        assert(post.streams()[stream_id as int].withdrawn == s.withdrawn + withdrawable_of(s, now));
    }

    /// The interest a stream with a vault pays out never exceeds the vault's
    /// interest `max(vault_balance - deposited_principal, 0)`: on a
    /// withdrawal it is at most the share pro-rated to the principal withdrawn,
    /// on a cancellation all of it goes out when some party is named; every
    /// share is non-negative, and with no interest nothing is paid.
    pub proof fn lemma_interest_within_vault_excess(pre: &Self, stream_id: u64, now: u64, vault_balance: i128)
        requires
            pre.wf(),
            stream_id < pre.streams().len(),
            pre.streams()[stream_id as int].vault_address.is_some(),
            withdrawable_of(pre.streams()[stream_id as int], now) >= 0,
        ensures
            ({
                let s = pre.streams()[stream_id as int];
                let interest = interest_of(vault_balance as int, s.deposited_principal as int);
                let w = withdrawal_interest(s, now, vault_balance);
                let c = cancellation_interest(s, vault_balance);
                &&& w.0 >= 0 && w.1 >= 0 && w.2 >= 0
                &&& w.0 + w.1 + w.2 <= interest * withdrawable_of(s, now) / (s.total_amount as int)
                &&& w.0 + w.1 + w.2 <= interest
                &&& c.0 >= 0 && c.1 >= 0 && c.2 >= 0
                &&& c.0 + c.1 + c.2 <= interest
                &&& crate::interest::party_count(s.interest_strategy) > 0 ==> c.0 + c.1 + c.2 == interest
                &&& interest == 0 ==> w == (0int, 0int, 0int) && c == (0int, 0int, 0int)
            }),
    {
        let s = pre.streams()[stream_id as int];
        assert(s.wf());
        let interest = interest_of(vault_balance as int, s.deposited_principal as int);
        crate::math::lemma_unlocked_bounded(
            s.total_amount as int,
            s.start_time as int,
            s.cliff_time as int,
            s.end_time as int,
            s.total_paused_duration as int,
            (if s.is_paused { s.paused_time } else { now }) as int,
        );
        crate::math::lemma_ratio_bounded(interest, withdrawable_of(s, now), s.total_amount as int);
        let share = interest * withdrawable_of(s, now) / (s.total_amount as int);
        crate::interest::lemma_distribution_conserves(share, s.interest_strategy);
        crate::interest::lemma_distribution_conserves(interest, s.interest_strategy);
    }

    /// Cancelling stream `stream_id` pays out exactly what it still held:
    /// the receiver's and the sender's parts, both non-negative, add up to the
    /// total minus what was withdrawn before. The cancellation is owed to its
    /// sender and to the holder of its receipt while it is live and the
    /// reentrancy guard is free (a held guard refuses every cancellation).
    pub proof fn lemma_cancel_conserves(pre: &Self, stream_id: u64, caller: Address, now: u64)
        requires
            pre.wf(),
            stream_id < pre.streams().len(),
        ensures
            ({
                let s = pre.streams()[stream_id as int];
                let split = cancel_split(s, now);
                &&& split.0 + split.1 == s.total_amount - s.withdrawn
                &&& split.0 >= 0
                &&& split.1 >= 0
                &&& !pre.is_locked() && !s.cancelled && (caller == s.sender || caller == s.receipt_owner)
                    ==> pre.cancel_error(stream_id, caller).is_none()
            }),
    {
        let s = pre.streams()[stream_id as int];
        assert(s.wf());
        crate::math::lemma_unlocked_bounded(
            s.total_amount as int,
            s.start_time as int,
            s.cliff_time as int,
            s.end_time as int,
            s.total_paused_duration as int,
            (if s.is_paused { s.paused_time } else { now }) as int,
        );
    }

    /// The approval that brings a pending proposal to its threshold, by a new
    /// approver before the deadline, is owed whatever the fee, as long as
    /// stream creation is not paused; it then opens a stream of the
    /// proposal's amount net of the fee (see [`Self::approved`]).
    pub proof fn lemma_executing_approval_owed(pre: &Self, proposal_id: u64, approver: Address, now: u64)
        requires
            pre.wf(),
            proposal_id < pre.proposals().len(),
            !pre.proposals()[proposal_id as int].executed,
            pre.proposals()[proposal_id as int].approvers@.len() + 1 == pre.proposals()[proposal_id as int].required_approvals,
            now <= pre.proposals()[proposal_id as int].deadline,
            !pre.proposals()[proposal_id as int].approvers@.contains(approver),
            !pre.cfg().paused,
        ensures
            pre.approval_error(proposal_id, approver, now).is_none(),
    {
        assert(pre.proposals()[proposal_id as int].wf());
    }

    /// Once a stream is paused at `paused_at`, the unlocked amount seen at
    /// any later time is the amount that had unlocked at `paused_at`, until
    /// the stream is resumed.
    pub proof fn lemma_pause_freezes(s: Stream, paused_at: u64, later: u64)
        requires
            !s.is_paused,
        ensures
            stream_unlocked(paused_stream(s, paused_at), later) == stream_unlocked(s, paused_at),
    {
    }

    /// The records the host persists between calls: policy, streams,
    /// receipts and proposals. The guard and the outbox are transient and
    /// are not part of it.
    pub fn save(&self) -> (r: (Config, Vec<Stream>, Vec<StreamReceipt>, Vec<StreamProposal>))
        ensures
            r.0 == self.cfg(),
            r.1@ == self.streams(),
            r.2@ == self.receipts(),
            r.3@.len() == self.proposals().len(),
            forall|i: int|
                0 <= i < r.3@.len() ==> same_terms(self.proposals()[i], #[trigger] r.3@[i])
                    && r.3@[i].approvers@ == self.proposals()[i].approvers@ && r.3@[i].executed
                    == self.proposals()[i].executed,
    {
        let mut proposals: Vec<StreamProposal> = Vec::new();
        let n = self.proposals.len();
        let mut i: usize = 0;
        while i < n
            invariant
                n == self.proposals@.len(),
                0 <= i <= n,
                proposals@.len() == i,
                forall|j: int|
                    0 <= j < i ==> same_terms(self.proposals@[j], #[trigger] proposals@[j])
                        && proposals@[j].approvers@ == self.proposals@[j].approvers@ && proposals@[j].executed
                        == self.proposals@[j].executed,
            decreases n - i,
        {
            proposals.push(copy_proposal(&self.proposals[i]));
            i += 1;
        }
        (self.config, self.streams.clone(), self.receipts.clone(), proposals)
    }

    /// An engine holding saved records, with the guard free and an empty
    /// outbox; `None` when the records break the engine's invariant.
    pub fn restore(
        config: Config,
        streams: Vec<Stream>,
        receipts: Vec<StreamReceipt>,
        proposals: Vec<StreamProposal>,
    ) -> (r: Option<Self>)
        ensures
            r is None <==> !records_wf(config, streams@, receipts@, proposals@),
            r is Some ==> {
                let c = r->Some_0;
                &&& c.wf()
                &&& c.cfg() == config
                &&& c.streams() == streams@
                &&& c.receipts() == receipts@
                &&& c.proposals() == proposals@
                &&& !c.is_locked()
                &&& c.outbox().len() == 0
            },
    {
        if config.fee_bps > MAX_FEE_BPS || receipts.len() != streams.len() {
            return None;
        }
        let n = streams.len();
        let mut i: usize = 0;
        while i < n
            invariant
                n == streams@.len(),
                n == receipts@.len(),
                0 <= i <= n,
                forall|j: int| 0 <= j < i ==> #[trigger] streams@[j].wf(),
                forall|j: int|
                    0 <= j < i ==> (#[trigger] receipts@[j]).stream_id == j && receipts@[j].owner
                        == streams@[j].receipt_owner,
            decreases n - i,
        {
            if !stream_ok(&streams[i]) || receipts[i].stream_id != i as u64 || receipts[i].owner
                != streams[i].receipt_owner {
                proof {
                    assert(!streams@[i as int].wf() || receipts@[i as int].stream_id != i || receipts@[i as int].owner
                        != streams@[i as int].receipt_owner);
                }
                return None;
            }
            i += 1;
        }
        let m = proposals.len();
        let mut i: usize = 0;
        while i < m
            invariant
                m == proposals@.len(),
                0 <= i <= m,
                forall|j: int| 0 <= j < i ==> #[trigger] proposals@[j].wf(),
            decreases m - i,
        {
            if !proposal_ok(&proposals[i]) {
                proof {
                    assert(!proposals@[i as int].wf());
                }
                return None;
            }
            i += 1;
        }
        let c = StellarStreamContract { config, streams, receipts, proposals, locked: false, outbox: Vec::new() };
        proof {
            assert(c.streams() == c.streams@);
            assert(forall|i: int| 0 <= i < c.streams@.len() ==> #[trigger] c.streams@[i].wf());
            assert(forall|i: int| 0 <= i < c.proposals@.len() ==> #[trigger] c.proposals@[i].wf());
        }
        Some(c)
    }

    /// Creates a stream without cliff, vault or yield sharing: `total_amount`
    /// of `token` from `sender` to `receiver`, unlocking linearly from
    /// `start_time` to `end_time`. Fails as [`Self::create_vesting_stream`]
    /// does.
    pub fn create_stream(
        &mut self,
        sender: Address,
        receiver: Address,
        token: Address,
        total_amount: i128,
        start_time: u64,
        end_time: u64,
        now: u64,
    ) -> (r: Result<u64, Error>)
        requires
            old(self).wf(),
        ensures
            final(self).wf(),
            match r {
                Err(e) => old(self).request_error(simple_request(receiver, total_amount, start_time, end_time))
                    == Some(e) && *final(self) == *old(self),
                Ok(id) => {
                    &&& old(self).request_error(simple_request(receiver, total_amount, start_time, end_time)).is_none()
                    &&& Self::stream_opened(
                        old(self),
                        final(self),
                        sender,
                        token,
                        simple_request(receiver, total_amount, start_time, end_time),
                        now,
                        id,
                    )
                    &&& final(self).proposals() == old(self).proposals()
                },
            },
    {
        let request = StreamRequest {
            receiver,
            amount: total_amount,
            start_time,
            cliff_time: start_time,
            end_time,
            interest_strategy: 0,
            vault_address: None,
            metadata: None,
        };
        self.create_vesting_stream(sender, token, request, now)
    }
}

/// Principal of `s` unlocked at `now`. While the stream is paused, time
/// stands still at the moment the pause began; completed pauses push the
/// schedule back by their total length.
pub open spec fn stream_unlocked(s: Stream, now: u64) -> int {
    unlocked_at(
        s.total_amount as int,
        s.start_time as int,
        s.cliff_time as int,
        s.end_time as int,
        s.total_paused_duration as int,
        (if s.is_paused { s.paused_time } else { now }) as int,
    )
}

/// Principal of `s` that may be withdrawn at `now`.
pub open spec fn withdrawable_of(s: Stream, now: u64) -> int {
    stream_unlocked(s, now) - s.withdrawn
}

/// The yield split that goes with a withdrawal from `s` at `now`, when the
/// vault holds `vault_balance`: the interest `max(vault_balance -
/// deposited_principal, 0)`, pro-rated by the share of the whole principal withdrawn now,
/// then split by the stream's strategy. Nothing without a vault.
pub open spec fn withdrawal_interest(s: Stream, now: u64, vault_balance: i128) -> (int, int, int) {
    if s.vault_address.is_some() {
        let total_interest = interest_of(vault_balance as int, s.deposited_principal as int);
        split_of(total_interest * withdrawable_of(s, now) / (s.total_amount as int), s.interest_strategy)
    } else {
        (0, 0, 0)
    }
}

/// The yield split on cancelling `s`: all of the interest
/// `max(vault_balance - deposited_principal, 0)`. Nothing without a vault.
pub open spec fn cancellation_interest(s: Stream, vault_balance: i128) -> (int, int, int) {
    if s.vault_address.is_some() {
        split_of(interest_of(vault_balance as int, s.deposited_principal as int), s.interest_strategy)
    } else {
        (0, 0, 0)
    }
}

/// What `s` owes at settlement: everything unlocked by `now`, and never less
/// than what was already paid.
pub open spec fn settled_of(s: Stream, now: u64) -> int {
    if stream_unlocked(s, now) > s.withdrawn {
        stream_unlocked(s, now)
    } else {
        s.withdrawn as int
    }
}

/// The split of what remains of `s` on cancellation at `now`, as
/// (to the receiver, to the sender): the receiver gets what unlocked and was
/// not withdrawn, the sender the principal that never unlocked.
pub open spec fn cancel_split(s: Stream, now: u64) -> (int, int) {
    (settled_of(s, now) - s.withdrawn, s.total_amount - settled_of(s, now))
}

/// The interest shares, in the order sender, `to`, protocol, paid out of
/// `from`.
pub open spec fn pay_interest(
    t: Seq<Transfer>,
    config: Config,
    s: Stream,
    from: Holder,
    to: Address,
    d: (int, int, int),
) -> Seq<Transfer> {
    pay(
        pay(pay(t, s.token, from, Holder::Account(s.sender), d.0), s.token, from, Holder::Account(to), d.1),
        s.token,
        from,
        protocol_holder(config),
        d.2,
    )
}

/// The transfers of a withdrawal of `w` from `s` by `caller`: the interest
/// shares `d`, then the principal, all out of the stream's custodian.
pub open spec fn withdrawal_transfers(
    t: Seq<Transfer>,
    config: Config,
    s: Stream,
    caller: Address,
    w: int,
    d: (int, int, int),
) -> Seq<Transfer> {
    let from = custody_of(s.vault_address);
    pay(pay_interest(t, config, s, from, caller, d), s.token, from, Holder::Account(caller), w)
}

/// The transfers of cancelling `s` at `now`: the interest shares `d`, then
/// the receiver's and the sender's principal, out of the stream's custodian.
pub open spec fn cancellation_transfers(
    t: Seq<Transfer>,
    config: Config,
    s: Stream,
    now: u64,
    d: (int, int, int),
) -> Seq<Transfer> {
    let from = custody_of(s.vault_address);
    let split = cancel_split(s, now);
    pay(
        pay(pay_interest(t, config, s, from, s.receipt_owner, d), s.token, from, Holder::Account(s.receipt_owner), split.0),
        s.token,
        from,
        Holder::Account(s.sender),
        split.1,
    )
}

/// `s` after `w` more of its principal was paid out; what a vault holds
/// for it falls by as much.
pub open spec fn withdrawn_stream(s: Stream, w: int) -> Stream {
    Stream {
        withdrawn: (s.withdrawn + w) as i128,
        deposited_principal: if s.vault_address.is_some() {
            (s.deposited_principal - w) as i128
        } else {
            s.deposited_principal
        },
        ..s
    }
}

/// `s` cancelled at `now`: everything unlocked counts as withdrawn, and a
/// vault holds nothing for it any more.
pub open spec fn cancelled_stream(s: Stream, now: u64) -> Stream {
    Stream {
        cancelled: true,
        withdrawn: settled_of(s, now) as i128,
        deposited_principal: if s.vault_address.is_some() { 0 } else { s.deposited_principal },
        ..s
    }
}

/// `a + b`, or `u64::MAX` when that does not fit.
pub open spec fn saturating_sum(a: int, b: int) -> int {
    if a + b > u64::MAX {
        u64::MAX as int
    } else {
        a + b
    }
}

/// `s` after a pause that began at `now`.
pub open spec fn paused_stream(s: Stream, now: u64) -> Stream {
    Stream { is_paused: true, paused_time: now, ..s }
}

/// `s` after its pause ended at `now`: the pause's length (none if the clock
/// reads earlier than the pause) is added to the paused total.
pub open spec fn resumed_stream(s: Stream, now: u64) -> Stream {
    let length = if now >= s.paused_time { now - s.paused_time } else { 0 };
    Stream {
        is_paused: false,
        paused_time: 0,
        total_paused_duration: saturating_sum(s.total_paused_duration as int, length) as u64,
        ..s
    }
}

/// Whether `addresses` holds `a`, by a linear scan.
fn holds_address(addresses: &Vec<Address>, a: Address) -> (r: bool)
    ensures
        r == addresses@.contains(a),
{
    let n = addresses.len();
    let mut i: usize = 0;
    while i < n
        invariant
            n == addresses@.len(),
            0 <= i <= n,
            forall|j: int| 0 <= j < i ==> addresses@[j] != a,
        decreases n - i,
    {
        if addresses[i] == a {
            proof {
                assert(addresses@[i as int] == a);
            }
            return true;
        }
        i += 1;
    }
    false
}

/// The first reason, in order, why one of `requests` is refused.
pub open spec fn requests_error(requests: Seq<StreamRequest>) -> Option<Error>
    decreases requests.len(),
{
    if requests.len() == 0 {
        None
    } else {
        match requests_error(requests.drop_last()) {
            Some(e) => Some(e),
            None => {
                let r = requests.last();
                schedule_error(r.amount as int, r.start_time, r.cliff_time, r.end_time, r.interest_strategy)
            },
        }
    }
}

/// The sum of the amounts of `requests`.
pub open spec fn amount_sum(requests: Seq<StreamRequest>) -> int
    decreases requests.len(),
{
    if requests.len() == 0 {
        0
    } else {
        amount_sum(requests.drop_last()) + requests.last().amount
    }
}

/// Why a batch of `requests` is refused under `config`, if it is.
pub open spec fn batch_error(config: Config, requests: Seq<StreamRequest>) -> Option<Error> {
    if config.paused {
        Some(Error::ContractPaused)
    } else if requests_error(requests).is_some() {
        requests_error(requests)
    } else if amount_sum(requests) > i128::MAX {
        Some(Error::Overflow)
    } else {
        None
    }
}

/// What each stream of a batch pays out of the engine's custody once the
/// aggregate deposit is in: its fee to the protocol, and its net principal
/// to its vault when it has one.
pub open spec fn batch_transfers(t: Seq<Transfer>, config: Config, token: Address, requests: Seq<StreamRequest>) -> Seq<
    Transfer,
>
    decreases requests.len(),
{
    if requests.len() == 0 {
        t
    } else {
        let before = batch_transfers(t, config, token, requests.drop_last());
        let r = requests.last();
        let fee = fee_of(r.amount as int, config.fee_bps as int);
        pay(
            pay(before, token, Holder::Custody, protocol_holder(config), fee),
            token,
            Holder::Custody,
            custody_of(r.vault_address),
            if r.vault_address.is_some() { r.amount - fee } else { 0 },
        )
    }
}

/// The stream records of a batch, in order.
pub open spec fn batch_streams(config: Config, sender: Address, token: Address, requests: Seq<StreamRequest>) -> Seq<
    Stream,
> {
    requests.map(
        |i: int, r: StreamRequest|
            opened_stream(
                sender,
                r.receiver,
                token,
                r.amount - fee_of(r.amount as int, config.fee_bps as int),
                r.start_time,
                r.cliff_time,
                r.end_time,
                r.interest_strategy,
                r.vault_address,
                r.metadata,
            ),
    )
}

/// The receipts of a batch whose first stream gets id `first`.
pub open spec fn batch_receipts(first: int, requests: Seq<StreamRequest>, now: u64) -> Seq<StreamReceipt> {
    requests.map(|i: int, r: StreamRequest| StreamReceipt { stream_id: (first + i) as u64, owner: r.receiver, minted_at: now })
}

/// Every request is valid when none is refused.
proof fn lemma_requests_valid(requests: Seq<StreamRequest>)
    requires
        requests_error(requests).is_none(),
    ensures
        forall|j: int|
            0 <= j < requests.len() ==> schedule_error(
                (#[trigger] requests[j]).amount as int,
                requests[j].start_time,
                requests[j].cliff_time,
                requests[j].end_time,
                requests[j].interest_strategy,
            ).is_none(),
    decreases requests.len(),
{
    if requests.len() > 0 {
        let init = requests.drop_last();
        lemma_requests_valid(init);
        assert forall|j: int| 0 <= j < requests.len() implies schedule_error(
            (#[trigger] requests[j]).amount as int,
            requests[j].start_time,
            requests[j].cliff_time,
            requests[j].end_time,
            requests[j].interest_strategy,
        ).is_none() by {
            if j < requests.len() - 1 {
                assert(requests[j] == init[j]);
            }
        }
    }
}

/// A refused request in a prefix is the batch's first refusal.
proof fn lemma_requests_error_prefix(requests: Seq<StreamRequest>, k: int)
    requires
        0 < k <= requests.len(),
        requests_error(requests.subrange(0, k - 1)).is_none(),
        requests_error(requests.subrange(0, k)).is_some(),
    ensures
        requests_error(requests) == requests_error(requests.subrange(0, k)),
    decreases requests.len(),
{
    if k < requests.len() {
        let init = requests.drop_last();
        assert(init.subrange(0, k) =~= requests.subrange(0, k));
        assert(init.subrange(0, k - 1) =~= requests.subrange(0, k - 1));
        lemma_requests_error_prefix(init, k);
    } else {
        assert(requests.subrange(0, k) =~= requests);
    }
}

/// With positive amounts, a prefix never sums to more than the whole.
proof fn lemma_prefix_sum(requests: Seq<StreamRequest>, k: int)
    requires
        0 <= k <= requests.len(),
        forall|j: int| 0 <= j < requests.len() ==> (#[trigger] requests[j]).amount > 0,
    ensures
        amount_sum(requests.subrange(0, k)) <= amount_sum(requests),
    decreases requests.len(),
{
    if k < requests.len() {
        let init = requests.drop_last();
        assert(init.subrange(0, k) =~= requests.subrange(0, k));
        assert forall|j: int| 0 <= j < init.len() implies (#[trigger] init[j]).amount > 0 by {
            assert(init[j] == requests[j]);
        }
        lemma_prefix_sum(init, k);
        assert(requests.last() == requests[requests.len() - 1]);
    } else {
        assert(requests.subrange(0, k) =~= requests);
    }
}

/// Whether the records of a saved engine satisfy the engine's invariant.
pub open spec fn records_wf(
    config: Config,
    streams: Seq<Stream>,
    receipts: Seq<StreamReceipt>,
    proposals: Seq<StreamProposal>,
) -> bool {
    &&& config.wf()
    &&& receipts.len() == streams.len()
    &&& forall|i: int| 0 <= i < streams.len() ==> #[trigger] streams[i].wf()
    &&& forall|i: int|
        0 <= i < receipts.len() ==> (#[trigger] receipts[i]).stream_id == i && receipts[i].owner
            == streams[i].receipt_owner
    &&& forall|i: int| 0 <= i < proposals.len() ==> #[trigger] proposals[i].wf()
}

/// Whether `s` satisfies its invariant.
fn stream_ok(s: &Stream) -> (r: bool)
    ensures
        r == s.wf(),
{
    s.start_time < s.end_time && s.start_time <= s.cliff_time && s.cliff_time < s.end_time && s.total_amount > 0
        && 0 <= s.withdrawn && s.withdrawn <= s.total_amount && s.interest_strategy <= MAX_STRATEGY
        && (match s.vault_address {
        None => s.deposited_principal == s.total_amount,
        Some(_) => if s.cancelled {
            s.deposited_principal == 0
        } else {
            s.deposited_principal == s.total_amount - s.withdrawn
        },
    })
}

/// Whether no address occurs twice in `addresses`.
fn all_distinct(addresses: &Vec<Address>) -> (r: bool)
    ensures
        r == addresses@.no_duplicates(),
{
    let n = addresses.len();
    let mut i: usize = 0;
    while i < n
        invariant
            n == addresses@.len(),
            0 <= i <= n,
            addresses@.subrange(0, i as int).no_duplicates(),
        decreases n - i,
    {
        let mut j: usize = 0;
        while j < i
            invariant
                n == addresses@.len(),
                0 <= j <= i < n,
                forall|k: int| 0 <= k < j ==> addresses@[k] != addresses@[i as int],
            decreases i - j,
        {
            if addresses[j] == addresses[i] {
                proof {
                    assert(addresses@[j as int] == addresses@[i as int]);
                }
                return false;
            }
            j += 1;
        }
        proof {
            let pre = addresses@.subrange(0, i as int);
            let post = addresses@.subrange(0, i as int + 1);
            assert forall|a: int, b: int| 0 <= a < post.len() && 0 <= b < post.len() && a != b implies post[a]
                != post[b] by {
                if a < i && b < i {
                    assert(post[a] == pre[a] && post[b] == pre[b]);
                }
            }
        }
        i += 1;
    }
    proof {
        assert(addresses@.subrange(0, n as int) =~= addresses@);
    }
    true
}

/// Whether `p` satisfies its invariant.
fn proposal_ok(p: &StreamProposal) -> (r: bool)
    ensures
        r == p.wf(),
{
    let n = p.approvers.len();
    p.start_time < p.end_time && p.total_amount > 0 && p.required_approvals >= 1 && all_distinct(&p.approvers) && (
    if p.executed {
        n as u64 == p.required_approvals as u64
    } else {
        (n as u64) < p.required_approvals as u64
    })
}

/// A copy of `p`.
fn copy_proposal(p: &StreamProposal) -> (q: StreamProposal)
    ensures
        same_terms(*p, q),
        q.approvers@ == p.approvers@,
        q.executed == p.executed,
{
    StreamProposal {
        sender: p.sender,
        receiver: p.receiver,
        token: p.token,
        total_amount: p.total_amount,
        start_time: p.start_time,
        end_time: p.end_time,
        approvers: copy_addresses(&p.approvers),
        required_approvals: p.required_approvals,
        deadline: p.deadline,
        executed: p.executed,
    }
}

/// A copy of `addresses`.
fn copy_addresses(addresses: &Vec<Address>) -> (r: Vec<Address>)
    ensures
        r@ == addresses@,
{
    let mut r: Vec<Address> = Vec::new();
    let n = addresses.len();
    let mut i: usize = 0;
    while i < n
        invariant
            n == addresses@.len(),
            0 <= i <= n,
            r@ == addresses@.subrange(0, i as int),
        decreases n - i,
    {
        r.push(addresses[i]);
        i += 1;
        proof {
            assert(r@ =~= addresses@.subrange(0, i as int));
        }
    }
    proof {
        assert(r@ =~= addresses@);
    }
    r
}

/// Why a proposal with these terms is refused at time `now`, if it is.
pub open spec fn proposal_error(
    total_amount: i128,
    start_time: u64,
    end_time: u64,
    required_approvals: u32,
    deadline: u64,
    now: u64,
) -> Option<Error> {
    if start_time >= end_time {
        Some(Error::InvalidTimeRange)
    } else if total_amount <= 0 {
        Some(Error::InvalidAmount)
    } else if required_approvals == 0 {
        Some(Error::InvalidApprovalThreshold)
    } else if deadline <= now {
        Some(Error::ProposalExpired)
    } else {
        None
    }
}

/// The stream that a proposal becomes once approved.
pub open spec fn proposal_request(p: StreamProposal) -> StreamRequest {
    simple_request(p.receiver, p.total_amount, p.start_time, p.end_time)
}

/// `q` carries the same stream terms and threshold as `p`.
pub open spec fn same_terms(p: StreamProposal, q: StreamProposal) -> bool {
    &&& q.sender == p.sender
    &&& q.receiver == p.receiver
    &&& q.token == p.token
    &&& q.total_amount == p.total_amount
    &&& q.start_time == p.start_time
    &&& q.end_time == p.end_time
    &&& q.required_approvals == p.required_approvals
    &&& q.deadline == p.deadline
}

/// The request of a stream without cliff, vault or yield sharing.
pub open spec fn simple_request(receiver: Address, amount: i128, start: u64, end: u64) -> StreamRequest {
    StreamRequest {
        receiver,
        amount,
        start_time: start,
        cliff_time: start,
        end_time: end,
        interest_strategy: 0,
        vault_address: None,
        metadata: None,
    }
}

} // verus!
