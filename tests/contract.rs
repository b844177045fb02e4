use stellar_stream::types::{INTEREST_SPLIT_ALL, INTEREST_TO_RECEIVER, INTEREST_TO_SENDER};
use stellar_stream::{Address, Error, Holder, MetadataRef, StellarStreamContract, StreamRequest, Transfer};

fn account(n: u128) -> Address {
    Address { is_contract: false, high: 0, low: n }
}

fn token() -> Address {
    Address { is_contract: true, high: 7, low: 7 }
}

/// Net amount of `token()` that `who` has gained over `transfers`.
fn net_received(transfers: &[Transfer], who: Address) -> i128 {
    let mut total = 0;
    for t in transfers {
        if t.to == Holder::Account(who) {
            total += t.amount;
        }
        if t.from == Holder::Account(who) {
            total -= t.amount;
        }
    }
    total
}

#[test]
fn test_create_proposal() {
    let mut c = StellarStreamContract::new();
    let sender = account(1);
    let receiver = account(2);

    let proposal_id = c.create_proposal(sender, receiver, token(), 1000, 100, 200, 2, 1000, 50).unwrap();

    assert_eq!(proposal_id, 0);
}

#[test]
fn test_approve_proposal() {
    let mut c = StellarStreamContract::new();
    let sender = account(1);
    let receiver = account(2);
    let approver1 = account(3);
    let approver2 = account(4);

    let proposal_id = c.create_proposal(sender, receiver, token(), 1000, 100, 200, 2, 1000, 50).unwrap();

    c.approve_proposal(proposal_id, approver1, 50).unwrap();

    let proposal = c.get_proposal(proposal_id).unwrap();
    assert_eq!(proposal.approvers.len(), 1);
    assert!(!proposal.executed);

    c.approve_proposal(proposal_id, approver2, 50).unwrap();

    let proposal = c.get_proposal(proposal_id).unwrap();
    assert_eq!(proposal.approvers.len(), 2);
    assert!(proposal.executed);
}

#[test]
fn test_duplicate_approval_fails() {
    let mut c = StellarStreamContract::new();
    let approver = account(3);

    let proposal_id = c.create_proposal(account(1), account(2), token(), 1000, 100, 200, 2, 1000, 50).unwrap();

    c.approve_proposal(proposal_id, approver, 50).unwrap();
    let result = c.approve_proposal(proposal_id, approver, 50);

    assert_eq!(result, Err(Error::AlreadyApproved));
}

#[test]
fn test_proposal_not_found() {
    let mut c = StellarStreamContract::new();
    let result = c.approve_proposal(999, account(3), 0);

    assert_eq!(result, Err(Error::ProposalNotFound));
}

#[test]
fn test_invalid_time_range() {
    let mut c = StellarStreamContract::new();
    let result = c.create_proposal(account(1), account(2), token(), 1000, 200, 100, 2, 1000, 0);

    assert_eq!(result, Err(Error::InvalidTimeRange));
}

#[test]
fn test_invalid_amount() {
    let mut c = StellarStreamContract::new();
    let result = c.create_proposal(account(1), account(2), token(), 0, 100, 200, 2, 1000, 0);

    assert_eq!(result, Err(Error::InvalidAmount));
}

#[test]
fn test_invalid_approval_threshold() {
    let mut c = StellarStreamContract::new();
    let result = c.create_proposal(account(1), account(2), token(), 1000, 100, 200, 0, 1000, 0);

    assert_eq!(result, Err(Error::InvalidApprovalThreshold));
}

#[test]
fn test_create_direct_stream() {
    let mut c = StellarStreamContract::new();
    let sender = account(1);
    let receiver = account(2);

    let stream_id = c.create_stream(sender, receiver, token(), 1000, 100, 200, 0).unwrap();

    assert_eq!(stream_id, 0);

    let stream = c.get_stream(stream_id).unwrap();
    assert_eq!(stream.total_amount, 1000);
    assert!(!stream.cancelled);
    assert_eq!(stream.receipt_owner, receiver);

    let receipt = c.get_receipt(stream_id).unwrap();
    assert_eq!(receipt.stream_id, stream_id);
    assert_eq!(receipt.owner, receiver);
}

#[test]
fn test_receipt_transfer() {
    let mut c = StellarStreamContract::new();
    let sender = account(1);
    let receiver = account(2);
    let new_owner = account(5);

    let stream_id = c.create_stream(sender, receiver, token(), 1000, 100, 200, 0).unwrap();

    c.transfer_receipt(stream_id, receiver, new_owner).unwrap();

    let receipt = c.get_receipt(stream_id).unwrap();
    assert_eq!(receipt.owner, new_owner);

    let stream = c.get_stream(stream_id).unwrap();
    assert_eq!(stream.receipt_owner, new_owner);
}

#[test]
fn test_withdraw_with_receipt_owner() {
    let mut c = StellarStreamContract::new();
    let sender = account(1);
    let receiver = account(2);
    let new_owner = account(5);

    let stream_id = c.create_stream(sender, receiver, token(), 1000, 100, 200, 150).unwrap();

    c.transfer_receipt(stream_id, receiver, new_owner).unwrap();

    let result = c.withdraw(stream_id, receiver, 150, 0);
    assert_eq!(result, Err(Error::NotReceiptOwner));

    let withdrawn = c.withdraw(stream_id, new_owner, 150, 0).unwrap();
    assert!(withdrawn > 0);
}

#[test]
fn test_receipt_metadata() {
    let mut c = StellarStreamContract::new();
    let stream_id = c.create_stream(account(1), account(2), token(), 1000, 100, 200, 150).unwrap();

    let metadata = c.get_receipt_metadata(stream_id, 150).unwrap();
    assert_eq!(metadata.stream_id, stream_id);
    assert_eq!(metadata.total_amount, 1000);
    assert_eq!(metadata.token, token());
    assert!(metadata.unlocked_balance > 0);
    assert!(metadata.locked_balance < 1000);
}

#[test]
fn test_three_of_five_multisig() {
    let mut c = StellarStreamContract::new();
    let proposal_id = c.create_proposal(account(1), account(2), token(), 50000, 100, 200, 3, 1000, 50).unwrap();

    c.approve_proposal(proposal_id, account(3), 50).unwrap();
    let proposal = c.get_proposal(proposal_id).unwrap();
    assert!(!proposal.executed);

    c.approve_proposal(proposal_id, account(4), 50).unwrap();
    let proposal = c.get_proposal(proposal_id).unwrap();
    assert!(!proposal.executed);

    c.approve_proposal(proposal_id, account(5), 50).unwrap();
    let proposal = c.get_proposal(proposal_id).unwrap();
    assert!(proposal.executed);
    assert_eq!(proposal.approvers.len(), 3);
}

#[test]
fn test_approve_already_executed_proposal() {
    let mut c = StellarStreamContract::new();
    let proposal_id = c.create_proposal(account(1), account(2), token(), 1000, 100, 200, 1, 1000, 50).unwrap();

    c.approve_proposal(proposal_id, account(3), 50).unwrap();

    let result = c.approve_proposal(proposal_id, account(4), 50);

    assert_eq!(result, Err(Error::ProposalAlreadyExecuted));
}

#[test]
fn test_pause_unpause_stream() {
    let mut c = StellarStreamContract::new();
    let sender = account(1);
    let stream_id = c.create_stream(sender, account(2), token(), 1000, 100, 300, 100).unwrap();

    c.pause_stream(stream_id, sender, 150).unwrap();

    let stream = c.get_stream(stream_id).unwrap();
    assert!(stream.is_paused);
    assert_eq!(stream.paused_time, 150);

    c.unpause_stream(stream_id, sender, 200).unwrap();

    let stream = c.get_stream(stream_id).unwrap();
    assert!(!stream.is_paused);
    assert_eq!(stream.total_paused_duration, 50);
}

#[test]
fn test_withdraw_paused_fails() {
    let mut c = StellarStreamContract::new();
    let sender = account(1);
    let receiver = account(2);
    let stream_id = c.create_stream(sender, receiver, token(), 1000, 100, 300, 100).unwrap();

    c.pause_stream(stream_id, sender, 100).unwrap();

    let result = c.withdraw(stream_id, receiver, 150, 0);

    assert_eq!(result, Err(Error::StreamPaused));
}

#[test]
fn test_pause_adjusts_unlocked_balance() {
    let mut c = StellarStreamContract::new();
    let sender = account(1);
    let receiver = account(2);
    let stream_id = c.create_stream(sender, receiver, token(), 1000, 100, 300, 100).unwrap();

    let metadata_before = c.get_receipt_metadata(stream_id, 150).unwrap();
    let unlocked_before = metadata_before.unlocked_balance;

    c.pause_stream(stream_id, sender, 150).unwrap();

    let metadata_paused = c.get_receipt_metadata(stream_id, 200).unwrap();

    assert_eq!(metadata_paused.unlocked_balance, unlocked_before);

    c.unpause_stream(stream_id, sender, 200).unwrap();

    let withdrawn = c.withdraw(stream_id, receiver, 250, 0).unwrap();
    assert!(withdrawn > 0);
}

#[test]
fn test_full_stream_cycle() {
    let mut c = StellarStreamContract::new();
    let sender = account(1);
    let receiver = account(2);

    let amount = 100_i128;
    let start_time = 1000;
    let end_time = 1100;

    let stream_id = c.create_stream(sender, receiver, token(), amount, start_time, end_time, 0).unwrap();

    let withdrawn = c.withdraw(stream_id, receiver, 1050, 0).unwrap();
    assert_eq!(withdrawn, 50);

    let transfers = c.take_transfers();
    assert_eq!(net_received(&transfers, receiver), 50);
}

#[test]
fn test_cancellation_split() {
    let mut c = StellarStreamContract::new();
    let sender = account(1);
    let receiver = account(2);
    let amount = 1000_i128;

    let stream_id = c.create_stream(sender, receiver, token(), amount, 0, 1000, 0).unwrap();

    c.cancel(stream_id, sender, 250, 0).unwrap();

    let transfers = c.take_transfers();
    assert_eq!(net_received(&transfers, receiver), 250);
    // The sender funded the whole amount and gets the unvested 750 back.
    assert_eq!(amount + net_received(&transfers, sender), 750);
}

#[test]
fn test_transfer_receiver() {
    let mut c = StellarStreamContract::new();
    let sender = account(1);
    let old_receiver = account(2);
    let new_receiver = account(3);

    let stream_id = c.create_stream(sender, old_receiver, token(), 1000, 0, 1000, 0).unwrap();

    c.transfer_receiver(stream_id, old_receiver, new_receiver).unwrap();

    let withdrawn = c.withdraw(stream_id, new_receiver, 500, 0).unwrap();
    assert_eq!(withdrawn, 500);

    let transfers = c.take_transfers();
    assert_eq!(net_received(&transfers, new_receiver), 500);
}

#[test]
fn old_receiver_is_refused_after_transfer() {
    let mut c = StellarStreamContract::new();
    let stream_id = c.create_stream(account(1), account(2), token(), 1000, 0, 1000, 0).unwrap();
    c.transfer_receiver(stream_id, account(2), account(3)).unwrap();
    assert_eq!(c.withdraw(stream_id, account(2), 500, 0), Err(Error::NotReceiptOwner));
    assert_eq!(c.transfer_receiver(stream_id, account(2), account(4)), Err(Error::Unauthorized));
}

#[test]
fn stranger_cannot_withdraw() {
    let mut c = StellarStreamContract::new();
    let stream_id = c.create_stream(account(1), account(2), token(), 100, 0, 100, 0).unwrap();
    assert_eq!(c.withdraw(stream_id, account(9), 50, 0), Err(Error::NotReceiptOwner));
}

#[test]
fn second_withdrawal_at_same_time_is_refused() {
    let mut c = StellarStreamContract::new();
    let stream_id = c.create_stream(account(1), account(2), token(), 1000, 0, 1000, 0).unwrap();
    assert_eq!(c.withdraw(stream_id, account(2), 400, 0), Ok(400));
    assert_eq!(c.withdraw(stream_id, account(2), 400, 0), Err(Error::InsufficientBalance));
    assert_eq!(c.withdraw(stream_id, account(2), 1000, 0), Ok(600));
    assert_eq!(c.withdraw(stream_id, account(2), 5000, 0), Err(Error::InsufficientBalance));
}

#[test]
fn withdrawing_before_start_is_refused() {
    let mut c = StellarStreamContract::new();
    let stream_id = c.create_stream(account(1), account(2), token(), 1000, 100, 200, 0).unwrap();
    assert_eq!(c.withdraw(stream_id, account(2), 100, 0), Err(Error::InsufficientBalance));
}

#[test]
fn cancel_after_partial_withdrawal_conserves() {
    let mut c = StellarStreamContract::new();
    let sender = account(1);
    let receiver = account(2);
    let stream_id = c.create_stream(sender, receiver, token(), 1000, 0, 1000, 0).unwrap();
    c.withdraw(stream_id, receiver, 300, 0).unwrap();
    let _ = c.take_transfers();
    c.cancel(stream_id, receiver, 700, 0).unwrap();
    let transfers = c.take_transfers();
    let to_receiver = net_received(&transfers, receiver);
    let to_sender = net_received(&transfers, sender);
    assert_eq!(to_receiver, 400);
    assert_eq!(to_sender, 300);
    assert_eq!(to_receiver + to_sender, 1000 - 300);
    let stream = c.get_stream(stream_id).unwrap();
    assert!(stream.cancelled);
    assert_eq!(stream.withdrawn, 700);
    assert_eq!(c.cancel(stream_id, sender, 800, 0), Err(Error::AlreadyCancelled));
    assert_eq!(c.withdraw(stream_id, receiver, 800, 0), Err(Error::AlreadyCancelled));
    assert_eq!(c.pause_stream(stream_id, sender, 800), Err(Error::AlreadyCancelled));
}

#[test]
fn cancel_by_stranger_is_refused() {
    let mut c = StellarStreamContract::new();
    let stream_id = c.create_stream(account(1), account(2), token(), 1000, 0, 1000, 0).unwrap();
    assert_eq!(c.cancel(stream_id, account(9), 10, 0), Err(Error::Unauthorized));
    assert_eq!(c.cancel(7, account(1), 10, 0), Err(Error::StreamNotFound));
}

#[test]
fn unlocked_is_frozen_while_paused() {
    let mut c = StellarStreamContract::new();
    let sender = account(1);
    let stream_id = c.create_stream(sender, account(2), token(), 1000, 100, 300, 100).unwrap();
    c.pause_stream(stream_id, sender, 150).unwrap();
    let at_pause = c.get_receipt_metadata(stream_id, 150).unwrap().unlocked_balance;
    assert_eq!(at_pause, 250);
    for now in [160_u64, 199, 1000] {
        assert_eq!(c.get_receipt_metadata(stream_id, now).unwrap().unlocked_balance, at_pause);
    }
    // Pausing again is a no-op.
    c.pause_stream(stream_id, sender, 180).unwrap();
    assert_eq!(c.get_stream(stream_id).unwrap().paused_time, 150);
    c.unpause_stream(stream_id, sender, 200).unwrap();
    assert_eq!(c.get_stream(stream_id).unwrap().total_paused_duration, 50);
    assert_eq!(c.get_receipt_metadata(stream_id, 200).unwrap().unlocked_balance, 250);
    // The end moves back by the 50 paused seconds.
    assert_eq!(c.get_receipt_metadata(stream_id, 300).unwrap().unlocked_balance, 750);
    assert_eq!(c.get_receipt_metadata(stream_id, 350).unwrap().unlocked_balance, 1000);
    // Unpausing a running stream is a no-op.
    c.unpause_stream(stream_id, sender, 400).unwrap();
    assert_eq!(c.get_stream(stream_id).unwrap().total_paused_duration, 50);
}

#[test]
fn only_sender_pauses() {
    let mut c = StellarStreamContract::new();
    let stream_id = c.create_stream(account(1), account(2), token(), 1000, 100, 300, 100).unwrap();
    assert_eq!(c.pause_stream(stream_id, account(2), 150), Err(Error::Unauthorized));
    assert_eq!(c.unpause_stream(stream_id, account(2), 150), Err(Error::Unauthorized));
    assert_eq!(c.pause_stream(3, account(1), 150), Err(Error::StreamNotFound));
}

#[test]
fn proposal_executes_into_stream_net_of_fee() {
    let mut c = StellarStreamContract::new();
    let admin = account(10);
    let treasury = account(11);
    let sender = account(1);
    let receiver = account(2);
    c.initialize(admin, treasury, 100).unwrap();
    let proposal_id = c.create_proposal(sender, receiver, token(), 1000, 100, 200, 2, 1000, 50).unwrap();

    c.approve_proposal(proposal_id, account(3), 60).unwrap();
    let p = c.get_proposal(proposal_id).unwrap();
    assert!(!p.executed);
    assert_eq!(p.approvers.len(), 1);
    assert_eq!(c.get_stream(0), Err(Error::StreamNotFound));
    assert!(c.take_transfers().is_empty());

    c.approve_proposal(proposal_id, account(4), 70).unwrap();
    let p = c.get_proposal(proposal_id).unwrap();
    assert!(p.executed);
    let stream = c.get_stream(0).unwrap();
    assert_eq!(stream.total_amount, 990);
    assert_eq!(stream.sender, sender);
    assert_eq!(stream.receiver, receiver);
    assert_eq!(c.get_receipt(0).unwrap().minted_at, 70);
    let transfers = c.take_transfers();
    assert_eq!(net_received(&transfers, treasury), 10);
    assert_eq!(net_received(&transfers, sender), -1000);
}

#[test]
fn approval_after_deadline_is_refused() {
    let mut c = StellarStreamContract::new();
    let proposal_id = c.create_proposal(account(1), account(2), token(), 1000, 100, 200, 2, 1000, 50).unwrap();
    assert_eq!(c.approve_proposal(proposal_id, account(3), 1001), Err(Error::ProposalExpired));
    assert_eq!(c.approve_proposal(proposal_id, account(3), 1000), Ok(()));
}

#[test]
fn proposal_with_past_deadline_is_refused() {
    let mut c = StellarStreamContract::new();
    let result = c.create_proposal(account(1), account(2), token(), 1000, 100, 200, 2, 50, 50);
    assert_eq!(result, Err(Error::ProposalExpired));
}

#[test]
fn failed_execution_leaves_proposal_pending() {
    let mut c = StellarStreamContract::new();
    let admin = account(10);
    c.initialize(admin, account(11), 0).unwrap();
    let proposal_id = c.create_proposal(account(1), account(2), token(), 1000, 100, 200, 1, 1000, 50).unwrap();
    c.set_paused(admin, true).unwrap();
    assert_eq!(c.approve_proposal(proposal_id, account(3), 60), Err(Error::ContractPaused));
    let p = c.get_proposal(proposal_id).unwrap();
    assert!(!p.executed);
    assert!(p.approvers.is_empty());
    c.set_paused(admin, false).unwrap();
    assert_eq!(c.approve_proposal(proposal_id, account(3), 60), Ok(()));
    assert!(c.get_proposal(proposal_id).unwrap().executed);
}

#[test]
fn fee_goes_to_treasury() {
    let mut c = StellarStreamContract::new();
    let treasury = account(11);
    c.initialize(account(10), treasury, 1000).unwrap();
    let id = c.create_stream(account(1), account(2), token(), 12345, 0, 100, 0).unwrap();
    // 10% of 12345, rounded down.
    assert_eq!(c.get_stream(id).unwrap().total_amount, 11111);
    let transfers = c.take_transfers();
    assert_eq!(net_received(&transfers, treasury), 1234);
    assert_eq!(transfers.len(), 2);
    assert_eq!(transfers[0].to, Holder::Custody);
    assert_eq!(transfers[0].amount, 11111);
}

#[test]
fn admin_policy_errors() {
    let mut c = StellarStreamContract::new();
    let admin = account(10);
    assert_eq!(c.set_fee_bps(admin, 10), Err(Error::NotInitialized));
    assert_eq!(c.initialize(admin, account(11), 1001), Err(Error::InvalidFee));
    assert_eq!(c.initialize(admin, account(11), 1000), Ok(()));
    assert_eq!(c.initialize(admin, account(11), 10), Err(Error::AlreadyInitialized));
    assert_eq!(c.set_fee_bps(account(12), 10), Err(Error::Unauthorized));
    assert_eq!(c.set_fee_bps(admin, 1001), Err(Error::InvalidFee));
    assert_eq!(c.set_fee_bps(admin, 10), Ok(()));
    assert_eq!(c.get_config().fee_bps, 10);
    assert_eq!(c.set_treasury(admin, account(13)), Ok(()));
    assert_eq!(c.get_config().treasury, Some(account(13)));
    assert_eq!(c.set_paused(account(12), true), Err(Error::Unauthorized));
}

#[test]
fn creation_is_refused_while_paused() {
    let mut c = StellarStreamContract::new();
    let admin = account(10);
    c.initialize(admin, account(11), 0).unwrap();
    c.set_paused(admin, true).unwrap();
    assert_eq!(c.create_stream(account(1), account(2), token(), 1000, 0, 10, 0), Err(Error::ContractPaused));
}

#[test]
fn request_validation() {
    let mut c = StellarStreamContract::new();
    let base = StreamRequest {
        receiver: account(2),
        amount: 1000,
        start_time: 100,
        cliff_time: 150,
        end_time: 200,
        interest_strategy: 0,
        vault_address: None,
        metadata: None,
    };
    let bad_cliff = StreamRequest { cliff_time: 200, ..base };
    assert_eq!(c.create_vesting_stream(account(1), token(), bad_cliff, 0), Err(Error::InvalidTimeRange));
    let early_cliff = StreamRequest { cliff_time: 99, ..base };
    assert_eq!(c.create_vesting_stream(account(1), token(), early_cliff, 0), Err(Error::InvalidTimeRange));
    let bad_strategy = StreamRequest { interest_strategy: 8, ..base };
    assert_eq!(c.create_vesting_stream(account(1), token(), bad_strategy, 0), Err(Error::InvalidStrategy));
    let negative = StreamRequest { amount: -5, ..base };
    assert_eq!(c.create_vesting_stream(account(1), token(), negative, 0), Err(Error::InvalidAmount));
    let id = c.create_vesting_stream(account(1), token(), base, 0).unwrap();
    assert_eq!(c.withdraw(id, account(2), 149, 0), Err(Error::InsufficientBalance));
    assert_eq!(c.withdraw(id, account(2), 150, 0), Ok(500));
}

#[test]
fn vault_withdrawal_pays_prorated_interest() {
    let mut c = StellarStreamContract::new();
    let treasury = account(11);
    c.initialize(account(10), treasury, 0).unwrap();
    let sender = account(1);
    let receiver = account(2);
    let vault = Address { is_contract: true, high: 0, low: 99 };
    let request = StreamRequest {
        receiver,
        amount: 1000,
        start_time: 0,
        cliff_time: 0,
        end_time: 1000,
        interest_strategy: INTEREST_SPLIT_ALL,
        vault_address: Some(vault),
        metadata: None,
    };
    let id = c.create_vesting_stream(sender, token(), request, 0).unwrap();
    let funding = c.take_transfers();
    assert_eq!(net_received(&funding, vault), 1000);

    // Half vested; the vault holds 300 of interest, half of which goes with
    // the withdrawn half: 50 to each party.
    let paid = c.withdraw(id, receiver, 500, 1300).unwrap();
    assert_eq!(paid, 550);
    let transfers = c.take_transfers();
    assert_eq!(net_received(&transfers, sender), 50);
    assert_eq!(net_received(&transfers, receiver), 550);
    assert_eq!(net_received(&transfers, treasury), 50);
    assert_eq!(net_received(&transfers, vault), -650);

    // Cancelling distributes all the interest that is left: 1300 - 650 = 650
    // held against 500 of principal.
    c.cancel(id, sender, 750, 650).unwrap();
    let transfers = c.take_transfers();
    assert_eq!(net_received(&transfers, sender), 50 + 250);
    assert_eq!(net_received(&transfers, receiver), 50 + 250);
    assert_eq!(net_received(&transfers, treasury), 50);
    assert_eq!(net_received(&transfers, vault), -650);
}

#[test]
fn vault_payout_never_exceeds_vault_balance() {
    let mut c = StellarStreamContract::new();
    let receiver = account(2);
    let request = StreamRequest {
        receiver,
        amount: 1000,
        start_time: 0,
        cliff_time: 0,
        end_time: 1000,
        interest_strategy: INTEREST_TO_RECEIVER,
        vault_address: Some(account(50)),
        metadata: None,
    };
    let id = c.create_vesting_stream(account(1), token(), request, 0).unwrap();
    // All principal and all interest go to the receiver: exactly the vault's
    // whole balance, even at the largest balance there is.
    assert_eq!(c.withdraw(id, receiver, 1000, i128::MAX), Ok(i128::MAX));
}

#[test]
fn guard_blocks_reentry() {
    let mut c = StellarStreamContract::new();
    let id = c.create_stream(account(1), account(2), token(), 1000, 0, 1000, 0).unwrap();
    c.acquire_guard().unwrap();
    assert_eq!(c.acquire_guard(), Err(Error::Reentrant));
    assert_eq!(c.withdraw(id, account(2), 500, 0), Err(Error::Reentrant));
    assert_eq!(c.cancel(id, account(1), 500, 0), Err(Error::Reentrant));
    c.release_guard();
    assert_eq!(c.withdraw(id, account(2), 500, 0), Ok(500));
}

#[test]
fn batch_creates_consecutive_streams() {
    let mut c = StellarStreamContract::new();
    let sender = account(1);
    c.create_stream(sender, account(2), token(), 10, 0, 10, 0).unwrap();
    let _ = c.take_transfers();
    let r1 = StreamRequest {
        receiver: account(3),
        amount: 100,
        start_time: 0,
        cliff_time: 0,
        end_time: 100,
        interest_strategy: 0,
        vault_address: None,
        metadata: None,
    };
    let r2 = StreamRequest { receiver: account(4), amount: 200, vault_address: Some(account(60)), ..r1 };
    let ids = c.create_batch_streams(sender, token(), &vec![r1, r2], 5).unwrap();
    assert_eq!(ids, vec![1, 2]);
    assert_eq!(c.get_stream(2).unwrap().receiver, account(4));
    assert_eq!(c.get_receipt(2).unwrap().stream_id, 2);
    let transfers = c.take_transfers();
    assert_eq!(net_received(&transfers, sender), -300);
    assert_eq!(net_received(&transfers, account(60)), 200);
}

#[test]
fn batch_is_atomic() {
    let mut c = StellarStreamContract::new();
    let good = StreamRequest {
        receiver: account(3),
        amount: 100,
        start_time: 0,
        cliff_time: 0,
        end_time: 100,
        interest_strategy: 0,
        vault_address: None,
        metadata: None,
    };
    let bad = StreamRequest { end_time: 0, ..good };
    assert_eq!(c.create_batch_streams(account(1), token(), &vec![good, bad], 0), Err(Error::InvalidTimeRange));
    assert_eq!(c.get_stream(0), Err(Error::StreamNotFound));
    assert!(c.take_transfers().is_empty());
    let huge = StreamRequest { amount: i128::MAX, ..good };
    assert_eq!(c.create_batch_streams(account(1), token(), &vec![huge, good], 0), Err(Error::Overflow));
    assert_eq!(c.create_batch_streams(account(1), token(), &vec![], 0), Ok(vec![]));
}

#[test]
fn saved_records_restore_to_the_same_engine() {
    let mut c = StellarStreamContract::new();
    let sender = account(1);
    c.create_stream(sender, account(2), token(), 1000, 0, 1000, 0).unwrap();
    let proposal_id = c.create_proposal(sender, account(2), token(), 500, 10, 20, 2, 100, 0).unwrap();
    c.approve_proposal(proposal_id, account(3), 5).unwrap();
    let (config, streams, receipts, proposals) = c.save();
    let mut again = StellarStreamContract::restore(config, streams.clone(), receipts.clone(), proposals).unwrap();
    assert_eq!(again.get_stream(0), c.get_stream(0));
    assert_eq!(again.get_receipt(0), c.get_receipt(0));
    assert_eq!(again.get_proposal(0).unwrap().approvers, vec![account(3)]);
    assert_eq!(again.withdraw(0, account(2), 500, 0), Ok(500));

    // A receipt that disagrees with its stream is refused.
    let mut bad_receipts = receipts.clone();
    bad_receipts[0].owner = account(9);
    assert!(StellarStreamContract::restore(config, streams.clone(), bad_receipts, vec![]).is_none());
    // So is a stream that withdrew more than it holds.
    let mut bad_streams = streams.clone();
    bad_streams[0].withdrawn = 2000;
    assert!(StellarStreamContract::restore(config, bad_streams, receipts.clone(), vec![]).is_none());
    // And a proposal counting the same approver twice.
    let mut p = c.get_proposal(0).unwrap();
    p.approvers = vec![account(3), account(3)];
    p.required_approvals = 3;
    assert!(StellarStreamContract::restore(config, streams, receipts, vec![p]).is_none());
}

fn half_withdrawn_vault_stream(c: &mut StellarStreamContract, vault: Address) -> u64 {
    let request = StreamRequest {
        receiver: account(2),
        amount: 1000,
        start_time: 0,
        cliff_time: 0,
        end_time: 1000,
        interest_strategy: INTEREST_TO_SENDER,
        vault_address: Some(vault),
        metadata: None,
    };
    let id = c.create_vesting_stream(account(1), token(), request, 0).unwrap();
    // No interest yet: the vault holds exactly the deposit.
    assert_eq!(c.withdraw(id, account(2), 500, 1000), Ok(500));
    assert_eq!(c.get_stream(id).unwrap().deposited_principal, 500);
    let _ = c.take_transfers();
    id
}

#[test]
fn no_interest_when_vault_holds_only_the_deposit() {
    let vault = account(70);
    let mut c = StellarStreamContract::new();
    let id = half_withdrawn_vault_stream(&mut c, vault);
    // The vault holds the 500 still deposited: no interest on the rest.
    assert_eq!(c.withdraw(id, account(2), 1000, 500), Ok(500));
    let transfers = c.take_transfers();
    assert_eq!(net_received(&transfers, account(1)), 0);
    assert_eq!(net_received(&transfers, account(2)), 500);
    assert_eq!(c.get_stream(id).unwrap().deposited_principal, 0);
}

#[test]
fn withdrawal_interest_is_excess_over_deposit() {
    let vault = account(70);
    let mut c = StellarStreamContract::new();
    let id = half_withdrawn_vault_stream(&mut c, vault);
    // 1000 in the vault against 500 deposited: 500 of interest, of which the
    // final 500 of 1000 principal carries half, all to the sender.
    assert_eq!(c.withdraw(id, account(2), 1000, 1000), Ok(500));
    let transfers = c.take_transfers();
    assert_eq!(net_received(&transfers, account(1)), 250);
    assert_eq!(net_received(&transfers, vault), -750);
}

#[test]
fn cancellation_pays_no_interest_without_excess() {
    let vault = account(70);
    let mut c = StellarStreamContract::new();
    let id = half_withdrawn_vault_stream(&mut c, vault);
    c.cancel(id, account(1), 750, 500).unwrap();
    let transfers = c.take_transfers();
    // Only principal moves: 250 unlocked to the receiver, 250 back to the sender.
    assert_eq!(net_received(&transfers, account(2)), 250);
    assert_eq!(net_received(&transfers, account(1)), 250);
    assert_eq!(net_received(&transfers, vault), -500);
    let stream = c.get_stream(id).unwrap();
    assert!(stream.cancelled);
    assert_eq!(stream.deposited_principal, 0);
}

#[test]
fn cancellation_pays_all_interest_over_deposit() {
    let vault = account(70);
    let mut c = StellarStreamContract::new();
    let id = half_withdrawn_vault_stream(&mut c, vault);
    c.cancel(id, account(1), 750, 620).unwrap();
    let transfers = c.take_transfers();
    assert_eq!(net_received(&transfers, account(1)), 120 + 250);
    assert_eq!(net_received(&transfers, vault), -620);
}

#[test]
fn metadata_is_carried_into_the_stream() {
    let mut c = StellarStreamContract::new();
    let reference = MetadataRef { high: 0xabcd, low: 42 };
    let request = StreamRequest {
        receiver: account(2),
        amount: 1000,
        start_time: 0,
        cliff_time: 0,
        end_time: 1000,
        interest_strategy: 0,
        vault_address: None,
        metadata: Some(reference),
    };
    let id = c.create_vesting_stream(account(1), token(), request, 0).unwrap();
    assert_eq!(c.get_stream(id).unwrap().metadata, Some(reference));
    let plain = c.create_stream(account(1), account(2), token(), 10, 0, 10, 0).unwrap();
    assert_eq!(c.get_stream(plain).unwrap().metadata, None);
}
