//! Yield of a vault and its split among sender, receiver and protocol.
use crate::math::{mul_div_floor, I128_MAX};
use crate::types::InterestDistribution;
use vstd::prelude::*;

verus! {

/// Whether a strategy gives the sender a share (bit 0).
pub open spec fn shares_sender(strategy: u32) -> bool {
    strategy % 2 == 1
}

/// Whether a strategy gives the receiver a share (bit 1).
pub open spec fn shares_receiver(strategy: u32) -> bool {
    (strategy / 2) % 2 == 1
}

/// Whether a strategy gives the protocol a share (bit 2).
pub open spec fn shares_protocol(strategy: u32) -> bool {
    (strategy / 4) % 2 == 1
}

/// How many parties a strategy names.
pub open spec fn party_count(strategy: u32) -> int {
    (if shares_sender(strategy) { 1int } else { 0 }) + (if shares_receiver(strategy) { 1int } else { 0 })
        + (if shares_protocol(strategy) { 1int } else { 0 })
}

/// Interest is whatever the vault holds beyond what was deposited, never
/// negative.
pub open spec fn interest_of(vault_balance: int, deposited: int) -> int {
    if vault_balance > deposited {
        vault_balance - deposited
    } else {
        0
    }
}

/// The split of `interest` under `strategy`, as (sender, receiver, protocol).
///
/// Each named party gets an equal share, rounded down. What division leaves
/// over goes to the last named party in the order sender, receiver,
/// protocol, so that nothing is lost. No party named, or no interest, gives
/// nothing to anyone.
pub open spec fn split_of(interest: int, strategy: u32) -> (int, int, int) {
    let n = party_count(strategy);
    if n == 0 || interest <= 0 {
        (0, 0, 0)
    } else {
        let share = interest / n;
        let rest = interest - share * n;
        let s = shares_sender(strategy);
        let r = shares_receiver(strategy);
        let p = shares_protocol(strategy);
        (
            if s { share + (if !r && !p { rest } else { 0 }) } else { 0 },
            if r { share + (if !p { rest } else { 0 }) } else { 0 },
            if p { share + rest } else { 0 },
        )
    }
}

/// `max(vault_balance - deposited_principal, 0)`.
pub fn vault_interest(vault_balance: i128, deposited_principal: i128) -> (r: i128)
    requires
        deposited_principal >= 0,
    ensures
        r == interest_of(vault_balance as int, deposited_principal as int),
        r >= 0,
{
    if vault_balance > deposited_principal {
        vault_balance - deposited_principal
    } else {
        0
    }
}

/// The share of `total_interest` that goes with withdrawing `principal` out
/// of `total_principal`: `floor(total_interest * principal / total_principal)`.
pub fn proportional_interest(total_interest: i128, principal: i128, total_principal: i128) -> (r: i128)
    requires
        total_interest >= 0,
        0 <= principal <= total_principal,
        total_principal > 0,
    ensures
        r == total_interest * principal / (total_principal as int),
        0 <= r <= total_interest,
{
    let q = mul_div_floor(total_interest as u128, principal as u128, total_principal as u128);
    proof {
        crate::math::lemma_ratio_bounded(total_interest as int, principal as int, total_principal as int);
    }
    q as i128
}

/// Splits `interest_amount` among the parties that `strategy` names; see
/// [`split_of`].
pub fn distribute_interest(interest_amount: i128, strategy: u32) -> (d: InterestDistribution)
    ensures
        (d.to_sender as int, d.to_receiver as int, d.to_protocol as int) == split_of(interest_amount as int, strategy),
        d.total_interest == interest_amount,
{
    let s = strategy % 2 == 1;
    let r = (strategy / 2) % 2 == 1;
    let p = (strategy / 4) % 2 == 1;
    let n: i128 = (if s { 1i128 } else { 0 }) + (if r { 1i128 } else { 0 }) + (if p { 1i128 } else { 0 });
    if n == 0 || interest_amount <= 0 {
        return InterestDistribution { to_sender: 0, to_receiver: 0, to_protocol: 0, total_interest: interest_amount };
    }
    let share = interest_amount / n;
    let rest = interest_amount % n;
    proof {
        vstd::arithmetic::div_mod::lemma_fundamental_div_mod(interest_amount as int, n as int);
        assert(share * n <= interest_amount) by (nonlinear_arith)
            requires
                interest_amount == n * share + rest,
                rest >= 0,
        ;
        assert(0 <= share && share + rest <= interest_amount) by (nonlinear_arith)
            requires
                interest_amount == n * share + rest,
                rest >= 0,
                rest < n,
                n >= 1,
                interest_amount > 0,
        ;
        assert(rest == interest_amount - share * n) by (nonlinear_arith)
            requires
                interest_amount == n * share + rest,
        ;
    }
    let to_sender = if s {
        if !r && !p { share + rest } else { share }
    } else {
        0
    };
    let to_receiver = if r {
        if !p { share + rest } else { share }
    } else {
        0
    };
    let to_protocol = if p { share + rest } else { 0 };
    InterestDistribution { to_sender, to_receiver, to_protocol, total_interest: interest_amount }
}

/// Distribution never hands out more than the interest there is, and hands
/// out all of it whenever some party is named and the interest is positive.
pub proof fn lemma_distribution_conserves(interest: int, strategy: u32)
    ensures
        interest >= 0 ==> split_of(interest, strategy).0 + split_of(interest, strategy).1
            + split_of(interest, strategy).2 <= interest,
        party_count(strategy) > 0 && interest > 0 ==> split_of(interest, strategy).0 + split_of(
            interest,
            strategy,
        ).1 + split_of(interest, strategy).2 == interest,
        split_of(interest, strategy).0 >= 0,
        split_of(interest, strategy).1 >= 0,
        split_of(interest, strategy).2 >= 0,
{
    let n = party_count(strategy);
    if n > 0 && interest > 0 {
        let share = interest / n;
        let rest = interest - share * n;
        vstd::arithmetic::div_mod::lemma_fundamental_div_mod(interest, n);
        assert(share >= 0 && rest >= 0) by (nonlinear_arith)
            requires
                share == interest / n,
                rest == interest - share * n,
                n >= 1,
                interest > 0,
                interest == n * share + interest % n,
                interest % n >= 0,
        ;
        if n == 1 {
            assert(share * n == share) by (nonlinear_arith)
                requires
                    n == 1,
            ;
        } else if n == 2 {
            assert(share * n == share + share) by (nonlinear_arith)
                requires
                    n == 2,
            ;
        } else {
            assert(n == 3);
            assert(share * n == share + share + share) by (nonlinear_arith)
                requires
                    n == 3,
            ;
        }
    }
}

} // verus!
