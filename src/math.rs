//! Vesting arithmetic: how much of a stream has unlocked at a given time.
//!
//! All divisions round down, so the engine never owes more than it holds.
use vstd::arithmetic::div_mod::{lemma_div_by_multiple, lemma_div_is_ordered, lemma_div_pos_is_pos};
use vstd::arithmetic::mul::{lemma_mul_inequality, lemma_mul_nonnegative};
use vstd::prelude::*;

verus! {

/// The largest value of `i128`, as an unsigned bound.
pub const I128_MAX: u128 = 0x7fff_ffff_ffff_ffff_ffff_ffff_ffff_ffff;

/// Quotient and remainder of `a * b` divided by `d`, computed without ever
/// forming the full product (which may need 254 bits).
pub fn mul_div_rem(a: u128, b: u128, d: u128) -> (res: (u128, u128))
    requires
        0 < d <= I128_MAX,
        a <= I128_MAX + 1,
        b <= d,
    ensures
        res.0 * d + res.1 == a * b,
        res.1 < d,
        res.0 <= a,
    decreases b,
{
    if b == 0 {
        assert(a * b == 0) by (nonlinear_arith)
            requires
                b == 0,
        ;
        return (0, 0);
    }
    let h = b / 2;
    let (q1, r1) = mul_div_rem(a, h, d);
    assert(2 * q1 <= a) by (nonlinear_arith)
        requires
            q1 * d + r1 == a * h,
            r1 >= 0,
            2 * h <= d,
            d > 0,
            a >= 0,
    ;
    // Double the partial result: 2*a*h = 2*q1*d + 2*r1.
    let t = 2 * r1;
    assert(t / d <= 1) by (nonlinear_arith)
        requires
            t < 2 * d,
            d > 0,
    ;
    let q2 = 2 * q1 + t / d;
    let r2 = t % d;
    proof {
        let ai = a as int;
        let di = d as int;
        let hi = h as int;
        assert(t as int == (t / d) * di + r2) by {
            vstd::arithmetic::div_mod::lemma_fundamental_div_mod(t as int, di);
        }
        assert(q2 * di + r2 == ai * (2 * hi)) by (nonlinear_arith)
            requires
                q1 * di + r1 == ai * hi,
                t == 2 * r1,
                q2 == 2 * q1 + t / d,
                t as int == (t / d) * di + r2,
        ;
    }
    if b % 2 == 0 {
        proof {
            assert(q2 * d <= a * b) by (nonlinear_arith)
                requires
                    q2 * d + r2 == a * (2 * h),
                    b == 2 * h,
                    r2 >= 0,
            ;
            assert(q2 <= a) by (nonlinear_arith)
                requires
                    q2 * d <= a * b,
                    b <= d,
                    d > 0,
                    a >= 0,
            ;
        }
        (q2, r2)
    } else {
        // Add one more `a`, split as (a / d) * d + a % d.
        let qa = a / d;
        let ra = a % d;
        let s = r2 + ra;
        proof {
            assert(a as int == qa * d + ra) by {
                vstd::arithmetic::div_mod::lemma_fundamental_div_mod(a as int, d as int);
            }
            assert((q2 + qa) * d + s == a * b) by (nonlinear_arith)
                requires
                    q2 * d + r2 == a * (2 * h),
                    b == 2 * h + 1,
                    a == qa * d + ra,
                    s == r2 + ra,
            ;
            assert((q2 + qa) <= a) by (nonlinear_arith)
                requires
                    (q2 + qa) * d + s == a * b,
                    s >= 0,
                    b <= d,
                    d > 0,
                    a >= 0,
            ;
        }
        if s >= d {
            let q = q2 + qa + 1;
            let r = s - d;
            proof {
                assert(q * d + r == a * b) by (nonlinear_arith)
                    requires
                        (q2 + qa) * d + s == a * b,
                        q == q2 + qa + 1,
                        r == s - d,
                ;
                assert(q <= a) by (nonlinear_arith)
                    requires
                        q * d + r == a * b,
                        r >= 0,
                        b <= d,
                        d > 0,
                        a >= 0,
                ;
            }
            (q, r)
        } else {
            (q2 + qa, s)
        }
    }
}

/// `floor(a * b / d)` for `0 <= b <= d`, which never exceeds `a`.
pub fn mul_div_floor(a: u128, b: u128, d: u128) -> (q: u128)
    requires
        0 < d <= I128_MAX,
        a <= I128_MAX,
        b <= d,
    ensures
        q == (a * b) / (d as int),
        q <= a,
{
    let (q, r) = mul_div_rem(a, b, d);
    proof {
        vstd::arithmetic::div_mod::lemma_fundamental_div_mod_converse(
            (a * b) as int,
            d as int,
            q as int,
            r as int,
        );
    }
    q
}

/// The amount of a schedule of `total` from `start` to `end`, with an optional
/// `cliff` (equal to `start` when there is none), that has unlocked at time `t`
/// once `paused` seconds of pausing are excluded from the elapsed time.
///
/// Nothing unlocks before the cliff or at the start; everything has unlocked
/// once the end, pushed back by the paused time, is reached; in between the
/// share grows linearly with the effective elapsed time, rounded down.
pub open spec fn unlocked_at(total: int, start: int, cliff: int, end: int, paused: int, t: int) -> int {
    if t < cliff || t <= start {
        0
    } else if t >= end + paused {
        total
    } else if t - start - paused <= 0 {
        0
    } else {
        total * (t - start - paused) / (end - start)
    }
}

/// `total * e / d` lies between zero and `total` when `0 <= e <= d`.
pub proof fn lemma_ratio_bounded(total: int, e: int, d: int)
    requires
        total >= 0,
        0 <= e <= d,
        d > 0,
    ensures
        0 <= total * e / d <= total,
{
    lemma_mul_nonnegative(total, e);
    lemma_div_pos_is_pos(total * e, d);
    lemma_mul_inequality(e, d, total);
    assert(total * e <= total * d) by (nonlinear_arith)
        requires
            e * total <= d * total,
    ;
    lemma_div_is_ordered(total * e, total * d, d);
    lemma_div_by_multiple(total, d);
}

/// `total * e / d` does not decrease as `e` grows.
pub proof fn lemma_ratio_monotonic(total: int, e1: int, e2: int, d: int)
    requires
        total >= 0,
        e1 <= e2,
        d > 0,
    ensures
        total * e1 / d <= total * e2 / d,
{
    lemma_mul_inequality(e1, e2, total);
    assert(total * e1 <= total * e2) by (nonlinear_arith)
        requires
            e1 * total <= e2 * total,
    ;
    lemma_div_is_ordered(total * e1, total * e2, d);
}

/// The unlocked amount never leaves `0..=total`, whatever the time and the
/// paused duration.
pub proof fn lemma_unlocked_bounded(total: int, start: int, cliff: int, end: int, paused: int, t: int)
    requires
        total >= 0,
        paused >= 0,
    ensures
        0 <= unlocked_at(total, start, cliff, end, paused, t) <= total,
{
    if !(t < cliff || t <= start) && t < end + paused && t - start - paused > 0 {
        lemma_ratio_bounded(total, t - start - paused, end - start);
    }
}

/// For a fixed paused duration, the unlocked amount never decreases as time
/// passes.
pub proof fn lemma_unlocked_monotonic(
    total: int,
    start: int,
    cliff: int,
    end: int,
    paused: int,
    t1: int,
    t2: int,
)
    requires
        total >= 0,
        paused >= 0,
        t1 <= t2,
    ensures
        unlocked_at(total, start, cliff, end, paused, t1) <= unlocked_at(total, start, cliff, end, paused, t2),
{
    lemma_unlocked_bounded(total, start, cliff, end, paused, t1);
    lemma_unlocked_bounded(total, start, cliff, end, paused, t2);
    let ratio1 = !(t1 < cliff || t1 <= start) && t1 < end + paused && t1 - start - paused > 0;
    let ratio2 = !(t2 < cliff || t2 <= start) && t2 < end + paused && t2 - start - paused > 0;
    if ratio1 && ratio2 {
        lemma_ratio_monotonic(total, t1 - start - paused, t2 - start - paused, end - start);
    }
}

/// For a valid schedule (`start <= cliff < end`, the cliff equal to the start
/// when there is none), the unlocked amount is zero at the start and at every
/// time before the cliff, and is exactly the total at and after the end,
/// whatever the total. For a non-negative total it is also monotonically
/// non-decreasing in time.
pub proof fn lemma_vesting_schedule(total: int, start: int, cliff: int, end: int, t1: int, t2: int)
    requires
        start <= cliff < end,
        t1 <= t2,
    ensures
        total >= 0 ==> unlocked_at(total, start, cliff, end, 0, t1) <= unlocked_at(total, start, cliff, end, 0, t2),
        unlocked_at(total, start, cliff, end, 0, start) == 0,
        t1 < cliff ==> unlocked_at(total, start, cliff, end, 0, t1) == 0,
        t1 >= end ==> unlocked_at(total, start, cliff, end, 0, t1) == total,
{
    if total >= 0 {
        lemma_unlocked_monotonic(total, start, cliff, end, 0, t1, t2);
    }
}

/// `floor(total * e / d)` for `0 <= e <= d`, for a total of either sign.
pub fn scale_floor(total: i128, e: u64, d: u64) -> (r: i128)
    requires
        0 < d,
        e <= d,
    ensures
        r == total * e / (d as int),
        total >= 0 ==> 0 <= r <= total,
{
    if total >= 0 {
        let q = mul_div_floor(total as u128, e as u128, d as u128);
        proof {
            lemma_ratio_bounded(total as int, e as int, d as int);
        }
        return q as i128;
    }
    // The magnitude of a negative total, which fits in 128 bits unsigned.
    let a: u128 = (-(total + 1)) as u128 + 1;
    let (q, rem) = mul_div_rem(a, e as u128, d as u128);
    proof {
        assert(total * e == -(q * d + rem)) by (nonlinear_arith)
            requires
                q * d + rem == a * e,
                a == -total,
        ;
    }
    if rem == 0 {
        proof {
            assert(total * e == (-(q as int)) * d + 0) by (nonlinear_arith)
                requires
                    total * e == -(q * d + rem),
                    rem == 0,
            ;
            vstd::arithmetic::div_mod::lemma_fundamental_div_mod_converse(
                total * e,
                d as int,
                -(q as int),
                0,
            );
        }
        if q == 0 {
            0
        } else {
            -((q - 1) as i128) - 1
        }
    } else {
        proof {
            assert(q < a) by (nonlinear_arith)
                requires
                    q * d + rem == a * e,
                    rem > 0,
                    e <= d,
                    d > 0,
                    a >= 0,
                    q >= 0,
            ;
            assert(total * e == (-(q as int) - 1) * d + (d - rem)) by (nonlinear_arith)
                requires
                    total * e == -(q * d + rem),
            ;
            vstd::arithmetic::div_mod::lemma_fundamental_div_mod_converse(
                total * e,
                d as int,
                -(q as int) - 1,
                d - rem,
            );
        }
        -(q as i128) - 1
    }
}

/// Unlocked amount of a schedule at `now`, with `paused_duration` seconds of
/// pausing excluded from the elapsed time.
pub fn unlocked_with_pause(
    total_amount: i128,
    start: u64,
    cliff: u64,
    end: u64,
    paused_duration: u64,
    now: u64,
) -> (r: i128)
    ensures
        r == unlocked_at(total_amount as int, start as int, cliff as int, end as int, paused_duration as int, now as int),
        total_amount >= 0 ==> 0 <= r <= total_amount,
{
    if now < cliff || now <= start {
        return 0;
    }
    // The end pushed back by the pause may not fit in 64 bits.
    if now as u128 >= end as u128 + paused_duration as u128 {
        return total_amount;
    }
    let elapsed: u64 = now - start;
    if elapsed <= paused_duration {
        return 0;
    }
    let effective: u64 = elapsed - paused_duration;
    let duration: u64 = end - start;
    scale_floor(total_amount, effective, duration)
}

/// Unlocked amount of a schedule without a cliff: nothing before `start`, all of
/// `total_amount` from `end` on, and a linear share rounded down in between.
pub fn calculate_unlocked_amount(total_amount: i128, start_time: u64, end_time: u64, current_time: u64) -> (r: i128)
    ensures
        r == unlocked_at(total_amount as int, start_time as int, start_time as int, end_time as int, 0, current_time as int),
{
    unlocked_with_pause(total_amount, start_time, start_time, end_time, 0, current_time)
}

/// What is left to withdraw when `unlocked_amount` has unlocked and
/// `withdrawn_amount` has already been paid out.
pub fn calculate_withdrawable_amount(unlocked_amount: i128, withdrawn_amount: i128) -> (r: i128)
    requires
        i128::MIN <= unlocked_amount - withdrawn_amount <= i128::MAX,
    ensures
        r == unlocked_amount - withdrawn_amount,
{
    unlocked_amount - withdrawn_amount
}

/// Unlocked amount of a schedule with a cliff: nothing before `cliff` (nor at
/// `start`), all of `total_amount` from `end` on, and a linear share of the time
/// since `start`, rounded down, in between.
pub fn calculate_unlocked(total_amount: i128, start: u64, cliff: u64, end: u64, now: u64) -> (r: i128)
    ensures
        r == unlocked_at(total_amount as int, start as int, cliff as int, end as int, 0, now as int),
{
    unlocked_with_pause(total_amount, start, cliff, end, 0, now)
}

/// What may be withdrawn now. From `end` on this is the exact remaining
/// balance `total_amount - withdrawn_amount`, never a recomputed ratio, so no
/// rounding dust is left behind.
pub fn calculate_withdrawable(
    total_amount: i128,
    withdrawn_amount: i128,
    start: u64,
    cliff: u64,
    end: u64,
    now: u64,
) -> (r: i128)
    requires
        total_amount >= 0,
        withdrawn_amount >= 0,
    ensures
        r == (if now >= end {
            total_amount - withdrawn_amount
        } else {
            unlocked_at(total_amount as int, start as int, cliff as int, end as int, 0, now as int)
                - withdrawn_amount
        }),
{
    if now >= end {
        return total_amount - withdrawn_amount;
    }
    let total_unlocked = calculate_unlocked(total_amount, start, cliff, end, now);
    total_unlocked - withdrawn_amount
}

} // verus!
