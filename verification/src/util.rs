//! The deposit that must come with a call, the refund of what a
//! registration did not use of it, and the integer square root.

use vstd::prelude::*;
use crate::error::PoolError;
use crate::wide::{two_pow_256, U256};
use crate::Balance;

verus! {

/// Accepts an attached deposit of one yoctoNEAR or more.
pub fn assert_at_least_one_yocto(attached_deposit: Balance) -> (r: Result<(), PoolError>)
    ensures
        r == if attached_deposit >= 1 {
            Ok::<(), PoolError>(())
        } else {
            Err::<(), PoolError>(PoolError::AtLeastOneYoctoRequired)
        },
{
    if attached_deposit >= 1 {
        Ok(())
    } else {
        Err(PoolError::AtLeastOneYoctoRequired)
    }
}

/// Accepts an attached deposit of exactly one yoctoNEAR.
pub fn assert_one_yocto(attached_deposit: Balance) -> (r: Result<(), PoolError>)
    ensures
        r == if attached_deposit == 1 {
            Ok::<(), PoolError>(())
        } else {
            Err::<(), PoolError>(PoolError::OneYoctoRequired)
        },
{
    if attached_deposit == 1 {
        Ok(())
    } else {
        Err(PoolError::OneYoctoRequired)
    }
}

/// What is owed back of an attached deposit after `storage_used` bytes
/// were paid from it at `storage_byte_cost` each, or why the deposit is
/// not accepted.  Nothing is owed back where the deposit is used up.
pub open spec fn refund_due(storage_used: u64, storage_byte_cost: Balance, attached_deposit: Balance)
    -> Result<Option<Balance>, PoolError> {
    let required_cost = storage_byte_cost * storage_used;
    if required_cost > u128::MAX {
        Err(PoolError::Overflow)
    } else if attached_deposit < required_cost {
        Err(PoolError::StorageNotCovered)
    } else if attached_deposit == required_cost {
        Ok(None)
    } else {
        Ok(Some((attached_deposit - required_cost) as u128))
    }
}

/// The part of `attached_deposit` to send back to the caller once
/// `storage_used` bytes of storage have been paid from it, if any.
pub fn refund_deposit(storage_used: u64, storage_byte_cost: Balance, attached_deposit: Balance) -> (r:
    Result<Option<Balance>, PoolError>)
    ensures
        r == refund_due(storage_used, storage_byte_cost, attached_deposit),
{
    let required_cost = U256::full_mul(storage_byte_cost, storage_used as u128);
    if !required_cost.fits_u128() {
        return Err(PoolError::Overflow);
    }
    let required_cost = required_cost.as_u128();
    if attached_deposit < required_cost {
        return Err(PoolError::StorageNotCovered);
    }
    let refund = attached_deposit - required_cost;
    if refund > 0 {
        Ok(Some(refund))
    } else {
        Ok(None)
    }
}

/// One step of Newton's iteration for the square root of `n`, from `x`.
pub open spec fn newton_step(n: int, x: int) -> int {
    (n / x + x) / 2
}

/// A Newton step from any positive point lands at or above the square root.
proof fn lemma_newton_step_above_root(n: int, x: int)
    requires
        0 <= n,
        1 <= x,
    ensures
        (newton_step(n, x) + 1) * (newton_step(n, x) + 1) > n,
        newton_step(n, x) >= 0,
{
    let q = n / x;
    let y = newton_step(n, x);
    vstd::arithmetic::div_mod::lemma_fundamental_div_mod(n, x);
    vstd::arithmetic::div_mod::lemma_mod_bound(n, x);
    vstd::arithmetic::div_mod::lemma_div_pos_is_pos(n, x);
    assert(n == x * q + n % x);
    assert(n <= x * q + x - 1);
    assert(2 * (y + 1) >= x + q + 1);
    let z = x + q + 1;
    assert(z * z >= 4 * (x * q + x)) by (nonlinear_arith)
        requires
            z == x + q + 1,
    ;
    assert((2 * (y + 1)) * (2 * (y + 1)) >= z * z) by (nonlinear_arith)
        requires
            2 * (y + 1) >= z,
            z >= 0,
    ;
    assert((2 * (y + 1)) * (2 * (y + 1)) == 4 * ((y + 1) * (y + 1))) by (nonlinear_arith);
}

/// For `x` between one and `n`, the sum `n / x + x` is at most `n + 1`.
proof fn lemma_newton_sum_bound(n: int, x: int)
    requires
        1 <= x <= n,
    ensures
        1 <= n / x,
        n / x + x <= n + 1,
{
    let q = n / x;
    vstd::arithmetic::div_mod::lemma_fundamental_div_mod(n, x);
    vstd::arithmetic::div_mod::lemma_mod_bound(n, x);
    assert(n == x * q + n % x);
    assert(q >= 1) by (nonlinear_arith)
        requires
            n == x * q + n % x,
            0 <= n % x < x,
            x <= n,
            1 <= x,
    ;
    assert(x + q <= x * q + 1) by (nonlinear_arith)
        requires
            x >= 1,
            q >= 1,
    ;
}

/// Where a Newton step does not go down, the point is at or below the root.
proof fn lemma_newton_fixpoint_below_root(n: int, x: int)
    requires
        0 <= n,
        1 <= x,
        newton_step(n, x) >= x,
    ensures
        x * x <= n,
{
    let q = n / x;
    vstd::arithmetic::div_mod::lemma_fundamental_div_mod(n, x);
    vstd::arithmetic::div_mod::lemma_mod_bound(n, x);
    assert(n == x * q + n % x);
    assert(q >= x);
    assert(x * x <= x * q) by (nonlinear_arith)
        requires
            q >= x,
            x >= 1,
    ;
}

/// The integer square root: the largest `r` with `r * r <= value`, found by
/// Newton's iteration from above.
///
/// The first step forms `value + 1`, so the largest 256-bit value is not
/// accepted.
pub fn integer_sqrt(value: U256) -> (r: U256)
    requires
        value@ + 1 < two_pow_256(),
    ensures
        r@ * r@ <= value@,
        value@ < (r@ + 1) * (r@ + 1),
{
    let mut guess: U256 = value.add(U256::one()).shr1();
    let mut res: U256 = value;
    proof {
        if value@ > 0 {
            vstd::arithmetic::div_mod::lemma_div_by_self(value@ as int);
        }
        assert((value@ + 1) * (value@ + 1) > value@) by (nonlinear_arith);
    }
    while guess.lt(&res)
        invariant
            value@ + 1 < two_pow_256(),
            res@ <= value@,
            (res@ + 1) * (res@ + 1) > value@,
            res@ == 0 ==> guess@ == 0,
            res@ > 0 ==> guess@ == newton_step(value@ as int, res@ as int),
        decreases res@,
    {
        proof {
            lemma_newton_step_above_root(value@ as int, res@ as int);
            assert(guess@ >= 1) by (nonlinear_arith)
                requires
                    (guess@ + 1) * (guess@ + 1) > value@,
                    value@ >= 1,
            ;
            lemma_newton_sum_bound(value@ as int, guess@ as int);
        }
        res = guess;
        guess = value.div(guess).add(guess).shr1();
    }
    proof {
        if res@ > 0 {
            lemma_newton_fixpoint_below_root(value@ as int, res@ as int);
        } else {
            assert(res@ * res@ == 0) by (nonlinear_arith)
                requires
                    res@ == 0,
            ;
        }
    }
    res
}

} // verus!
