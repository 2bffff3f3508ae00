//! The arithmetic of the pool: the price of a swap, the shares minted for
//! a deposit, the payout for shares that are redeemed, and what holds of
//! them whatever the amounts.

use vstd::prelude::*;
use vstd::arithmetic::div_mod::{
    lemma_div_is_ordered, lemma_div_multiples_vanish, lemma_div_pos_is_pos,
    lemma_fundamental_div_mod, lemma_mod_bound,
};
use crate::{FEE_DIVISOR, INIT_SHARES_SUPPLY};

verus! {

/// The output of a swap before the fee: what leaves the output reserve when
/// `amount_in` enters the input reserve and the product of the reserves is
/// kept, rounded down.
pub open spec fn gross_return(in_reserve: int, out_reserve: int, amount_in: int) -> int {
    (out_reserve * amount_in) / (in_reserve + amount_in)
}

/// An output with the fee taken off, rounded down.
pub open spec fn after_fee(amount: int, fee: int) -> int {
    ((FEE_DIVISOR - fee) * amount) / (FEE_DIVISOR as int)
}

/// The output of a swap of `amount_in`.
pub open spec fn quote(in_reserve: int, out_reserve: int, fee: int, amount_in: int) -> int {
    after_fee(gross_return(in_reserve, out_reserve, amount_in), fee)
}

/// The shares minted for a deposit into a pool that has shares outstanding:
/// the smaller of the two amounts' proportions of the supply.
pub open spec fn minted_share(
    in_reserve: int,
    out_reserve: int,
    supply: int,
    amount_in: int,
    amount_out: int,
) -> int {
    let by_in = (amount_in * supply) / in_reserve;
    let by_out = (amount_out * supply) / out_reserve;
    if by_in <= by_out {
        by_in
    } else {
        by_out
    }
}

/// What is paid from a reserve for `amount` shares out of `supply`.
pub open spec fn payout(amount: int, reserve: int, supply: int) -> int {
    (amount * reserve) / supply
}

/// A product divided by a divisor that is at least one of its factors is at
/// most the other factor.
pub proof fn lemma_mul_div_le(a: int, b: int, c: int)
    requires
        0 <= a <= c,
        0 < c,
        0 <= b,
    ensures
        0 <= (b * a) / c <= b,
{
    assert(0 <= b * a <= b * c) by (nonlinear_arith)
        requires
            0 <= a <= c,
            0 <= b,
    ;
    lemma_div_is_ordered(b * a, b * c, c);
    lemma_div_multiples_vanish(b, c);
    assert(b * c == c * b) by (nonlinear_arith);
    lemma_div_pos_is_pos(b * a, c);
}

/// Rounding down keeps the order of two fractions.
pub proof fn lemma_fraction_order(x: int, m: int, y: int, n: int)
    requires
        0 <= x,
        0 <= y,
        0 < m,
        0 < n,
        x * n <= y * m,
    ensures
        x / m <= y / n,
{
    let k = x / m;
    lemma_fundamental_div_mod(x, m);
    lemma_mod_bound(x, m);
    lemma_div_pos_is_pos(x, m);
    assert(k * m <= x) by (nonlinear_arith)
        requires
            x == m * k + x % m,
            0 <= x % m,
    ;
    assert(k * n <= y) by (nonlinear_arith)
        requires
            k * m <= x,
            x * n <= y * m,
            0 < m,
            0 < n,
            0 <= k,
    ;
    lemma_div_is_ordered(k * n, y, n);
    lemma_div_multiples_vanish(k, n);
    assert(k * n == n * k) by (nonlinear_arith);
}

/// Before the fee a swap pays out less than the output reserve holds.
pub proof fn lemma_gross_return_below_reserve(in_reserve: int, out_reserve: int, amount_in: int)
    requires
        0 < in_reserve,
        0 < out_reserve,
        0 <= amount_in,
    ensures
        0 <= gross_return(in_reserve, out_reserve, amount_in) < out_reserve,
{
    let d = in_reserve + amount_in;
    let g = gross_return(in_reserve, out_reserve, amount_in);
    lemma_mul_div_le(amount_in, out_reserve, d);
    if g == out_reserve {
        lemma_fundamental_div_mod(out_reserve * amount_in, d);
        lemma_mod_bound(out_reserve * amount_in, d);
        assert(false) by (nonlinear_arith)
            requires
                out_reserve * amount_in == d * out_reserve + (out_reserve * amount_in) % d,
                0 <= (out_reserve * amount_in) % d,
                d == in_reserve + amount_in,
                0 < in_reserve,
                0 < out_reserve,
        ;
    }
}

/// Taking the fee off never adds to an amount.
pub proof fn lemma_after_fee_le(amount: int, fee: int)
    requires
        0 <= amount,
        0 <= fee <= FEE_DIVISOR,
    ensures
        0 <= after_fee(amount, fee) <= amount,
{
    lemma_mul_div_le(FEE_DIVISOR - fee, amount, FEE_DIVISOR as int);
    assert((FEE_DIVISOR - fee) * amount == amount * (FEE_DIVISOR - fee)) by (nonlinear_arith);
}

/// A swap pays out less than the output reserve holds: no swap can empty a
/// reserve, let alone overdraw it.
pub proof fn lemma_quote_below_reserve(in_reserve: int, out_reserve: int, fee: int, amount_in: int)
    requires
        0 < in_reserve,
        0 < out_reserve,
        0 <= fee <= FEE_DIVISOR,
        0 <= amount_in,
    ensures
        0 <= quote(in_reserve, out_reserve, fee, amount_in) < out_reserve,
{
    lemma_gross_return_below_reserve(in_reserve, out_reserve, amount_in);
    lemma_after_fee_le(gross_return(in_reserve, out_reserve, amount_in), fee);
}

/// A swap never lowers the product of the reserves: rounding and the fee
/// both stay with the pool.
pub proof fn lemma_swap_keeps_product(in_reserve: int, out_reserve: int, fee: int, amount_in: int)
    requires
        0 < in_reserve,
        0 < out_reserve,
        0 <= fee <= FEE_DIVISOR,
        0 <= amount_in,
    ensures
        (in_reserve + amount_in) * (out_reserve - quote(in_reserve, out_reserve, fee, amount_in))
            >= in_reserve * out_reserve,
{
    let d = in_reserve + amount_in;
    let g = gross_return(in_reserve, out_reserve, amount_in);
    let q = quote(in_reserve, out_reserve, fee, amount_in);
    lemma_gross_return_below_reserve(in_reserve, out_reserve, amount_in);
    lemma_after_fee_le(g, fee);
    lemma_fundamental_div_mod(out_reserve * amount_in, d);
    lemma_mod_bound(out_reserve * amount_in, d);
    assert(d * g <= out_reserve * amount_in);
    assert(d * (out_reserve - q) >= d * (out_reserve - g)) by (nonlinear_arith)
        requires
            q <= g,
            d > 0,
    ;
    assert(d * (out_reserve - g) == d * out_reserve - d * g) by (nonlinear_arith);
    assert(d * out_reserve == in_reserve * out_reserve + out_reserve * amount_in)
        by (nonlinear_arith)
        requires
            d == in_reserve + amount_in,
    ;
}

/// What is paid for shares never exceeds the reserve it is paid from, as
/// long as no more shares are redeemed than are outstanding; and the whole
/// supply redeems the whole reserve.
pub proof fn lemma_payout_within_reserve(amount: int, reserve: int, supply: int)
    requires
        0 <= amount <= supply,
        0 < supply,
        0 <= reserve,
    ensures
        0 <= payout(amount, reserve, supply) <= reserve,
        amount == supply ==> payout(amount, reserve, supply) == reserve,
{
    lemma_mul_div_le(amount, reserve, supply);
    assert(amount * reserve == reserve * amount) by (nonlinear_arith);
    if amount == supply {
        lemma_div_multiples_vanish(reserve, supply);
        assert(supply * reserve == amount * reserve);
    }
}

/// With reserves and fee fixed, a larger input never returns less.
pub proof fn lemma_quote_monotonic(
    in_reserve: int,
    out_reserve: int,
    fee: int,
    amount_a: int,
    amount_b: int,
)
    requires
        0 < in_reserve,
        0 <= out_reserve,
        0 <= fee <= FEE_DIVISOR,
        0 <= amount_a <= amount_b,
    ensures
        quote(in_reserve, out_reserve, fee, amount_a) <= quote(
            in_reserve,
            out_reserve,
            fee,
            amount_b,
        ),
{
    let ga = gross_return(in_reserve, out_reserve, amount_a);
    let gb = gross_return(in_reserve, out_reserve, amount_b);
    assert(0 <= out_reserve * amount_a && 0 <= out_reserve * amount_b) by (nonlinear_arith)
        requires
            0 <= out_reserve,
            0 <= amount_a,
            0 <= amount_b,
    ;
    assert((out_reserve * amount_a) * (in_reserve + amount_b) <= (out_reserve * amount_b) * (
    in_reserve + amount_a)) by (nonlinear_arith)
        requires
            0 < in_reserve,
            0 <= out_reserve,
            0 <= amount_a <= amount_b,
    ;
    lemma_fraction_order(
        out_reserve * amount_a,
        in_reserve + amount_a,
        out_reserve * amount_b,
        in_reserve + amount_b,
    );
    assert(ga <= gb);
    assert((FEE_DIVISOR - fee) * ga <= (FEE_DIVISOR - fee) * gb) by (nonlinear_arith)
        requires
            ga <= gb,
            0 <= FEE_DIVISOR - fee,
    ;
    lemma_div_is_ordered((FEE_DIVISOR - fee) * ga, (FEE_DIVISOR - fee) * gb, FEE_DIVISOR as int);
}

/// The output at fee `fee` is the output at no fee, scaled by
/// `(FEE_DIVISOR - fee) / FEE_DIVISOR` and rounded down; it is never more
/// than the output at no fee.
pub proof fn lemma_fee_effect(in_reserve: int, out_reserve: int, fee: int, amount_in: int)
    requires
        0 < in_reserve,
        0 <= out_reserve,
        0 <= fee <= FEE_DIVISOR,
        0 <= amount_in,
    ensures
        quote(in_reserve, out_reserve, 0, amount_in) == gross_return(
            in_reserve,
            out_reserve,
            amount_in,
        ),
        quote(in_reserve, out_reserve, fee, amount_in) == ((FEE_DIVISOR - fee) * quote(
            in_reserve,
            out_reserve,
            0,
            amount_in,
        )) / (FEE_DIVISOR as int),
        quote(in_reserve, out_reserve, fee, amount_in) <= quote(
            in_reserve,
            out_reserve,
            0,
            amount_in,
        ),
{
    let g = gross_return(in_reserve, out_reserve, amount_in);
    lemma_div_multiples_vanish(g, FEE_DIVISOR as int);
    assert(0 <= out_reserve * amount_in) by (nonlinear_arith)
        requires
            0 <= out_reserve,
            0 <= amount_in,
    ;
    lemma_div_pos_is_pos(out_reserve * amount_in, in_reserve + amount_in);
    lemma_after_fee_le(g, fee);
}

/// A higher fee never returns more.
pub proof fn lemma_fee_monotonic(
    in_reserve: int,
    out_reserve: int,
    fee_a: int,
    fee_b: int,
    amount_in: int,
)
    requires
        0 < in_reserve,
        0 <= out_reserve,
        0 <= fee_a <= fee_b <= FEE_DIVISOR,
        0 <= amount_in,
    ensures
        quote(in_reserve, out_reserve, fee_b, amount_in) <= quote(
            in_reserve,
            out_reserve,
            fee_a,
            amount_in,
        ),
{
    let g = gross_return(in_reserve, out_reserve, amount_in);
    assert(0 <= out_reserve * amount_in) by (nonlinear_arith)
        requires
            0 <= out_reserve,
            0 <= amount_in,
    ;
    lemma_div_pos_is_pos(out_reserve * amount_in, in_reserve + amount_in);
    assert((FEE_DIVISOR - fee_b) * g <= (FEE_DIVISOR - fee_a) * g) by (nonlinear_arith)
        requires
            fee_a <= fee_b,
            0 <= g,
    ;
    lemma_div_is_ordered((FEE_DIVISOR - fee_b) * g, (FEE_DIVISOR - fee_a) * g, FEE_DIVISOR as int);
}

/// Shares minted for one leg of a deposit redeem no more than that leg:
/// `share` shares, at most the leg's proportion `amount * supply / reserve`
/// of the supply, pay out at most `amount` from the enlarged reserve.
pub proof fn lemma_leg_round_trip(reserve: int, supply: int, amount: int, share: int)
    requires
        0 < reserve,
        0 <= supply,
        0 <= amount,
        0 <= share <= (amount * supply) / reserve,
        0 < supply + share,
    ensures
        payout(share, reserve + amount, supply + share) <= amount,
{
    lemma_fundamental_div_mod(amount * supply, reserve);
    lemma_mod_bound(amount * supply, reserve);
    let q = (amount * supply) / reserve;
    assert(q * reserve <= amount * supply) by (nonlinear_arith)
        requires
            amount * supply == reserve * q + (amount * supply) % reserve,
            0 <= (amount * supply) % reserve,
    ;
    assert(share * reserve <= amount * supply) by (nonlinear_arith)
        requires
            q * reserve <= amount * supply,
            0 <= share <= q,
            0 < reserve,
    ;
    assert(share * (reserve + amount) <= amount * (supply + share)) by (nonlinear_arith)
        requires
            share * reserve <= amount * supply,
    ;
    assert(0 <= share * (reserve + amount)) by (nonlinear_arith)
        requires
            0 <= share,
            0 < reserve,
            0 <= amount,
    ;
    lemma_div_is_ordered(share * (reserve + amount), amount * (supply + share), supply + share);
    lemma_div_multiples_vanish(amount, supply + share);
    assert(amount * (supply + share) == (supply + share) * amount) by (nonlinear_arith);
}

/// Adding liquidity to a pool that has shares and at once redeeming the
/// shares minted returns no more of either token than was added.
pub proof fn lemma_round_trip(
    in_reserve: int,
    out_reserve: int,
    supply: int,
    amount_in: int,
    amount_out: int,
)
    requires
        0 < in_reserve,
        0 < out_reserve,
        0 < supply,
        0 < amount_in,
        0 < amount_out,
        in_reserve * amount_out == out_reserve * amount_in,
    ensures
        ({
            let share = minted_share(in_reserve, out_reserve, supply, amount_in, amount_out);
            &&& 0 <= share
            &&& payout(share, in_reserve + amount_in, supply + share) <= amount_in
            &&& payout(share, out_reserve + amount_out, supply + share) <= amount_out
        }),
{
    let share = minted_share(in_reserve, out_reserve, supply, amount_in, amount_out);
    assert(0 <= amount_in * supply && 0 <= amount_out * supply) by (nonlinear_arith)
        requires
            0 < supply,
            0 < amount_in,
            0 < amount_out,
    ;
    lemma_div_pos_is_pos(amount_in * supply, in_reserve);
    lemma_div_pos_is_pos(amount_out * supply, out_reserve);
    lemma_leg_round_trip(in_reserve, supply, amount_in, share);
    lemma_leg_round_trip(out_reserve, supply, amount_out, share);
}

/// The first deposit into an empty pool is redeemed in full by the shares
/// it minted.
pub proof fn lemma_first_deposit_round_trip(amount: int)
    requires
        0 <= amount,
    ensures
        payout(INIT_SHARES_SUPPLY as int, amount, INIT_SHARES_SUPPLY as int) == amount,
{
    lemma_payout_within_reserve(INIT_SHARES_SUPPLY as int, amount, INIT_SHARES_SUPPLY as int);
}

} // verus!
