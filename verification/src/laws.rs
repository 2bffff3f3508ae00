//! What holds of every pool that meets its invariant.

use vstd::prelude::*;
use crate::ledger::{key_index, lemma_key_index};
use crate::model::{
    lemma_share_within_sum, lemma_sum_shares_push, lemma_two_shares_within_sum, AccountView,
    PoolView,
};
use crate::pricing::{
    lemma_fee_effect, lemma_first_deposit_round_trip, lemma_payout_within_reserve,
    lemma_quote_below_reserve, lemma_quote_monotonic, lemma_round_trip,
};
use crate::FEE_DIVISOR;

verus! {

/// On one pool a larger input is quoted at least as much as a smaller one.
pub proof fn lemma_get_return_monotonic(
    pool: PoolView,
    token_in: Seq<char>,
    amount_a: u128,
    amount_b: u128,
    token_out: Seq<char>,
)
    requires
        pool.wf(),
        amount_a <= amount_b,
        pool.get_return(token_in, amount_a, token_out) is Ok,
    ensures
        pool.get_return(token_in, amount_b, token_out) is Ok,
        pool.get_return(token_in, amount_a, token_out)->Ok_0 <= pool.get_return(
            token_in,
            amount_b,
            token_out,
        )->Ok_0,
{
    let x = pool.reserve(token_in) as int;
    let y = pool.reserve(token_out) as int;
    let f = pool.exchange_fee as int;
    lemma_quote_monotonic(x, y, f, amount_a as int, amount_b as int);
    lemma_quote_below_reserve(x, y, f, amount_a as int);
    lemma_quote_below_reserve(x, y, f, amount_b as int);
}

/// The quote of a pool is the quote of the same pool without fee, scaled by
/// `(FEE_DIVISOR - exchange_fee) / FEE_DIVISOR` and rounded down, and so
/// never more than it.
pub proof fn lemma_get_return_fee_effect(
    pool: PoolView,
    token_in: Seq<char>,
    amount_in: u128,
    token_out: Seq<char>,
)
    requires
        pool.wf(),
        pool.get_return(token_in, amount_in, token_out) is Ok,
    ensures
        ({
            let free = PoolView { exchange_fee: 0, ..pool };
            let charged = pool.get_return(token_in, amount_in, token_out)->Ok_0;
            &&& free.get_return(token_in, amount_in, token_out) is Ok
            &&& charged == ((FEE_DIVISOR - pool.exchange_fee) * free.get_return(
                token_in,
                amount_in,
                token_out,
            )->Ok_0) / (FEE_DIVISOR as int)
            &&& charged <= free.get_return(token_in, amount_in, token_out)->Ok_0
        }),
{
    let x = pool.reserve(token_in) as int;
    let y = pool.reserve(token_out) as int;
    lemma_fee_effect(x, y, pool.exchange_fee as int, amount_in as int);
    lemma_quote_below_reserve(x, y, 0, amount_in as int);
    lemma_quote_below_reserve(x, y, pool.exchange_fee as int, amount_in as int);
}

/// Whoever adds liquidity and at once redeems the shares minted for it is
/// paid no more of either token than was added.
pub proof fn lemma_add_then_remove(
    pool: PoolView,
    caller: Seq<char>,
    token_in: Seq<char>,
    amount_in: u128,
    token_out: Seq<char>,
    amount_out: u128,
)
    requires
        pool.wf(),
        pool.add_liquidity_result(caller, token_in, amount_in, token_out, amount_out) is Ok,
    ensures
        ({
            let share = pool.add_liquidity_result(
                caller,
                token_in,
                amount_in,
                token_out,
                amount_out,
            )->Ok_0;
            let after = pool.liquidity_added(
                caller,
                token_in,
                amount_in,
                token_out,
                amount_out,
                share,
            );
            &&& after.payout_of(pool.token_index(token_in), share) <= amount_in
            &&& after.payout_of(pool.token_index(token_out), share) <= amount_out
        }),
{
    let share = pool.add_liquidity_result(caller, token_in, amount_in, token_out, amount_out)->Ok_0;
    let after = pool.liquidity_added(caller, token_in, amount_in, token_out, amount_out, share);
    let i = pool.token_index(token_in);
    let o = pool.token_index(token_out);
    let x = pool.reserve(token_in) as int;
    let y = pool.reserve(token_out) as int;
    let supply = pool.total_share_supply as int;
    assert(i != o);
    assert(after.token_reserves[i] == x + amount_in);
    assert(after.token_reserves[o] == y + amount_out);
    assert(after.total_share_supply == supply + share);
    if supply > 0 {
        lemma_round_trip(x, y, supply, amount_in as int, amount_out as int);
    } else {
        lemma_first_deposit_round_trip(amount_in as int);
        lemma_first_deposit_round_trip(amount_out as int);
    }
}

/// Registering an account keeps the invariant: the new account holds no
/// shares, so the shares still add up to the supply.
pub proof fn lemma_register_keeps_invariant(pool: PoolView, id: Seq<char>)
    requires
        pool.wf(),
        !pool.is_registered(id),
    ensures
        pool.registered(id).wf(),
        pool.registered(id).is_registered(id),
        pool.registered(id).account(id) == AccountView::fresh(),
{
    let after = pool.registered(id);
    let n = pool.accounts.len() as int;
    lemma_sum_shares_push(pool.accounts, (id, AccountView::fresh()));
    assert forall|i: int, j: int| 0 <= i < j < after.accounts.len() implies (
    #[trigger] after.accounts[i]).0 != (#[trigger] after.accounts[j]).0 by {
        if j == n {
            assert(pool.accounts[i].0 == after.accounts[i].0);
        } else {
            assert(pool.accounts[i].0 != pool.accounts[j].0);
        }
    }
    assert forall|i: int| 0 <= i < after.accounts.len() implies (#[trigger] after.accounts[i]).1.wf() by {
        if i < n {
            assert(pool.accounts[i].1.wf());
        }
    }
    lemma_key_index(after.accounts, n);
}

/// Crediting a balance keeps the invariant and changes that balance alone.
pub proof fn lemma_deposit_keeps_invariant(
    pool: PoolView,
    id: Seq<char>,
    token: Seq<char>,
    amount: u128,
)
    requires
        pool.wf(),
        pool.deposit_error(id, token, amount) is None,
    ensures
        pool.credited(id, token, amount as int).wf(),
        pool.credited(id, token, amount as int).balance(id, token) == pool.balance(id, token)
            + amount,
        pool.credited(id, token, amount as int).account(id).share == pool.account(id).share,
        forall|other: Seq<char>|
            other != token ==> pool.credited(id, token, amount as int).balance(id, other)
                == pool.balance(id, other),
{
    pool.lemma_set_balance(id, token, (pool.balance(id, token) + amount) as u128);
}

/// Debiting a balance that holds the amount keeps the invariant and changes
/// that balance alone.
pub proof fn lemma_withdraw_keeps_invariant(
    pool: PoolView,
    id: Seq<char>,
    token: Seq<char>,
    amount: u128,
)
    requires
        pool.wf(),
        pool.withdraw_error(id, token, amount) is None,
    ensures
        pool.debited(id, token, amount as int).wf(),
        pool.debited(id, token, amount as int).balance(id, token) == pool.balance(id, token)
            - amount,
        pool.debited(id, token, amount as int).account(id).share == pool.account(id).share,
        forall|other: Seq<char>|
            other != token ==> pool.debited(id, token, amount as int).balance(id, other)
                == pool.balance(id, other),
{
    pool.lemma_set_balance(id, token, (pool.balance(id, token) - amount) as u128);
}

/// A transfer of shares keeps the invariant and the supply: what one
/// account gives the other gets, and a transfer to oneself changes nothing.
pub proof fn lemma_transfer_share_keeps_invariant(
    pool: PoolView,
    from: Seq<char>,
    to: Seq<char>,
    amount: u128,
)
    requires
        pool.wf(),
        pool.transfer_share_error(from, to, amount) is None,
    ensures
        ({
            let after = pool.share_transferred(from, to, amount);
            &&& after.wf()
            &&& after.total_share_supply == pool.total_share_supply
            &&& from != to ==> after.account(from).share == pool.account(from).share - amount
            &&& from != to ==> after.account(to).share == pool.account(to).share + amount
            &&& from == to ==> after.account(from).share == pool.account(from).share
        }),
{
    let i = key_index(pool.accounts, from);
    let j = key_index(pool.accounts, to);
    lemma_share_within_sum(pool.accounts, i);
    if from != to {
        lemma_two_shares_within_sum(pool.accounts, i, j);
    }
    let given = (pool.account(from).share - amount) as u128;
    pool.lemma_set_share(from, given);
    let middle = pool.with_share_change(from, -(amount as int));
    assert(middle == pool.with_account(from, pool.account(from).with_share(given)));
    let taken = (middle.account(to).share + amount) as u128;
    middle.lemma_set_share(to, taken);
}

/// A swap keeps the invariant, the supply and every account's shares; the
/// output reserve is not emptied.
pub proof fn lemma_swap_keeps_invariant(
    pool: PoolView,
    caller: Seq<char>,
    token_in: Seq<char>,
    amount_in: u128,
    token_out: Seq<char>,
    min_amount_out: u128,
)
    requires
        pool.wf(),
        pool.swap_result(caller, token_in, amount_in, token_out, min_amount_out) is Ok,
    ensures
        ({
            let amount_out = pool.swap_result(
                caller,
                token_in,
                amount_in,
                token_out,
                min_amount_out,
            )->Ok_0;
            let after = pool.swapped(caller, token_in, amount_in, token_out, amount_out);
            &&& after.wf()
            &&& amount_out >= min_amount_out
            &&& amount_out < pool.reserve(token_out)
            &&& after.total_share_supply == pool.total_share_supply
            &&& after.reserve(token_in) == pool.reserve(token_in) + amount_in
            &&& after.reserve(token_out) == pool.reserve(token_out) - amount_out
            &&& after.balance(caller, token_in) == pool.balance(caller, token_in) - amount_in
            &&& after.balance(caller, token_out) == pool.balance(caller, token_out) + amount_out
        }),
{
    let amount_out = pool.swap_result(caller, token_in, amount_in, token_out, min_amount_out)->Ok_0;
    lemma_quote_below_reserve(
        pool.reserve(token_in) as int,
        pool.reserve(token_out) as int,
        pool.exchange_fee as int,
        amount_in as int,
    );
    let repriced = pool.with_reserve(
        token_in,
        (pool.reserve(token_in) + amount_in) as u128,
    ).with_reserve(token_out, (pool.reserve(token_out) - amount_out) as u128);
    assert(repriced.accounts == pool.accounts);
    repriced.lemma_set_balance(
        caller,
        token_out,
        (repriced.balance(caller, token_out) + amount_out) as u128,
    );
    let paid = repriced.credited(caller, token_out, amount_out as int);
    paid.lemma_set_balance(caller, token_in, (paid.balance(caller, token_in) - amount_in) as u128);
}

/// Adding liquidity keeps the invariant: the shares minted go to the caller
/// and to the supply alike, and the reserves grow by what was added.
pub proof fn lemma_add_liquidity_keeps_invariant(
    pool: PoolView,
    caller: Seq<char>,
    token_in: Seq<char>,
    amount_in: u128,
    token_out: Seq<char>,
    amount_out: u128,
)
    requires
        pool.wf(),
        pool.add_liquidity_result(caller, token_in, amount_in, token_out, amount_out) is Ok,
    ensures
        ({
            let share = pool.add_liquidity_result(
                caller,
                token_in,
                amount_in,
                token_out,
                amount_out,
            )->Ok_0;
            let after = pool.liquidity_added(
                caller,
                token_in,
                amount_in,
                token_out,
                amount_out,
                share,
            );
            &&& after.wf()
            &&& share > 0
            &&& after.total_share_supply == pool.total_share_supply + share
            &&& after.account(caller).share == pool.account(caller).share + share
            &&& after.reserve(token_in) == pool.reserve(token_in) + amount_in
            &&& after.reserve(token_out) == pool.reserve(token_out) + amount_out
            &&& after.balance(caller, token_in) == pool.balance(caller, token_in) - amount_in
            &&& after.balance(caller, token_out) == pool.balance(caller, token_out) - amount_out
        }),
{
    let share = pool.add_liquidity_result(caller, token_in, amount_in, token_out, amount_out)->Ok_0;
    pool.lemma_set_balance(caller, token_in, (pool.balance(caller, token_in) - amount_in) as u128);
    let first = pool.debited(caller, token_in, amount_in as int);
    first.lemma_set_balance(
        caller,
        token_out,
        (first.balance(caller, token_out) - amount_out) as u128,
    );
    let second = first.debited(caller, token_out, amount_out as int);
    let funded = second.with_reserve(
        token_in,
        (pool.reserve(token_in) + amount_in) as u128,
    ).with_reserve(token_out, (pool.reserve(token_out) + amount_out) as u128);
    assert(funded.accounts == second.accounts);
    lemma_share_within_sum(funded.accounts, key_index(funded.accounts, caller));
    funded.lemma_set_share(caller, (funded.account(caller).share + share) as u128);
}

/// Removing liquidity keeps the invariant: the shares burnt leave the
/// caller and the supply alike, and no reserve pays out more than it holds.
pub proof fn lemma_remove_liquidity_keeps_invariant(pool: PoolView, caller: Seq<char>, amount: u128)
    requires
        pool.wf(),
        pool.remove_liquidity_error(caller, amount) is None,
    ensures
        ({
            let after = pool.liquidity_removed(caller, amount);
            &&& after.wf()
            &&& 0 <= pool.payout_of(0, amount) <= pool.token_reserves[0]
            &&& 0 <= pool.payout_of(1, amount) <= pool.token_reserves[1]
            &&& after.total_share_supply == pool.total_share_supply - amount
            &&& after.account(caller).share == pool.account(caller).share - amount
            &&& after.token_reserves[0] == pool.token_reserves[0] - pool.payout_of(0, amount)
            &&& after.token_reserves[1] == pool.token_reserves[1] - pool.payout_of(1, amount)
            &&& after.balance(caller, pool.token_ids[0]) == pool.balance(caller, pool.token_ids[0])
                + pool.payout_of(0, amount)
            &&& after.balance(caller, pool.token_ids[1]) == pool.balance(caller, pool.token_ids[1])
                + pool.payout_of(1, amount)
        }),
{
    let supply = pool.total_share_supply as int;
    lemma_share_within_sum(pool.accounts, key_index(pool.accounts, caller));
    lemma_payout_within_reserve(amount as int, pool.token_reserves[0] as int, supply);
    lemma_payout_within_reserve(amount as int, pool.token_reserves[1] as int, supply);
    pool.lemma_set_share(caller, (pool.account(caller).share - amount) as u128);
    let burnt = pool.burnt(caller, amount);
    let drained = burnt.with_reserve(
        pool.token_ids[0],
        (pool.token_reserves[0] - pool.payout_of(0, amount)) as u128,
    ).with_reserve(
        pool.token_ids[1],
        (pool.token_reserves[1] - pool.payout_of(1, amount)) as u128,
    );
    assert(drained.accounts == burnt.accounts);
    drained.lemma_set_balance(
        caller,
        pool.token_ids[0],
        (drained.balance(caller, pool.token_ids[0]) + pool.payout_of(0, amount)) as u128,
    );
    let first = drained.credited(caller, pool.token_ids[0], pool.payout_of(0, amount));
    first.lemma_set_balance(
        caller,
        pool.token_ids[1],
        (first.balance(caller, pool.token_ids[1]) + pool.payout_of(1, amount)) as u128,
    );
}

} // verus!
