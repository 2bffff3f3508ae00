//! The transfer of shares between accounts and the pricing of swaps.

use vstd::prelude::*;
use crate::error::PoolError;
use crate::ledger::lemma_key_index;
use crate::model::lemma_two_shares_within_sum;
use crate::pricing::{gross_return, lemma_after_fee_le, lemma_gross_return_below_reserve};
use crate::wide::{mul_div, U256};
use crate::{AccountId, Balance, SimplePool, SwapVolume, FEE_DIVISOR};

verus! {

impl SimplePool {
    /// Takes `amount` shares from `account_id` and gives them to
    /// `receiver_id`; the supply stays as it is.
    pub fn internal_transfer_share(
        &mut self,
        account_id: AccountId,
        receiver_id: AccountId,
        amount: u128,
    ) -> (r: Result<(), PoolError>)
        requires
            old(self).wf(),
        ensures
            final(self).wf(),
            final(self)@.total_share_supply == old(self)@.total_share_supply,
            match r {
                Ok(_) => {
                    &&& old(self)@.transfer_share_error(account_id@, receiver_id@, amount) is None
                    &&& final(self)@ == old(self)@.share_transferred(
                        account_id@,
                        receiver_id@,
                        amount,
                    )
                },
                Err(e) => {
                    &&& old(self)@.transfer_share_error(account_id@, receiver_id@, amount) == Some(
                        e,
                    )
                    &&& *final(self) == *old(self)
                },
            },
    {
        let from = match self.account_index(&account_id) {
            Some(i) => i,
            None => {
                return Err(PoolError::AccountNotRegistered);
            },
        };
        let to = match self.account_index(&receiver_id) {
            Some(i) => i,
            None => {
                return Err(PoolError::AccountNotRegistered);
            },
        };
        let share = self.account_share(from);
        if share < amount {
            return Err(PoolError::ShareAmountNotEnough);
        }
        proof {
            if from != to {
                lemma_two_shares_within_sum(self@.accounts, from as int, to as int);
            }
        }
        self.set_account_share(from, share - amount);
        proof {
            lemma_key_index(self@.accounts, to as int);
        }
        let receiver_share = self.account_share(to);
        self.set_account_share(to, receiver_share + amount);
        Ok(())
    }
}

impl SimplePool {
    /// The place of `token_id` among the pool's two tokens, if it is one of
    /// them.
    pub(crate) fn token_index(&self, token_id: &AccountId) -> (r: Option<usize>)
        requires
            self@.shape_ok(),
        ensures
            match r {
                Some(i) => self@.has_token(token_id@) && i == self@.token_index(token_id@) && i
                    < 2,
                None => !self@.has_token(token_id@),
            },
    {
        assert(self@.token_ids[0] == self.token_ids[0]@);
        assert(self@.token_ids[1] == self.token_ids[1]@);
        if self.token_ids[0] == *token_id {
            Some(0)
        } else if self.token_ids[1] == *token_id {
            Some(1)
        } else {
            None
        }
    }

    /// The reserve of one of the pool's two tokens.
    pub fn get_reserve(&self, token_id: AccountId) -> (r: Result<Balance, PoolError>)
        requires
            self.wf(),
        ensures
            r == if self@.has_token(token_id@) {
                Ok::<Balance, PoolError>(self@.reserve(token_id@))
            } else {
                Err::<Balance, PoolError>(PoolError::TokenNotInPool)
            },
    {
        match self.token_index(&token_id) {
            Some(i) => Ok(self.token_reserves[i]),
            None => Err(PoolError::TokenNotInPool),
        }
    }

    /// Sets the reserve of one of the pool's two tokens.
    pub(crate) fn set_reserve(&mut self, token_id: &AccountId, amount: Balance)
        requires
            old(self)@.shape_ok(),
            old(self)@.has_token(token_id@),
        ensures
            final(self)@ == old(self)@.with_reserve(token_id@, amount),
    {
        assert(self@.token_ids[0] == self.token_ids[0]@);
        let i: usize = if self.token_ids[0] == *token_id {
            0
        } else {
            1
        };
        self.token_reserves[i] = amount;
        assert(self@.token_reserves =~= old(self)@.with_reserve(token_id@, amount).token_reserves);
    }

    /// Adds a swap of `amount_in` of `token_in` for `amount_out` to the
    /// volume of `token_in`.  The counters only ever grow.
    pub(crate) fn record_volume(&mut self, token_in: &AccountId, amount_in: Balance, amount_out: Balance)
        requires
            old(self)@.shape_ok(),
            old(self)@.has_token(token_in@),
            old(self)@.volume(token_in@).input + amount_in <= u128::MAX,
            old(self)@.volume(token_in@).output + amount_out <= u128::MAX,
        ensures
            final(self)@ == old(self)@.volume_recorded(token_in@, amount_in, amount_out),
    {
        assert(self@.token_ids[0] == self.token_ids[0]@);
        let i: usize = if self.token_ids[0] == *token_in {
            0
        } else {
            1
        };
        let volume = self.volumes[i];
        self.volumes[i] = SwapVolume {
            input: volume.input + amount_in,
            output: volume.output + amount_out,
        };
        assert(self@.volumes =~= old(self)@.volume_recorded(
            token_in@,
            amount_in,
            amount_out,
        ).volumes);
    }

    /// What a swap of `amount_in` of `token_in` returns of `token_out`: the
    /// amount that keeps the product of the reserves, less the fee.
    pub fn internal_get_return(&self, token_in: AccountId, amount_in: Balance, token_out: AccountId) -> (r:
        Result<Balance, PoolError>)
        requires
            self.wf(),
        ensures
            r == self@.get_return(token_in@, amount_in, token_out@),
            r is Ok ==> r->Ok_0 < self@.reserve(token_out@),
    {
        if token_in == token_out {
            return Err(PoolError::SameToken);
        }
        if amount_in == 0 {
            return Err(PoolError::AmountInInvalid);
        }
        let (i, o) = match (self.token_index(&token_in), self.token_index(&token_out)) {
            (Some(i), Some(o)) => (i, o),
            _ => {
                return Err(PoolError::TokenNotInPool);
            },
        };
        let in_balance = self.token_reserves[i];
        let out_balance = self.token_reserves[o];
        if in_balance == 0 || out_balance == 0 {
            return Err(PoolError::TokenReserveInvalid);
        }
        proof {
            lemma_gross_return_below_reserve(in_balance as int, out_balance as int, amount_in as int);
            lemma_after_fee_le(
                gross_return(in_balance as int, out_balance as int, amount_in as int),
                self.exchange_fee as int,
            );
        }
        let amount_out = mul_div(
            out_balance,
            amount_in,
            U256::from(in_balance).add(U256::from(amount_in)),
        );
        let amount_out_with_fee = mul_div(
            FEE_DIVISOR as u128 - self.exchange_fee,
            amount_out.as_u128(),
            U256::from(FEE_DIVISOR as u128),
        );
        Ok(amount_out_with_fee.as_u128())
    }
}

} // verus!
