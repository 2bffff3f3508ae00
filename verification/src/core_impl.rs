//! The operations of the pool: queries, swaps, liquidity and withdrawals.

use vstd::prelude::*;
use crate::error::PoolError;
use crate::account::VersionedAccount;
use crate::ledger::lemma_key_index;
use crate::model::{lemma_share_within_sum, TransferView};
use crate::pricing::lemma_payout_within_reserve;
use crate::wide::{lemma_view_injective, mul_div, U256};
use crate::{token_id_views, AccountId, Balance, SimplePool, SwapVolume, INIT_SHARES_SUPPLY};

verus! {

/// Gas given to the transfer that a withdrawal issues.
pub const FT_TRANSFER_GAS: u64 = 10_000_000_000_000;

/// Gas given to the callback that settles a withdrawal.
pub const WITHDRAW_CALLBACK_GAS: u64 = 10_000_000_000_000;

/// The instruction to the ledger of a token to pay an account out.  The
/// pool takes the amount off the account's balance only when it is told,
/// through [`SimplePool::ft_withdraw_callback`], that the transfer succeeded.
#[derive(Clone, Debug, PartialEq, Eq)]
pub struct TokenTransfer {
    /// Who is paid.
    pub receiver_id: AccountId,
    /// The token that is paid.
    pub token_id: AccountId,
    /// How much is paid.
    pub amount: Balance,
    /// The note that goes with the transfer.
    pub memo: String,
}

impl View for TokenTransfer {
    type V = TransferView;

    open spec fn view(&self) -> TransferView {
        TransferView {
            receiver_id: self.receiver_id@,
            token_id: self.token_id@,
            amount: self.amount,
        }
    }
}

/// How the transfer that a withdrawal had issued ended.
#[derive(Clone, Copy, Debug, PartialEq, Eq, Structural)]
pub enum TransferOutcome {
    Successful,
    Failed,
}

/// For each outcome, whether it is a success.
pub open spec fn successes(outcomes: Seq<TransferOutcome>) -> Seq<bool> {
    Seq::new(outcomes.len(), |i: int| outcomes[i] == TransferOutcome::Successful)
}

impl SimplePool {
    /// The two tokens of the pool.
    pub fn get_tokens(&self) -> (r: Vec<AccountId>)
        ensures
            token_id_views(r@) == self@.token_ids,
    {
        let mut tokens: Vec<AccountId> = Vec::new();
        let mut k: usize = 0;
        while k < self.token_ids.len()
            invariant
                k <= self.token_ids.len(),
                tokens.len() == k,
                forall|j: int| 0 <= j < k ==> (#[trigger] tokens[j])@ == self.token_ids[j]@,
            decreases self.token_ids.len() - k,
        {
            tokens.push(self.token_ids[k].clone());
            k = k + 1;
        }
        assert(token_id_views(tokens@) =~= self@.token_ids);
        tokens
    }

    /// The fee, in parts of `FEE_DIVISOR`.
    pub fn get_fee(&self) -> (r: Balance)
        ensures
            r == self@.exchange_fee,
    {
        self.exchange_fee
    }

    /// The swap volume of each token, in the order of the tokens.
    pub fn get_volumes(&self) -> (r: Vec<SwapVolume>)
        ensures
            r@ == self@.volumes,
    {
        let mut volumes: Vec<SwapVolume> = Vec::new();
        let mut k: usize = 0;
        while k < self.volumes.len()
            invariant
                k <= self.volumes.len(),
                volumes.len() == k,
                forall|j: int| 0 <= j < k ==> volumes[j] == self.volumes[j],
            decreases self.volumes.len() - k,
        {
            volumes.push(self.volumes[k]);
            k = k + 1;
        }
        assert(volumes@ =~= self.volumes@);
        volumes
    }

    /// What a swap of `amount_in` of `token_in` would return of `token_out`.
    pub fn get_return(&self, token_in: AccountId, amount_in: Balance, token_out: AccountId) -> (r: Result<
        Balance,
        PoolError,
    >)
        requires
            self.wf(),
        ensures
            r == self@.get_return(token_in@, amount_in, token_out@),
    {
        self.internal_get_return(token_in, amount_in, token_out)
    }

    /// Swaps `amount_in` of `token_in` from the caller's balance for
    /// `token_out` at the pool's price, unless that is less than
    /// `min_amount_out`.
    pub fn swap(
        &mut self,
        predecessor: AccountId,
        token_in: AccountId,
        amount_in: Balance,
        token_out: AccountId,
        min_amount_out: Balance,
    ) -> (r: Result<Balance, PoolError>)
        requires
            old(self).wf(),
        ensures
            final(self).wf(),
            r == old(self)@.swap_result(
                predecessor@,
                token_in@,
                amount_in,
                token_out@,
                min_amount_out,
            ),
            match r {
                Ok(amount_out) => final(self)@ == old(self)@.swapped(
                    predecessor@,
                    token_in@,
                    amount_in,
                    token_out@,
                    amount_out,
                ),
                Err(_) => *final(self) == *old(self),
            },
    {
        let (i, o) = match (self.token_index(&token_in), self.token_index(&token_out)) {
            (Some(i), Some(o)) => (i, o),
            _ => {
                return Err(PoolError::TokenNotInPool);
            },
        };
        let in_reserve = self.token_reserves[i];
        let out_reserve = self.token_reserves[o];

        let amount_out = match self.internal_get_return(
            token_in.clone(),
            amount_in,
            token_out.clone(),
        ) {
            Ok(amount) => amount,
            Err(e) => {
                return Err(e);
            },
        };
        if amount_out < min_amount_out {
            return Err(PoolError::MinAmount);
        }
        if amount_in > u128::MAX - in_reserve {
            return Err(PoolError::Overflow);
        }
        let index = match self.account_index(&predecessor) {
            Some(index) => index,
            None => {
                return Err(PoolError::AccountNotRegistered);
            },
        };
        let balance_out = self.account_balance(index, &token_out);
        if amount_out > u128::MAX - balance_out {
            return Err(PoolError::Overflow);
        }
        let balance_in = self.account_balance(index, &token_in);
        if balance_in < amount_in {
            return Err(PoolError::InvalidAmount);
        }
        let volume = self.volumes[i];
        if amount_in > u128::MAX - volume.input || amount_out > u128::MAX - volume.output {
            return Err(PoolError::Overflow);
        }
        let ghost caller = predecessor@;
        self.set_reserve(&token_in, in_reserve + amount_in);
        self.set_reserve(&token_out, out_reserve - amount_out);
        proof {
            lemma_key_index(self@.accounts, index as int);
            self@.lemma_set_balance(caller, token_out@, (balance_out + amount_out) as u128);
        }

        // Deposit amount out for user
        self.set_account_balance(index, token_out, balance_out + amount_out);
        proof {
            lemma_key_index(self@.accounts, index as int);
            self@.lemma_set_balance(caller, token_in@, (balance_in - amount_in) as u128);
        }

        // Withdraw amount in
        self.set_account_balance(index, token_in.clone(), balance_in - amount_in);

        // Add volume
        self.record_volume(&token_in, amount_in, amount_out);
        Ok(amount_out)
    }
}

impl SimplePool {
    /// Adds `amount_in` of `token_in` and `amount_out` of `token_out` from
    /// the caller's balances to the reserves and mints the caller shares for
    /// them.  The first deposit sets the reserves and mints
    /// `INIT_SHARES_SUPPLY`; a later one must come in the exact ratio of the
    /// reserves and mints its proportion of the supply.
    pub fn add_liquidity(
        &mut self,
        predecessor: AccountId,
        token_in: AccountId,
        amount_in: Balance,
        token_out: AccountId,
        amount_out: Balance,
    ) -> (r: Result<Balance, PoolError>)
        requires
            old(self).wf(),
        ensures
            final(self).wf(),
            r == old(self)@.add_liquidity_result(
                predecessor@,
                token_in@,
                amount_in,
                token_out@,
                amount_out,
            ),
            match r {
                Ok(share) => {
                    &&& final(self)@ == old(self)@.liquidity_added(
                        predecessor@,
                        token_in@,
                        amount_in,
                        token_out@,
                        amount_out,
                        share,
                    )
                    &&& old(self)@.total_share_supply == 0 ==> {
                        &&& share == INIT_SHARES_SUPPLY
                        &&& final(self)@.reserve(token_in@) == amount_in
                        &&& final(self)@.reserve(token_out@) == amount_out
                    }
                },
                Err(_) => *final(self) == *old(self),
            },
    {
        if token_in == token_out {
            return Err(PoolError::TokenId);
        }
        if amount_in == 0 || amount_out == 0 {
            return Err(PoolError::InvalidAmount);
        }
        let index = match self.account_index(&predecessor) {
            Some(index) => index,
            None => {
                return Err(PoolError::AccountNotRegistered);
            },
        };
        let balance_in = self.account_balance(index, &token_in);
        let balance_out = self.account_balance(index, &token_out);
        if balance_in < amount_in || balance_out < amount_out {
            return Err(PoolError::InvalidAmount);
        }
        let (i, o) = match (self.token_index(&token_in), self.token_index(&token_out)) {
            (Some(i), Some(o)) => (i, o),
            _ => {
                return Err(PoolError::TokenNotInPool);
            },
        };
        let in_reserve = self.token_reserves[i];
        let out_reserve = self.token_reserves[o];
        let supply = self.total_share_supply;

        let share = if supply > 0 {
            if in_reserve == 0 || out_reserve == 0 {
                return Err(PoolError::ReserveInvalid);
            }
            let left = U256::full_mul(in_reserve, amount_out);
            let right = U256::full_mul(out_reserve, amount_in);
            proof {
                if left@ == right@ {
                    lemma_view_injective(left, right);
                }
            }
            if left != right {
                return Err(PoolError::RatioMismatch);
            }
            if amount_in > u128::MAX - in_reserve || amount_out > u128::MAX - out_reserve {
                return Err(PoolError::Overflow);
            }
            mul_div(amount_in, supply, U256::from(in_reserve)).min(
                mul_div(amount_out, supply, U256::from(out_reserve)),
            )
        } else {
            U256::from(INIT_SHARES_SUPPLY)
        };
        if !share.fits_u128() {
            return Err(PoolError::Overflow);
        }
        let share = share.as_u128();
        if share == 0 {
            return Err(PoolError::ZeroShare);
        }
        if share > u128::MAX - supply {
            return Err(PoolError::Overflow);
        }
        let ghost caller = predecessor@;
        proof {
            lemma_key_index(self@.accounts, index as int);
            self@.lemma_set_balance(caller, token_in@, (balance_in - amount_in) as u128);
        }

        // Withdraw token
        self.set_account_balance(index, token_in.clone(), balance_in - amount_in);
        proof {
            lemma_key_index(self@.accounts, index as int);
            self@.lemma_set_balance(caller, token_out@, (balance_out - amount_out) as u128);
        }
        self.set_account_balance(index, token_out.clone(), balance_out - amount_out);

        self.set_reserve(&token_in, in_reserve + amount_in);
        self.set_reserve(&token_out, out_reserve + amount_out);

        self.mint_share(predecessor, share);
        Ok(share)
    }

    /// Burns `amount` shares of the caller and pays their part of each
    /// reserve, by the supply as it stood before the burn, to the caller's
    /// balances.
    pub fn remove_liquidity(&mut self, predecessor: AccountId, amount: Balance) -> (r: Result<
        (),
        PoolError,
    >)
        requires
            old(self).wf(),
        ensures
            final(self).wf(),
            match r {
                Ok(_) => {
                    &&& old(self)@.remove_liquidity_error(predecessor@, amount) is None
                    &&& final(self)@ == old(self)@.liquidity_removed(predecessor@, amount)
                },
                Err(e) => {
                    &&& old(self)@.remove_liquidity_error(predecessor@, amount) == Some(e)
                    &&& *final(self) == *old(self)
                },
            },
    {
        let index = match self.account_index(&predecessor) {
            Some(index) => index,
            None => {
                return Err(PoolError::AccountNotRegistered);
            },
        };
        // Check the share
        let held = self.account_share(index);
        if held < amount {
            return Err(PoolError::BurnExceedsShare);
        }
        let supply = self.total_share_supply;
        if supply == 0 {
            return Err(PoolError::NoShareSupply);
        }
        let token_1 = self.token_ids[0].clone();
        let token_2 = self.token_ids[1].clone();
        assert(self@.token_ids[0] == self.token_ids[0]@);
        assert(self@.token_ids[1] == self.token_ids[1]@);

        let reserve_1 = self.token_reserves[0];
        let reserve_2 = self.token_reserves[1];
        proof {
            lemma_share_within_sum(self@.accounts, index as int);
            lemma_payout_within_reserve(amount as int, reserve_1 as int, supply as int);
            lemma_payout_within_reserve(amount as int, reserve_2 as int, supply as int);
        }

        let amount_out_1 = mul_div(amount, reserve_1, U256::from(supply)).as_u128();
        let amount_out_2 = mul_div(amount, reserve_2, U256::from(supply)).as_u128();

        let balance_1 = self.account_balance(index, &token_1);
        let balance_2 = self.account_balance(index, &token_2);
        if amount_out_1 > u128::MAX - balance_1 || amount_out_2 > u128::MAX - balance_2 {
            return Err(PoolError::Overflow);
        }
        let ghost caller = predecessor@;

        // Burn the share
        self.burn_share(predecessor, amount);

        self.set_reserve(&token_1, reserve_1 - amount_out_1);
        self.set_reserve(&token_2, reserve_2 - amount_out_2);
        proof {
            lemma_key_index(self@.accounts, index as int);
            self@.lemma_set_balance(caller, token_1@, (balance_1 + amount_out_1) as u128);
        }

        self.set_account_balance(index, token_1, balance_1 + amount_out_1);
        proof {
            lemma_key_index(self@.accounts, index as int);
            self@.lemma_set_balance(caller, token_2@, (balance_2 + amount_out_2) as u128);
        }
        self.set_account_balance(index, token_2, balance_2 + amount_out_2);
        Ok(())
    }

    /// Asks for all that the caller holds of `token_id` to be paid out.
    /// The pool is not changed: the balance is debited when the transfer is
    /// reported back as successful.
    pub fn withdraw(&self, predecessor: AccountId, token_id: AccountId) -> (r: Result<
        TokenTransfer,
        PoolError,
    >)
        requires
            self.wf(),
        ensures
            match r {
                Ok(transfer) => {
                    &&& self@.withdraw_result(predecessor@, token_id@) == Ok::<
                        TransferView,
                        PoolError,
                    >(transfer@)
                    &&& transfer.memo@ == "Withdraw from exchange"@
                },
                Err(e) => self@.withdraw_result(predecessor@, token_id@) == Err::<
                    TransferView,
                    PoolError,
                >(e),
            },
    {
        let index = match self.account_index(&predecessor) {
            Some(index) => index,
            None => {
                return Err(PoolError::AccountNotRegistered);
            },
        };
        assert(self@.accounts[index as int].1.wf());
        let token_balance = match &self.accounts[index].1 {
            VersionedAccount::Current(account) => account.balance_of(&token_id),
        };
        match token_balance {
            None => Err(PoolError::TokenBalanceMissing),
            Some(token_balance) => {
                if token_balance == 0 {
                    return Err(PoolError::TokenBalanceZero);
                }
                // Transfer all token balance
                Ok(
                    TokenTransfer {
                        receiver_id: predecessor,
                        token_id,
                        amount: token_balance,
                        memo: "Withdraw from exchange".to_owned(),
                    },
                )
            },
        }
    }

    /// Settles a withdrawal, given the outcomes of the transfers it waited
    /// for, of which there must be one: where that transfer succeeded,
    /// `amount` of `token_id` is taken off the balance of `account_id`.
    pub fn ft_withdraw_callback(
        &mut self,
        account_id: AccountId,
        token_id: AccountId,
        amount: Balance,
        promise_results: Vec<TransferOutcome>,
    ) -> (r: Result<Balance, PoolError>)
        requires
            old(self).wf(),
        ensures
            final(self).wf(),
            match r {
                Ok(taken) => {
                    &&& taken == amount
                    &&& old(self)@.withdraw_callback_error(
                        account_id@,
                        token_id@,
                        amount,
                        successes(promise_results@),
                    ) is None
                    &&& final(self)@ == old(self)@.debited(account_id@, token_id@, amount as int)
                },
                Err(e) => {
                    &&& old(self)@.withdraw_callback_error(
                        account_id@,
                        token_id@,
                        amount,
                        successes(promise_results@),
                    ) == Some(e)
                    &&& *final(self) == *old(self)
                },
            },
    {
        if promise_results.len() != 1 {
            return Err(PoolError::TooManyResults);
        }
        match promise_results[0] {
            TransferOutcome::Successful => {
                match self.internal_withdraw(account_id, token_id, amount) {
                    Ok(_) => Ok(amount),
                    Err(e) => Err(e),
                }
            },
            TransferOutcome::Failed => Err(PoolError::CallFailed),
        }
    }
}

} // verus!
