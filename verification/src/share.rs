//! Pool shares: what an account holds, minting, burning and transfer.

use vstd::prelude::*;
use crate::error::PoolError;
use crate::model::lemma_share_within_sum;
use crate::{AccountId, Balance, SimplePool};

verus! {

impl SimplePool {
    /// The shares of a registered account.
    pub fn get_share_of(&self, account_id: AccountId) -> (r: Result<Balance, PoolError>)
        requires
            self.wf(),
        ensures
            r == if self@.is_registered(account_id@) {
                Ok::<Balance, PoolError>(self@.account(account_id@).share)
            } else {
                Err::<Balance, PoolError>(PoolError::AccountNotRegistered)
            },
    {
        match self.account_index(&account_id) {
            Some(i) => Ok(self.account_share(i)),
            None => Err(PoolError::AccountNotRegistered),
        }
    }

    /// Passes `amount` shares from the caller to `receiver_id`.
    pub fn transfer_share(&mut self, predecessor: AccountId, receiver_id: AccountId, amount: Balance) -> (r:
        Result<(), PoolError>)
        requires
            old(self).wf(),
        ensures
            final(self).wf(),
            final(self)@.total_share_supply == old(self)@.total_share_supply,
            match r {
                Ok(_) => {
                    &&& old(self)@.transfer_share_error(predecessor@, receiver_id@, amount) is None
                    &&& final(self)@ == old(self)@.share_transferred(
                        predecessor@,
                        receiver_id@,
                        amount,
                    )
                },
                Err(e) => {
                    &&& old(self)@.transfer_share_error(predecessor@, receiver_id@, amount) == Some(
                        e,
                    )
                    &&& *final(self) == *old(self)
                },
            },
    {
        self.internal_transfer_share(predecessor, receiver_id, amount)
    }

    /// The shares outstanding.
    pub fn get_total_share_balance(&self) -> (r: Balance)
        ensures
            r == self@.total_share_supply,
    {
        self.total_share_supply
    }

    /// Mints `amount` shares to a registered account: the account's shares
    /// and the supply grow by `amount`.
    pub(crate) fn mint_share(&mut self, account_id: AccountId, amount: Balance)
        requires
            old(self)@.shape_ok(),
            old(self)@.ledger_ok(),
            old(self)@.shares_conserved(),
            old(self)@.mint_error(account_id@, amount) is None,
        ensures
            final(self)@ == old(self)@.minted(account_id@, amount),
            final(self)@.shape_ok(),
            final(self)@.ledger_ok(),
            final(self)@.shares_conserved(),
    {
        let index = self.registered_index(&account_id);
        let share = self.account_share(index);
        proof {
            lemma_share_within_sum(self@.accounts, index as int);
        }
        self.set_account_share(index, share + amount);
        self.total_share_supply = self.total_share_supply + amount;
    }

    /// Burns `amount` shares of a registered account that holds as many:
    /// the account's shares and the supply shrink by `amount`.
    pub(crate) fn burn_share(&mut self, account_id: AccountId, amount: Balance)
        requires
            old(self)@.shape_ok(),
            old(self)@.ledger_ok(),
            old(self)@.shares_conserved(),
            old(self)@.burn_error(account_id@, amount) is None,
        ensures
            final(self)@ == old(self)@.burnt(account_id@, amount),
            final(self)@.shape_ok(),
            final(self)@.ledger_ok(),
            final(self)@.shares_conserved(),
    {
        let index = self.registered_index(&account_id);
        let share = self.account_share(index);
        proof {
            lemma_share_within_sum(self@.accounts, index as int);
        }
        self.set_account_share(index, share - amount);
        self.total_share_supply = self.total_share_supply - amount;
    }
}

} // verus!
