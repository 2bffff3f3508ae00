//! The notification by which the ledger of a token tells the pool of a
//! deposit.

use vstd::prelude::*;
use crate::error::PoolError;
use crate::{AccountId, Balance, SimplePool};

verus! {

/// What receives the tokens that an account sends through a token's ledger.
pub trait FungibleTokenReceiver {
    /// Whether the receiver is in a state in which it can take a notification.
    spec fn receiver_ready(&self) -> bool;

    /// Takes note that `sender_id` has sent `amount` of the token whose
    /// ledger is the caller, `predecessor`, and returns how much of it is
    /// refused.
    fn ft_on_transfer(
        &mut self,
        predecessor: AccountId,
        sender_id: AccountId,
        amount: Balance,
        msg: String,
    ) -> (r: Result<Balance, PoolError>)
        requires
            old(self).receiver_ready(),
        ensures
            final(self).receiver_ready(),
    ;
}

impl FungibleTokenReceiver for SimplePool {
    open spec fn receiver_ready(&self) -> bool {
        self.wf()
    }

    /// Credits a deposit of one of the pool's two tokens to the sender's
    /// balance, in full: nothing is refused.
    fn ft_on_transfer(
        &mut self,
        predecessor: AccountId,
        sender_id: AccountId,
        amount: Balance,
        msg: String,
    ) -> (r: Result<Balance, PoolError>)
        ensures
            match r {
                Ok(refused) => {
                    &&& refused == 0
                    &&& old(self)@.on_transfer_error(predecessor@, sender_id@, amount) is None
                    &&& final(self)@ == old(self)@.credited(
                        sender_id@,
                        predecessor@,
                        amount as int,
                    )
                },
                Err(e) => {
                    &&& old(self)@.on_transfer_error(predecessor@, sender_id@, amount) == Some(e)
                    &&& *final(self) == *old(self)
                },
            },
    {
        let contract_id = predecessor;
        if self.token_index(&contract_id).is_none() {
            return Err(PoolError::FtContractNotInPool);
        }
        match self.internal_deposit(sender_id, contract_id, amount) {
            Ok(_) => Ok(0),
            Err(e) => Err(e),
        }
    }
}

} // verus!
