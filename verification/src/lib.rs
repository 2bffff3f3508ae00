//! Accounting core of a two-token constant-product liquidity pool.
//!
//! The pool keeps a reserve of each of its two tokens, a ledger of the
//! balances and pool shares of every registered account, and the total
//! supply of shares.  Swaps are priced on the constant-product curve with a
//! fee taken from the output; liquidity is added and removed against
//! proportional shares.  All ratio arithmetic is carried out on 256-bit
//! integers.
//!
//! Every operation takes the identity of its caller as an argument and
//! either succeeds or returns a [`error::PoolError`] and leaves the pool as
//! it was.

use vstd::prelude::*;
use crate::account::{ids_distinct, VersionedAccount};
use crate::error::PoolError;
use crate::model::{
    lemma_sum_shares_take_le, lemma_sum_shares_take_next, sum_shares, AccountView, PoolView,
};

pub mod account;
pub mod core_impl;
pub mod error;
pub mod ft_receiver;
pub mod internal;
pub mod laws;
pub mod ledger;
pub mod model;
pub mod pricing;
pub mod share;
pub mod util;
pub mod wide;

verus! {

/// The identifier of an account or of a token contract.
pub type AccountId = String;

/// An amount of a token, of shares or of the native currency.
pub type Balance = u128;

/// Fee divisor, allowing to provide fee in bps.
pub const FEE_DIVISOR: u32 = 10_000;

/// Initial shares supply on deposit of liquidity.
pub const INIT_SHARES_SUPPLY: u128 = 1_000_000_000_000_000_000_000_000;

/// What has been swapped in one direction: the sum of the inputs in the
/// token the volume is kept for, and the sum of the outputs paid for them.
#[derive(Clone, Copy, Debug, PartialEq, Eq, Structural)]
pub struct SwapVolume {
    pub input: u128,
    pub output: u128,
}

impl Default for SwapVolume {
    fn default() -> (r: Self)
        ensures
            r.input == 0,
            r.output == 0,
    {
        Self { input: 0, output: 0 }
    }
}

/// The token ids of a pool as the model sees them.
pub open spec fn token_id_views(token_ids: Seq<AccountId>) -> Seq<Seq<char>> {
    Seq::new(token_ids.len(), |i: int| token_ids[i]@)
}

/// The accounts of a pool as the model sees them.
pub open spec fn account_entries(accounts: Seq<(AccountId, VersionedAccount)>) -> Seq<
    (Seq<char>, AccountView),
> {
    Seq::new(accounts.len(), |i: int| (accounts[i].0@, accounts[i].1@))
}

/// A liquidity pool of two tokens.
#[derive(Clone, Debug, PartialEq, Eq)]
pub struct SimplePool {
    /// The pool's owner.
    pub owner_id: AccountId,
    /// The two tokens of the pool.
    pub token_ids: Vec<AccountId>,
    /// The reserve of each token, in the order of `token_ids`.
    pub token_reserves: Vec<Balance>,
    /// The shares outstanding.
    pub total_share_supply: Balance,
    /// The fee in parts of `FEE_DIVISOR`: 30 stands for 0.3%.
    pub exchange_fee: Balance,
    /// The swap volume of each token, in the order of `token_ids`.
    pub volumes: Vec<SwapVolume>,
    /// The registered accounts, in the order of their registration.
    pub accounts: Vec<(AccountId, VersionedAccount)>,
}

impl View for SimplePool {
    type V = PoolView;

    open spec fn view(&self) -> PoolView {
        PoolView {
            owner_id: self.owner_id@,
            token_ids: token_id_views(self.token_ids@),
            token_reserves: self.token_reserves@,
            total_share_supply: self.total_share_supply,
            exchange_fee: self.exchange_fee,
            volumes: self.volumes@,
            accounts: account_entries(self.accounts@),
        }
    }
}

impl SimplePool {
    /// The invariant of the pool: see [`PoolView::wf`].
    pub open spec fn wf(&self) -> bool {
        self@.wf()
    }

    /// Whether the pool meets its invariant.  A pool that was made by
    /// [`SimplePool::new`] and changed by the pool's operations alone does;
    /// one put together from its fields may not.
    pub fn is_valid(&self) -> (r: bool)
        ensures
            r == self.wf(),
    {
        if self.token_ids.len() != 2 || self.token_reserves.len() != 2 || self.volumes.len() != 2 {
            return false;
        }
        assert(self@.token_ids[0] == self.token_ids[0]@);
        assert(self@.token_ids[1] == self.token_ids[1]@);
        if self.token_ids[0] == self.token_ids[1] {
            return false;
        }
        if self.exchange_fee >= FEE_DIVISOR as u128 {
            return false;
        }
        let ghost accounts = self@.accounts;
        let distinct = ids_distinct(&self.accounts);
        proof {
            if distinct {
                assert forall|i: int, j: int| 0 <= i < j < accounts.len() implies (
                #[trigger] accounts[i]).0 != (#[trigger] accounts[j]).0 by {
                    assert(self.accounts[i].0@ != self.accounts[j].0@);
                }
            } else {
                let (i, j) = choose|i: int, j: int|
                    0 <= i < j < self.accounts.len() && (#[trigger] self.accounts[i]).0@ == (
                    #[trigger] self.accounts[j]).0@;
                assert(accounts[i].0 == accounts[j].0);
            }
        }
        if !distinct {
            return false;
        }
        let mut sum: Balance = 0;
        let mut k: usize = 0;
        while k < self.accounts.len()
            invariant
                k <= self.accounts.len(),
                accounts == self@.accounts,
                sum == sum_shares(accounts.take(k as int)),
                sum <= self.total_share_supply,
                forall|i: int| 0 <= i < k ==> (#[trigger] accounts[i]).1.wf(),
            decreases self.accounts.len() - k,
        {
            proof {
                lemma_sum_shares_take_next(accounts, k as int);
                lemma_sum_shares_take_le(accounts, k as int + 1);
            }
            match &self.accounts[k].1 {
                VersionedAccount::Current(account) => {
                    if !account.is_valid() {
                        assert(!accounts[k as int].1.wf());
                        return false;
                    }
                    if account.share > self.total_share_supply - sum {
                        return false;
                    }
                    sum = sum + account.share;
                },
            }
            k = k + 1;
        }
        assert(accounts.take(k as int) =~= accounts);
        if sum != self.total_share_supply {
            return false;
        }
        if self.total_share_supply == 0 && (self.token_reserves[0] != 0 || self.token_reserves[1]
            != 0) {
            return false;
        }
        true
    }

    /// Creates a pool of the two tokens `token_ids`, with empty reserves.
    pub fn new(owner_id: AccountId, token_ids: Vec<AccountId>, exchange_fee: Balance) -> (r: Result<
        SimplePool,
        PoolError,
    >)
        ensures
            match r {
                Ok(pool) => {
                    &&& PoolView::creation_error(token_id_views(token_ids@), exchange_fee) is None
                    &&& pool@ == PoolView::initial(
                        owner_id@,
                        token_id_views(token_ids@),
                        exchange_fee,
                    )
                    &&& pool.wf()
                },
                Err(e) => PoolView::creation_error(token_id_views(token_ids@), exchange_fee)
                    == Some(e),
            },
    {
        if token_ids.len() != 2 {
            return Err(PoolError::TokenCount);
        }
        if token_ids[0] == token_ids[1] {
            return Err(PoolError::TokenIdsNotDistinct);
        }
        if exchange_fee >= FEE_DIVISOR as u128 {
            return Err(PoolError::FeeInvalid);
        }
        let mut token_reserves: Vec<Balance> = Vec::new();
        token_reserves.push(0);
        token_reserves.push(0);
        let mut volumes: Vec<SwapVolume> = Vec::new();
        volumes.push(SwapVolume::default());
        volumes.push(SwapVolume::default());
        let pool = SimplePool {
            owner_id,
            token_ids,
            token_reserves,
            total_share_supply: 0,
            exchange_fee,
            volumes,
            accounts: Vec::new(),
        };
        assert(pool@.token_reserves =~= seq![0u128, 0u128]);
        assert(pool@.volumes =~= seq![
            SwapVolume { input: 0, output: 0 },
            SwapVolume { input: 0, output: 0 },
        ]);
        assert(pool@.accounts =~= Seq::empty());
        Ok(pool)
    }
}

} // verus!
