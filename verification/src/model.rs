//! The mathematical model of the pool: what its state is and what each
//! operation does to it.

use vstd::prelude::*;
use crate::error::PoolError;
use crate::ledger::{distinct_keys, has_key, key_index, lemma_put, put};
use crate::pricing::{minted_share, payout, quote};
use crate::{SwapVolume, FEE_DIVISOR, INIT_SHARES_SUPPLY};

verus! {

/// What an account holds.
pub struct AccountView {
    /// The native currency kept for the account.
    pub near_amount: u128,
    /// The balance of each token the account has held, by token id.
    pub tokens: Seq<(Seq<char>, u128)>,
    /// The account's pool shares.
    pub share: u128,
}

impl AccountView {
    /// A newly registered account: no tokens, no shares.
    pub open spec fn fresh() -> AccountView {
        AccountView { near_amount: 0, tokens: Seq::empty(), share: 0 }
    }

    /// No token has two balances.
    pub open spec fn wf(self) -> bool {
        distinct_keys(self.tokens)
    }

    /// Whether the account has an entry for `token`.
    pub open spec fn holds(self, token: Seq<char>) -> bool {
        has_key(self.tokens, token)
    }

    /// The balance of `token`: that of its entry, zero without one.
    pub open spec fn balance(self, token: Seq<char>) -> u128 {
        if has_key(self.tokens, token) {
            self.tokens[key_index(self.tokens, token)].1
        } else {
            0
        }
    }

    /// The account with the balance of `token` set to `amount`.
    pub open spec fn with_balance(self, token: Seq<char>, amount: u128) -> AccountView {
        AccountView { tokens: put(self.tokens, token, amount), ..self }
    }

    /// The account with its shares set to `share`.
    pub open spec fn with_share(self, share: u128) -> AccountView {
        AccountView { share, ..self }
    }
}

/// The sum of the shares of all accounts of a ledger.
pub open spec fn sum_shares(accounts: Seq<(Seq<char>, AccountView)>) -> nat
    decreases accounts.len(),
{
    if accounts.len() == 0 {
        0
    } else {
        sum_shares(accounts.drop_last()) + accounts.last().1.share as nat
    }
}

/// The state of a pool.
pub struct PoolView {
    /// The pool's owner.
    pub owner_id: Seq<char>,
    /// The two tokens of the pool.
    pub token_ids: Seq<Seq<char>>,
    /// The reserve of each token, in the order of `token_ids`.
    pub token_reserves: Seq<u128>,
    /// The shares outstanding.
    pub total_share_supply: u128,
    /// The fee, in parts of `FEE_DIVISOR`.
    pub exchange_fee: u128,
    /// The swap volume of each token, in the order of `token_ids`.
    pub volumes: Seq<SwapVolume>,
    /// The registered accounts.
    pub accounts: Seq<(Seq<char>, AccountView)>,
}

impl PoolView {
    /// The pool has two different tokens, a reserve and a volume for each,
    /// and a fee below the divisor.
    pub open spec fn shape_ok(self) -> bool {
        &&& self.token_ids.len() == 2
        &&& self.token_ids[0] != self.token_ids[1]
        &&& self.token_reserves.len() == 2
        &&& self.volumes.len() == 2
        &&& self.exchange_fee < FEE_DIVISOR
    }

    /// No account is registered twice, and none has two balances of a token.
    pub open spec fn ledger_ok(self) -> bool {
        &&& distinct_keys(self.accounts)
        &&& forall|i: int| 0 <= i < self.accounts.len() ==> (#[trigger] self.accounts[i]).1.wf()
    }

    /// The shares of all accounts add up to the supply.
    pub open spec fn shares_conserved(self) -> bool {
        sum_shares(self.accounts) == self.total_share_supply
    }

    /// A pool without shares has empty reserves.
    pub open spec fn empty_without_shares(self) -> bool {
        self.total_share_supply == 0 ==> self.token_reserves[0] == 0 && self.token_reserves[1] == 0
    }

    /// The invariant of the pool.
    pub open spec fn wf(self) -> bool {
        &&& self.shape_ok()
        &&& self.ledger_ok()
        &&& self.shares_conserved()
        &&& self.empty_without_shares()
    }

    /// Whether `token` is one of the pool's two.
    pub open spec fn has_token(self, token: Seq<char>) -> bool {
        self.token_ids[0] == token || self.token_ids[1] == token
    }

    /// The place of `token` among the pool's two.
    pub open spec fn token_index(self, token: Seq<char>) -> int {
        if self.token_ids[0] == token {
            0
        } else {
            1
        }
    }

    /// The reserve of one of the pool's tokens.
    pub open spec fn reserve(self, token: Seq<char>) -> u128 {
        self.token_reserves[self.token_index(token)]
    }

    /// The swap volume of one of the pool's tokens.
    pub open spec fn volume(self, token: Seq<char>) -> SwapVolume {
        self.volumes[self.token_index(token)]
    }

    /// Whether `id` is registered.
    pub open spec fn is_registered(self, id: Seq<char>) -> bool {
        has_key(self.accounts, id)
    }

    /// The account registered under `id`.
    pub open spec fn account(self, id: Seq<char>) -> AccountView {
        self.accounts[key_index(self.accounts, id)].1
    }

    /// The balance that the account `id` has of `token`.
    pub open spec fn balance(self, id: Seq<char>, token: Seq<char>) -> u128 {
        self.account(id).balance(token)
    }

    /// The pool with the account under `id` replaced.
    pub open spec fn with_account(self, id: Seq<char>, account: AccountView) -> PoolView {
        PoolView { accounts: put(self.accounts, id, account), ..self }
    }

    /// The pool with the reserve of one of its tokens set to `amount`.
    pub open spec fn with_reserve(self, token: Seq<char>, amount: u128) -> PoolView {
        PoolView {
            token_reserves: self.token_reserves.update(self.token_index(token), amount),
            ..self
        }
    }

    /// The pool with the swap volume of one of its tokens replaced.
    pub open spec fn with_volume(self, token: Seq<char>, volume: SwapVolume) -> PoolView {
        PoolView { volumes: self.volumes.update(self.token_index(token), volume), ..self }
    }

    /// The pool with a swap of `amount_in` for `amount_out` added to the
    /// volume of the input token.
    pub open spec fn volume_recorded(self, token_in: Seq<char>, amount_in: u128, amount_out: u128)
        -> PoolView {
        self.with_volume(
            token_in,
            SwapVolume {
                input: (self.volume(token_in).input + amount_in) as u128,
                output: (self.volume(token_in).output + amount_out) as u128,
            },
        )
    }

    /// The pool with its share supply set to `supply`.
    pub open spec fn with_supply(self, supply: u128) -> PoolView {
        PoolView { total_share_supply: supply, ..self }
    }

    /// The pool with `amount` of `token` added to the balance of `id`.
    pub open spec fn credited(self, id: Seq<char>, token: Seq<char>, amount: int) -> PoolView {
        self.with_account(
            id,
            self.account(id).with_balance(token, (self.balance(id, token) + amount) as u128),
        )
    }

    /// The pool with `amount` of `token` taken from the balance of `id`.
    pub open spec fn debited(self, id: Seq<char>, token: Seq<char>, amount: int) -> PoolView {
        self.with_account(
            id,
            self.account(id).with_balance(token, (self.balance(id, token) - amount) as u128),
        )
    }

    /// The pool with the shares of `id` changed by `delta`.
    pub open spec fn with_share_change(self, id: Seq<char>, delta: int) -> PoolView {
        self.with_account(
            id,
            self.account(id).with_share((self.account(id).share + delta) as u128),
        )
    }
}

impl PoolView {
    /// Why a pool cannot be created from these tokens and this fee, if it
    /// cannot.
    pub open spec fn creation_error(token_ids: Seq<Seq<char>>, exchange_fee: u128) -> Option<
        PoolError,
    > {
        if token_ids.len() != 2 {
            Some(PoolError::TokenCount)
        } else if token_ids[0] == token_ids[1] {
            Some(PoolError::TokenIdsNotDistinct)
        } else if exchange_fee >= FEE_DIVISOR {
            Some(PoolError::FeeInvalid)
        } else {
            None
        }
    }

    /// A pool as it is created: empty reserves, no volume, no shares, no
    /// accounts.
    pub open spec fn initial(
        owner_id: Seq<char>,
        token_ids: Seq<Seq<char>>,
        exchange_fee: u128,
    ) -> PoolView {
        PoolView {
            owner_id,
            token_ids,
            token_reserves: seq![0u128, 0u128],
            total_share_supply: 0,
            exchange_fee,
            volumes: seq![
                SwapVolume { input: 0, output: 0 },
                SwapVolume { input: 0, output: 0 },
            ],
            accounts: Seq::empty(),
        }
    }

    /// The account that a registration is for: the one named, else the caller.
    pub open spec fn registrant(account_id: Option<Seq<char>>, predecessor: Seq<char>) -> Seq<
        char,
    > {
        match account_id {
            Some(id) => id,
            None => predecessor,
        }
    }

    /// The pool with `id` newly registered.
    pub open spec fn registered(self, id: Seq<char>) -> PoolView {
        PoolView { accounts: self.accounts.push((id, AccountView::fresh())), ..self }
    }

    /// Why `amount` of `token` cannot be credited to `id`, if it cannot.
    pub open spec fn deposit_error(self, id: Seq<char>, token: Seq<char>, amount: u128) -> Option<
        PoolError,
    > {
        if !self.is_registered(id) {
            Some(PoolError::AccountNotRegistered)
        } else if self.balance(id, token) + amount > u128::MAX {
            Some(PoolError::Overflow)
        } else {
            None
        }
    }

    /// Why `amount` of `token` cannot be taken from `id`, if it cannot.
    pub open spec fn withdraw_error(self, id: Seq<char>, token: Seq<char>, amount: u128) -> Option<
        PoolError,
    > {
        if !self.is_registered(id) {
            Some(PoolError::AccountNotRegistered)
        } else if self.balance(id, token) < amount {
            Some(PoolError::InvalidAmount)
        } else {
            None
        }
    }
}

/// Replacing one account changes the sum of the shares by the difference of
/// the two accounts' shares.
pub proof fn lemma_sum_shares_update(
    accounts: Seq<(Seq<char>, AccountView)>,
    i: int,
    entry: (Seq<char>, AccountView),
)
    requires
        0 <= i < accounts.len(),
    ensures
        sum_shares(accounts.update(i, entry)) == sum_shares(accounts) - accounts[i].1.share
            + entry.1.share,
    decreases accounts.len(),
{
    let after = accounts.update(i, entry);
    if i == accounts.len() - 1 {
        assert(after.drop_last() =~= accounts.drop_last());
    } else {
        assert(after.drop_last() =~= accounts.drop_last().update(i, entry));
        lemma_sum_shares_update(accounts.drop_last(), i, entry);
    }
}

/// A new account adds its shares to the sum.
pub proof fn lemma_sum_shares_push(
    accounts: Seq<(Seq<char>, AccountView)>,
    entry: (Seq<char>, AccountView),
)
    ensures
        sum_shares(accounts.push(entry)) == sum_shares(accounts) + entry.1.share,
{
    assert(accounts.push(entry).drop_last() =~= accounts);
}

/// No account holds more shares than all accounts together.
pub proof fn lemma_share_within_sum(accounts: Seq<(Seq<char>, AccountView)>, i: int)
    requires
        0 <= i < accounts.len(),
    ensures
        accounts[i].1.share <= sum_shares(accounts),
    decreases accounts.len(),
{
    if i < accounts.len() - 1 {
        lemma_share_within_sum(accounts.drop_last(), i);
    }
}

/// Two different accounts together hold no more shares than all accounts.
pub proof fn lemma_two_shares_within_sum(accounts: Seq<(Seq<char>, AccountView)>, i: int, j: int)
    requires
        0 <= i < accounts.len(),
        0 <= j < accounts.len(),
        i != j,
    ensures
        accounts[i].1.share + accounts[j].1.share <= sum_shares(accounts),
{
    let without = accounts.update(i, (accounts[i].0, accounts[i].1.with_share(0)));
    lemma_sum_shares_update(accounts, i, (accounts[i].0, accounts[i].1.with_share(0)));
    lemma_share_within_sum(without, j);
}

impl PoolView {
    /// What replacing the account of a registered identity does to the pool.
    pub proof fn lemma_with_account(self, id: Seq<char>, account: AccountView)
        requires
            self.ledger_ok(),
            self.is_registered(id),
            account.wf(),
        ensures
            self.with_account(id, account).ledger_ok(),
            self.with_account(id, account).is_registered(id),
            self.with_account(id, account).account(id) == account,
            sum_shares(self.with_account(id, account).accounts) == sum_shares(self.accounts)
                - self.account(id).share + account.share,
            forall|other: Seq<char>|
                other != id ==> self.with_account(id, account).is_registered(other)
                    == self.is_registered(other),
            forall|other: Seq<char>|
                other != id && self.is_registered(other) ==> self.with_account(id, account).account(
                    other,
                ) == self.account(other),
    {
        let after = self.with_account(id, account);
        let i = key_index(self.accounts, id);
        lemma_put(self.accounts, id, account);
        lemma_sum_shares_update(self.accounts, i, (id, account));
        assert forall|k: int| 0 <= k < after.accounts.len() implies (#[trigger] after.accounts[k]).1.wf() by {
            if k != i {
                assert(after.accounts[k] == self.accounts[k]);
            }
        }
    }
}

impl PoolView {
    /// Why `amount` shares cannot be minted to `id`, if they cannot.
    pub open spec fn mint_error(self, id: Seq<char>, amount: u128) -> Option<PoolError> {
        if !self.is_registered(id) {
            Some(PoolError::AccountNotRegistered)
        } else if self.total_share_supply + amount > u128::MAX {
            Some(PoolError::Overflow)
        } else {
            None
        }
    }

    /// The pool with `amount` new shares, all held by `id`.
    pub open spec fn minted(self, id: Seq<char>, amount: u128) -> PoolView {
        self.with_share_change(id, amount as int).with_supply(
            (self.total_share_supply + amount) as u128,
        )
    }

    /// Why `amount` shares of `id` cannot be burnt, if they cannot.
    pub open spec fn burn_error(self, id: Seq<char>, amount: u128) -> Option<PoolError> {
        if !self.is_registered(id) {
            Some(PoolError::AccountNotRegistered)
        } else if self.account(id).share < amount {
            Some(PoolError::BurnExceedsShare)
        } else {
            None
        }
    }

    /// The pool with `amount` shares of `id` gone.
    pub open spec fn burnt(self, id: Seq<char>, amount: u128) -> PoolView {
        self.with_share_change(id, -(amount as int)).with_supply(
            (self.total_share_supply - amount) as u128,
        )
    }

    /// Why `amount` shares cannot pass from `from` to `to`, if they cannot.
    pub open spec fn transfer_share_error(self, from: Seq<char>, to: Seq<char>, amount: u128)
        -> Option<PoolError> {
        if !self.is_registered(from) || !self.is_registered(to) {
            Some(PoolError::AccountNotRegistered)
        } else if self.account(from).share < amount {
            Some(PoolError::ShareAmountNotEnough)
        } else {
            None
        }
    }

    /// The pool with `amount` shares taken from `from` and then given to
    /// `to`.  A transfer to oneself changes nothing.
    pub open spec fn share_transferred(self, from: Seq<char>, to: Seq<char>, amount: u128)
        -> PoolView {
        self.with_share_change(from, -(amount as int)).with_share_change(to, amount as int)
    }
}

/// The instruction to the ledger of a token to pay an account out.
pub struct TransferView {
    /// Who is paid.
    pub receiver_id: Seq<char>,
    /// The token that is paid.
    pub token_id: Seq<char>,
    /// How much is paid.
    pub amount: u128,
}

impl PoolView {
    /// What a swap of `amount_in` of `token_in` returns of `token_out`, or
    /// why no price can be given.
    pub open spec fn get_return(self, token_in: Seq<char>, amount_in: u128, token_out: Seq<char>)
        -> Result<u128, PoolError> {
        if token_in == token_out {
            Err(PoolError::SameToken)
        } else if amount_in == 0 {
            Err(PoolError::AmountInInvalid)
        } else if !self.has_token(token_in) || !self.has_token(token_out) {
            Err(PoolError::TokenNotInPool)
        } else if self.reserve(token_in) == 0 || self.reserve(token_out) == 0 {
            Err(PoolError::TokenReserveInvalid)
        } else {
            Ok(
                quote(
                    self.reserve(token_in) as int,
                    self.reserve(token_out) as int,
                    self.exchange_fee as int,
                    amount_in as int,
                ) as u128,
            )
        }
    }

    /// What a swap pays out to `caller`, or why it is refused.
    pub open spec fn swap_result(
        self,
        caller: Seq<char>,
        token_in: Seq<char>,
        amount_in: u128,
        token_out: Seq<char>,
        min_amount_out: u128,
    ) -> Result<u128, PoolError> {
        if !self.has_token(token_in) || !self.has_token(token_out) {
            Err(PoolError::TokenNotInPool)
        } else {
            match self.get_return(token_in, amount_in, token_out) {
                Err(e) => Err(e),
                Ok(amount_out) => {
                    if amount_out < min_amount_out {
                        Err(PoolError::MinAmount)
                    } else if self.reserve(token_in) + amount_in > u128::MAX {
                        Err(PoolError::Overflow)
                    } else if !self.is_registered(caller) {
                        Err(PoolError::AccountNotRegistered)
                    } else if self.balance(caller, token_out) + amount_out > u128::MAX {
                        Err(PoolError::Overflow)
                    } else if self.balance(caller, token_in) < amount_in {
                        Err(PoolError::InvalidAmount)
                    } else if self.volume(token_in).input + amount_in > u128::MAX || self.volume(
                        token_in,
                    ).output + amount_out > u128::MAX {
                        Err(PoolError::Overflow)
                    } else {
                        Ok(amount_out)
                    }
                },
            }
        }
    }

    /// The pool after a swap that took `amount_in` and paid `amount_out`:
    /// the input is in its reserve and off the caller's balance, the output
    /// is off its reserve and on the caller's balance, and both are added
    /// to the volume of the input token.
    pub open spec fn swapped(
        self,
        caller: Seq<char>,
        token_in: Seq<char>,
        amount_in: u128,
        token_out: Seq<char>,
        amount_out: u128,
    ) -> PoolView {
        self.with_reserve(token_in, (self.reserve(token_in) + amount_in) as u128).with_reserve(
            token_out,
            (self.reserve(token_out) - amount_out) as u128,
        ).credited(caller, token_out, amount_out as int).debited(
            caller,
            token_in,
            amount_in as int,
        ).volume_recorded(token_in, amount_in, amount_out)
    }

    /// The shares that a deposit would mint, before any bound is looked at:
    /// the fixed first issue where no shares are outstanding, else the
    /// deposit's proportion of the supply.
    pub open spec fn share_for_deposit(
        self,
        token_in: Seq<char>,
        amount_in: u128,
        token_out: Seq<char>,
        amount_out: u128,
    ) -> int {
        if self.total_share_supply > 0 {
            minted_share(
                self.reserve(token_in) as int,
                self.reserve(token_out) as int,
                self.total_share_supply as int,
                amount_in as int,
                amount_out as int,
            )
        } else {
            INIT_SHARES_SUPPLY as int
        }
    }

    /// The shares that a deposit of liquidity mints to `caller`, or why it
    /// is refused.
    pub open spec fn add_liquidity_result(
        self,
        caller: Seq<char>,
        token_in: Seq<char>,
        amount_in: u128,
        token_out: Seq<char>,
        amount_out: u128,
    ) -> Result<u128, PoolError> {
        let share = self.share_for_deposit(token_in, amount_in, token_out, amount_out);
        if token_in == token_out {
            Err(PoolError::TokenId)
        } else if amount_in == 0 || amount_out == 0 {
            Err(PoolError::InvalidAmount)
        } else if !self.is_registered(caller) {
            Err(PoolError::AccountNotRegistered)
        } else if self.balance(caller, token_in) < amount_in || self.balance(caller, token_out)
            < amount_out {
            Err(PoolError::InvalidAmount)
        } else if !self.has_token(token_in) || !self.has_token(token_out) {
            Err(PoolError::TokenNotInPool)
        } else if self.total_share_supply > 0 && (self.reserve(token_in) == 0 || self.reserve(
            token_out,
        ) == 0) {
            Err(PoolError::ReserveInvalid)
        } else if self.total_share_supply > 0 && self.reserve(token_in) * amount_out
            != self.reserve(token_out) * amount_in {
            Err(PoolError::RatioMismatch)
        } else if self.reserve(token_in) + amount_in > u128::MAX || self.reserve(token_out)
            + amount_out > u128::MAX {
            Err(PoolError::Overflow)
        } else if share > u128::MAX {
            Err(PoolError::Overflow)
        } else if share == 0 {
            Err(PoolError::ZeroShare)
        } else if self.total_share_supply + share > u128::MAX {
            Err(PoolError::Overflow)
        } else {
            Ok(share as u128)
        }
    }

    /// The pool after a deposit of liquidity that minted `share`: the two
    /// amounts are off the caller's balances and in the reserves, and the
    /// new shares are the caller's.
    pub open spec fn liquidity_added(
        self,
        caller: Seq<char>,
        token_in: Seq<char>,
        amount_in: u128,
        token_out: Seq<char>,
        amount_out: u128,
        share: u128,
    ) -> PoolView {
        self.debited(caller, token_in, amount_in as int).debited(
            caller,
            token_out,
            amount_out as int,
        ).with_reserve(token_in, (self.reserve(token_in) + amount_in) as u128).with_reserve(
            token_out,
            (self.reserve(token_out) + amount_out) as u128,
        ).minted(caller, share)
    }

    /// What `amount` shares redeem of the token at place `i`, by the supply
    /// as it stands before they are burnt.
    pub open spec fn payout_of(self, i: int, amount: u128) -> int {
        payout(amount as int, self.token_reserves[i] as int, self.total_share_supply as int)
    }

    /// Why `caller` cannot redeem `amount` shares, if it cannot.
    pub open spec fn remove_liquidity_error(self, caller: Seq<char>, amount: u128) -> Option<
        PoolError,
    > {
        if !self.is_registered(caller) {
            Some(PoolError::AccountNotRegistered)
        } else if self.account(caller).share < amount {
            Some(PoolError::BurnExceedsShare)
        } else if self.total_share_supply == 0 {
            Some(PoolError::NoShareSupply)
        } else if self.balance(caller, self.token_ids[0]) + self.payout_of(0, amount) > u128::MAX
            || self.balance(caller, self.token_ids[1]) + self.payout_of(1, amount) > u128::MAX {
            Some(PoolError::Overflow)
        } else {
            None
        }
    }

    /// The pool after `caller` has redeemed `amount` shares: the shares are
    /// burnt, and their part of each reserve is on the caller's balance.
    pub open spec fn liquidity_removed(self, caller: Seq<char>, amount: u128) -> PoolView {
        self.burnt(caller, amount).with_reserve(
            self.token_ids[0],
            (self.token_reserves[0] - self.payout_of(0, amount)) as u128,
        ).with_reserve(
            self.token_ids[1],
            (self.token_reserves[1] - self.payout_of(1, amount)) as u128,
        ).credited(caller, self.token_ids[0], self.payout_of(0, amount)).credited(
            caller,
            self.token_ids[1],
            self.payout_of(1, amount),
        )
    }

    /// The transfer that pays out all that `caller` holds of `token`, or why
    /// none is issued.
    pub open spec fn withdraw_result(self, caller: Seq<char>, token: Seq<char>) -> Result<
        TransferView,
        PoolError,
    > {
        if !self.is_registered(caller) {
            Err(PoolError::AccountNotRegistered)
        } else if !self.account(caller).holds(token) {
            Err(PoolError::TokenBalanceMissing)
        } else if self.balance(caller, token) == 0 {
            Err(PoolError::TokenBalanceZero)
        } else {
            Ok(
                TransferView {
                    receiver_id: caller,
                    token_id: token,
                    amount: self.balance(caller, token),
                },
            )
        }
    }

    /// Why a settled withdrawal is not taken off the balance, if it is not.
    /// `results` holds, for each transfer that the settlement waited for,
    /// whether it succeeded: there must be exactly one.
    pub open spec fn withdraw_callback_error(
        self,
        id: Seq<char>,
        token: Seq<char>,
        amount: u128,
        results: Seq<bool>,
    ) -> Option<PoolError> {
        if results.len() != 1 {
            Some(PoolError::TooManyResults)
        } else if !results[0] {
            Some(PoolError::CallFailed)
        } else {
            self.withdraw_error(id, token, amount)
        }
    }

    /// Why a deposit notified by the contract `token` is not credited to
    /// `sender`, if it is not.
    pub open spec fn on_transfer_error(self, token: Seq<char>, sender: Seq<char>, amount: u128)
        -> Option<PoolError> {
        if !self.has_token(token) {
            Some(PoolError::FtContractNotInPool)
        } else {
            self.deposit_error(sender, token, amount)
        }
    }
}

impl AccountView {
    /// What setting one balance does to an account.
    pub proof fn lemma_with_balance(self, token: Seq<char>, amount: u128)
        requires
            self.wf(),
        ensures
            self.with_balance(token, amount).wf(),
            self.with_balance(token, amount).holds(token),
            self.with_balance(token, amount).balance(token) == amount,
            self.with_balance(token, amount).share == self.share,
            self.with_balance(token, amount).near_amount == self.near_amount,
            forall|other: Seq<char>|
                other != token ==> self.with_balance(token, amount).holds(other) == self.holds(
                    other,
                ),
            forall|other: Seq<char>|
                other != token ==> self.with_balance(token, amount).balance(other) == self.balance(
                    other,
                ),
    {
        lemma_put(self.tokens, token, amount);
    }
}

impl PoolView {
    /// What setting one balance of a registered account does to the pool.
    pub proof fn lemma_set_balance(self, id: Seq<char>, token: Seq<char>, amount: u128)
        requires
            self.ledger_ok(),
            self.is_registered(id),
        ensures
            ({
                let after = self.with_account(id, self.account(id).with_balance(token, amount));
                &&& after.ledger_ok()
                &&& after.is_registered(id)
                &&& after.account(id) == self.account(id).with_balance(token, amount)
                &&& after.balance(id, token) == amount
                &&& after.account(id).share == self.account(id).share
                &&& sum_shares(after.accounts) == sum_shares(self.accounts)
                &&& forall|other: Seq<char>|
                    other != token ==> after.balance(id, other) == self.balance(id, other)
            }),
    {
        let i = key_index(self.accounts, id);
        assert(self.accounts[i].1.wf());
        self.account(id).lemma_with_balance(token, amount);
        self.lemma_with_account(id, self.account(id).with_balance(token, amount));
    }
}

impl PoolView {
    /// What setting the shares of a registered account does to the pool.
    pub proof fn lemma_set_share(self, id: Seq<char>, share: u128)
        requires
            self.ledger_ok(),
            self.is_registered(id),
        ensures
            ({
                let after = self.with_account(id, self.account(id).with_share(share));
                &&& after.ledger_ok()
                &&& after.is_registered(id)
                &&& after.account(id) == self.account(id).with_share(share)
                &&& sum_shares(after.accounts) == sum_shares(self.accounts) - self.account(
                    id,
                ).share + share
                &&& forall|other: Seq<char>|
                    other != id ==> after.is_registered(other) == self.is_registered(other)
                &&& forall|other: Seq<char>|
                    other != id && self.is_registered(other) ==> after.account(other)
                        == self.account(other)
            }),
    {
        let i = key_index(self.accounts, id);
        assert(self.accounts[i].1.wf());
        self.lemma_with_account(id, self.account(id).with_share(share));
    }
}

/// The shares of the first `k + 1` accounts are those of the first `k` and
/// of the one after them.
pub proof fn lemma_sum_shares_take_next(accounts: Seq<(Seq<char>, AccountView)>, k: int)
    requires
        0 <= k < accounts.len(),
    ensures
        sum_shares(accounts.take(k + 1)) == sum_shares(accounts.take(k)) + accounts[k].1.share,
{
    assert(accounts.take(k + 1).drop_last() =~= accounts.take(k));
}

/// The first accounts hold no more shares than all accounts.
pub proof fn lemma_sum_shares_take_le(accounts: Seq<(Seq<char>, AccountView)>, k: int)
    requires
        0 <= k <= accounts.len(),
    ensures
        sum_shares(accounts.take(k)) <= sum_shares(accounts),
    decreases accounts.len() - k,
{
    if k == accounts.len() {
        assert(accounts.take(k) =~= accounts);
    } else {
        lemma_sum_shares_take_next(accounts, k);
        lemma_sum_shares_take_le(accounts, k + 1);
    }
}

} // verus!
