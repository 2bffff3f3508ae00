//! Accounts and their balances.

use vstd::prelude::*;
use crate::error::PoolError;
use crate::ledger::{has_key, key_index, lemma_key_index, lemma_put, put};
use crate::model::{lemma_sum_shares_push, sum_shares, AccountView, PoolView};
use crate::{AccountId, Balance, SimplePool};

verus! {

/// The balances of an account as the model sees them.
pub open spec fn token_entries(tokens: Seq<(AccountId, Balance)>) -> Seq<(Seq<char>, u128)> {
    Seq::new(tokens.len(), |i: int| (tokens[i].0@, tokens[i].1))
}

/// What the pool keeps for a registered account.
#[derive(Clone, Debug, PartialEq, Eq)]
pub struct Account {
    /// The native currency kept for the account.
    pub near_amount: Balance,
    /// The balance of each token the account has held, in the order in
    /// which the tokens were first credited.
    pub tokens: Vec<(AccountId, Balance)>,
    /// The account's pool shares.
    pub share: Balance,
}

impl View for Account {
    type V = AccountView;

    open spec fn view(&self) -> AccountView {
        AccountView {
            near_amount: self.near_amount,
            tokens: token_entries(self.tokens@),
            share: self.share,
        }
    }
}

/// An account in the form in which it is stored.
#[derive(Clone, Debug, PartialEq, Eq)]
pub enum VersionedAccount {
    Current(Account),
}

impl View for VersionedAccount {
    type V = AccountView;

    open spec fn view(&self) -> AccountView {
        match self {
            VersionedAccount::Current(account) => account@,
        }
    }
}

impl From<VersionedAccount> for Account {
    fn from(v_account: VersionedAccount) -> (r: Account) {
        match v_account {
            VersionedAccount::Current(account) => account,
        }
    }
}

impl vstd::std_specs::convert::FromSpecImpl<VersionedAccount> for Account {
    open spec fn obeys_from_spec() -> bool {
        true
    }

    open spec fn from_spec(v_account: VersionedAccount) -> Account {
        match v_account {
            VersionedAccount::Current(account) => account,
        }
    }
}

impl From<Account> for VersionedAccount {
    fn from(account: Account) -> (r: VersionedAccount) {
        VersionedAccount::Current(account)
    }
}

impl vstd::std_specs::convert::FromSpecImpl<Account> for VersionedAccount {
    open spec fn obeys_from_spec() -> bool {
        true
    }

    open spec fn from_spec(account: Account) -> VersionedAccount {
        VersionedAccount::Current(account)
    }
}

/// An account as it is reported to a caller.
#[derive(Clone, Debug, PartialEq, Eq)]
pub struct AccountJson {
    pub tokens: Vec<(AccountId, Balance)>,
    pub share: Balance,
    pub account_id: AccountId,
}

/// The place of the entry under `key` in a ledger, if there is one.
pub fn find_entry<V>(entries: &Vec<(AccountId, V)>, key: &AccountId) -> (r: Option<usize>)
    ensures
        match r {
            Some(i) => {
                &&& i < entries.len()
                &&& entries[i as int].0@ == key@
                &&& forall|j: int| 0 <= j < i ==> (#[trigger] entries[j]).0@ != key@
            },
            None => forall|j: int| 0 <= j < entries.len() ==> (#[trigger] entries[j]).0@ != key@,
        },
{
    let mut i: usize = 0;
    while i < entries.len()
        invariant
            i <= entries.len(),
            forall|j: int| 0 <= j < i ==> (#[trigger] entries[j]).0@ != key@,
        decreases entries.len() - i,
    {
        if entries[i].0 == *key {
            return Some(i);
        }
        i = i + 1;
    }
    None
}

/// Whether no identifier has two entries in a ledger.
pub fn ids_distinct<V>(entries: &Vec<(AccountId, V)>) -> (r: bool)
    ensures
        r == (forall|i: int, j: int|
            0 <= i < j < entries.len() ==> (#[trigger] entries[i]).0@ != (#[trigger] entries[j]).0@),
{
    let mut j: usize = 0;
    while j < entries.len()
        invariant
            j <= entries.len(),
            forall|a: int, b: int|
                0 <= a < b < j ==> (#[trigger] entries[a]).0@ != (#[trigger] entries[b]).0@,
        decreases entries.len() - j,
    {
        let mut i: usize = 0;
        while i < j
            invariant
                i <= j,
                j < entries.len(),
                forall|a: int| 0 <= a < i ==> (#[trigger] entries[a]).0@ != entries[j as int].0@,
            decreases j - i,
        {
            if entries[i].0 == entries[j].0 {
                return false;
            }
            i = i + 1;
        }
        j = j + 1;
    }
    true
}

impl Account {
    /// Whether no token has two balances: see [`AccountView::wf`].
    pub fn is_valid(&self) -> (r: bool)
        ensures
            r == self@.wf(),
    {
        let r = ids_distinct(&self.tokens);
        proof {
            let tokens = self@.tokens;
            if r {
                assert forall|i: int, j: int| 0 <= i < j < tokens.len() implies (
                #[trigger] tokens[i]).0 != (#[trigger] tokens[j]).0 by {
                    assert(self.tokens[i].0@ != self.tokens[j].0@);
                }
            } else {
                let (i, j) = choose|i: int, j: int|
                    0 <= i < j < self.tokens.len() && (#[trigger] self.tokens[i]).0@ == (
                    #[trigger] self.tokens[j]).0@;
                assert(tokens[i].0 == tokens[j].0);
            }
        }
        r
    }

    /// A newly registered account.
    pub fn new() -> (r: Account)
        ensures
            r@ == AccountView::fresh(),
    {
        let r = Account { near_amount: 0, tokens: Vec::new(), share: 0 };
        assert(r@.tokens =~= Seq::empty());
        r
    }

    /// The balance entered for `token_id`, if there is an entry.
    pub fn balance_of(&self, token_id: &AccountId) -> (r: Option<Balance>)
        requires
            self@.wf(),
        ensures
            r == if self@.holds(token_id@) {
                Some(self@.balance(token_id@))
            } else {
                None
            },
    {
        match find_entry(&self.tokens, token_id) {
            Some(i) => {
                proof {
                    assert(self@.tokens[i as int].0 == token_id@);
                    lemma_key_index(self@.tokens, i as int);
                }
                Some(self.tokens[i].1)
            },
            None => {
                proof {
                    if has_key(self@.tokens, token_id@) {
                        let j = key_index(self@.tokens, token_id@);
                        assert(self.tokens[j].0@ == token_id@);
                    }
                }
                None
            },
        }
    }

    /// Sets the balance of `token_id`, with a new entry where there was none.
    pub fn set_balance(&mut self, token_id: AccountId, amount: Balance)
        requires
            old(self)@.wf(),
        ensures
            final(self)@ == old(self)@.with_balance(token_id@, amount),
    {
        match find_entry(&self.tokens, &token_id) {
            Some(i) => {
                proof {
                    assert(self@.tokens[i as int].0 == token_id@);
                    lemma_key_index(self@.tokens, i as int);
                }
                self.tokens[i].1 = amount;
                assert(self@.tokens =~= put(old(self)@.tokens, token_id@, amount));
            },
            None => {
                proof {
                    if has_key(self@.tokens, token_id@) {
                        let j = key_index(self@.tokens, token_id@);
                        assert(self.tokens[j].0@ == token_id@);
                    }
                }
                self.tokens.push((token_id, amount));
                assert(self@.tokens =~= put(old(self)@.tokens, token_id@, amount));
            },
        }
    }
}

impl SimplePool {
    /// The place of the account `account_id` in the ledger, if it is registered.
    pub(crate) fn account_index(&self, account_id: &AccountId) -> (r: Option<usize>)
        requires
            self@.ledger_ok(),
        ensures
            match r {
                Some(i) => {
                    &&& self@.is_registered(account_id@)
                    &&& i == key_index(self@.accounts, account_id@)
                    &&& i < self.accounts.len()
                    &&& self.accounts[i as int].1@ == self@.account(account_id@)
                },
                None => !self@.is_registered(account_id@),
            },
    {
        let r = find_entry(&self.accounts, account_id);
        proof {
            match r {
                Some(i) => {
                    assert(self@.accounts[i as int].0 == account_id@);
                    lemma_key_index(self@.accounts, i as int);
                },
                None => {
                    if has_key(self@.accounts, account_id@) {
                        let j = key_index(self@.accounts, account_id@);
                        assert(self.accounts[j].0@ == account_id@);
                    }
                },
            }
        }
        r
    }

    /// The place in the ledger of an account that is registered.
    pub(crate) fn registered_index(&self, account_id: &AccountId) -> (r: usize)
        requires
            self@.ledger_ok(),
            self@.is_registered(account_id@),
        ensures
            r == key_index(self@.accounts, account_id@),
            r < self.accounts.len(),
            self.accounts[r as int].1@ == self@.account(account_id@),
    {
        let mut i: usize = 0;
        proof {
            let at = key_index(self@.accounts, account_id@);
            assert(self.accounts[at].0@ == account_id@);
        }
        while i < self.accounts.len() && self.accounts[i].0 != *account_id
            invariant
                i <= self.accounts.len(),
                i <= key_index(self@.accounts, account_id@) < self.accounts.len(),
                self.accounts[key_index(self@.accounts, account_id@)].0@ == account_id@,
            decreases self.accounts.len() - i,
        {
            i = i + 1;
        }
        proof {
            assert(self@.accounts[i as int].0 == account_id@);
            lemma_key_index(self@.accounts, i as int);
        }
        i
    }

    /// Sets the balance that the account at `index` has of `token_id`.
    pub(crate) fn set_account_balance(&mut self, index: usize, token_id: AccountId, amount: Balance)
        requires
            old(self).wf(),
            index < old(self).accounts.len(),
        ensures
            final(self).wf(),
            final(self)@ == old(self)@.with_account(
                old(self)@.accounts[index as int].0,
                old(self)@.accounts[index as int].1.with_balance(token_id@, amount),
            ),
    {
        let ghost id = self@.accounts[index as int].0;
        let ghost before = self@.accounts[index as int].1;
        proof {
            lemma_key_index(self@.accounts, index as int);
            assert(before.wf());
            lemma_put(before.tokens, token_id@, amount);
            self@.lemma_with_account(id, before.with_balance(token_id@, amount));
        }
        match &mut self.accounts[index].1 {
            VersionedAccount::Current(account) => {
                account.set_balance(token_id, amount);
            },
        }
        assert(self@.accounts =~= put(
            old(self)@.accounts,
            id,
            before.with_balance(token_id@, amount),
        ));
    }

    /// Sets the shares of the account at `index`.
    pub(crate) fn set_account_share(&mut self, index: usize, share: Balance)
        requires
            old(self)@.ledger_ok(),
            index < old(self).accounts.len(),
        ensures
            final(self)@ == old(self)@.with_account(
                old(self)@.accounts[index as int].0,
                old(self)@.accounts[index as int].1.with_share(share),
            ),
            final(self)@.ledger_ok(),
            final(self).accounts.len() == old(self).accounts.len(),
            sum_shares(final(self)@.accounts) == sum_shares(old(self)@.accounts) - old(
                self,
            )@.accounts[index as int].1.share + share,
    {
        let ghost id = self@.accounts[index as int].0;
        let ghost before = self@.accounts[index as int].1;
        proof {
            lemma_key_index(self@.accounts, index as int);
            assert(before.wf());
            self@.lemma_with_account(id, before.with_share(share));
        }
        match &mut self.accounts[index].1 {
            VersionedAccount::Current(account) => {
                account.share = share;
            },
        }
        assert(self@.accounts =~= put(old(self)@.accounts, id, before.with_share(share)));
    }

    /// The shares of the account at `index`.
    pub(crate) fn account_share(&self, index: usize) -> (r: Balance)
        requires
            index < self.accounts.len(),
        ensures
            r == self@.accounts[index as int].1.share,
    {
        match &self.accounts[index].1 {
            VersionedAccount::Current(account) => account.share,
        }
    }

    /// Registers `account_id`, or the caller where none is named, with no
    /// tokens and no shares.
    pub fn register_account(&mut self, account_id: Option<AccountId>, predecessor: AccountId) -> (r:
        Result<(), PoolError>)
        requires
            old(self).wf(),
        ensures
            final(self).wf(),
            match r {
                Ok(_) => {
                    &&& !old(self)@.is_registered(
                        PoolView::registrant(option_id_view(account_id), predecessor@),
                    )
                    &&& final(self)@ == old(self)@.registered(
                        PoolView::registrant(option_id_view(account_id), predecessor@),
                    )
                },
                Err(e) => {
                    &&& e == PoolError::AccountRegistered
                    &&& old(self)@.is_registered(
                        PoolView::registrant(option_id_view(account_id), predecessor@),
                    )
                    &&& *final(self) == *old(self)
                },
            },
    {
        let account_id_unwrap = match account_id {
            Some(id) => id,
            None => predecessor,
        };
        if self.account_index(&account_id_unwrap).is_some() {
            return Err(PoolError::AccountRegistered);
        }
        let account = Account::new();
        proof {
            lemma_sum_shares_push(self@.accounts, (account_id_unwrap@, AccountView::fresh()));
        }
        self.accounts.push((account_id_unwrap, VersionedAccount::from(account)));
        proof {
            let after = self@.accounts;
            let before = old(self)@.accounts;
            assert(after =~= before.push((account_id_unwrap@, AccountView::fresh())));
            assert forall|i: int, j: int| 0 <= i < j < after.len() implies (#[trigger] after[i]).0 != (
            #[trigger] after[j]).0 by {
                if j == before.len() {
                    assert(before[i].0 == after[i].0);
                } else {
                    assert(before[i].0 != before[j].0);
                }
            }
            assert forall|i: int| 0 <= i < after.len() implies (#[trigger] after[i]).1.wf() by {
                if i < before.len() {
                    assert(before[i].1.wf());
                }
            }
        }
        Ok(())
    }

    /// The balances and the shares of a registered account.
    pub fn get_account_info(&self, account_id: AccountId) -> (r: Result<AccountJson, PoolError>)
        requires
            self.wf(),
        ensures
            match r {
                Ok(info) => {
                    &&& self@.is_registered(account_id@)
                    &&& info.account_id@ == account_id@
                    &&& info.share == self@.account(account_id@).share
                    &&& token_entries(info.tokens@) == self@.account(account_id@).tokens
                },
                Err(e) => e == PoolError::AccountNotRegistered && !self@.is_registered(
                    account_id@,
                ),
            },
    {
        match self.account_index(&account_id) {
            None => Err(PoolError::AccountNotRegistered),
            Some(i) => {
                match &self.accounts[i].1 {
                    VersionedAccount::Current(account) => {
                        let mut tokens: Vec<(AccountId, Balance)> = Vec::new();
                        let mut k: usize = 0;
                        while k < account.tokens.len()
                            invariant
                                k <= account.tokens.len(),
                                tokens.len() == k,
                                forall|j: int|
                                    0 <= j < k ==> (#[trigger] tokens[j]).0@ == account.tokens[j].0@
                                        && tokens[j].1 == account.tokens[j].1,
                            decreases account.tokens.len() - k,
                        {
                            tokens.push((account.tokens[k].0.clone(), account.tokens[k].1));
                            k = k + 1;
                        }
                        assert(token_entries(tokens@) =~= token_entries(account.tokens@));
                        Ok(AccountJson { tokens, share: account.share, account_id })
                    },
                }
            },
        }
    }

    /// One where `account_id` is registered, zero where it is not.
    pub fn storage_balance_of(&self, account_id: AccountId) -> (r: Balance)
        requires
            self.wf(),
        ensures
            r == if self@.is_registered(account_id@) {
                1u128
            } else {
                0u128
            },
    {
        if self.account_index(&account_id).is_some() {
            1
        } else {
            0
        }
    }

    /// The balance that the account at `index` has of `token_id`, zero
    /// where it has no entry.
    pub(crate) fn account_balance(&self, index: usize, token_id: &AccountId) -> (r: Balance)
        requires
            self.wf(),
            index < self.accounts.len(),
        ensures
            r == self@.accounts[index as int].1.balance(token_id@),
    {
        assert(self@.accounts[index as int].1.wf());
        match &self.accounts[index].1 {
            VersionedAccount::Current(account) => {
                match account.balance_of(token_id) {
                    Some(amount) => amount,
                    None => 0,
                }
            },
        }
    }

    /// Credits `amount` of `token_id` to a registered account.
    pub fn internal_deposit(&mut self, account_id: AccountId, token_id: AccountId, amount: u128) -> (r:
        Result<(), PoolError>)
        requires
            old(self).wf(),
        ensures
            final(self).wf(),
            match r {
                Ok(_) => {
                    &&& old(self)@.deposit_error(account_id@, token_id@, amount) is None
                    &&& final(self)@ == old(self)@.credited(account_id@, token_id@, amount as int)
                },
                Err(e) => {
                    &&& old(self)@.deposit_error(account_id@, token_id@, amount) == Some(e)
                    &&& *final(self) == *old(self)
                },
            },
    {
        let index = match self.account_index(&account_id) {
            Some(i) => i,
            None => {
                return Err(PoolError::AccountNotRegistered);
            },
        };
        let token_amount = self.account_balance(index, &token_id);
        if amount > u128::MAX - token_amount {
            return Err(PoolError::Overflow);
        }
        self.set_account_balance(index, token_id, token_amount + amount);
        Ok(())
    }

    /// Takes `amount` of `token_id` from a registered account that holds as much.
    pub fn internal_withdraw(&mut self, account_id: AccountId, token_id: AccountId, amount: u128) -> (r:
        Result<(), PoolError>)
        requires
            old(self).wf(),
        ensures
            final(self).wf(),
            match r {
                Ok(_) => {
                    &&& old(self)@.withdraw_error(account_id@, token_id@, amount) is None
                    &&& final(self)@ == old(self)@.debited(account_id@, token_id@, amount as int)
                },
                Err(e) => {
                    &&& old(self)@.withdraw_error(account_id@, token_id@, amount) == Some(e)
                    &&& *final(self) == *old(self)
                },
            },
    {
        let index = match self.account_index(&account_id) {
            Some(i) => i,
            None => {
                return Err(PoolError::AccountNotRegistered);
            },
        };
        let token_amount = self.account_balance(index, &token_id);
        if token_amount < amount {
            return Err(PoolError::InvalidAmount);
        }
        self.set_account_balance(index, token_id, token_amount - amount);
        Ok(())
    }
}

/// The model's form of an identifier that may be absent.
pub open spec fn option_id_view(id: Option<AccountId>) -> Option<Seq<char>> {
    match id {
        Some(id) => Some(id@),
        None => None,
    }
}

} // verus!
