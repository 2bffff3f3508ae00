use simple_pool::core_impl::{TokenTransfer, TransferOutcome, FT_TRANSFER_GAS, WITHDRAW_CALLBACK_GAS};
use simple_pool::error::PoolError;
use simple_pool::ft_receiver::FungibleTokenReceiver;
use simple_pool::SimplePool;

fn who(s: &str) -> String {
    s.to_string()
}

fn pool_with_alice_and_bob() -> SimplePool {
    let mut pool =
        SimplePool::new(who("owner"), vec![who("token-a"), who("token-b")], 30).unwrap();
    pool.register_account(None, who("alice")).unwrap();
    pool.register_account(None, who("bob")).unwrap();
    pool
}

fn balance(pool: &SimplePool, account: &str, token: &str) -> Option<u128> {
    let info = pool.get_account_info(who(account)).unwrap();
    info.tokens.iter().find(|entry| entry.0 == token).map(|entry| entry.1)
}

#[test]
fn deposit_credits_the_balance() {
    let mut pool = pool_with_alice_and_bob();
    assert_eq!(balance(&pool, "alice", "token-a"), None);
    assert_eq!(pool.internal_deposit(who("alice"), who("token-a"), 100), Ok(()));
    assert_eq!(balance(&pool, "alice", "token-a"), Some(100));
    assert_eq!(pool.internal_deposit(who("alice"), who("token-a"), 23), Ok(()));
    assert_eq!(balance(&pool, "alice", "token-a"), Some(123));
    assert_eq!(balance(&pool, "alice", "token-b"), None);
    assert_eq!(balance(&pool, "bob", "token-a"), None);
    assert!(pool.is_valid());
}

#[test]
fn deposit_to_an_unregistered_account_is_refused() {
    let mut pool = pool_with_alice_and_bob();
    let before = pool.clone();
    assert_eq!(
        pool.internal_deposit(who("carol"), who("token-a"), 100),
        Err(PoolError::AccountNotRegistered)
    );
    assert_eq!(pool, before);
}

#[test]
fn deposit_beyond_128_bits_is_refused() {
    let mut pool = pool_with_alice_and_bob();
    pool.internal_deposit(who("alice"), who("token-a"), u128::MAX - 1).unwrap();
    let before = pool.clone();
    assert_eq!(pool.internal_deposit(who("alice"), who("token-a"), 2), Err(PoolError::Overflow));
    assert_eq!(pool, before);
    assert_eq!(pool.internal_deposit(who("alice"), who("token-a"), 1), Ok(()));
    assert_eq!(balance(&pool, "alice", "token-a"), Some(u128::MAX));
}

#[test]
fn withdraw_debits_the_balance() {
    let mut pool = pool_with_alice_and_bob();
    pool.internal_deposit(who("alice"), who("token-a"), 100).unwrap();
    assert_eq!(pool.internal_withdraw(who("alice"), who("token-a"), 40), Ok(()));
    assert_eq!(balance(&pool, "alice", "token-a"), Some(60));
    assert_eq!(pool.internal_withdraw(who("alice"), who("token-a"), 60), Ok(()));
    assert_eq!(balance(&pool, "alice", "token-a"), Some(0));
    assert!(pool.is_valid());
}

#[test]
fn withdraw_of_more_than_the_balance_is_refused() {
    let mut pool = pool_with_alice_and_bob();
    pool.internal_deposit(who("alice"), who("token-a"), 100).unwrap();
    let before = pool.clone();
    assert_eq!(
        pool.internal_withdraw(who("alice"), who("token-a"), 101),
        Err(PoolError::InvalidAmount)
    );
    assert_eq!(pool, before);
    assert_eq!(balance(&pool, "alice", "token-a"), Some(100));
    assert_eq!(
        pool.internal_withdraw(who("alice"), who("token-b"), 1),
        Err(PoolError::InvalidAmount)
    );
    assert_eq!(
        pool.internal_withdraw(who("carol"), who("token-a"), 1),
        Err(PoolError::AccountNotRegistered)
    );
    assert_eq!(pool, before);
}

#[test]
fn withdraw_of_nothing_enters_the_token() {
    let mut pool = pool_with_alice_and_bob();
    assert_eq!(pool.internal_withdraw(who("alice"), who("token-a"), 0), Ok(()));
    assert_eq!(balance(&pool, "alice", "token-a"), Some(0));
}

#[test]
fn on_transfer_credits_the_sender_and_refuses_nothing() {
    let mut pool = pool_with_alice_and_bob();
    assert_eq!(pool.ft_on_transfer(who("token-a"), who("alice"), 500, who("")), Ok(0));
    assert_eq!(pool.ft_on_transfer(who("token-b"), who("alice"), 7, who("note")), Ok(0));
    assert_eq!(pool.ft_on_transfer(who("token-a"), who("alice"), 1, who("")), Ok(0));
    assert_eq!(balance(&pool, "alice", "token-a"), Some(501));
    assert_eq!(balance(&pool, "alice", "token-b"), Some(7));
    assert_eq!(pool.token_reserves, vec![0, 0]);
    assert!(pool.is_valid());
}

#[test]
fn on_transfer_from_another_contract_is_refused() {
    let mut pool = pool_with_alice_and_bob();
    let before = pool.clone();
    assert_eq!(
        pool.ft_on_transfer(who("token-c"), who("alice"), 500, who("")),
        Err(PoolError::FtContractNotInPool)
    );
    assert_eq!(
        pool.ft_on_transfer(who("token-c"), who("carol"), 500, who("")),
        Err(PoolError::FtContractNotInPool)
    );
    assert_eq!(pool, before);
}

#[test]
fn on_transfer_for_an_unregistered_sender_is_refused() {
    let mut pool = pool_with_alice_and_bob();
    let before = pool.clone();
    assert_eq!(
        pool.ft_on_transfer(who("token-a"), who("carol"), 500, who("")),
        Err(PoolError::AccountNotRegistered)
    );
    assert_eq!(pool, before);
}

#[test]
fn on_transfer_beyond_128_bits_is_refused() {
    let mut pool = pool_with_alice_and_bob();
    pool.ft_on_transfer(who("token-a"), who("alice"), u128::MAX, who("")).unwrap();
    let before = pool.clone();
    assert_eq!(
        pool.ft_on_transfer(who("token-a"), who("alice"), 1, who("")),
        Err(PoolError::Overflow)
    );
    assert_eq!(pool, before);
}

#[test]
fn withdraw_asks_for_the_whole_balance_and_changes_nothing() {
    let mut pool = pool_with_alice_and_bob();
    pool.ft_on_transfer(who("token-a"), who("alice"), 500, who("")).unwrap();
    let before = pool.clone();
    assert_eq!(
        pool.withdraw(who("alice"), who("token-a")),
        Ok(TokenTransfer {
            receiver_id: who("alice"),
            token_id: who("token-a"),
            amount: 500,
            memo: who("Withdraw from exchange"),
        })
    );
    assert_eq!(pool, before);
    assert_eq!(FT_TRANSFER_GAS, 10_000_000_000_000);
    assert_eq!(WITHDRAW_CALLBACK_GAS, 10_000_000_000_000);
}

#[test]
fn withdraw_is_refused_without_a_balance() {
    let mut pool = pool_with_alice_and_bob();
    pool.ft_on_transfer(who("token-a"), who("alice"), 500, who("")).unwrap();
    assert_eq!(
        pool.withdraw(who("carol"), who("token-a")),
        Err(PoolError::AccountNotRegistered)
    );
    assert_eq!(
        pool.withdraw(who("alice"), who("token-b")),
        Err(PoolError::TokenBalanceMissing)
    );
    assert_eq!(pool.withdraw(who("bob"), who("token-a")), Err(PoolError::TokenBalanceMissing));
    pool.internal_withdraw(who("alice"), who("token-a"), 500).unwrap();
    assert_eq!(pool.withdraw(who("alice"), who("token-a")), Err(PoolError::TokenBalanceZero));
}

#[test]
fn a_successful_transfer_is_taken_off_the_balance() {
    let mut pool = pool_with_alice_and_bob();
    pool.ft_on_transfer(who("token-a"), who("alice"), 500, who("")).unwrap();
    let transfer = pool.withdraw(who("alice"), who("token-a")).unwrap();
    assert_eq!(
        pool.ft_withdraw_callback(
            transfer.receiver_id,
            transfer.token_id,
            transfer.amount,
            vec![TransferOutcome::Successful]
        ),
        Ok(500)
    );
    assert_eq!(balance(&pool, "alice", "token-a"), Some(0));
    assert!(pool.is_valid());
}

#[test]
fn a_failed_transfer_leaves_the_balance() {
    let mut pool = pool_with_alice_and_bob();
    pool.ft_on_transfer(who("token-a"), who("alice"), 500, who("")).unwrap();
    let before = pool.clone();
    assert_eq!(
        pool.ft_withdraw_callback(
            who("alice"),
            who("token-a"),
            500,
            vec![TransferOutcome::Failed]
        ),
        Err(PoolError::CallFailed)
    );
    assert_eq!(pool, before);
    assert_eq!(balance(&pool, "alice", "token-a"), Some(500));
}

#[test]
fn the_callback_wants_exactly_one_result() {
    let mut pool = pool_with_alice_and_bob();
    pool.ft_on_transfer(who("token-a"), who("alice"), 500, who("")).unwrap();
    let before = pool.clone();
    let lists = [
        vec![],
        vec![TransferOutcome::Successful, TransferOutcome::Successful],
        vec![TransferOutcome::Successful, TransferOutcome::Failed],
        vec![TransferOutcome::Failed, TransferOutcome::Successful],
        vec![TransferOutcome::Failed; 3],
    ];
    for results in lists {
        assert_eq!(
            pool.ft_withdraw_callback(who("alice"), who("token-a"), 500, results),
            Err(PoolError::TooManyResults)
        );
    }
    assert_eq!(pool, before);
}

#[test]
fn the_callback_refuses_what_the_balance_no_longer_holds() {
    let mut pool = pool_with_alice_and_bob();
    pool.ft_on_transfer(who("token-a"), who("alice"), 500, who("")).unwrap();
    pool.internal_withdraw(who("alice"), who("token-a"), 1).unwrap();
    let before = pool.clone();
    assert_eq!(
        pool.ft_withdraw_callback(
            who("alice"),
            who("token-a"),
            500,
            vec![TransferOutcome::Successful]
        ),
        Err(PoolError::InvalidAmount)
    );
    assert_eq!(
        pool.ft_withdraw_callback(
            who("carol"),
            who("token-a"),
            500,
            vec![TransferOutcome::Successful]
        ),
        Err(PoolError::AccountNotRegistered)
    );
    assert_eq!(pool, before);
}
