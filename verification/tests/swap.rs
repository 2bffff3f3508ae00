use simple_pool::account::{Account, VersionedAccount};
use simple_pool::error::PoolError;
use simple_pool::ft_receiver::FungibleTokenReceiver;
use simple_pool::{SimplePool, SwapVolume};

fn tok(s: &str) -> String {
    s.to_string()
}

/// A pool with reserves `(reserve_a, reserve_b)` that alice funded, who keeps
/// `spare` of each token on her balance.
fn trading_pool(fee: u128, reserve_a: u128, reserve_b: u128, spare: u128) -> SimplePool {
    let mut pool =
        SimplePool::new(tok("owner"), vec![tok("token-a"), tok("token-b")], fee).unwrap();
    pool.register_account(None, tok("alice")).unwrap();
    pool.ft_on_transfer(tok("token-a"), tok("alice"), reserve_a + spare, tok("")).unwrap();
    pool.ft_on_transfer(tok("token-b"), tok("alice"), reserve_b + spare, tok("")).unwrap();
    pool.add_liquidity(tok("alice"), tok("token-a"), reserve_a, tok("token-b"), reserve_b)
        .unwrap();
    assert_eq!(pool.token_reserves, vec![reserve_a, reserve_b]);
    pool
}

fn held(pool: &SimplePool, account: &str, token: &str) -> u128 {
    let info = pool.get_account_info(tok(account)).unwrap();
    info.tokens.iter().find(|entry| entry.0 == token).map(|entry| entry.1).unwrap_or(0)
}

#[test]
fn quote_of_the_worked_example() {
    // floor(1000 * 100 / 1100) = 90, floor(90 * 9970 / 10000) = 89
    let pool = trading_pool(30, 1000, 1000, 1000);
    assert_eq!(pool.get_return(tok("token-a"), 100, tok("token-b")), Ok(89));
    assert_eq!(pool.internal_get_return(tok("token-a"), 100, tok("token-b")), Ok(89));
    assert_eq!(pool.get_return(tok("token-b"), 100, tok("token-a")), Ok(89));
}

#[test]
fn quote_without_fee_is_the_curve() {
    let pool = trading_pool(0, 1000, 1000, 0);
    assert_eq!(pool.get_return(tok("token-a"), 100, tok("token-b")), Ok(90));
    assert_eq!(pool.get_return(tok("token-a"), 1000, tok("token-b")), Ok(500));
    assert_eq!(pool.get_return(tok("token-a"), 1, tok("token-b")), Ok(0));
}

#[test]
fn quote_follows_the_direction() {
    let pool = trading_pool(25, 1_000_000_000_000_000_000_000_000_000_000, 3_000_000_000_000_000_000_000_000_000_000, 0);
    assert_eq!(
        pool.get_return(tok("token-a"), 700_000_000_000_000_000_000_000_000_000, tok("token-b")),
        Ok(1_232_205_882_352_941_176_470_588_235_293)
    );
}

#[test]
fn quote_needs_the_wide_product() {
    // the product of reserve and input is 2^254
    let half = 1u128 << 127;
    let pool = trading_pool(30, half, half, 0);
    assert_eq!(
        pool.get_return(tok("token-a"), half, tok("token-b")),
        Ok(84_815_379_955_043_912_018_246_120_902_368_226_705)
    );
}

#[test]
fn quote_at_the_largest_amounts() {
    let pool = trading_pool(30, u128::MAX, u128::MAX, 0);
    assert_eq!(
        pool.get_return(tok("token-a"), u128::MAX, tok("token-b")),
        Ok(169_630_759_910_087_824_036_492_241_804_736_453_409)
    );
    let steep = trading_pool(9_999, 1, u128::MAX, 0);
    assert_eq!(
        steep.get_return(tok("token-a"), u128::MAX, tok("token-b")),
        Ok(34_028_236_692_093_846_346_337_460_743_176_821)
    );
}

#[test]
fn quote_is_refused_for_one_token_twice() {
    let pool = trading_pool(30, 1000, 1000, 0);
    assert_eq!(
        pool.get_return(tok("token-a"), 100, tok("token-a")),
        Err(PoolError::SameToken)
    );
    assert_eq!(pool.get_return(tok("token-c"), 0, tok("token-c")), Err(PoolError::SameToken));
}

#[test]
fn quote_is_refused_for_no_input() {
    let pool = trading_pool(30, 1000, 1000, 0);
    assert_eq!(
        pool.get_return(tok("token-a"), 0, tok("token-b")),
        Err(PoolError::AmountInInvalid)
    );
    assert_eq!(
        pool.get_return(tok("token-a"), 0, tok("token-c")),
        Err(PoolError::AmountInInvalid)
    );
}

#[test]
fn quote_is_refused_for_a_foreign_token() {
    let pool = trading_pool(30, 1000, 1000, 0);
    assert_eq!(
        pool.get_return(tok("token-a"), 100, tok("token-c")),
        Err(PoolError::TokenNotInPool)
    );
    assert_eq!(
        pool.get_return(tok("token-c"), 100, tok("token-b")),
        Err(PoolError::TokenNotInPool)
    );
}

#[test]
fn quote_is_refused_on_an_empty_reserve() {
    let pool =
        SimplePool::new(tok("owner"), vec![tok("token-a"), tok("token-b")], 30).unwrap();
    assert_eq!(
        pool.get_return(tok("token-a"), 100, tok("token-b")),
        Err(PoolError::TokenReserveInvalid)
    );
}

#[test]
fn reserve_of_each_token() {
    let pool = trading_pool(30, 1000, 3000, 0);
    assert_eq!(pool.get_reserve(tok("token-a")), Ok(1000));
    assert_eq!(pool.get_reserve(tok("token-b")), Ok(3000));
    assert_eq!(pool.get_reserve(tok("token-c")), Err(PoolError::TokenNotInPool));
}

#[test]
fn swap_moves_reserves_balances_and_volume() {
    let mut pool = trading_pool(30, 1000, 1000, 1000);
    assert_eq!(pool.swap(tok("alice"), tok("token-a"), 100, tok("token-b"), 89), Ok(89));
    assert_eq!(pool.token_reserves, vec![1100, 911]);
    assert_eq!(held(&pool, "alice", "token-a"), 900);
    assert_eq!(held(&pool, "alice", "token-b"), 1089);
    assert_eq!(
        pool.get_volumes(),
        vec![SwapVolume { input: 100, output: 89 }, SwapVolume { input: 0, output: 0 }]
    );
    assert!(pool.is_valid());

    // back: floor(1100 * 89 / (911 + 89)) = 97, floor(97 * 9970 / 10000) = 96
    assert_eq!(pool.swap(tok("alice"), tok("token-b"), 89, tok("token-a"), 0), Ok(96));
    assert_eq!(pool.token_reserves, vec![1004, 1000]);
    assert_eq!(held(&pool, "alice", "token-a"), 996);
    assert_eq!(held(&pool, "alice", "token-b"), 1000);
    assert_eq!(
        pool.get_volumes(),
        vec![SwapVolume { input: 100, output: 89 }, SwapVolume { input: 89, output: 96 }]
    );
    assert!(pool.is_valid());
}

#[test]
fn swap_leaves_shares_alone() {
    let mut pool = trading_pool(30, 1000, 1000, 1000);
    let supply = pool.get_total_share_balance();
    let share = pool.get_share_of(tok("alice")).unwrap();
    pool.swap(tok("alice"), tok("token-a"), 100, tok("token-b"), 0).unwrap();
    assert_eq!(pool.get_total_share_balance(), supply);
    assert_eq!(pool.get_share_of(tok("alice")), Ok(share));
}

#[test]
fn swap_below_the_minimum_is_refused() {
    let mut pool = trading_pool(30, 1000, 1000, 1000);
    let before = pool.clone();
    assert_eq!(
        pool.swap(tok("alice"), tok("token-a"), 100, tok("token-b"), 90),
        Err(PoolError::MinAmount)
    );
    assert_eq!(pool, before);
}

#[test]
fn swap_passes_the_refusal_of_the_quote_on() {
    let mut pool = trading_pool(30, 1000, 1000, 1000);
    let before = pool.clone();
    assert_eq!(
        pool.swap(tok("alice"), tok("token-a"), 100, tok("token-a"), 0),
        Err(PoolError::SameToken)
    );
    assert_eq!(
        pool.swap(tok("alice"), tok("token-a"), 0, tok("token-b"), 0),
        Err(PoolError::AmountInInvalid)
    );
    assert_eq!(
        pool.swap(tok("alice"), tok("token-c"), 100, tok("token-b"), 0),
        Err(PoolError::TokenNotInPool)
    );
    assert_eq!(
        pool.swap(tok("alice"), tok("token-c"), 100, tok("token-c"), 0),
        Err(PoolError::TokenNotInPool)
    );
    assert_eq!(pool, before);

    let mut empty =
        SimplePool::new(tok("owner"), vec![tok("token-a"), tok("token-b")], 30).unwrap();
    empty.register_account(None, tok("alice")).unwrap();
    assert_eq!(
        empty.swap(tok("alice"), tok("token-a"), 100, tok("token-b"), 0),
        Err(PoolError::TokenReserveInvalid)
    );
}

#[test]
fn swap_by_an_unregistered_account_is_refused() {
    let mut pool = trading_pool(30, 1000, 1000, 1000);
    let before = pool.clone();
    assert_eq!(
        pool.swap(tok("bob"), tok("token-a"), 100, tok("token-b"), 0),
        Err(PoolError::AccountNotRegistered)
    );
    assert_eq!(pool, before);
}

#[test]
fn swap_of_more_than_the_balance_is_refused() {
    let mut pool = trading_pool(30, 1000, 1000, 50);
    let before = pool.clone();
    assert_eq!(
        pool.swap(tok("alice"), tok("token-a"), 51, tok("token-b"), 0),
        Err(PoolError::InvalidAmount)
    );
    assert_eq!(pool, before);
    assert_eq!(pool.swap(tok("alice"), tok("token-a"), 50, tok("token-b"), 0), Ok(46));
}

#[test]
fn swap_that_overfills_the_reserve_is_refused() {
    let mut pool = trading_pool(30, u128::MAX - 10, 1000, 0);
    pool.register_account(None, tok("bob")).unwrap();
    pool.ft_on_transfer(tok("token-a"), tok("bob"), 100, tok("")).unwrap();
    let before = pool.clone();
    assert_eq!(
        pool.swap(tok("bob"), tok("token-a"), 11, tok("token-b"), 0),
        Err(PoolError::Overflow)
    );
    assert_eq!(pool, before);
    assert_eq!(pool.swap(tok("bob"), tok("token-a"), 10, tok("token-b"), 0), Ok(0));
    assert_eq!(pool.token_reserves, vec![u128::MAX, 1000]);
}

#[test]
fn swap_that_overfills_the_balance_is_refused() {
    let mut pool = trading_pool(0, 1000, 1000, 0);
    pool.register_account(None, tok("bob")).unwrap();
    pool.ft_on_transfer(tok("token-a"), tok("bob"), 100, tok("")).unwrap();
    pool.ft_on_transfer(tok("token-b"), tok("bob"), u128::MAX - 89, tok("")).unwrap();
    let before = pool.clone();
    assert_eq!(
        pool.swap(tok("bob"), tok("token-a"), 100, tok("token-b"), 0),
        Err(PoolError::Overflow)
    );
    assert_eq!(pool, before);
}

#[test]
fn swap_that_overfills_the_volume_is_refused() {
    let mut pool = trading_pool(30, 1000, 1000, 1000);
    pool.volumes[0] = SwapVolume { input: u128::MAX - 99, output: 5 };
    let before = pool.clone();
    assert_eq!(
        pool.swap(tok("alice"), tok("token-a"), 100, tok("token-b"), 0),
        Err(PoolError::Overflow)
    );
    assert_eq!(pool, before);
    pool.volumes[0] = SwapVolume { input: 5, output: u128::MAX - 88 };
    let before = pool.clone();
    assert_eq!(
        pool.swap(tok("alice"), tok("token-a"), 100, tok("token-b"), 0),
        Err(PoolError::Overflow)
    );
    assert_eq!(pool, before);
    pool.volumes[0] = SwapVolume { input: u128::MAX - 100, output: u128::MAX - 89 };
    assert_eq!(pool.swap(tok("alice"), tok("token-a"), 100, tok("token-b"), 0), Ok(89));
    assert_eq!(pool.volumes[0], SwapVolume { input: u128::MAX, output: u128::MAX });
}

#[test]
fn a_swap_never_empties_the_output_reserve() {
    let mut pool = trading_pool(0, 1, 1, 0);
    pool.register_account(None, tok("bob")).unwrap();
    pool.ft_on_transfer(tok("token-a"), tok("bob"), u128::MAX - 1, tok("")).unwrap();
    assert_eq!(pool.swap(tok("bob"), tok("token-a"), u128::MAX - 1, tok("token-b"), 0), Ok(0));
    assert_eq!(pool.token_reserves, vec![u128::MAX, 1]);

    let mut deep = trading_pool(0, 1, u128::MAX, 0);
    deep.accounts.push((
        tok("bob"),
        VersionedAccount::Current(Account {
            near_amount: 0,
            tokens: vec![(tok("token-a"), u128::MAX - 1)],
            share: 0,
        }),
    ));
    assert!(deep.is_valid());
    // floor((2^128 - 1) * (2^128 - 2) / (2^128 - 1)) = 2^128 - 2
    assert_eq!(
        deep.swap(tok("bob"), tok("token-a"), u128::MAX - 1, tok("token-b"), 0),
        Ok(u128::MAX - 1)
    );
    assert_eq!(deep.token_reserves, vec![u128::MAX, 1]);
}
