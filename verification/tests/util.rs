use simple_pool::error::PoolError;
use simple_pool::util::{assert_at_least_one_yocto, assert_one_yocto, refund_deposit};

#[test]
fn one_yocto_exactly() {
    assert_eq!(assert_one_yocto(1), Ok(()));
    assert_eq!(assert_one_yocto(0), Err(PoolError::OneYoctoRequired));
    assert_eq!(assert_one_yocto(2), Err(PoolError::OneYoctoRequired));
    assert_eq!(assert_one_yocto(u128::MAX), Err(PoolError::OneYoctoRequired));
}

#[test]
fn one_yocto_at_least() {
    assert_eq!(assert_at_least_one_yocto(1), Ok(()));
    assert_eq!(assert_at_least_one_yocto(2), Ok(()));
    assert_eq!(assert_at_least_one_yocto(u128::MAX), Ok(()));
    assert_eq!(assert_at_least_one_yocto(0), Err(PoolError::AtLeastOneYoctoRequired));
}

#[test]
fn refund_is_what_storage_did_not_use() {
    // 250 bytes at 10^19 each cost 2.5 * 10^21
    let cost = 2_500_000_000_000_000_000_000u128;
    assert_eq!(
        refund_deposit(250, 10_000_000_000_000_000_000, cost + 1),
        Ok(Some(1))
    );
    assert_eq!(
        refund_deposit(250, 10_000_000_000_000_000_000, 3_000_000_000_000_000_000_000),
        Ok(Some(500_000_000_000_000_000_000))
    );
    assert_eq!(refund_deposit(0, 10_000_000_000_000_000_000, 7), Ok(Some(7)));
    assert_eq!(refund_deposit(250, 0, 7), Ok(Some(7)));
}

#[test]
fn nothing_is_refunded_of_a_deposit_used_up() {
    assert_eq!(
        refund_deposit(250, 10_000_000_000_000_000_000, 2_500_000_000_000_000_000_000),
        Ok(None)
    );
    assert_eq!(refund_deposit(0, 5, 0), Ok(None));
}

#[test]
fn a_deposit_below_the_cost_is_refused() {
    assert_eq!(
        refund_deposit(250, 10_000_000_000_000_000_000, 2_499_999_999_999_999_999_999),
        Err(PoolError::StorageNotCovered)
    );
    assert_eq!(refund_deposit(1, 1, 0), Err(PoolError::StorageNotCovered));
}

#[test]
fn a_cost_beyond_128_bits_is_refused() {
    assert_eq!(refund_deposit(2, u128::MAX, u128::MAX), Err(PoolError::Overflow));
    assert_eq!(refund_deposit(u64::MAX, u128::MAX, u128::MAX), Err(PoolError::Overflow));
    assert_eq!(refund_deposit(1, u128::MAX, u128::MAX), Ok(None));
}

#[test]
fn each_refusal_has_its_text() {
    let texts = [
        (PoolError::TokenCount, "MUST 2 TOKEN IDS"),
        (PoolError::TokenIdsNotDistinct, "ERR_TOKEN_IDS_NOT_DISTINCT"),
        (PoolError::FeeInvalid, "ERR_FEE_INVALID"),
        (PoolError::AccountRegistered, "ERR_ACCOUNT_REGISTED"),
        (PoolError::AccountNotRegistered, "ERR_ACCOUNT_NOT_REGISTERED"),
        (PoolError::TokenNotInPool, "ERR_TOKEN_NOT_IN_POOL"),
        (PoolError::InvalidAmount, "ERR_INVALID_AMOUNT"),
        (PoolError::TokenId, "ERR_TOKEN_ID"),
        (PoolError::ReserveInvalid, "ERR_RESERVE_INVALID"),
        (PoolError::RatioMismatch, "x / y != dx / dy"),
        (PoolError::ZeroShare, "Share = 0"),
        (PoolError::MinAmount, "ERR_MIN_AMOUNT"),
        (PoolError::SameToken, "ERR_NOT_GET_SAME_TOKEN"),
        (PoolError::AmountInInvalid, "ERR_AMOUNT_IN_INVALID"),
        (PoolError::TokenReserveInvalid, "ERR_TOKEN_RESERVE_INVALID"),
        (PoolError::BurnExceedsShare, "ERR_BURN_EXCEEDS_SHARE"),
        (PoolError::NoShareSupply, "ERR_NO_SHARE_SUPPLY"),
        (PoolError::ShareAmountNotEnough, "ERR_SHARE_AMOUNT_NOT_ENOUGH"),
        (PoolError::TokenBalanceMissing, "ERR_TOKEN_BALANCE_MISSING"),
        (PoolError::TokenBalanceZero, "ERR_TOKEN_BALANCE_EQUAL_ZERO"),
        (PoolError::TooManyResults, "ERR_TOO_MANY_RESULTS"),
        (PoolError::CallFailed, "ERR_CALL_FAILED"),
        (PoolError::FtContractNotInPool, "ERR_FT_CONTRACT_NOT_IN_POOL"),
        (PoolError::Overflow, "ERR_OVERFLOW"),
        (PoolError::OneYoctoRequired, "Required attached deposit of exactly 1 yoctoNEAR"),
        (
            PoolError::AtLeastOneYoctoRequired,
            "Required attached deposit of at least 1 yoctoNEAR",
        ),
        (PoolError::StorageNotCovered, "ERR_STORAGE_NOT_COVERED"),
    ];
    for (error, text) in texts {
        assert_eq!(error.message(), text);
    }
}
