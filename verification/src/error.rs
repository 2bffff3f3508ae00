//! The ways in which an operation on the pool is refused.

use vstd::prelude::*;

verus! {

/// Why an operation was refused.  A refused operation changes nothing.
#[derive(Clone, Copy, Debug, PartialEq, Eq, Structural)]
pub enum PoolError {
    /// A pool is created with other than two token ids.
    TokenCount,
    /// A pool is created with twice the same token id.
    TokenIdsNotDistinct,
    /// A pool is created with a fee that is not below the fee divisor.
    FeeInvalid,
    /// The account is registered already.
    AccountRegistered,
    /// The account is not registered.
    AccountNotRegistered,
    /// The token is not one of the pool's two.
    TokenNotInPool,
    /// An amount is zero where it must not be, or exceeds the balance it is taken from.
    InvalidAmount,
    /// Liquidity is added with twice the same token.
    TokenId,
    /// Liquidity is added to a pool that has shares but an empty reserve.
    ReserveInvalid,
    /// Liquidity is added in another ratio than that of the reserves.
    RatioMismatch,
    /// Adding liquidity would mint no share.
    ZeroShare,
    /// A swap would return less than the caller's minimum.
    MinAmount,
    /// A quote is asked from a token to itself.
    SameToken,
    /// A quote is asked for an input of zero.
    AmountInInvalid,
    /// A quote is asked while a reserve is empty.
    TokenReserveInvalid,
    /// More shares are burnt than the account holds.
    BurnExceedsShare,
    /// Shares are burnt while none are outstanding.
    NoShareSupply,
    /// More shares are transferred than the account holds.
    ShareAmountNotEnough,
    /// A withdrawal is asked of a token the account never held.
    TokenBalanceMissing,
    /// A withdrawal is asked of a token of which the account holds nothing.
    TokenBalanceZero,
    /// The withdrawal callback did not receive exactly one result.
    TooManyResults,
    /// The transfer that a withdrawal had issued failed.
    CallFailed,
    /// A deposit is notified by a contract that is not one of the pool's tokens.
    FtContractNotInPool,
    /// A result does not fit in 128 bits.
    Overflow,
    /// The attached deposit is not exactly one yoctoNEAR.
    OneYoctoRequired,
    /// The attached deposit is below one yoctoNEAR.
    AtLeastOneYoctoRequired,
    /// The attached deposit does not cover the storage that was taken.
    StorageNotCovered,
}

impl PoolError {
    /// The text under which the failure is reported.
    pub open spec fn spec_message(self) -> Seq<char> {
        match self {
            PoolError::TokenCount => "MUST 2 TOKEN IDS"@,
            PoolError::TokenIdsNotDistinct => "ERR_TOKEN_IDS_NOT_DISTINCT"@,
            PoolError::FeeInvalid => "ERR_FEE_INVALID"@,
            PoolError::AccountRegistered => "ERR_ACCOUNT_REGISTED"@,
            PoolError::AccountNotRegistered => "ERR_ACCOUNT_NOT_REGISTERED"@,
            PoolError::TokenNotInPool => "ERR_TOKEN_NOT_IN_POOL"@,
            PoolError::InvalidAmount => "ERR_INVALID_AMOUNT"@,
            PoolError::TokenId => "ERR_TOKEN_ID"@,
            PoolError::ReserveInvalid => "ERR_RESERVE_INVALID"@,
            PoolError::RatioMismatch => "x / y != dx / dy"@,
            PoolError::ZeroShare => "Share = 0"@,
            PoolError::MinAmount => "ERR_MIN_AMOUNT"@,
            PoolError::SameToken => "ERR_NOT_GET_SAME_TOKEN"@,
            PoolError::AmountInInvalid => "ERR_AMOUNT_IN_INVALID"@,
            PoolError::TokenReserveInvalid => "ERR_TOKEN_RESERVE_INVALID"@,
            PoolError::BurnExceedsShare => "ERR_BURN_EXCEEDS_SHARE"@,
            PoolError::NoShareSupply => "ERR_NO_SHARE_SUPPLY"@,
            PoolError::ShareAmountNotEnough => "ERR_SHARE_AMOUNT_NOT_ENOUGH"@,
            PoolError::TokenBalanceMissing => "ERR_TOKEN_BALANCE_MISSING"@,
            PoolError::TokenBalanceZero => "ERR_TOKEN_BALANCE_EQUAL_ZERO"@,
            PoolError::TooManyResults => "ERR_TOO_MANY_RESULTS"@,
            PoolError::CallFailed => "ERR_CALL_FAILED"@,
            PoolError::FtContractNotInPool => "ERR_FT_CONTRACT_NOT_IN_POOL"@,
            PoolError::Overflow => "ERR_OVERFLOW"@,
            PoolError::OneYoctoRequired => "Required attached deposit of exactly 1 yoctoNEAR"@,
            PoolError::AtLeastOneYoctoRequired => "Required attached deposit of at least 1 yoctoNEAR"@,
            PoolError::StorageNotCovered => "ERR_STORAGE_NOT_COVERED"@,
        }
    }

    /// The text under which the failure is reported.
    pub fn message(&self) -> (r: String)
        ensures
            r@ == self.spec_message(),
    {
        let text: &str = match self {
            PoolError::TokenCount => "MUST 2 TOKEN IDS",
            PoolError::TokenIdsNotDistinct => "ERR_TOKEN_IDS_NOT_DISTINCT",
            PoolError::FeeInvalid => "ERR_FEE_INVALID",
            PoolError::AccountRegistered => "ERR_ACCOUNT_REGISTED",
            PoolError::AccountNotRegistered => "ERR_ACCOUNT_NOT_REGISTERED",
            PoolError::TokenNotInPool => "ERR_TOKEN_NOT_IN_POOL",
            PoolError::InvalidAmount => "ERR_INVALID_AMOUNT",
            PoolError::TokenId => "ERR_TOKEN_ID",
            PoolError::ReserveInvalid => "ERR_RESERVE_INVALID",
            PoolError::RatioMismatch => "x / y != dx / dy",
            PoolError::ZeroShare => "Share = 0",
            PoolError::MinAmount => "ERR_MIN_AMOUNT",
            PoolError::SameToken => "ERR_NOT_GET_SAME_TOKEN",
            PoolError::AmountInInvalid => "ERR_AMOUNT_IN_INVALID",
            PoolError::TokenReserveInvalid => "ERR_TOKEN_RESERVE_INVALID",
            PoolError::BurnExceedsShare => "ERR_BURN_EXCEEDS_SHARE",
            PoolError::NoShareSupply => "ERR_NO_SHARE_SUPPLY",
            PoolError::ShareAmountNotEnough => "ERR_SHARE_AMOUNT_NOT_ENOUGH",
            PoolError::TokenBalanceMissing => "ERR_TOKEN_BALANCE_MISSING",
            PoolError::TokenBalanceZero => "ERR_TOKEN_BALANCE_EQUAL_ZERO",
            PoolError::TooManyResults => "ERR_TOO_MANY_RESULTS",
            PoolError::CallFailed => "ERR_CALL_FAILED",
            PoolError::FtContractNotInPool => "ERR_FT_CONTRACT_NOT_IN_POOL",
            PoolError::Overflow => "ERR_OVERFLOW",
            PoolError::OneYoctoRequired => "Required attached deposit of exactly 1 yoctoNEAR",
            PoolError::AtLeastOneYoctoRequired => "Required attached deposit of at least 1 yoctoNEAR",
            PoolError::StorageNotCovered => "ERR_STORAGE_NOT_COVERED",
        };
        text.to_owned()
    }
}

} // verus!
