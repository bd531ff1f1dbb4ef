use vstd::prelude::*;

verus! {

/// The named failures a transition can surface. Every precondition
/// violation aborts the whole transition before any custody transfer or
/// record mutation is committed; no error is retried internally.
#[derive(Clone, Copy, Debug, PartialEq, Eq, Structural)]
pub enum ErrorCode {
    /// The referenced bid is no longer active or has been fully filled.
    BidInactive,
    /// The bid does not have enough remaining liquidity for this borrow.
    InsufficientBidLiquidity,
    /// A cancel was requested on a bid with no unfilled amount left.
    NoFundsToWithdraw,
    /// A referenced token account's mint does not match the market's mint.
    InvalidTokenMint,
    /// The derived vault authority does not match the vault's stored binding.
    InvalidVaultAuthority,
    /// The caller does not own or control the record it claims to act on.
    UnauthorizedBorrower,
    /// A repay was requested on a loan that is already closed.
    AlreadyRepaid,
    /// Integer overflow or underflow in an arithmetic step, including a
    /// debit that exceeds the paying account's balance.
    MathError,
    /// A market already exists for this mint.
    DuplicateMarket,
}

} // verus!
