use vstd::prelude::*;

verus! {

/// A balance-holding account of the asset-custody service. Record
/// references are plain indices into the ledger's account table; `owner`
/// and `mint` are opaque external identifiers.
///
/// `is_custody` is the vault capability: an account created as a market's
/// escrow holder carries it, and no user-initiated transfer may name a
/// custody account as its own side — only the transitions themselves debit
/// or credit it on the vault's behalf.
#[derive(Clone, Copy, Debug, PartialEq, Eq, Structural)]
pub struct TokenAccount {
    pub owner: u64,
    pub mint: u64,
    pub balance: u64,
    pub is_custody: bool,
}

/// One lending market per supported mint. Created once by
/// `initialize_market`, never mutated afterward, never deleted.
#[derive(Clone, Copy, Debug, PartialEq, Eq, Structural)]
pub struct Market {
    /// Identifier of the caller that created the market (informational; no
    /// privileged operation gates on it).
    pub authority: u64,
    /// Identifier of the fungible asset this market trades.
    pub token_mint: u64,
    /// Index of this market's vault in the ledger's vault table.
    pub vault: usize,
}

/// Escrow metadata binding a market to the one custody account that
/// physically holds all deposited and repaid funds.
#[derive(Clone, Copy, Debug, PartialEq, Eq, Structural)]
pub struct Vault {
    /// The deterministically derived identity with exclusive transfer
    /// authority over the custody account.
    pub authority: u64,
    /// Index of the custody account in the ledger's account table.
    pub token_account: usize,
    /// Must equal the owning market's `token_mint`.
    pub token_mint: u64,
}

/// A lender's standing offer of liquidity at a fixed rate, partially or
/// fully fillable. Created by `place_bid`; mutated by `borrow`, `repay`
/// and `cancel_bid`; never deleted — a closed bid is retained as history.
#[derive(Clone, Copy, Debug, PartialEq, Eq, Structural)]
pub struct BidOrder {
    pub lender: u64,
    /// Index of the owning market.
    pub market: usize,
    /// Total amount offered.
    pub amount: u64,
    /// Rate in basis points (1/100 of a percent).
    pub rate_bps: u16,
    /// Cumulative amount currently matched to outstanding loans, forced to
    /// `amount` when the bid is cancelled. Never exceeds `amount`.
    pub filled_amount: u64,
    /// True exactly while the bid is open for matching: not cancelled and
    /// not fully filled.
    pub is_active: bool,
    /// Set once by `cancel_bid` and never cleared: a cancelled bid is
    /// permanently closed and is never reactivated, not even when a loan
    /// against it is repaid later.
    pub cancelled: bool,
    /// Caller-supplied creation timestamp.
    pub created_at: i64,
}

/// A single funded loan: principal, rate and repayment status. Created by
/// `borrow`; mutated exactly once, by `repay`; never deleted.
#[derive(Clone, Copy, Debug, PartialEq, Eq, Structural)]
pub struct BorrowRecord {
    pub borrower: u64,
    /// Index of the owning market (always the market of `source_bid`).
    pub market: usize,
    /// Index of the bid this loan was matched against.
    pub source_bid: usize,
    /// Immutable after creation; repayment returns exactly this amount.
    pub principal: u64,
    /// Copied from the matched bid at funding time.
    pub rate_bps: u16,
    /// Caller-supplied funding timestamp.
    pub start_time: i64,
    /// Transitions false to true exactly once and never reverts.
    pub repaid: bool,
}

} // verus!
