//! A peer-to-peer fixed-rate lending market, modeled as a verified ledger
//! state machine.
//!
//! Lenders deposit an asset into a market's escrow vault and register
//! rate-tagged bid orders; borrowers draw funds against a chosen bid and
//! later return the principal; lenders withdraw unfilled liquidity by
//! cancelling a bid. Five atomic transitions — [`initialize_market`],
//! [`place_bid`], [`borrow`], [`repay`] and [`cancel_bid`] — mutate the
//! records while preserving the ledger invariant [`LedgerView::wf`],
//! including the custody conservation law: each market's vault balance
//! equals the sum of its bids' deposited-but-not-lent-out amounts. Every
//! transition either fully commits or rejects with a named [`ErrorCode`]
//! and leaves the ledger untouched.
//!
//! The asset-custody service — the trusted ledger that moves balances
//! between accounts atomically — is modeled by the token accounts held in
//! [`Ledger`]; a vault's custody account carries a capability flag, and
//! only the transitions themselves ever debit it on the vault's behalf.

pub mod errors;
pub mod instructions;
pub mod laws;
pub mod ledger;
pub mod state;
pub mod sums;

pub use errors::ErrorCode;
pub use instructions::{
    borrow, cancel_bid, initialize_market, place_bid, repay, Borrow, CancelBid, InitializeMarket,
    PlaceBid, Repay,
};
pub use ledger::{create_token_account, derive_vault_authority, mint_to, Ledger, LedgerView};
pub use state::{BidOrder, BorrowRecord, Market, TokenAccount, Vault};
