use openrate::{
    borrow, cancel_bid, create_token_account, derive_vault_authority, initialize_market, mint_to,
    place_bid, repay, Borrow, CancelBid, ErrorCode, InitializeMarket, Ledger, PlaceBid, Repay,
};

const MINT: u64 = 77;
const LENDER: u64 = 10;
const BORROWER: u64 = 20;

/// A market over `MINT` with a funded lender account and a funded
/// borrower account. The vault's custody account gets index 0, the
/// lender's account index 1, the borrower's index 2.
fn setup() -> (Ledger, usize, usize, usize) {
    let mut l = Ledger::new();
    let market = initialize_market(&mut l, InitializeMarket { authority: 1, token_mint: MINT })
        .unwrap();
    let lender_acct = create_token_account(&mut l, LENDER, MINT);
    mint_to(&mut l, lender_acct, 1_000_000).unwrap();
    let borrower_acct = create_token_account(&mut l, BORROWER, MINT);
    mint_to(&mut l, borrower_acct, 500_000).unwrap();
    (l, market, lender_acct, borrower_acct)
}

#[test]
fn initialize_market_creates_market_and_vault() {
    let mut l = Ledger::new();
    let market = initialize_market(&mut l, InitializeMarket { authority: 1, token_mint: MINT })
        .unwrap();
    assert_eq!(market, 0);
    assert_eq!(l.markets.len(), 1);
    assert_eq!(l.markets[0].authority, 1);
    assert_eq!(l.markets[0].token_mint, MINT);
    let vault = &l.vaults[l.markets[0].vault];
    assert_eq!(vault.token_mint, MINT);
    assert_eq!(vault.authority, derive_vault_authority(0));
    let custody = &l.accounts[vault.token_account];
    assert!(custody.is_custody);
    assert_eq!(custody.mint, MINT);
    assert_eq!(custody.owner, vault.authority);
    assert_eq!(custody.balance, 0);
}

#[test]
fn duplicate_market_rejected() {
    let mut l = Ledger::new();
    initialize_market(&mut l, InitializeMarket { authority: 1, token_mint: MINT }).unwrap();
    let r = initialize_market(&mut l, InitializeMarket { authority: 2, token_mint: MINT });
    assert_eq!(r, Err(ErrorCode::DuplicateMarket));
    assert_eq!(l.markets.len(), 1);
}

#[test]
fn multiple_markets_coexist() {
    let mut l = Ledger::new();
    let m0 = initialize_market(&mut l, InitializeMarket { authority: 1, token_mint: 77 }).unwrap();
    let m1 = initialize_market(&mut l, InitializeMarket { authority: 1, token_mint: 88 }).unwrap();
    assert_eq!((m0, m1), (0, 1));
    assert_ne!(l.markets[0].vault, l.markets[1].vault);
    assert_ne!(
        l.vaults[l.markets[0].vault].token_account,
        l.vaults[l.markets[1].vault].token_account
    );
}

#[test]
fn mint_to_funds_user_account() {
    let mut l = Ledger::new();
    let acct = create_token_account(&mut l, LENDER, MINT);
    assert_eq!(l.accounts[acct].balance, 0);
    assert!(!l.accounts[acct].is_custody);
    mint_to(&mut l, acct, 250).unwrap();
    assert_eq!(l.accounts[acct].balance, 250);
}

#[test]
fn mint_to_overflow_rejected() {
    let mut l = Ledger::new();
    let acct = create_token_account(&mut l, LENDER, MINT);
    mint_to(&mut l, acct, u64::MAX).unwrap();
    let r = mint_to(&mut l, acct, 1);
    assert_eq!(r, Err(ErrorCode::MathError));
    assert_eq!(l.accounts[acct].balance, u64::MAX);
}

#[test]
fn place_bid_opens_active_bid() {
    let (mut l, market, lender_acct, _) = setup();
    let bid = place_bid(
        &mut l,
        PlaceBid { lender: LENDER, market, lender_token_account: lender_acct },
        5_000,
        300,
        99,
    )
    .unwrap();
    assert_eq!(bid, 0);
    let b = &l.bids[bid];
    assert_eq!(b.lender, LENDER);
    assert_eq!(b.amount, 5_000);
    assert_eq!(b.rate_bps, 300);
    assert_eq!(b.filled_amount, 0);
    assert!(b.is_active);
    assert!(!b.cancelled);
    assert_eq!(b.created_at, 99);
    assert_eq!(l.accounts[lender_acct].balance, 995_000);
    let vault_acct = l.vaults[l.markets[market].vault].token_account;
    assert_eq!(l.accounts[vault_acct].balance, 5_000);
}

#[test]
fn place_bid_wrong_mint_rejected() {
    let (mut l, market, _, _) = setup();
    let odd_acct = create_token_account(&mut l, LENDER, 123);
    mint_to(&mut l, odd_acct, 10_000).unwrap();
    let r = place_bid(
        &mut l,
        PlaceBid { lender: LENDER, market, lender_token_account: odd_acct },
        1_000,
        300,
        0,
    );
    assert_eq!(r, Err(ErrorCode::InvalidTokenMint));
    assert_eq!(l.bids.len(), 0);
    assert_eq!(l.accounts[odd_acct].balance, 10_000);
}

#[test]
fn place_bid_unowned_account_rejected() {
    let (mut l, market, _, borrower_acct) = setup();
    let r = place_bid(
        &mut l,
        PlaceBid { lender: LENDER, market, lender_token_account: borrower_acct },
        1_000,
        300,
        0,
    );
    assert_eq!(r, Err(ErrorCode::UnauthorizedBorrower));
    assert_eq!(l.bids.len(), 0);
}

#[test]
fn place_bid_insufficient_funds_rejected() {
    let (mut l, market, lender_acct, _) = setup();
    let r = place_bid(
        &mut l,
        PlaceBid { lender: LENDER, market, lender_token_account: lender_acct },
        1_000_001,
        300,
        0,
    );
    assert_eq!(r, Err(ErrorCode::MathError));
    assert_eq!(l.bids.len(), 0);
    assert_eq!(l.accounts[lender_acct].balance, 1_000_000);
}

#[test]
fn borrow_partial_keeps_bid_active() {
    let (mut l, market, lender_acct, borrower_acct) = setup();
    let bid = place_bid(
        &mut l,
        PlaceBid { lender: LENDER, market, lender_token_account: lender_acct },
        5_000,
        300,
        0,
    )
    .unwrap();
    let loan = borrow(
        &mut l,
        Borrow { borrower: BORROWER, borrower_token_account: borrower_acct, bid_order: bid },
        2_000,
        7,
    )
    .unwrap();
    assert_eq!(loan, 0);
    assert_eq!(l.bids[bid].filled_amount, 2_000);
    assert!(l.bids[bid].is_active);
    let rec = &l.loans[loan];
    assert_eq!(rec.borrower, BORROWER);
    assert_eq!(rec.principal, 2_000);
    assert_eq!(rec.rate_bps, 300);
    assert_eq!(rec.source_bid, bid);
    assert_eq!(rec.start_time, 7);
    assert!(!rec.repaid);
    assert_eq!(l.accounts[borrower_acct].balance, 502_000);
}

#[test]
fn borrow_exact_remainder_deactivates_bid() {
    let (mut l, market, lender_acct, borrower_acct) = setup();
    let bid = place_bid(
        &mut l,
        PlaceBid { lender: LENDER, market, lender_token_account: lender_acct },
        5_000,
        300,
        0,
    )
    .unwrap();
    borrow(
        &mut l,
        Borrow { borrower: BORROWER, borrower_token_account: borrower_acct, bid_order: bid },
        2_000,
        0,
    )
    .unwrap();
    // exactly amount - filled_amount
    borrow(
        &mut l,
        Borrow { borrower: BORROWER, borrower_token_account: borrower_acct, bid_order: bid },
        3_000,
        0,
    )
    .unwrap();
    assert_eq!(l.bids[bid].filled_amount, 5_000);
    assert!(!l.bids[bid].is_active);
}

#[test]
fn borrow_over_remainder_rejected() {
    let (mut l, market, lender_acct, borrower_acct) = setup();
    let bid = place_bid(
        &mut l,
        PlaceBid { lender: LENDER, market, lender_token_account: lender_acct },
        5_000,
        300,
        0,
    )
    .unwrap();
    borrow(
        &mut l,
        Borrow { borrower: BORROWER, borrower_token_account: borrower_acct, bid_order: bid },
        2_000,
        0,
    )
    .unwrap();
    // one more than amount - filled_amount
    let r = borrow(
        &mut l,
        Borrow { borrower: BORROWER, borrower_token_account: borrower_acct, bid_order: bid },
        3_001,
        0,
    );
    assert_eq!(r, Err(ErrorCode::InsufficientBidLiquidity));
    assert_eq!(l.bids[bid].filled_amount, 2_000);
    assert_eq!(l.loans.len(), 1);
}

#[test]
fn borrow_inactive_bid_rejected() {
    let (mut l, market, lender_acct, borrower_acct) = setup();
    let bid = place_bid(
        &mut l,
        PlaceBid { lender: LENDER, market, lender_token_account: lender_acct },
        1_000,
        500,
        0,
    )
    .unwrap();
    borrow(
        &mut l,
        Borrow { borrower: BORROWER, borrower_token_account: borrower_acct, bid_order: bid },
        1_000,
        0,
    )
    .unwrap();
    let r = borrow(
        &mut l,
        Borrow { borrower: BORROWER, borrower_token_account: borrower_acct, bid_order: bid },
        1,
        0,
    );
    assert_eq!(r, Err(ErrorCode::BidInactive));
}

#[test]
fn borrow_wrong_mint_rejected() {
    let (mut l, market, lender_acct, _) = setup();
    let bid = place_bid(
        &mut l,
        PlaceBid { lender: LENDER, market, lender_token_account: lender_acct },
        5_000,
        300,
        0,
    )
    .unwrap();
    let odd_acct = create_token_account(&mut l, BORROWER, 123);
    let r = borrow(
        &mut l,
        Borrow { borrower: BORROWER, borrower_token_account: odd_acct, bid_order: bid },
        1_000,
        0,
    );
    assert_eq!(r, Err(ErrorCode::InvalidTokenMint));
    assert_eq!(l.loans.len(), 0);
}

#[test]
fn repay_round_trip_restores_bid() {
    let (mut l, market, lender_acct, borrower_acct) = setup();
    let bid = place_bid(
        &mut l,
        PlaceBid { lender: LENDER, market, lender_token_account: lender_acct },
        1_000,
        500,
        0,
    )
    .unwrap();
    let loan = borrow(
        &mut l,
        Borrow { borrower: BORROWER, borrower_token_account: borrower_acct, bid_order: bid },
        1_000,
        0,
    )
    .unwrap();
    assert_eq!(l.bids[bid].filled_amount, 1_000);
    assert!(!l.bids[bid].is_active);
    repay(
        &mut l,
        Repay { borrower: BORROWER, borrower_token_account: borrower_acct, borrow_record: loan },
    )
    .unwrap();
    assert!(l.loans[loan].repaid);
    assert_eq!(l.bids[bid].filled_amount, 0);
    assert!(l.bids[bid].is_active);
}

#[test]
fn repay_twice_rejected() {
    let (mut l, market, lender_acct, borrower_acct) = setup();
    let bid = place_bid(
        &mut l,
        PlaceBid { lender: LENDER, market, lender_token_account: lender_acct },
        1_000,
        500,
        0,
    )
    .unwrap();
    let loan = borrow(
        &mut l,
        Borrow { borrower: BORROWER, borrower_token_account: borrower_acct, bid_order: bid },
        400,
        0,
    )
    .unwrap();
    let args =
        Repay { borrower: BORROWER, borrower_token_account: borrower_acct, borrow_record: loan };
    repay(&mut l, args).unwrap();
    let r = repay(&mut l, args);
    assert_eq!(r, Err(ErrorCode::AlreadyRepaid));
    assert!(l.loans[loan].repaid);
}

#[test]
fn repay_wrong_caller_rejected() {
    let (mut l, market, lender_acct, borrower_acct) = setup();
    let bid = place_bid(
        &mut l,
        PlaceBid { lender: LENDER, market, lender_token_account: lender_acct },
        1_000,
        500,
        0,
    )
    .unwrap();
    let loan = borrow(
        &mut l,
        Borrow { borrower: BORROWER, borrower_token_account: borrower_acct, bid_order: bid },
        400,
        0,
    )
    .unwrap();
    let r = repay(
        &mut l,
        Repay { borrower: LENDER, borrower_token_account: lender_acct, borrow_record: loan },
    );
    assert_eq!(r, Err(ErrorCode::UnauthorizedBorrower));
    assert!(!l.loans[loan].repaid);
}

#[test]
fn cancel_returns_unfilled_and_closes_bid() {
    let (mut l, market, lender_acct, borrower_acct) = setup();
    let bid = place_bid(
        &mut l,
        PlaceBid { lender: LENDER, market, lender_token_account: lender_acct },
        5_000,
        300,
        0,
    )
    .unwrap();
    borrow(
        &mut l,
        Borrow { borrower: BORROWER, borrower_token_account: borrower_acct, bid_order: bid },
        2_000,
        0,
    )
    .unwrap();
    cancel_bid(
        &mut l,
        CancelBid { lender: LENDER, lender_token_account: lender_acct, bid_order: bid },
    )
    .unwrap();
    // 5_000 deposited, 3_000 unfilled returned
    assert_eq!(l.accounts[lender_acct].balance, 998_000);
    assert_eq!(l.bids[bid].filled_amount, 5_000);
    assert!(!l.bids[bid].is_active);
    assert!(l.bids[bid].cancelled);
}

#[test]
fn cancel_twice_rejected() {
    let (mut l, market, lender_acct, _) = setup();
    let bid = place_bid(
        &mut l,
        PlaceBid { lender: LENDER, market, lender_token_account: lender_acct },
        5_000,
        300,
        0,
    )
    .unwrap();
    let args = CancelBid { lender: LENDER, lender_token_account: lender_acct, bid_order: bid };
    cancel_bid(&mut l, args).unwrap();
    let r = cancel_bid(&mut l, args);
    assert_eq!(r, Err(ErrorCode::BidInactive));
    assert!(l.bids[bid].cancelled);
}

#[test]
fn cancel_wrong_lender_rejected() {
    let (mut l, market, lender_acct, borrower_acct) = setup();
    let bid = place_bid(
        &mut l,
        PlaceBid { lender: LENDER, market, lender_token_account: lender_acct },
        5_000,
        300,
        0,
    )
    .unwrap();
    let r = cancel_bid(
        &mut l,
        CancelBid { lender: BORROWER, lender_token_account: borrower_acct, bid_order: bid },
    );
    assert_eq!(r, Err(ErrorCode::UnauthorizedBorrower));
    assert!(l.bids[bid].is_active);
}

#[test]
fn cancel_fully_filled_bid_rejected() {
    let (mut l, market, lender_acct, borrower_acct) = setup();
    let bid = place_bid(
        &mut l,
        PlaceBid { lender: LENDER, market, lender_token_account: lender_acct },
        1_000,
        500,
        0,
    )
    .unwrap();
    borrow(
        &mut l,
        Borrow { borrower: BORROWER, borrower_token_account: borrower_acct, bid_order: bid },
        1_000,
        0,
    )
    .unwrap();
    // fully filled, hence already inactive
    let r = cancel_bid(
        &mut l,
        CancelBid { lender: LENDER, lender_token_account: lender_acct, bid_order: bid },
    );
    assert_eq!(r, Err(ErrorCode::BidInactive));
}
