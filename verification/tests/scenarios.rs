use openrate::{
    borrow, cancel_bid, create_token_account, initialize_market, mint_to, place_bid, repay,
    Borrow, CancelBid, InitializeMarket, Ledger, PlaceBid, Repay,
};

const MINT: u64 = 7;
const LENDER: u64 = 100;
const BORROWER: u64 = 200;

fn setup() -> (Ledger, usize, usize, usize) {
    let mut l = Ledger::new();
    let market = initialize_market(&mut l, InitializeMarket { authority: 9, token_mint: MINT })
        .unwrap();
    let lender_acct = create_token_account(&mut l, LENDER, MINT);
    mint_to(&mut l, lender_acct, 100_000).unwrap();
    let borrower_acct = create_token_account(&mut l, BORROWER, MINT);
    mint_to(&mut l, borrower_acct, 100_000).unwrap();
    (l, market, lender_acct, borrower_acct)
}

fn vault_balance(l: &Ledger, market: usize) -> u64 {
    l.accounts[l.vaults[l.markets[market].vault].token_account].balance
}

/// The sum the conservation law ties the vault balance to: every bid's
/// deposited-but-not-lent-out amount, cancelled bids included.
fn outstanding_sum(l: &Ledger, market: usize) -> u64 {
    let mut sum: u64 = 0;
    for b in &l.bids {
        if b.market == market {
            sum += b.amount - b.filled_amount;
        }
    }
    sum
}

#[test]
fn market_lifecycle_scenario() {
    let (mut l, market, lender_acct, borrower_acct) = setup();

    // lender places a bid of 5000 at 300 bps
    let bid = place_bid(
        &mut l,
        PlaceBid { lender: LENDER, market, lender_token_account: lender_acct },
        5_000,
        300,
        1,
    )
    .unwrap();
    assert_eq!(vault_balance(&l, market), 5_000);

    // borrower draws 2000: bid partially filled, still active
    let loan0 = borrow(
        &mut l,
        Borrow { borrower: BORROWER, borrower_token_account: borrower_acct, bid_order: bid },
        2_000,
        2,
    )
    .unwrap();
    assert_eq!(l.bids[bid].filled_amount, 2_000);
    assert!(l.bids[bid].is_active);
    assert_eq!(vault_balance(&l, market), 3_000);

    // borrower draws the remaining 3000: bid fully filled, inactive
    borrow(
        &mut l,
        Borrow { borrower: BORROWER, borrower_token_account: borrower_acct, bid_order: bid },
        3_000,
        3,
    )
    .unwrap();
    assert_eq!(l.bids[bid].filled_amount, 5_000);
    assert!(!l.bids[bid].is_active);
    assert_eq!(vault_balance(&l, market), 0);

    // borrower repays the first loan: bid frees 2000 and reactivates
    repay(
        &mut l,
        Repay { borrower: BORROWER, borrower_token_account: borrower_acct, borrow_record: loan0 },
    )
    .unwrap();
    assert!(l.loans[loan0].repaid);
    assert_eq!(l.bids[bid].filled_amount, 3_000);
    assert!(l.bids[bid].is_active);
    assert_eq!(vault_balance(&l, market), 2_000);

    // lender cancels: the unfilled 2000 comes back, bid closes for good
    cancel_bid(
        &mut l,
        CancelBid { lender: LENDER, lender_token_account: lender_acct, bid_order: bid },
    )
    .unwrap();
    assert_eq!(l.accounts[lender_acct].balance, 97_000);
    assert_eq!(l.bids[bid].filled_amount, 5_000);
    assert!(!l.bids[bid].is_active);
    assert!(l.bids[bid].cancelled);
    assert_eq!(vault_balance(&l, market), 0);
}

#[test]
fn vault_conservation_at_quiescent_points() {
    let (mut l, market, lender_acct, borrower_acct) = setup();
    assert_eq!(vault_balance(&l, market), outstanding_sum(&l, market));

    let bid0 = place_bid(
        &mut l,
        PlaceBid { lender: LENDER, market, lender_token_account: lender_acct },
        5_000,
        300,
        0,
    )
    .unwrap();
    assert_eq!(vault_balance(&l, market), outstanding_sum(&l, market));

    let bid1 = place_bid(
        &mut l,
        PlaceBid { lender: LENDER, market, lender_token_account: lender_acct },
        2_500,
        450,
        0,
    )
    .unwrap();
    assert_eq!(vault_balance(&l, market), outstanding_sum(&l, market));

    let loan = borrow(
        &mut l,
        Borrow { borrower: BORROWER, borrower_token_account: borrower_acct, bid_order: bid0 },
        4_000,
        0,
    )
    .unwrap();
    assert_eq!(vault_balance(&l, market), outstanding_sum(&l, market));

    cancel_bid(
        &mut l,
        CancelBid { lender: LENDER, lender_token_account: lender_acct, bid_order: bid1 },
    )
    .unwrap();
    assert_eq!(vault_balance(&l, market), outstanding_sum(&l, market));

    repay(
        &mut l,
        Repay { borrower: BORROWER, borrower_token_account: borrower_acct, borrow_record: loan },
    )
    .unwrap();
    assert_eq!(vault_balance(&l, market), outstanding_sum(&l, market));
    assert_eq!(vault_balance(&l, market), 5_000);
}

#[test]
fn cancelled_bid_not_reactivated_by_late_repay() {
    let (mut l, market, lender_acct, borrower_acct) = setup();
    let bid = place_bid(
        &mut l,
        PlaceBid { lender: LENDER, market, lender_token_account: lender_acct },
        5_000,
        300,
        0,
    )
    .unwrap();
    let loan = borrow(
        &mut l,
        Borrow { borrower: BORROWER, borrower_token_account: borrower_acct, bid_order: bid },
        2_000,
        0,
    )
    .unwrap();
    cancel_bid(
        &mut l,
        CancelBid { lender: LENDER, lender_token_account: lender_acct, bid_order: bid },
    )
    .unwrap();
    assert_eq!(l.bids[bid].filled_amount, 5_000);

    // the outstanding loan is repaid after the cancellation: the freed
    // capacity lowers the fill, but the bid stays closed for good
    repay(
        &mut l,
        Repay { borrower: BORROWER, borrower_token_account: borrower_acct, borrow_record: loan },
    )
    .unwrap();
    assert!(l.loans[loan].repaid);
    assert_eq!(l.bids[bid].filled_amount, 3_000);
    assert!(!l.bids[bid].is_active);
    assert!(l.bids[bid].cancelled);
    // the repaid principal stays stranded in the vault
    assert_eq!(vault_balance(&l, market), 2_000);
    assert_eq!(vault_balance(&l, market), outstanding_sum(&l, market));
}

#[test]
fn repaid_flag_survives_later_transitions() {
    let (mut l, market, lender_acct, borrower_acct) = setup();
    let bid = place_bid(
        &mut l,
        PlaceBid { lender: LENDER, market, lender_token_account: lender_acct },
        3_000,
        250,
        0,
    )
    .unwrap();
    let loan = borrow(
        &mut l,
        Borrow { borrower: BORROWER, borrower_token_account: borrower_acct, bid_order: bid },
        1_000,
        0,
    )
    .unwrap();
    repay(
        &mut l,
        Repay { borrower: BORROWER, borrower_token_account: borrower_acct, borrow_record: loan },
    )
    .unwrap();
    assert!(l.loans[loan].repaid);

    // further activity never reverts the flag
    let loan1 = borrow(
        &mut l,
        Borrow { borrower: BORROWER, borrower_token_account: borrower_acct, bid_order: bid },
        500,
        0,
    )
    .unwrap();
    assert!(l.loans[loan].repaid);
    repay(
        &mut l,
        Repay { borrower: BORROWER, borrower_token_account: borrower_acct, borrow_record: loan1 },
    )
    .unwrap();
    assert!(l.loans[loan].repaid);
    cancel_bid(
        &mut l,
        CancelBid { lender: LENDER, lender_token_account: lender_acct, bid_order: bid },
    )
    .unwrap();
    assert!(l.loans[loan].repaid);
    assert!(l.loans[loan1].repaid);
}

#[test]
fn fill_stays_within_amount_across_lifecycle() {
    let (mut l, market, lender_acct, borrower_acct) = setup();
    let bid = place_bid(
        &mut l,
        PlaceBid { lender: LENDER, market, lender_token_account: lender_acct },
        4_000,
        100,
        0,
    )
    .unwrap();
    assert!(l.bids[bid].filled_amount <= l.bids[bid].amount);
    let loan = borrow(
        &mut l,
        Borrow { borrower: BORROWER, borrower_token_account: borrower_acct, bid_order: bid },
        4_000,
        0,
    )
    .unwrap();
    assert!(l.bids[bid].filled_amount <= l.bids[bid].amount);
    repay(
        &mut l,
        Repay { borrower: BORROWER, borrower_token_account: borrower_acct, borrow_record: loan },
    )
    .unwrap();
    assert!(l.bids[bid].filled_amount <= l.bids[bid].amount);
    cancel_bid(
        &mut l,
        CancelBid { lender: LENDER, lender_token_account: lender_acct, bid_order: bid },
    )
    .unwrap();
    assert!(l.bids[bid].filled_amount <= l.bids[bid].amount);
}
