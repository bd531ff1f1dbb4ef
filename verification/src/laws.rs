//! The library's laws: what holds of every well-formed ledger and of
//! every pair of consecutive transitions, stated over the same spec
//! functions the transitions' own contracts use.

use crate::errors::ErrorCode;
use crate::instructions::borrow::{borrow_accepted, borrow_error, borrow_next};
use crate::instructions::cancel_bid::{cancel_bid_accepted, cancel_bid_error, cancel_bid_next};
use crate::instructions::place_bid::{place_bid_accepted, place_bid_next};
use crate::instructions::repay::{repay_accepted, repay_error, repay_next};
use crate::instructions::{Borrow, CancelBid, PlaceBid, Repay};
use crate::ledger::LedgerView;
use crate::sums::{
    active_unfilled, cancelled_leftover, lemma_outstanding_split, outstanding, unrepaid_for_bid,
};
use vstd::prelude::*;

verus! {

/// A bid's fill never leaves `0 <= filled_amount <= amount` in a
/// well-formed ledger.
pub proof fn lemma_bid_fill_bounded(s: LedgerView, i: int)
    requires
        s.wf(),
        0 <= i < s.bids.len(),
    ensures
        0 <= s.bids[i].filled_amount <= s.bids[i].amount,
{
    assert(s.bid_ok(i));
}

/// `repaid` is monotonic: a loan once repaid stays repaid across a
/// repayment of any loan. (The other transitions never touch an
/// existing loan record at all; their contracts say so exactly.)
pub proof fn lemma_repaid_monotonic(s: LedgerView, a: Repay, j: int)
    requires
        a.borrow_record < s.loans.len(),
        0 <= j < s.loans.len(),
        s.loans[j].repaid,
    ensures
        repay_next(s, a).loans[j].repaid,
{
}

/// The custody conservation law, restated from the ledger invariant: at
/// every quiescent point a market's vault balance equals the sum of its
/// bids' deposited-but-not-lent-out amounts.
pub proof fn lemma_vault_conservation(s: LedgerView, m: int)
    requires
        s.wf(),
        0 <= m < s.markets.len(),
    ensures
        s.accounts[s.vault_account_of(m)].balance == outstanding(s.bids, m),
{
    assert(s.conserved(m));
}

/// The conservation law split by bid state: the vault holds its active
/// bids' unfilled amounts plus what cancelled bids left stranded —
/// fully filled uncancelled bids contribute nothing.
pub proof fn lemma_vault_balance_decomposition(s: LedgerView, m: int)
    requires
        s.wf(),
        0 <= m < s.markets.len(),
    ensures
        s.accounts[s.vault_account_of(m)].balance == active_unfilled(s.bids, m)
            + cancelled_leftover(s.bids, m),
{
    assert(s.conserved(m));
    assert forall|k: int|
        0 <= k < s.bids.len() implies (#[trigger] s.bids[k]).is_active == (
    s.bids[k].filled_amount < s.bids[k].amount && !s.bids[k].cancelled)
        && s.bids[k].filled_amount <= s.bids[k].amount by {
        assert(s.bid_ok(k));
    }
    lemma_outstanding_split(s.bids, m);
}

/// Cancelling a bid closes it permanently: a second cancellation of the
/// same bid is rejected, with `BidInactive`.
pub proof fn lemma_cancel_bid_twice_rejected(s: LedgerView, a: CancelBid)
    requires
        s.wf(),
        a.bid_order < s.bids.len(),
        a.lender_token_account < s.accounts.len(),
        cancel_bid_accepted(s, a),
    ensures
        !cancel_bid_accepted(cancel_bid_next(s, a), a),
        cancel_bid_error(cancel_bid_next(s, a), a) == ErrorCode::BidInactive,
{
    let t = cancel_bid_next(s, a);
    let b = s.bids[a.bid_order as int];
    assert(s.bid_ok(a.bid_order as int));
    assert(s.market_ok(b.market as int));
    assert(s.vault_ok(s.markets[b.market as int].vault as int));
    assert(s.vault_account_of(b.market as int) != a.lender_token_account as int);
    assert(!t.bids[a.bid_order as int].is_active);
    assert(t.accounts[a.lender_token_account as int].owner == a.lender);
}

/// Repaying a loan closes it permanently: a second repayment of the
/// same loan is rejected, with `AlreadyRepaid`.
pub proof fn lemma_repay_twice_rejected(s: LedgerView, a: Repay)
    requires
        s.wf(),
        a.borrow_record < s.loans.len(),
        a.borrower_token_account < s.accounts.len(),
        repay_accepted(s, a),
    ensures
        !repay_accepted(repay_next(s, a), a),
        repay_error(repay_next(s, a), a) == ErrorCode::AlreadyRepaid,
{
    let t = repay_next(s, a);
    let r = s.loans[a.borrow_record as int];
    assert(s.loan_ok(a.borrow_record as int));
    assert(s.bid_ok(r.source_bid as int));
    assert(s.market_ok(r.market as int));
    assert(s.vault_ok(s.markets[r.market as int].vault as int));
    assert(s.vault_account_of(r.market as int) != a.borrower_token_account as int);
    assert(t.loans[a.borrow_record as int].repaid);
    assert(t.accounts[a.borrower_token_account as int].owner == a.borrower);
}

/// A cancelled bid never comes back: it stays cancelled and inactive
/// through any repayment — the freed capacity is not re-offered.
pub proof fn lemma_cancelled_bid_stays_closed(s: LedgerView, a: Repay, i: int)
    requires
        s.wf(),
        0 <= i < s.bids.len(),
        s.bids[i].cancelled,
        a.borrow_record < s.loans.len(),
    ensures
        !s.bids[i].is_active,
        repay_next(s, a).bids[i].cancelled,
        !repay_next(s, a).bids[i].is_active,
{
    assert(s.bid_ok(i));
    assert(s.loan_ok(a.borrow_record as int));
    assert(s.bid_ok(s.loans[a.borrow_record as int].source_bid as int));
}

/// Asking for one unit more than a bid's unfilled amount is rejected
/// with `InsufficientBidLiquidity`.
pub proof fn lemma_borrow_over_limit_rejected(s: LedgerView, a: Borrow, amount: u64)
    requires
        s.wf(),
        a.bid_order < s.bids.len(),
        s.bids[a.bid_order as int].is_active,
        amount > s.bids[a.bid_order as int].amount - s.bids[a.bid_order as int].filled_amount,
    ensures
        !borrow_accepted(s, a, amount),
        borrow_error(s, a, amount) == ErrorCode::InsufficientBidLiquidity,
{
}

/// Borrowing exactly a bid's unfilled amount succeeds (when accepted at
/// all) and leaves the bid fully filled and inactive.
pub proof fn lemma_borrow_exact_fill_deactivates(s: LedgerView, a: Borrow, amount: u64, now: i64)
    requires
        s.wf(),
        a.bid_order < s.bids.len(),
        a.borrower_token_account < s.accounts.len(),
        borrow_accepted(s, a, amount),
        amount == s.bids[a.bid_order as int].amount - s.bids[a.bid_order as int].filled_amount,
    ensures
        borrow_next(s, a, amount, now).bids[a.bid_order as int].filled_amount == s.bids[
            a.bid_order as int
        ].amount,
        !borrow_next(s, a, amount, now).bids[a.bid_order as int].is_active,
{
    assert(s.bid_ok(a.bid_order as int));
}

/// The round trip: a fresh bid borrowed in full is fully filled and
/// inactive; repaying that loan restores the bid to unfilled and active.
pub proof fn lemma_place_borrow_repay_round_trip(
    s: LedgerView,
    pa: PlaceBid,
    amount: u64,
    rate_bps: u16,
    t0: i64,
    ba: Borrow,
    t1: i64,
    ra: Repay,
)
    requires
        s.wf(),
        amount > 0,
        pa.market < s.markets.len(),
        pa.lender_token_account < s.accounts.len(),
        place_bid_accepted(s, pa, amount),
        ba.bid_order == s.bids.len(),
        ba.borrower_token_account < s.accounts.len(),
        borrow_accepted(place_bid_next(s, pa, amount, rate_bps, t0), ba, amount),
        ra.borrow_record == s.loans.len(),
        ra.borrower_token_account < s.accounts.len(),
        repay_accepted(
            borrow_next(place_bid_next(s, pa, amount, rate_bps, t0), ba, amount, t1),
            ra,
        ),
    ensures
        ({
            let filled = borrow_next(
                place_bid_next(s, pa, amount, rate_bps, t0),
                ba,
                amount,
                t1,
            ).bids[ba.bid_order as int];
            filled.filled_amount == amount && !filled.is_active
        }),
        ({
            let restored = repay_next(
                borrow_next(place_bid_next(s, pa, amount, rate_bps, t0), ba, amount, t1),
                ra,
            ).bids[ba.bid_order as int];
            restored.filled_amount == 0 && restored.is_active
        }),
{
    let s1 = place_bid_next(s, pa, amount, rate_bps, t0);
    let s2 = borrow_next(s1, ba, amount, t1);
    let i = ba.bid_order as int;
    assert(s1.bids[i].filled_amount == 0 && s1.bids[i].amount == amount);
    assert(s2.bids[i].filled_amount == amount && !s2.bids[i].is_active);
    assert(s2.loans[ra.borrow_record as int].principal == amount);
    assert(s2.loans[ra.borrow_record as int].source_bid as int == i);
}

/// Every open loan is covered: in a well-formed ledger the principal
/// still drawn against a bid never exceeds the bid's fill.
pub proof fn lemma_drawn_principal_covered(s: LedgerView, i: int)
    requires
        s.wf(),
        0 <= i < s.bids.len(),
    ensures
        unrepaid_for_bid(s.loans, i) <= s.bids[i].filled_amount,
{
    assert(s.bid_ok(i));
}

} // verus!
