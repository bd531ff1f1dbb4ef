//! Summation helpers for the ledger's accounting invariants: the total
//! liquidity a market's bids still hold in the vault, and the total
//! principal of the unrepaid loans drawn against one bid.

use crate::state::{BidOrder, BorrowRecord};
use vstd::prelude::*;

verus! {

/// What bid `b` contributes to market `m`'s vault balance: its deposited
/// but not lent-out (or withdrawn) amount.
pub open spec fn bid_term(b: BidOrder, m: int) -> int {
    if b.market as int == m {
        b.amount - b.filled_amount
    } else {
        0
    }
}

/// Sum of `bid_term` over the first `n` bids.
pub open spec fn outstanding_through(bids: Seq<BidOrder>, m: int, n: int) -> int
    decreases n,
{
    if n <= 0 {
        0
    } else {
        outstanding_through(bids, m, n - 1) + bid_term(bids[n - 1], m)
    }
}

/// Total unfilled amount of market `m`'s bids, cancelled ones included:
/// exactly what the market's vault custody account holds.
pub open spec fn outstanding(bids: Seq<BidOrder>, m: int) -> int {
    outstanding_through(bids, m, bids.len() as int)
}

/// What loan `r` contributes to the outstanding principal drawn against
/// bid `b`.
pub open spec fn loan_term(r: BorrowRecord, b: int) -> int {
    if r.source_bid as int == b && !r.repaid {
        r.principal as int
    } else {
        0
    }
}

/// Sum of `loan_term` over the first `n` loans.
pub open spec fn unrepaid_through(loans: Seq<BorrowRecord>, b: int, n: int) -> int
    decreases n,
{
    if n <= 0 {
        0
    } else {
        unrepaid_through(loans, b, n - 1) + loan_term(loans[n - 1], b)
    }
}

/// Total principal of the unrepaid loans drawn against bid `b`.
pub open spec fn unrepaid_for_bid(loans: Seq<BorrowRecord>, b: int) -> int {
    unrepaid_through(loans, b, loans.len() as int)
}

/// Prefix sums only read the elements below `n`, so two sequences that
/// agree there have the same sum.
proof fn lemma_outstanding_through_agree(s1: Seq<BidOrder>, s2: Seq<BidOrder>, m: int, n: int)
    requires
        n <= s1.len(),
        n <= s2.len(),
        forall|k: int| 0 <= k < n ==> s1[k] == s2[k],
    ensures
        outstanding_through(s1, m, n) == outstanding_through(s2, m, n),
    decreases n,
{
    if n > 0 {
        lemma_outstanding_through_agree(s1, s2, m, n - 1);
    }
}

/// Appending a bid adds exactly its own term to a market's sum.
pub proof fn lemma_outstanding_push(s: Seq<BidOrder>, b: BidOrder, m: int)
    ensures
        outstanding(s.push(b), m) == outstanding(s, m) + bid_term(b, m),
{
    lemma_outstanding_through_agree(s.push(b), s, m, s.len() as int);
}

proof fn lemma_outstanding_through_update(s: Seq<BidOrder>, i: int, b: BidOrder, m: int, n: int)
    requires
        0 <= i < n <= s.len(),
    ensures
        outstanding_through(s.update(i, b), m, n) == outstanding_through(s, m, n) - bid_term(
            s[i],
            m,
        ) + bid_term(b, m),
    decreases n,
{
    if n == i + 1 {
        lemma_outstanding_through_agree(s.update(i, b), s, m, i);
    } else {
        lemma_outstanding_through_update(s, i, b, m, n - 1);
    }
}

/// Replacing one bid shifts a market's sum by the difference of the two
/// terms.
pub proof fn lemma_outstanding_update(s: Seq<BidOrder>, i: int, b: BidOrder, m: int)
    requires
        0 <= i < s.len(),
    ensures
        outstanding(s.update(i, b), m) == outstanding(s, m) - bid_term(s[i], m) + bid_term(b, m),
{
    lemma_outstanding_through_update(s, i, b, m, s.len() as int);
}

proof fn lemma_outstanding_through_bounds(s: Seq<BidOrder>, i: int, m: int, n: int)
    requires
        0 <= i < s.len(),
        n <= s.len(),
        forall|k: int| 0 <= k < s.len() ==> s[k].filled_amount <= s[k].amount,
    ensures
        0 <= outstanding_through(s, m, n),
        i < n ==> bid_term(s[i], m) <= outstanding_through(s, m, n),
    decreases n,
{
    if n > 0 {
        lemma_outstanding_through_bounds(s, i, m, n - 1);
    }
}

/// With every bid's fill below its amount, all terms are nonnegative, so
/// one bid's term never exceeds its market's whole sum.
pub proof fn lemma_bid_term_le_outstanding(s: Seq<BidOrder>, i: int, m: int)
    requires
        0 <= i < s.len(),
        forall|k: int| 0 <= k < s.len() ==> s[k].filled_amount <= s[k].amount,
    ensures
        bid_term(s[i], m) <= outstanding(s, m),
        0 <= outstanding(s, m),
{
    lemma_outstanding_through_bounds(s, i, m, s.len() as int);
}

proof fn lemma_outstanding_through_absent(s: Seq<BidOrder>, m: int, n: int)
    requires
        n <= s.len(),
        forall|k: int| 0 <= k < s.len() ==> s[k].market as int != m,
    ensures
        outstanding_through(s, m, n) == 0,
    decreases n,
{
    if n > 0 {
        lemma_outstanding_through_absent(s, m, n - 1);
    }
}

/// A market no bid belongs to has nothing outstanding.
pub proof fn lemma_outstanding_absent(s: Seq<BidOrder>, m: int)
    requires
        forall|k: int| 0 <= k < s.len() ==> s[k].market as int != m,
    ensures
        outstanding(s, m) == 0,
{
    lemma_outstanding_through_absent(s, m, s.len() as int);
}

/// What bid `b` contributes to market `m`'s vault while still open for
/// matching.
pub open spec fn active_unfilled_term(b: BidOrder, m: int) -> int {
    if b.market as int == m && b.is_active {
        b.amount - b.filled_amount
    } else {
        0
    }
}

/// Sum of `active_unfilled_term` over the first `n` bids.
pub open spec fn active_unfilled_through(bids: Seq<BidOrder>, m: int, n: int) -> int
    decreases n,
{
    if n <= 0 {
        0
    } else {
        active_unfilled_through(bids, m, n - 1) + active_unfilled_term(bids[n - 1], m)
    }
}

/// Total unfilled amount of market `m`'s active bids.
pub open spec fn active_unfilled(bids: Seq<BidOrder>, m: int) -> int {
    active_unfilled_through(bids, m, bids.len() as int)
}

/// What bid `b` leaves stranded in market `m`'s vault after being
/// cancelled: principal repaid into the vault after the lender already
/// withdrew the bid's unfilled amount.
pub open spec fn cancelled_leftover_term(b: BidOrder, m: int) -> int {
    if b.market as int == m && b.cancelled {
        b.amount - b.filled_amount
    } else {
        0
    }
}

/// Sum of `cancelled_leftover_term` over the first `n` bids.
pub open spec fn cancelled_leftover_through(bids: Seq<BidOrder>, m: int, n: int) -> int
    decreases n,
{
    if n <= 0 {
        0
    } else {
        cancelled_leftover_through(bids, m, n - 1) + cancelled_leftover_term(bids[n - 1], m)
    }
}

/// Total amount stranded in market `m`'s vault by cancelled bids.
pub open spec fn cancelled_leftover(bids: Seq<BidOrder>, m: int) -> int {
    cancelled_leftover_through(bids, m, bids.len() as int)
}

proof fn lemma_outstanding_through_split(s: Seq<BidOrder>, m: int, n: int)
    requires
        n <= s.len(),
        forall|k: int|
            0 <= k < s.len() ==> (#[trigger] s[k]).is_active == (s[k].filled_amount < s[k].amount
                && !s[k].cancelled),
        forall|k: int| 0 <= k < s.len() ==> (#[trigger] s[k]).filled_amount <= s[k].amount,
    ensures
        outstanding_through(s, m, n) == active_unfilled_through(s, m, n)
            + cancelled_leftover_through(s, m, n),
    decreases n,
{
    if n > 0 {
        lemma_outstanding_through_split(s, m, n - 1);
    }
}

/// Every bid is active, fully filled, or cancelled, so a market's
/// outstanding sum splits into its active bids' unfilled amounts plus
/// what its cancelled bids left stranded.
pub proof fn lemma_outstanding_split(s: Seq<BidOrder>, m: int)
    requires
        forall|k: int|
            0 <= k < s.len() ==> (#[trigger] s[k]).is_active == (s[k].filled_amount < s[k].amount
                && !s[k].cancelled),
        forall|k: int| 0 <= k < s.len() ==> (#[trigger] s[k]).filled_amount <= s[k].amount,
    ensures
        outstanding(s, m) == active_unfilled(s, m) + cancelled_leftover(s, m),
{
    lemma_outstanding_through_split(s, m, s.len() as int);
}

proof fn lemma_unrepaid_through_agree(s1: Seq<BorrowRecord>, s2: Seq<BorrowRecord>, b: int, n: int)
    requires
        n <= s1.len(),
        n <= s2.len(),
        forall|k: int| 0 <= k < n ==> s1[k] == s2[k],
    ensures
        unrepaid_through(s1, b, n) == unrepaid_through(s2, b, n),
    decreases n,
{
    if n > 0 {
        lemma_unrepaid_through_agree(s1, s2, b, n - 1);
    }
}

/// Appending a loan adds exactly its own term to a bid's drawn sum.
pub proof fn lemma_unrepaid_push(s: Seq<BorrowRecord>, r: BorrowRecord, b: int)
    ensures
        unrepaid_for_bid(s.push(r), b) == unrepaid_for_bid(s, b) + loan_term(r, b),
{
    lemma_unrepaid_through_agree(s.push(r), s, b, s.len() as int);
}

proof fn lemma_unrepaid_through_update(s: Seq<BorrowRecord>, j: int, r: BorrowRecord, b: int, n: int)
    requires
        0 <= j < n <= s.len(),
    ensures
        unrepaid_through(s.update(j, r), b, n) == unrepaid_through(s, b, n) - loan_term(s[j], b)
            + loan_term(r, b),
    decreases n,
{
    if n == j + 1 {
        lemma_unrepaid_through_agree(s.update(j, r), s, b, j);
    } else {
        lemma_unrepaid_through_update(s, j, r, b, n - 1);
    }
}

/// Replacing one loan shifts a bid's drawn sum by the difference of the
/// two terms.
pub proof fn lemma_unrepaid_update(s: Seq<BorrowRecord>, j: int, r: BorrowRecord, b: int)
    requires
        0 <= j < s.len(),
    ensures
        unrepaid_for_bid(s.update(j, r), b) == unrepaid_for_bid(s, b) - loan_term(s[j], b)
            + loan_term(r, b),
{
    lemma_unrepaid_through_update(s, j, r, b, s.len() as int);
}

proof fn lemma_unrepaid_through_bounds(s: Seq<BorrowRecord>, j: int, b: int, n: int)
    requires
        0 <= j < s.len(),
        n <= s.len(),
    ensures
        0 <= unrepaid_through(s, b, n),
        j < n ==> loan_term(s[j], b) <= unrepaid_through(s, b, n),
    decreases n,
{
    if n > 0 {
        lemma_unrepaid_through_bounds(s, j, b, n - 1);
    }
}

/// Loan terms are nonnegative, so one loan's term never exceeds its bid's
/// whole drawn sum.
pub proof fn lemma_loan_term_le_unrepaid(s: Seq<BorrowRecord>, j: int, b: int)
    requires
        0 <= j < s.len(),
    ensures
        loan_term(s[j], b) <= unrepaid_for_bid(s, b),
        0 <= unrepaid_for_bid(s, b),
{
    lemma_unrepaid_through_bounds(s, j, b, s.len() as int);
}

proof fn lemma_unrepaid_through_absent(s: Seq<BorrowRecord>, b: int, n: int)
    requires
        n <= s.len(),
        forall|k: int| 0 <= k < s.len() ==> s[k].source_bid as int != b,
    ensures
        unrepaid_through(s, b, n) == 0,
    decreases n,
{
    if n > 0 {
        lemma_unrepaid_through_absent(s, b, n - 1);
    }
}

/// A bid no loan was drawn against has nothing unrepaid.
pub proof fn lemma_unrepaid_absent(s: Seq<BorrowRecord>, b: int)
    requires
        forall|k: int| 0 <= k < s.len() ==> s[k].source_bid as int != b,
    ensures
        unrepaid_for_bid(s, b) == 0,
{
    lemma_unrepaid_through_absent(s, b, s.len() as int);
}

} // verus!
