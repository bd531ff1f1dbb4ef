//! A lender withdraws a bid's unfilled liquidity from the vault and
//! closes the bid for good. A cancelled bid is never reused or
//! reactivated; it is retained as an immutable historical record.

use crate::errors::ErrorCode;
use crate::ledger::{move_balance, Ledger, LedgerView};
use crate::state::{BidOrder, TokenAccount};
use crate::sums::{bid_term, lemma_bid_term_le_outstanding, lemma_outstanding_update};
use vstd::prelude::*;

verus! {

/// What the lender names to cancel a bid: itself, its receiving token
/// account, and the bid to close.
#[derive(Clone, Copy, Debug, PartialEq, Eq, Structural)]
pub struct CancelBid {
    pub lender: u64,
    pub lender_token_account: usize,
    pub bid_order: usize,
}

/// A cancellation is accepted exactly when the caller is the bid's
/// lender receiving into its own account under the market's mint, the
/// bid is still active with unfilled liquidity, and the refund fits the
/// receiving balance.
pub open spec fn cancel_bid_accepted(s: LedgerView, a: CancelBid) -> bool {
    let b = s.bids[a.bid_order as int];
    let dst = s.accounts[a.lender_token_account as int];
    &&& b.lender == a.lender
    &&& !dst.is_custody
    &&& dst.owner == a.lender
    &&& dst.mint == s.markets[b.market as int].token_mint
    &&& b.is_active
    &&& b.filled_amount < b.amount
    &&& dst.balance + (b.amount - b.filled_amount) <= u64::MAX
}

/// The error a rejected cancellation surfaces: the first failed check,
/// in the order the transition validates them. (Under the ledger
/// invariant an active bid always has unfilled liquidity, so the
/// `NoFundsToWithdraw` arm is defensive: a fully filled bid is already
/// inactive and rejected as `BidInactive`.)
pub open spec fn cancel_bid_error(s: LedgerView, a: CancelBid) -> ErrorCode {
    let b = s.bids[a.bid_order as int];
    let dst = s.accounts[a.lender_token_account as int];
    if b.lender != a.lender || dst.is_custody || dst.owner != a.lender {
        ErrorCode::UnauthorizedBorrower
    } else if dst.mint != s.markets[b.market as int].token_mint {
        ErrorCode::InvalidTokenMint
    } else if !b.is_active {
        ErrorCode::BidInactive
    } else if b.filled_amount >= b.amount {
        ErrorCode::NoFundsToWithdraw
    } else {
        ErrorCode::MathError
    }
}

/// The ledger after a successful cancellation: the unfilled amount moved
/// from custody back to the lender, and the bid forced to fully filled,
/// inactive and permanently cancelled.
pub open spec fn cancel_bid_next(s: LedgerView, a: CancelBid) -> LedgerView {
    let i = a.bid_order as int;
    let b = s.bids[i];
    let dst = a.lender_token_account as int;
    let va = s.vault_account_of(b.market as int);
    let unfilled = b.amount - b.filled_amount;
    LedgerView {
        markets: s.markets,
        vaults: s.vaults,
        accounts: s.accounts.update(
            va,
            (TokenAccount {
                balance: (s.accounts[va].balance - unfilled) as u64,
                ..s.accounts[va]
            }),
        ).update(
            dst,
            (TokenAccount {
                balance: (s.accounts[dst].balance + unfilled) as u64,
                ..s.accounts[dst]
            }),
        ),
        bids: s.bids.update(
            i,
            (BidOrder { filled_amount: b.amount, is_active: false, cancelled: true, ..b }),
        ),
        loans: s.loans,
    }
}

proof fn lemma_cancel_bid_wf(s: LedgerView, a: CancelBid)
    requires
        s.wf(),
        a.bid_order < s.bids.len(),
        a.lender_token_account < s.accounts.len(),
        cancel_bid_accepted(s, a),
    ensures
        cancel_bid_next(s, a).wf(),
{
    let t = cancel_bid_next(s, a);
    let i = a.bid_order as int;
    let b = s.bids[i];
    let dst = a.lender_token_account as int;
    assert(s.bid_ok(i));
    assert(s.market_ok(b.market as int));
    assert(s.vault_ok(s.markets[b.market as int].vault as int));
    let va = s.vault_account_of(b.market as int);
    assert(s.conserved(b.market as int));
    assert forall|k: int|
        0 <= k < s.bids.len() implies (#[trigger] s.bids[k]).filled_amount
        <= s.bids[k].amount by {
        assert(s.bid_ok(k));
    }
    lemma_bid_term_le_outstanding(s.bids, i, b.market as int);
    assert(s.accounts[va].balance >= b.amount - b.filled_amount);
    assert forall|m: int| 0 <= m < t.markets.len() implies #[trigger] t.market_ok(m) by {
        assert(s.market_ok(m));
    }
    assert forall|v: int| 0 <= v < t.vaults.len() implies #[trigger] t.vault_ok(v) by {
        assert(s.vault_ok(v));
    }
    assert forall|k: int| 0 <= k < t.bids.len() implies #[trigger] t.bid_ok(k) by {
        assert(s.bid_ok(k));
    }
    assert forall|k: int| 0 <= k < t.loans.len() implies #[trigger] t.loan_ok(k) by {
        assert(s.loan_ok(k));
    }
    assert forall|m: int| 0 <= m < t.markets.len() implies #[trigger] t.conserved(m) by {
        assert(s.market_ok(m));
        assert(s.vault_ok(s.markets[m].vault as int));
        assert(s.conserved(m));
        lemma_outstanding_update(s.bids, i, t.bids[i], m);
        let vam = s.vault_account_of(m);
        assert(t.vault_account_of(m) == vam);
        if m == b.market as int {
            assert(t.accounts[vam].balance == s.accounts[vam].balance - (b.amount
                - b.filled_amount));
            assert(bid_term(t.bids[i], m) == 0);
        } else {
            assert(s.markets[m].vault != s.markets[b.market as int].vault);
            assert(vam != va);
            assert(vam != dst);
            assert(t.accounts[vam] == s.accounts[vam]);
            assert(bid_term(t.bids[i], m) == 0 && bid_term(b, m) == 0);
        }
    }
}

/// Cancels the named bid: moves its unfilled amount from the vault's
/// custody account (authorized by the vault itself) back to the lender,
/// then forces the bid to fully filled, inactive and cancelled — a state
/// it never leaves. When the delegated transfer fails, nothing is
/// committed.
pub fn cancel_bid(l: &mut Ledger, a: CancelBid) -> (r: Result<(), ErrorCode>)
    requires
        old(l)@.wf(),
        a.bid_order < old(l)@.bids.len(),
        a.lender_token_account < old(l)@.accounts.len(),
    ensures
        final(l)@.wf(),
        (r is Ok) == cancel_bid_accepted(old(l)@, a),
        r is Ok ==> final(l)@ == cancel_bid_next(old(l)@, a),
        r is Err ==> final(l)@ == old(l)@ && r->Err_0 == cancel_bid_error(old(l)@, a),
{
    proof {
        assert(old(l)@.bid_ok(a.bid_order as int));
        assert(old(l)@.market_ok(old(l)@.bids[a.bid_order as int].market as int));
        assert(old(l)@.vault_ok(
            old(l)@.markets[old(l)@.bids[a.bid_order as int].market as int].vault as int,
        ));
    }
    let b = l.bids[a.bid_order];
    if b.lender != a.lender {
        return Err(ErrorCode::UnauthorizedBorrower);
    }
    let dst = l.accounts[a.lender_token_account];
    if dst.is_custody || dst.owner != a.lender {
        return Err(ErrorCode::UnauthorizedBorrower);
    }
    if dst.mint != l.markets[b.market].token_mint {
        return Err(ErrorCode::InvalidTokenMint);
    }
    if !b.is_active {
        return Err(ErrorCode::BidInactive);
    }
    let unfilled = b.amount - b.filled_amount;
    if unfilled == 0 {
        return Err(ErrorCode::NoFundsToWithdraw);
    }
    let vault_acct = l.vaults[l.markets[b.market].vault].token_account;
    proof {
        assert(old(l)@.conserved(b.market as int));
        assert forall|k: int|
            0 <= k < old(l)@.bids.len() implies (#[trigger] old(l)@.bids[k]).filled_amount
            <= old(l)@.bids[k].amount by {
            assert(old(l)@.bid_ok(k));
        }
        lemma_bid_term_le_outstanding(old(l)@.bids, a.bid_order as int, b.market as int);
    }
    match move_balance(l, vault_acct, a.lender_token_account, unfilled) {
        Err(e) => {
            return Err(e);
        },
        Ok(()) => {},
    }
    let mut nb = b;
    nb.filled_amount = b.amount;
    nb.is_active = false;
    nb.cancelled = true;
    l.bids[a.bid_order] = nb;
    proof {
        lemma_cancel_bid_wf(old(l)@, a);
        assert(l@ =~= cancel_bid_next(old(l)@, a));
    }
    Ok(())
}

} // verus!
