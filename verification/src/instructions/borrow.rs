//! A borrower draws a loan from the vault against one caller-chosen
//! active bid. The transition matches a single bid — selecting the
//! cheapest eligible bid is the caller's responsibility — transfers the
//! amount out of custody, raises the bid's fill, and records the loan.

use crate::errors::ErrorCode;
use crate::ledger::{move_balance, Ledger, LedgerView};
use crate::state::{BidOrder, BorrowRecord, TokenAccount};
use crate::sums::{
    bid_term, lemma_bid_term_le_outstanding, lemma_outstanding_update, lemma_unrepaid_push,
    loan_term,
};
use vstd::prelude::*;

verus! {

/// What the borrower names to draw a loan: itself, its receiving token
/// account, and the bid to match against.
#[derive(Clone, Copy, Debug, PartialEq, Eq, Structural)]
pub struct Borrow {
    pub borrower: u64,
    pub borrower_token_account: usize,
    pub bid_order: usize,
}

/// A borrow is accepted exactly when the bid is active with enough
/// unfilled liquidity, the receiving account is the borrower's own under
/// the market's mint, and its balance can take the amount.
pub open spec fn borrow_accepted(s: LedgerView, a: Borrow, amount: u64) -> bool {
    let b = s.bids[a.bid_order as int];
    let dst = s.accounts[a.borrower_token_account as int];
    &&& b.is_active
    &&& amount <= b.amount - b.filled_amount
    &&& !dst.is_custody
    &&& dst.owner == a.borrower
    &&& dst.mint == s.markets[b.market as int].token_mint
    &&& dst.balance + amount <= u64::MAX
}

/// The error a rejected borrow surfaces: the first failed check, in the
/// order the transition validates them.
pub open spec fn borrow_error(s: LedgerView, a: Borrow, amount: u64) -> ErrorCode {
    let b = s.bids[a.bid_order as int];
    let dst = s.accounts[a.borrower_token_account as int];
    if !b.is_active {
        ErrorCode::BidInactive
    } else if !(amount <= b.amount - b.filled_amount) {
        ErrorCode::InsufficientBidLiquidity
    } else if dst.is_custody || dst.owner != a.borrower {
        ErrorCode::UnauthorizedBorrower
    } else if dst.mint != s.markets[b.market as int].token_mint {
        ErrorCode::InvalidTokenMint
    } else {
        ErrorCode::MathError
    }
}

/// The loan record a successful borrow creates: the bid's rate at funding
/// time, not yet repaid.
pub open spec fn borrow_new_loan(s: LedgerView, a: Borrow, amount: u64, now: i64) -> BorrowRecord {
    let b = s.bids[a.bid_order as int];
    BorrowRecord {
        borrower: a.borrower,
        market: b.market,
        source_bid: a.bid_order,
        principal: amount,
        rate_bps: b.rate_bps,
        start_time: now,
        repaid: false,
    }
}

/// The ledger after a successful borrow: the amount moved from custody to
/// the borrower, the bid's fill raised (deactivating it when fully
/// filled), and the new loan appended.
pub open spec fn borrow_next(s: LedgerView, a: Borrow, amount: u64, now: i64) -> LedgerView {
    let i = a.bid_order as int;
    let b = s.bids[i];
    let dst = a.borrower_token_account as int;
    let va = s.vault_account_of(b.market as int);
    LedgerView {
        markets: s.markets,
        vaults: s.vaults,
        accounts: s.accounts.update(
            va,
            (TokenAccount { balance: (s.accounts[va].balance - amount) as u64, ..s.accounts[va] }),
        ).update(
            dst,
            (TokenAccount {
                balance: (s.accounts[dst].balance + amount) as u64,
                ..s.accounts[dst]
            }),
        ),
        bids: s.bids.update(
            i,
            (BidOrder {
                filled_amount: (b.filled_amount + amount) as u64,
                is_active: b.filled_amount + amount < b.amount,
                ..b
            }),
        ),
        loans: s.loans.push(borrow_new_loan(s, a, amount, now)),
    }
}

proof fn lemma_borrow_wf(s: LedgerView, a: Borrow, amount: u64, now: i64)
    requires
        s.wf(),
        a.bid_order < s.bids.len(),
        a.borrower_token_account < s.accounts.len(),
        borrow_accepted(s, a, amount),
    ensures
        borrow_next(s, a, amount, now).wf(),
{
    let t = borrow_next(s, a, amount, now);
    let i = a.bid_order as int;
    let b = s.bids[i];
    let nl = borrow_new_loan(s, a, amount, now);
    let dst = a.borrower_token_account as int;
    assert(s.bid_ok(i));
    assert(s.market_ok(b.market as int));
    assert(s.vault_ok(s.markets[b.market as int].vault as int));
    let va = s.vault_account_of(b.market as int);
    assert(s.conserved(b.market as int));
    assert forall|k: int|
        0 <= k < s.bids.len() implies (#[trigger] s.bids[k]).filled_amount
        <= s.bids[k].amount by {
        assert(s.bid_ok(k));
    }
    lemma_bid_term_le_outstanding(s.bids, i, b.market as int);
    assert(s.accounts[va].balance >= amount);
    assert forall|m: int| 0 <= m < t.markets.len() implies #[trigger] t.market_ok(m) by {
        assert(s.market_ok(m));
    }
    assert forall|v: int| 0 <= v < t.vaults.len() implies #[trigger] t.vault_ok(v) by {
        assert(s.vault_ok(v));
    }
    assert forall|k: int| 0 <= k < t.bids.len() implies #[trigger] t.bid_ok(k) by {
        assert(s.bid_ok(k));
        lemma_unrepaid_push(s.loans, nl, k);
        if k != i {
            assert(loan_term(nl, k) == 0);
        }
    }
    assert forall|j: int| 0 <= j < t.loans.len() implies #[trigger] t.loan_ok(j) by {
        if j < s.loans.len() {
            assert(s.loan_ok(j));
        }
    }
    assert forall|m: int| 0 <= m < t.markets.len() implies #[trigger] t.conserved(m) by {
        assert(s.market_ok(m));
        assert(s.vault_ok(s.markets[m].vault as int));
        assert(s.conserved(m));
        lemma_outstanding_update(s.bids, i, t.bids[i], m);
        let vam = s.vault_account_of(m);
        assert(t.vault_account_of(m) == vam);
        if m == b.market as int {
            assert(t.accounts[vam].balance == s.accounts[vam].balance - amount);
            assert(bid_term(t.bids[i], m) == bid_term(b, m) - amount);
        } else {
            assert(s.markets[m].vault != s.markets[b.market as int].vault);
            assert(vam != va);
            assert(vam != dst);
            assert(t.accounts[vam] == s.accounts[vam]);
            assert(bid_term(t.bids[i], m) == 0 && bid_term(b, m) == 0);
        }
    }
}

/// Draws `borrow_amount` against the named bid: moves the amount from the
/// vault's custody account (the one transfer the vault itself authorizes)
/// to the borrower, raises the bid's fill — deactivating the bid once
/// fully filled — and appends a loan record timestamped `now`, returning
/// its index. When the delegated transfer fails, nothing is committed.
pub fn borrow(l: &mut Ledger, a: Borrow, borrow_amount: u64, now: i64) -> (r: Result<
    usize,
    ErrorCode,
>)
    requires
        old(l)@.wf(),
        borrow_amount > 0,
        a.bid_order < old(l)@.bids.len(),
        a.borrower_token_account < old(l)@.accounts.len(),
    ensures
        final(l)@.wf(),
        (r is Ok) == borrow_accepted(old(l)@, a, borrow_amount),
        r is Ok ==> r->Ok_0 == old(l)@.loans.len() && final(l)@ == borrow_next(
            old(l)@,
            a,
            borrow_amount,
            now,
        ),
        r is Err ==> final(l)@ == old(l)@ && r->Err_0 == borrow_error(old(l)@, a, borrow_amount),
{
    proof {
        assert(old(l)@.bid_ok(a.bid_order as int));
        assert(old(l)@.market_ok(old(l)@.bids[a.bid_order as int].market as int));
        assert(old(l)@.vault_ok(
            old(l)@.markets[old(l)@.bids[a.bid_order as int].market as int].vault as int,
        ));
    }
    let b = l.bids[a.bid_order];
    if !b.is_active {
        return Err(ErrorCode::BidInactive);
    }
    if borrow_amount > b.amount - b.filled_amount {
        return Err(ErrorCode::InsufficientBidLiquidity);
    }
    let dst = l.accounts[a.borrower_token_account];
    if dst.is_custody || dst.owner != a.borrower {
        return Err(ErrorCode::UnauthorizedBorrower);
    }
    if dst.mint != l.markets[b.market].token_mint {
        return Err(ErrorCode::InvalidTokenMint);
    }
    let vault_acct = l.vaults[l.markets[b.market].vault].token_account;
    proof {
        // The conservation law guarantees the vault can cover the draw:
        // its balance is the whole market's outstanding sum, and this
        // bid's unfilled amount alone is one term of it.
        assert(old(l)@.conserved(b.market as int));
        assert forall|k: int|
            0 <= k < old(l)@.bids.len() implies (#[trigger] old(l)@.bids[k]).filled_amount
            <= old(l)@.bids[k].amount by {
            assert(old(l)@.bid_ok(k));
        }
        lemma_bid_term_le_outstanding(old(l)@.bids, a.bid_order as int, b.market as int);
    }
    match move_balance(l, vault_acct, a.borrower_token_account, borrow_amount) {
        Err(e) => {
            return Err(e);
        },
        Ok(()) => {},
    }
    let nf = b.filled_amount + borrow_amount;
    let mut nb = b;
    nb.filled_amount = nf;
    if nf >= b.amount {
        nb.is_active = false;
    }
    l.bids[a.bid_order] = nb;
    let loan_idx = l.loans.len();
    l.loans.push(
        BorrowRecord {
            borrower: a.borrower,
            market: b.market,
            source_bid: a.bid_order,
            principal: borrow_amount,
            rate_bps: b.rate_bps,
            start_time: now,
            repaid: false,
        },
    );
    proof {
        lemma_borrow_wf(old(l)@, a, borrow_amount, now);
        assert(l@ =~= borrow_next(old(l)@, a, borrow_amount, now));
    }
    Ok(loan_idx)
}

} // verus!
