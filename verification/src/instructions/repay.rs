//! A borrower returns a loan's full principal into the vault. The loan
//! closes permanently; the freed amount lowers the source bid's fill and
//! reactivates the bid — unless the lender has cancelled it, in which
//! case it stays closed for good.

use crate::errors::ErrorCode;
use crate::ledger::{move_balance, Ledger, LedgerView};
use crate::state::{BidOrder, BorrowRecord, TokenAccount};
use crate::sums::{
    bid_term, lemma_loan_term_le_unrepaid, lemma_outstanding_update, lemma_unrepaid_update,
    loan_term,
};
use vstd::prelude::*;

verus! {

/// What the borrower names to repay: itself, its paying token account,
/// and the loan record to close. The bid the loan was drawn against is
/// looked up through the record itself.
#[derive(Clone, Copy, Debug, PartialEq, Eq, Structural)]
pub struct Repay {
    pub borrower: u64,
    pub borrower_token_account: usize,
    pub borrow_record: usize,
}

/// A repayment is accepted exactly when the caller is the loan's
/// borrower paying from its own account under the market's mint, the
/// loan is still open, the account covers the principal, and the vault
/// balance can take it back.
pub open spec fn repay_accepted(s: LedgerView, a: Repay) -> bool {
    let r = s.loans[a.borrow_record as int];
    let src = s.accounts[a.borrower_token_account as int];
    &&& r.borrower == a.borrower
    &&& !src.is_custody
    &&& src.owner == a.borrower
    &&& src.mint == s.markets[r.market as int].token_mint
    &&& !r.repaid
    &&& r.principal <= src.balance
    &&& s.accounts[s.vault_account_of(r.market as int)].balance + r.principal <= u64::MAX
}

/// The error a rejected repayment surfaces: the first failed check, in
/// the order the transition validates them.
pub open spec fn repay_error(s: LedgerView, a: Repay) -> ErrorCode {
    let r = s.loans[a.borrow_record as int];
    let src = s.accounts[a.borrower_token_account as int];
    if r.borrower != a.borrower || src.is_custody || src.owner != a.borrower {
        ErrorCode::UnauthorizedBorrower
    } else if src.mint != s.markets[r.market as int].token_mint {
        ErrorCode::InvalidTokenMint
    } else if r.repaid {
        ErrorCode::AlreadyRepaid
    } else {
        ErrorCode::MathError
    }
}

/// The ledger after a successful repayment: the principal moved back
/// into custody, the loan marked repaid, the bid's fill lowered by the
/// principal, and the bid active again exactly when capacity is free and
/// it was never cancelled.
pub open spec fn repay_next(s: LedgerView, a: Repay) -> LedgerView {
    let j = a.borrow_record as int;
    let r = s.loans[j];
    let i = r.source_bid as int;
    let b = s.bids[i];
    let src = a.borrower_token_account as int;
    let va = s.vault_account_of(r.market as int);
    LedgerView {
        markets: s.markets,
        vaults: s.vaults,
        accounts: s.accounts.update(
            src,
            (TokenAccount {
                balance: (s.accounts[src].balance - r.principal) as u64,
                ..s.accounts[src]
            }),
        ).update(
            va,
            (TokenAccount {
                balance: (s.accounts[va].balance + r.principal) as u64,
                ..s.accounts[va]
            }),
        ),
        bids: s.bids.update(
            i,
            (BidOrder {
                filled_amount: (b.filled_amount - r.principal) as u64,
                is_active: b.filled_amount - r.principal < b.amount && !b.cancelled,
                ..b
            }),
        ),
        loans: s.loans.update(j, (BorrowRecord { repaid: true, ..r })),
    }
}

proof fn lemma_repay_wf(s: LedgerView, a: Repay)
    requires
        s.wf(),
        a.borrow_record < s.loans.len(),
        a.borrower_token_account < s.accounts.len(),
        repay_accepted(s, a),
    ensures
        repay_next(s, a).wf(),
{
    let t = repay_next(s, a);
    let j = a.borrow_record as int;
    let r = s.loans[j];
    let i = r.source_bid as int;
    let b = s.bids[i];
    let nr = BorrowRecord { repaid: true, ..r };
    let src = a.borrower_token_account as int;
    assert(s.loan_ok(j));
    assert(s.bid_ok(i));
    assert(s.market_ok(b.market as int));
    assert(s.vault_ok(s.markets[b.market as int].vault as int));
    let va = s.vault_account_of(b.market as int);
    // The open loan's principal is covered by the bid's fill, so the
    // fill's decrease cannot underflow.
    lemma_loan_term_le_unrepaid(s.loans, j, i);
    assert(loan_term(r, i) == r.principal);
    assert(r.principal <= b.filled_amount);
    assert forall|m: int| 0 <= m < t.markets.len() implies #[trigger] t.market_ok(m) by {
        assert(s.market_ok(m));
    }
    assert forall|v: int| 0 <= v < t.vaults.len() implies #[trigger] t.vault_ok(v) by {
        assert(s.vault_ok(v));
    }
    assert forall|k: int| 0 <= k < t.bids.len() implies #[trigger] t.bid_ok(k) by {
        assert(s.bid_ok(k));
        lemma_unrepaid_update(s.loans, j, nr, k);
        if k != i {
            assert(loan_term(r, k) == 0 && loan_term(nr, k) == 0);
        }
    }
    assert forall|k: int| 0 <= k < t.loans.len() implies #[trigger] t.loan_ok(k) by {
        assert(s.loan_ok(k));
    }
    assert forall|m: int| 0 <= m < t.markets.len() implies #[trigger] t.conserved(m) by {
        assert(s.market_ok(m));
        assert(s.vault_ok(s.markets[m].vault as int));
        assert(s.conserved(m));
        lemma_outstanding_update(s.bids, i, t.bids[i], m);
        let vam = s.vault_account_of(m);
        assert(t.vault_account_of(m) == vam);
        if m == b.market as int {
            assert(t.accounts[vam].balance == s.accounts[vam].balance + r.principal);
            assert(bid_term(t.bids[i], m) == bid_term(b, m) + r.principal);
        } else {
            assert(s.markets[m].vault != s.markets[b.market as int].vault);
            assert(vam != va);
            assert(vam != src);
            assert(t.accounts[vam] == s.accounts[vam]);
            assert(bid_term(t.bids[i], m) == 0 && bid_term(b, m) == 0);
        }
    }
}

/// Repays the named loan in full: moves exactly the principal from the
/// borrower's account back into the vault's custody account, marks the
/// loan repaid — it never reopens — and frees the matched capacity on the
/// source bid, reactivating it only if it was never cancelled. When the
/// delegated transfer fails, nothing is committed.
pub fn repay(l: &mut Ledger, a: Repay) -> (r: Result<(), ErrorCode>)
    requires
        old(l)@.wf(),
        a.borrow_record < old(l)@.loans.len(),
        a.borrower_token_account < old(l)@.accounts.len(),
    ensures
        final(l)@.wf(),
        (r is Ok) == repay_accepted(old(l)@, a),
        r is Ok ==> final(l)@ == repay_next(old(l)@, a),
        r is Err ==> final(l)@ == old(l)@ && r->Err_0 == repay_error(old(l)@, a),
        forall|k: int|
            0 <= k < old(l)@.loans.len() && (#[trigger] old(l)@.loans[k]).repaid
                ==> final(l)@.loans[k].repaid,
{
    proof {
        assert(old(l)@.loan_ok(a.borrow_record as int));
        assert(old(l)@.bid_ok(old(l)@.loans[a.borrow_record as int].source_bid as int));
        assert(old(l)@.market_ok(old(l)@.loans[a.borrow_record as int].market as int));
        assert(old(l)@.vault_ok(
            old(l)@.markets[old(l)@.loans[a.borrow_record as int].market as int].vault as int,
        ));
    }
    let rec = l.loans[a.borrow_record];
    if rec.borrower != a.borrower {
        return Err(ErrorCode::UnauthorizedBorrower);
    }
    let src = l.accounts[a.borrower_token_account];
    if src.is_custody || src.owner != a.borrower {
        return Err(ErrorCode::UnauthorizedBorrower);
    }
    if src.mint != l.markets[rec.market].token_mint {
        return Err(ErrorCode::InvalidTokenMint);
    }
    if rec.repaid {
        return Err(ErrorCode::AlreadyRepaid);
    }
    let vault_acct = l.vaults[l.markets[rec.market].vault].token_account;
    match move_balance(l, a.borrower_token_account, vault_acct, rec.principal) {
        Err(e) => {
            return Err(e);
        },
        Ok(()) => {},
    }
    proof {
        lemma_loan_term_le_unrepaid(old(l)@.loans, a.borrow_record as int, rec.source_bid as int);
    }
    let b = l.bids[rec.source_bid];
    let nf = b.filled_amount - rec.principal;
    let mut nb = b;
    nb.filled_amount = nf;
    nb.is_active = nf < b.amount && !b.cancelled;
    l.bids[rec.source_bid] = nb;
    let mut nr = rec;
    nr.repaid = true;
    l.loans[a.borrow_record] = nr;
    proof {
        lemma_repay_wf(old(l)@, a);
        assert(l@ =~= repay_next(old(l)@, a));
    }
    Ok(())
}

} // verus!
