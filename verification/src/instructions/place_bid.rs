//! A lender deposits `amount` into the market's vault and registers a new
//! bid order at a fixed rate. The deposit is locked in the vault until
//! the bid is filled or cancelled.

use crate::errors::ErrorCode;
use crate::ledger::{move_balance, Ledger, LedgerView};
use crate::state::{BidOrder, TokenAccount};
use crate::sums::{bid_term, lemma_outstanding_push, lemma_unrepaid_absent};
use vstd::prelude::*;

verus! {

/// What the lender names to place a bid: itself, the market, and its own
/// token account paying the deposit.
#[derive(Clone, Copy, Debug, PartialEq, Eq, Structural)]
pub struct PlaceBid {
    pub lender: u64,
    pub market: usize,
    pub lender_token_account: usize,
}

/// The bid record a successful `place_bid` creates: unfilled, active, not
/// cancelled.
pub open spec fn place_bid_new_bid(a: PlaceBid, amount: u64, rate_bps: u16, now: i64) -> BidOrder {
    BidOrder {
        lender: a.lender,
        market: a.market,
        amount,
        rate_bps,
        filled_amount: 0,
        is_active: true,
        cancelled: false,
        created_at: now,
    }
}

/// A bid is accepted exactly when the paying account is the lender's own
/// (never a custody account), carries the market's mint, holds the
/// deposit, and the vault balance can take it.
pub open spec fn place_bid_accepted(s: LedgerView, a: PlaceBid, amount: u64) -> bool {
    let src = s.accounts[a.lender_token_account as int];
    &&& !src.is_custody
    &&& src.owner == a.lender
    &&& src.mint == s.markets[a.market as int].token_mint
    &&& amount <= src.balance
    &&& s.accounts[s.vault_account_of(a.market as int)].balance + amount <= u64::MAX
}

/// The error a rejected bid surfaces: the first failed check, in the
/// order the transition validates them.
pub open spec fn place_bid_error(s: LedgerView, a: PlaceBid, amount: u64) -> ErrorCode {
    let src = s.accounts[a.lender_token_account as int];
    if src.is_custody || src.owner != a.lender {
        ErrorCode::UnauthorizedBorrower
    } else if src.mint != s.markets[a.market as int].token_mint {
        ErrorCode::InvalidTokenMint
    } else {
        ErrorCode::MathError
    }
}

/// The ledger after a successful bid: the deposit moved from the lender's
/// account into the market's custody account, and the new bid appended.
pub open spec fn place_bid_next(
    s: LedgerView,
    a: PlaceBid,
    amount: u64,
    rate_bps: u16,
    now: i64,
) -> LedgerView {
    let src = a.lender_token_account as int;
    let va = s.vault_account_of(a.market as int);
    LedgerView {
        markets: s.markets,
        vaults: s.vaults,
        accounts: s.accounts.update(
            src,
            (TokenAccount {
                balance: (s.accounts[src].balance - amount) as u64,
                ..s.accounts[src]
            }),
        ).update(
            va,
            (TokenAccount { balance: (s.accounts[va].balance + amount) as u64, ..s.accounts[va] }),
        ),
        bids: s.bids.push(place_bid_new_bid(a, amount, rate_bps, now)),
        loans: s.loans,
    }
}

proof fn lemma_place_bid_wf(s: LedgerView, a: PlaceBid, amount: u64, rate_bps: u16, now: i64)
    requires
        s.wf(),
        amount > 0,
        a.market < s.markets.len(),
        a.lender_token_account < s.accounts.len(),
        place_bid_accepted(s, a, amount),
    ensures
        place_bid_next(s, a, amount, rate_bps, now).wf(),
{
    let t = place_bid_next(s, a, amount, rate_bps, now);
    let nb = place_bid_new_bid(a, amount, rate_bps, now);
    let src = a.lender_token_account as int;
    let va = s.vault_account_of(a.market as int);
    assert(s.market_ok(a.market as int));
    assert(s.vault_ok(s.markets[a.market as int].vault as int));
    assert forall|m: int| 0 <= m < t.markets.len() implies #[trigger] t.market_ok(m) by {
        assert(s.market_ok(m));
    }
    assert forall|v: int| 0 <= v < t.vaults.len() implies #[trigger] t.vault_ok(v) by {
        assert(s.vault_ok(v));
    }
    assert forall|i: int| 0 <= i < t.bids.len() implies #[trigger] t.bid_ok(i) by {
        if i < s.bids.len() {
            assert(s.bid_ok(i));
        } else {
            assert forall|k: int|
                0 <= k < s.loans.len() implies (#[trigger] s.loans[k]).source_bid as int != i by {
                assert(s.loan_ok(k));
            }
            lemma_unrepaid_absent(s.loans, i);
        }
    }
    assert forall|j: int| 0 <= j < t.loans.len() implies #[trigger] t.loan_ok(j) by {
        assert(s.loan_ok(j));
    }
    assert forall|m: int| 0 <= m < t.markets.len() implies #[trigger] t.conserved(m) by {
        assert(s.market_ok(m));
        assert(s.vault_ok(s.markets[m].vault as int));
        assert(s.conserved(m));
        lemma_outstanding_push(s.bids, nb, m);
        let vam = s.vault_account_of(m);
        assert(t.vault_account_of(m) == vam);
        if m == a.market as int {
            assert(t.accounts[vam].balance == s.accounts[vam].balance + amount);
            assert(bid_term(nb, m) == amount);
        } else {
            assert(s.markets[m].vault != s.markets[a.market as int].vault);
            assert(vam != va);
            assert(vam != src);
            assert(t.accounts[vam] == s.accounts[vam]);
            assert(bid_term(nb, m) == 0);
        }
    }
}

/// Places a bid: moves `amount` of the market's mint from the lender's
/// account into the vault's custody account, then appends a fresh active
/// bid at `rate_bps`, timestamped `now`, and returns its index. When the
/// delegated transfer fails, nothing is committed.
pub fn place_bid(l: &mut Ledger, a: PlaceBid, amount: u64, rate_bps: u16, now: i64) -> (r: Result<
    usize,
    ErrorCode,
>)
    requires
        old(l)@.wf(),
        amount > 0,
        a.market < old(l)@.markets.len(),
        a.lender_token_account < old(l)@.accounts.len(),
    ensures
        final(l)@.wf(),
        (r is Ok) == place_bid_accepted(old(l)@, a, amount),
        r is Ok ==> r->Ok_0 == old(l)@.bids.len() && final(l)@ == place_bid_next(
            old(l)@,
            a,
            amount,
            rate_bps,
            now,
        ),
        r is Err ==> final(l)@ == old(l)@ && r->Err_0 == place_bid_error(old(l)@, a, amount),
{
    proof {
        assert(old(l)@.market_ok(a.market as int));
        assert(old(l)@.vault_ok(old(l)@.markets[a.market as int].vault as int));
    }
    let src = l.accounts[a.lender_token_account];
    if src.is_custody || src.owner != a.lender {
        return Err(ErrorCode::UnauthorizedBorrower);
    }
    if src.mint != l.markets[a.market].token_mint {
        return Err(ErrorCode::InvalidTokenMint);
    }
    let vault_acct = l.vaults[l.markets[a.market].vault].token_account;
    match move_balance(l, a.lender_token_account, vault_acct, amount) {
        Err(e) => {
            return Err(e);
        },
        Ok(()) => {},
    }
    let idx = l.bids.len();
    l.bids.push(
        BidOrder {
            lender: a.lender,
            market: a.market,
            amount,
            rate_bps,
            filled_amount: 0,
            is_active: true,
            cancelled: false,
            created_at: now,
        },
    );
    proof {
        lemma_place_bid_wf(old(l)@, a, amount, rate_bps, now);
        assert(l@ =~= place_bid_next(old(l)@, a, amount, rate_bps, now));
    }
    Ok(idx)
}

} // verus!
