//! Sets up a new lending market for one mint: the market record, its
//! vault, and the fresh custody account that will hold the market's
//! liquidity. No funds move.

use crate::errors::ErrorCode;
use crate::ledger::{derive_vault_authority, vault_authority_id, Ledger, LedgerView};
use crate::state::{Market, TokenAccount, Vault};
use crate::sums::lemma_outstanding_absent;
use vstd::prelude::*;

verus! {

/// What the caller names to initialize a market: itself, as the market's
/// authority, and the mint the market will trade.
#[derive(Clone, Copy, Debug, PartialEq, Eq, Structural)]
pub struct InitializeMarket {
    pub authority: u64,
    pub token_mint: u64,
}

/// An initialization is accepted exactly when no market trades this mint
/// yet.
pub open spec fn initialize_market_accepted(s: LedgerView, a: InitializeMarket) -> bool {
    forall|k: int|
        0 <= k < s.markets.len() ==> (#[trigger] s.markets[k]).token_mint != a.token_mint
}

/// The ledger after a successful initialization: a fresh custody account,
/// a fresh vault bound to it under the derived authority, and a fresh
/// market bound to the vault.
pub open spec fn initialize_market_next(s: LedgerView, a: InitializeMarket) -> LedgerView {
    let authority = vault_authority_id(s.markets.len() as usize);
    LedgerView {
        markets: s.markets.push(
            Market {
                authority: a.authority,
                token_mint: a.token_mint,
                vault: s.vaults.len() as usize,
            },
        ),
        vaults: s.vaults.push(
            Vault {
                authority,
                token_account: s.accounts.len() as usize,
                token_mint: a.token_mint,
            },
        ),
        accounts: s.accounts.push(
            TokenAccount { owner: authority, mint: a.token_mint, balance: 0, is_custody: true },
        ),
        bids: s.bids,
        loans: s.loans,
    }
}

/// Linear scan of the registry for a market trading `mint`.
fn mint_registered(markets: &Vec<Market>, mint: u64) -> (found: bool)
    ensures
        found == exists|k: int|
            0 <= k < markets@.len() && (#[trigger] markets@[k]).token_mint == mint,
{
    let n = markets.len();
    let mut k: usize = 0;
    while k < n
        invariant
            k <= n,
            n == markets@.len(),
            forall|t: int| 0 <= t < k ==> (#[trigger] markets@[t]).token_mint != mint,
        decreases n - k,
    {
        if markets[k].token_mint == mint {
            return true;
        }
        k = k + 1;
    }
    false
}

proof fn lemma_initialize_market_wf(s: LedgerView, a: InitializeMarket)
    requires
        s.wf(),
        initialize_market_accepted(s, a),
        s.markets.len() <= usize::MAX,
        s.vaults.len() <= usize::MAX,
        s.accounts.len() <= usize::MAX,
    ensures
        initialize_market_next(s, a).wf(),
{
    let t = initialize_market_next(s, a);
    let nm = s.markets.len() as int;
    assert forall|m: int| 0 <= m < t.markets.len() implies #[trigger] t.market_ok(m) by {
        if m < nm {
            assert(s.market_ok(m));
        }
    }
    assert forall|v: int| 0 <= v < t.vaults.len() implies #[trigger] t.vault_ok(v) by {
        if v < s.vaults.len() {
            assert(s.vault_ok(v));
        }
    }
    assert forall|i: int| 0 <= i < t.bids.len() implies #[trigger] t.bid_ok(i) by {
        assert(s.bid_ok(i));
    }
    assert forall|j: int| 0 <= j < t.loans.len() implies #[trigger] t.loan_ok(j) by {
        assert(s.loan_ok(j));
    }
    assert forall|m: int| 0 <= m < t.markets.len() implies #[trigger] t.conserved(m) by {
        if m < nm {
            assert(s.market_ok(m));
            assert(s.vault_ok(s.markets[m].vault as int));
            assert(s.conserved(m));
        } else {
            assert forall|k: int| 0 <= k < s.bids.len() implies (#[trigger] s.bids[k]).market as int
                != m by {
                assert(s.bid_ok(k));
            }
            lemma_outstanding_absent(s.bids, m);
        }
    }
    assert forall|i: int, j: int|
        0 <= i < t.markets.len() && 0 <= j < t.markets.len() && i != j implies (
    #[trigger] t.markets[i]).token_mint != (#[trigger] t.markets[j]).token_mint && t.markets[i].vault
        != t.markets[j].vault by {
        if i < nm && j < nm {
        } else if i < nm {
            assert(s.market_ok(i));
        } else {
            assert(s.market_ok(j));
        }
    }
    assert forall|i: int, j: int|
        0 <= i < t.vaults.len() && 0 <= j < t.vaults.len() && i != j implies (
    #[trigger] t.vaults[i]).token_account != (#[trigger] t.vaults[j]).token_account by {
        if i < s.vaults.len() && j < s.vaults.len() {
        } else if i < s.vaults.len() {
            assert(s.vault_ok(i));
        } else {
            assert(s.vault_ok(j));
        }
    }
}

/// Initializes a market for `a.token_mint` and returns the new market's
/// index, or rejects with `DuplicateMarket` when one already trades this
/// mint. Creates the market, its vault and its custody account; derives
/// the vault authority from the market's identity; moves no funds.
pub fn initialize_market(l: &mut Ledger, a: InitializeMarket) -> (r: Result<usize, ErrorCode>)
    requires
        old(l)@.wf(),
    ensures
        final(l)@.wf(),
        (r is Ok) == initialize_market_accepted(old(l)@, a),
        r is Ok ==> r->Ok_0 == old(l)@.markets.len() && final(l)@ == initialize_market_next(
            old(l)@,
            a,
        ),
        r is Err ==> final(l)@ == old(l)@ && r->Err_0 == ErrorCode::DuplicateMarket,
{
    if mint_registered(&l.markets, a.token_mint) {
        return Err(ErrorCode::DuplicateMarket);
    }
    let m_idx = l.markets.len();
    let acct_idx = l.accounts.len();
    let v_idx = l.vaults.len();
    let authority = derive_vault_authority(m_idx);
    l.accounts.push(
        TokenAccount { owner: authority, mint: a.token_mint, balance: 0, is_custody: true },
    );
    l.vaults.push(Vault { authority, token_account: acct_idx, token_mint: a.token_mint });
    l.markets.push(Market { authority: a.authority, token_mint: a.token_mint, vault: v_idx });
    proof {
        lemma_initialize_market_wf(old(l)@, a);
        assert(l@ =~= initialize_market_next(old(l)@, a));
    }
    Ok(m_idx)
}

} // verus!
