//! The ledger: every record of the market in one place, with the
//! well-formedness invariant that each transition preserves — reference
//! validity, the bid and loan lifecycle rules, and the custody
//! conservation law tying each vault's balance to its bids.

use crate::errors::ErrorCode;
use crate::state::{BidOrder, BorrowRecord, Market, TokenAccount, Vault};
use crate::sums::{outstanding, unrepaid_for_bid};
use vstd::prelude::*;

verus! {

/// Tag mixed into a market's index to derive its vault authority
/// identity.
pub const VAULT_AUTHORITY_TAG: u64 = 0x5641554c545f4155;

/// The identity holding exclusive transfer authority over a market's
/// custody account, derived deterministically from the market's index.
pub open spec fn vault_authority_id(market: usize) -> u64 {
    (market as u64) ^ VAULT_AUTHORITY_TAG
}

/// Derives the vault authority identity for a market; injective over
/// market indices.
pub fn derive_vault_authority(market: usize) -> (r: u64)
    ensures
        r == vault_authority_id(market),
{
    (market as u64) ^ VAULT_AUTHORITY_TAG
}

/// All records of the market system: the market registry, the vaults, the
/// custody service's token accounts, the bid book and the loan ledger.
/// Records never move or disappear; a record's identifier is its index.
pub struct Ledger {
    pub markets: Vec<Market>,
    pub vaults: Vec<Vault>,
    pub accounts: Vec<TokenAccount>,
    pub bids: Vec<BidOrder>,
    pub loans: Vec<BorrowRecord>,
}

/// The ledger's mathematical model: the same records as sequences.
#[verifier::ext_equal]
pub struct LedgerView {
    pub markets: Seq<Market>,
    pub vaults: Seq<Vault>,
    pub accounts: Seq<TokenAccount>,
    pub bids: Seq<BidOrder>,
    pub loans: Seq<BorrowRecord>,
}

impl View for Ledger {
    type V = LedgerView;

    open spec fn view(&self) -> LedgerView {
        LedgerView {
            markets: self.markets@,
            vaults: self.vaults@,
            accounts: self.accounts@,
            bids: self.bids@,
            loans: self.loans@,
        }
    }
}

impl LedgerView {
    /// Market `m` points at a real vault whose mint and authority binding
    /// match.
    pub open spec fn market_ok(self, m: int) -> bool {
        let mk = self.markets[m];
        &&& mk.vault < self.vaults.len()
        &&& self.vaults[mk.vault as int].token_mint == mk.token_mint
        &&& self.vaults[mk.vault as int].authority == vault_authority_id(m as usize)
    }

    /// Vault `v` points at a real custody account of its own mint.
    pub open spec fn vault_ok(self, v: int) -> bool {
        let vt = self.vaults[v];
        &&& vt.token_account < self.accounts.len()
        &&& self.accounts[vt.token_account as int].is_custody
        &&& self.accounts[vt.token_account as int].mint == vt.token_mint
        &&& self.accounts[vt.token_account as int].owner == vt.authority
    }

    /// Bid `i` belongs to a real market, its fill never exceeds its
    /// amount, it is active exactly while uncancelled and not fully
    /// filled, and its fill covers the principal still drawn against it —
    /// with equality as long as the bid was never cancelled.
    pub open spec fn bid_ok(self, i: int) -> bool {
        let b = self.bids[i];
        &&& b.market < self.markets.len()
        &&& b.filled_amount <= b.amount
        &&& b.is_active == (b.filled_amount < b.amount && !b.cancelled)
        &&& if b.cancelled {
            unrepaid_for_bid(self.loans, i) <= b.filled_amount
        } else {
            unrepaid_for_bid(self.loans, i) == b.filled_amount
        }
    }

    /// Loan `j` points at a real bid and carries that bid's market.
    pub open spec fn loan_ok(self, j: int) -> bool {
        let r = self.loans[j];
        &&& r.source_bid < self.bids.len()
        &&& r.market == self.bids[r.source_bid as int].market
    }

    /// Index of the custody account holding market `m`'s funds.
    pub open spec fn vault_account_of(self, m: int) -> int {
        self.vaults[self.markets[m].vault as int].token_account as int
    }

    /// The conservation law: market `m`'s custody balance equals the sum
    /// of its bids' deposited-but-not-lent-out amounts.
    pub open spec fn conserved(self, m: int) -> bool {
        self.accounts[self.vault_account_of(m)].balance == outstanding(self.bids, m)
    }

    /// No two markets share a mint or a vault, and no two vaults share a
    /// custody account.
    pub open spec fn registry_injective(self) -> bool {
        &&& forall|i: int, j: int|
            0 <= i < self.markets.len() && 0 <= j < self.markets.len() && i != j
                ==> (#[trigger] self.markets[i]).token_mint != (#[trigger] self.markets[j]).token_mint
                && self.markets[i].vault != self.markets[j].vault
        &&& forall|i: int, j: int|
            0 <= i < self.vaults.len() && 0 <= j < self.vaults.len() && i != j
                ==> (#[trigger] self.vaults[i]).token_account
                != (#[trigger] self.vaults[j]).token_account
    }

    /// The ledger invariant, established by the empty ledger and
    /// preserved by every transition.
    pub open spec fn wf(self) -> bool {
        &&& forall|m: int| 0 <= m < self.markets.len() ==> #[trigger] self.market_ok(m)
        &&& forall|m: int| 0 <= m < self.markets.len() ==> #[trigger] self.conserved(m)
        &&& forall|v: int| 0 <= v < self.vaults.len() ==> #[trigger] self.vault_ok(v)
        &&& forall|i: int| 0 <= i < self.bids.len() ==> #[trigger] self.bid_ok(i)
        &&& forall|j: int| 0 <= j < self.loans.len() ==> #[trigger] self.loan_ok(j)
        &&& self.registry_injective()
    }
}

impl Ledger {
    /// An empty ledger: no markets, no accounts, no bids, no loans.
    pub fn new() -> (l: Ledger)
        ensures
            l@.wf(),
            l@.markets.len() == 0,
            l@.vaults.len() == 0,
            l@.accounts.len() == 0,
            l@.bids.len() == 0,
            l@.loans.len() == 0,
    {
        Ledger {
            markets: Vec::new(),
            vaults: Vec::new(),
            accounts: Vec::new(),
            bids: Vec::new(),
            loans: Vec::new(),
        }
    }
}

/// A change that touches no custody account — opening a user account or
/// moving a user balance — preserves the whole ledger invariant.
proof fn lemma_wf_after_account_change(s: LedgerView, t: LedgerView)
    requires
        s.wf(),
        t.markets == s.markets,
        t.vaults == s.vaults,
        t.bids == s.bids,
        t.loans == s.loans,
        s.accounts.len() <= t.accounts.len(),
        forall|k: int|
            0 <= k < s.accounts.len() ==> (#[trigger] t.accounts[k]).is_custody
                == s.accounts[k].is_custody,
        forall|k: int|
            0 <= k < s.accounts.len() && s.accounts[k].is_custody ==> #[trigger] t.accounts[k]
                == s.accounts[k],
    ensures
        t.wf(),
{
    assert forall|m: int| 0 <= m < t.markets.len() implies #[trigger] t.market_ok(m) by {
        assert(s.market_ok(m));
    }
    assert forall|v: int| 0 <= v < t.vaults.len() implies #[trigger] t.vault_ok(v) by {
        assert(s.vault_ok(v));
    }
    assert forall|m: int| 0 <= m < t.markets.len() implies #[trigger] t.conserved(m) by {
        assert(s.market_ok(m));
        assert(s.vault_ok(s.markets[m].vault as int));
        assert(s.conserved(m));
    }
    assert forall|i: int| 0 <= i < t.bids.len() implies #[trigger] t.bid_ok(i) by {
        assert(s.bid_ok(i));
    }
    assert forall|j: int| 0 <= j < t.loans.len() implies #[trigger] t.loan_ok(j) by {
        assert(s.loan_ok(j));
    }
}

/// Opens a fresh, empty user token account for `owner` under `mint` and
/// returns its index. User accounts never carry the custody capability.
pub fn create_token_account(l: &mut Ledger, owner: u64, mint: u64) -> (i: usize)
    requires
        old(l)@.wf(),
    ensures
        final(l)@.wf(),
        i == old(l)@.accounts.len(),
        final(l)@ == (LedgerView {
            accounts: old(l)@.accounts.push(
                TokenAccount { owner, mint, balance: 0, is_custody: false },
            ),
            ..old(l)@
        }),
{
    let i = l.accounts.len();
    l.accounts.push(TokenAccount { owner, mint, balance: 0, is_custody: false });
    proof {
        lemma_wf_after_account_change(old(l)@, l@);
        assert(l@ == (LedgerView {
            accounts: old(l)@.accounts.push(
                TokenAccount { owner, mint, balance: 0, is_custody: false },
            ),
            ..old(l)@
        }));
    }
    i
}

/// Issues `amount` fresh units of the account's mint into a user token
/// account, or rejects with `MathError` when the balance would overflow.
/// Custody accounts cannot be minted to: vault balances change only
/// through the five transitions.
pub fn mint_to(l: &mut Ledger, account: usize, amount: u64) -> (r: Result<(), ErrorCode>)
    requires
        old(l)@.wf(),
        account < old(l)@.accounts.len(),
        !old(l)@.accounts[account as int].is_custody,
    ensures
        final(l)@.wf(),
        r is Ok <==> old(l)@.accounts[account as int].balance + amount <= u64::MAX,
        r is Ok ==> final(l)@ == (LedgerView {
            accounts: old(l)@.accounts.update(
                account as int,
                (TokenAccount {
                    balance: (old(l)@.accounts[account as int].balance + amount) as u64,
                    ..old(l)@.accounts[account as int]
                }),
            ),
            ..old(l)@
        }),
        r is Err ==> final(l)@ == old(l)@ && r->Err_0 == ErrorCode::MathError,
{
    let acct = l.accounts[account];
    if amount > u64::MAX - acct.balance {
        return Err(ErrorCode::MathError);
    }
    l.accounts[account] = TokenAccount { balance: acct.balance + amount, ..acct };
    proof {
        lemma_wf_after_account_change(old(l)@, l@);
    }
    Ok(())
}

/// The asset-custody service's one primitive: an atomic transfer between
/// two distinct accounts. Either both the debit and the credit apply, or
/// the ledger is untouched and the caller sees `MathError` — exactly when
/// the payer's balance is short or the payee's would overflow.
pub(crate) fn move_balance(l: &mut Ledger, from: usize, to: usize, amount: u64) -> (r: Result<
    (),
    ErrorCode,
>)
    requires
        from < old(l)@.accounts.len(),
        to < old(l)@.accounts.len(),
        from != to,
    ensures
        r is Ok <==> (old(l)@.accounts[from as int].balance >= amount && old(l)@.accounts[
            to as int
        ].balance + amount <= u64::MAX),
        r is Ok ==> final(l)@ == (LedgerView {
            accounts: old(l)@.accounts.update(
                from as int,
                (TokenAccount {
                    balance: (old(l)@.accounts[from as int].balance - amount) as u64,
                    ..old(l)@.accounts[from as int]
                }),
            ).update(
                to as int,
                (TokenAccount {
                    balance: (old(l)@.accounts[to as int].balance + amount) as u64,
                    ..old(l)@.accounts[to as int]
                }),
            ),
            ..old(l)@
        }),
        r is Err ==> final(l)@ == old(l)@ && r->Err_0 == ErrorCode::MathError,
{
    let src = l.accounts[from];
    let dst = l.accounts[to];
    if amount > src.balance {
        return Err(ErrorCode::MathError);
    }
    if amount > u64::MAX - dst.balance {
        return Err(ErrorCode::MathError);
    }
    l.accounts[from] = TokenAccount { balance: src.balance - amount, ..src };
    l.accounts[to] = TokenAccount { balance: dst.balance + amount, ..dst };
    Ok(())
}

} // verus!
