//! The executable ledger: balances of the payment currency and of every
//! ownership token, with the minting authority of each token.
//!
//! Units are conserved: what the owners of a token hold adds up to its supply.
//! A transfer therefore never overflows a balance, and a token with a supply
//! of one has at most one holder.

use vstd::prelude::*;
use crate::error::MarketError;
use crate::identity::Identity;
use crate::state::{Issuance, LedgerState, Step};

verus! {

/// The units of one token in the hands of one owner.
#[derive(Clone, Copy, Debug)]
struct Holding {
    token: Identity,
    owner: Identity,
    amount: u64,
}

/// A token that exists, with its minting authority and its supply.
#[derive(Clone, Copy, Debug)]
struct Issue {
    token: Identity,
    authority: Option<Identity>,
    supply: u64,
}

/// The units of `token` that the holdings add up to.
spec fn units_of(holdings: Seq<Holding>, token: Identity) -> nat
    decreases holdings.len(),
{
    if holdings.len() == 0 {
        0
    } else {
        let last = holdings.last();
        units_of(holdings.drop_last(), token) + if last.token == token {
            last.amount as nat
        } else {
            0
        }
    }
}

/// Whether position `j` of the holdings is that of `token` and `owner`.
spec fn holds_at(holdings: Seq<Holding>, j: int, token: Identity, owner: Identity) -> bool {
    0 <= j < holdings.len() && holdings[j].token == token && holdings[j].owner == owner
}

/// Whether no position of the holdings is that of `token` and `owner`.
spec fn absent(holdings: Seq<Holding>, token: Identity, owner: Identity) -> bool {
    forall|j: int| !holds_at(holdings, j, token, owner)
}

/// Whether position `i` of the issues is that of `token`.
spec fn issued_at(issues: Seq<Issue>, i: int, token: Identity) -> bool {
    0 <= i < issues.len() && issues[i].token == token
}

proof fn lemma_units_push(s: Seq<Holding>, h: Holding, token: Identity)
    ensures
        units_of(s.push(h), token) == units_of(s, token) + if h.token == token {
            h.amount as nat
        } else {
            0nat
        },
{
    assert(s.push(h).drop_last() =~= s);
    assert(s.push(h).last() == h);
}

proof fn lemma_units_update(s: Seq<Holding>, i: int, h: Holding, token: Identity)
    requires
        0 <= i < s.len(),
    ensures
        units_of(s.update(i, h), token) + (if s[i].token == token {
            s[i].amount as nat
        } else {
            0nat
        }) == units_of(s, token) + (if h.token == token {
            h.amount as nat
        } else {
            0nat
        }),
    decreases s.len(),
{
    if i == s.len() - 1 {
        assert(s.update(i, h).drop_last() =~= s.drop_last());
    } else {
        assert(s.update(i, h).drop_last() =~= s.drop_last().update(i, h));
        lemma_units_update(s.drop_last(), i, h, token);
    }
}

proof fn lemma_units_none(s: Seq<Holding>, token: Identity)
    requires
        forall|j: int| 0 <= j < s.len() ==> s[j].token != token,
    ensures
        units_of(s, token) == 0,
    decreases s.len(),
{
    if s.len() > 0 {
        lemma_units_none(s.drop_last(), token);
    }
}

proof fn lemma_units_cover_one(s: Seq<Holding>, i: int, token: Identity)
    requires
        0 <= i < s.len(),
        s[i].token == token,
    ensures
        s[i].amount <= units_of(s, token),
    decreases s.len(),
{
    if i < s.len() - 1 {
        lemma_units_cover_one(s.drop_last(), i, token);
    }
}

proof fn lemma_units_cover_two(s: Seq<Holding>, i: int, j: int, token: Identity)
    requires
        0 <= i < s.len(),
        0 <= j < s.len(),
        i != j,
        s[i].token == token,
        s[j].token == token,
    ensures
        s[i].amount + s[j].amount <= units_of(s, token),
    decreases s.len(),
{
    let n = s.len() - 1;
    if i == n {
        lemma_units_cover_one(s.drop_last(), j, token);
    } else if j == n {
        lemma_units_cover_one(s.drop_last(), i, token);
    } else {
        lemma_units_cover_two(s.drop_last(), i, j, token);
    }
}

/// Whether the issues are the tokens of `state`, each once, with the
/// authority and the supply that `state` gives them.
spec fn issues_match(issues: Seq<Issue>, state: LedgerState) -> bool {
    &&& forall|i: int, j: int|
        0 <= i < j < issues.len() ==> issues[i].token != issues[j].token
    &&& forall|i: int|
        0 <= i < issues.len() ==> {
            &&& state.issues.contains_key(#[trigger] issues[i].token)
            &&& state.issues[issues[i].token] == Issuance {
                authority: issues[i].authority,
                supply: issues[i].supply as nat,
            }
        }
    &&& forall|t: Identity| #[trigger]
        state.issues.contains_key(t) ==> exists|i: int| issued_at(issues, i, t)
}

/// Whether the holdings are the balances of `state`: each pair of token and
/// owner at most once, with its balance, and zero for every pair that is not
/// there. Only tokens that exist are held.
spec fn holdings_match(holdings: Seq<Holding>, state: LedgerState) -> bool {
    &&& forall|i: int, j: int|
        0 <= i < j < holdings.len() ==> !(holdings[i].token == holdings[j].token
            && holdings[i].owner == holdings[j].owner)
    &&& forall|j: int|
        0 <= j < holdings.len() ==> {
            &&& state.issues.contains_key((#[trigger] holdings[j]).token)
            &&& state.balances[(holdings[j].token, holdings[j].owner)] == holdings[j].amount
        }
    &&& forall|t: Identity, o: Identity| #[trigger] state.balances.contains_key((t, o))
    &&& forall|t: Identity, o: Identity|
        absent(holdings, t, o) ==> #[trigger] state.balances[(t, o)] == 0
}

/// Whether the holdings of every token add up to its supply.
spec fn conserved(issues: Seq<Issue>, holdings: Seq<Holding>) -> bool {
    forall|i: int|
        0 <= i < issues.len() ==> units_of(holdings, (#[trigger] issues[i]).token)
            == issues[i].supply
}

/// The ledger of the marketplace.
///
/// The ledger keeps the books. Whether the parties to a transfer have signed
/// is for the marketplace operations to ask; the ledger itself asks only who
/// mints and who revokes.
pub struct Ledger {
    currency: Identity,
    issues: Vec<Issue>,
    holdings: Vec<Holding>,
    state: Ghost<LedgerState>,
}

fn find_issue(issues: &Vec<Issue>, token: Identity) -> (r: Option<usize>)
    ensures
        match r {
            Some(i) => issued_at(issues@, i as int, token),
            None => forall|i: int| !issued_at(issues@, i, token),
        },
{
    let mut i: usize = 0;
    while i < issues.len()
        invariant
            i <= issues.len(),
            forall|k: int| 0 <= k < i ==> !issued_at(issues@, k, token),
        decreases issues.len() - i,
    {
        if issues[i].token == token {
            return Some(i);
        }
        i += 1;
    }
    None
}

fn find_holding(holdings: &Vec<Holding>, token: Identity, owner: Identity) -> (r: Option<usize>)
    ensures
        match r {
            Some(j) => holds_at(holdings@, j as int, token, owner),
            None => absent(holdings@, token, owner),
        },
{
    let mut j: usize = 0;
    while j < holdings.len()
        invariant
            j <= holdings.len(),
            forall|k: int| 0 <= k < j ==> !holds_at(holdings@, k, token, owner),
        decreases holdings.len() - j,
    {
        if holdings[j].token == token && holdings[j].owner == owner {
            return Some(j);
        }
        j += 1;
    }
    None
}

impl Ledger {
    /// The state of the ledger.
    pub closed spec fn view(&self) -> LedgerState {
        self.state@
    }

    /// The invariant of the ledger: its tables are the state that `view`
    /// gives, and the units of every token add up to its supply.
    pub closed spec fn wf(&self) -> bool {
        &&& self.state@.currency == self.currency
        &&& issues_match(self.issues@, self.state@)
        &&& holdings_match(self.holdings@, self.state@)
        &&& conserved(self.issues@, self.holdings@)
    }

    /// A ledger on which only the payment currency exists, with `treasury` as
    /// its minting authority and no unit minted yet.
    pub fn new(currency: Identity, treasury: Identity) -> (ledger: Ledger)
        ensures
            ledger.wf(),
            ledger@ == LedgerState::fresh(currency, treasury),
    {
        let mut issues: Vec<Issue> = Vec::new();
        issues.push(Issue { token: currency, authority: Some(treasury), supply: 0 });
        let ledger = Ledger {
            currency,
            issues,
            holdings: Vec::new(),
            state: Ghost(LedgerState::fresh(currency, treasury)),
        };
        proof {
            assert(issued_at(ledger.issues@, 0, currency));
        }
        ledger
    }

    /// The token in which prices are paid.
    pub fn currency(&self) -> (c: Identity)
        requires
            self.wf(),
        ensures
            c == self@.currency,
    {
        self.currency
    }

    /// The units of `token` that `owner` holds.
    pub fn balance(&self, token: Identity, owner: Identity) -> (b: u64)
        requires
            self.wf(),
        ensures
            b == self@.balance(token, owner),
    {
        match find_holding(&self.holdings, token, owner) {
            Some(j) => self.holdings[j].amount,
            None => 0,
        }
    }

    /// Whether the ledger knows `token`.
    pub fn is_issued(&self, token: Identity) -> (b: bool)
        requires
            self.wf(),
        ensures
            b == self@.issued(token),
    {
        match find_issue(&self.issues, token) {
            Some(i) => {
                assert(self.state@.issues.contains_key(self.issues@[i as int].token));
                true
            },
            None => false,
        }
    }

    /// The units of `token` in existence.
    pub fn supply(&self, token: Identity) -> (s: u64)
        requires
            self.wf(),
        ensures
            s == self@.supply(token),
    {
        match find_issue(&self.issues, token) {
            Some(i) => {
                assert(self.state@.issues.contains_key(self.issues@[i as int].token));
                self.issues[i].supply
            },
            None => 0,
        }
    }

    /// Who may mint `token`, if anyone.
    pub fn authority(&self, token: Identity) -> (a: Option<Identity>)
        requires
            self.wf(),
        ensures
            a == self@.authority(token),
    {
        match find_issue(&self.issues, token) {
            Some(i) => {
                assert(self.state@.issues.contains_key(self.issues@[i as int].token));
                self.issues[i].authority
            },
            None => None,
        }
    }

    /// Two owners of one token never hold more than its supply between them,
    /// and the supply fits in 64 bits.
    pub proof fn lemma_supply_covers(&self, token: Identity, a: Identity, b: Identity)
        requires
            self.wf(),
            a != b,
        ensures
            self@.balance(token, a) + self@.balance(token, b) <= self@.supply(token),
            self@.supply(token) <= u64::MAX,
    {
        let hs = self.holdings@;
        let st = self.state@;
        if st.issues.contains_key(token) {
            let k = choose|k: int| issued_at(self.issues@, k, token);
            assert(st.issues.contains_key(self.issues@[k].token));
            assert(units_of(hs, self.issues@[k].token) == self.issues@[k].supply);
        }
        if absent(hs, token, a) {
            if !absent(hs, token, b) {
                let j = choose|j: int| holds_at(hs, j, token, b);
                assert(st.issues.contains_key(hs[j].token));
                lemma_units_cover_one(hs, j, token);
            }
        } else {
            let i = choose|i: int| holds_at(hs, i, token, a);
            assert(st.issues.contains_key(hs[i].token));
            if absent(hs, token, b) {
                lemma_units_cover_one(hs, i, token);
            } else {
                let j = choose|j: int| holds_at(hs, j, token, b);
                lemma_units_cover_two(hs, i, j, token);
            }
        }
    }
}


fn copy_of<T: Copy>(v: &Vec<T>) -> (r: Vec<T>)
    ensures
        r@ == v@,
{
    let mut r: Vec<T> = Vec::new();
    let mut i: usize = 0;
    while i < v.len()
        invariant
            i <= v.len(),
            r@ == v@.subrange(0, i as int),
        decreases v.len() - i,
    {
        r.push(v[i]);
        i += 1;
        assert(r@ =~= v@.subrange(0, i as int));
    }
    assert(v@.subrange(0, v.len() as int) =~= v@);
    r
}

/// The state in which `owner` holds `amount` units of `token`, and all else is
/// as in `state`.
spec fn with_balance(state: LedgerState, token: Identity, owner: Identity, amount: nat) -> LedgerState {
    LedgerState {
        currency: state.currency,
        issues: state.issues,
        balances: state.balances.insert((token, owner), amount),
    }
}

/// Sets what `owner` holds of `token`, in an entry of its own where there was
/// none.
fn set_balance(
    holdings: &mut Vec<Holding>,
    token: Identity,
    owner: Identity,
    amount: u64,
    Ghost(state): Ghost<LedgerState>,
)
    requires
        holdings_match(old(holdings)@, state),
        state.issues.contains_key(token),
    ensures
        holdings_match(final(holdings)@, with_balance(state, token, owner, amount as nat)),
        forall|t: Identity|
            units_of(final(holdings)@, t) + (if t == token {
                state.balance(token, owner)
            } else {
                0nat
            }) == #[trigger] units_of(old(holdings)@, t) + (if t == token {
                amount as nat
            } else {
                0nat
            }),
{
    let ghost h0 = holdings@;
    let ghost next = with_balance(state, token, owner, amount as nat);
    let entry = Holding { token, owner, amount };
    match find_holding(holdings, token, owner) {
        Some(j) => {
            holdings.set(j, entry);
            proof {
                let h1 = holdings@;
                assert forall|t: Identity|
                    units_of(h1, t) + (if t == token {
                        state.balance(token, owner)
                    } else {
                        0nat
                    }) == #[trigger] units_of(h0, t) + (if t == token {
                        amount as nat
                    } else {
                        0nat
                    }) by {
                    lemma_units_update(h0, j as int, entry, t);
                }
                assert forall|n: int| 0 <= n < h1.len() implies next.balances[(
                    (#[trigger] h1[n]).token,
                    h1[n].owner,
                )] == h1[n].amount by {
                    if n != j {
                        assert(h1[n] == h0[n]);
                        assert(!(h0[n].token == h0[j as int].token && h0[n].owner
                            == h0[j as int].owner));
                    }
                }
                assert forall|t: Identity, o: Identity| absent(h1, t, o) implies #[trigger] next.balances[(
                    t,
                    o,
                )] == 0 by {
                    assert(!holds_at(h1, j as int, t, o));
                    assert forall|n: int| !holds_at(h0, n, t, o) by {
                        assert(!holds_at(h1, n, t, o));
                    }
                }
            }
        },
        None => {
            holdings.push(entry);
            proof {
                let h1 = holdings@;
                assert forall|t: Identity|
                    units_of(h1, t) + (if t == token {
                        state.balance(token, owner)
                    } else {
                        0nat
                    }) == #[trigger] units_of(h0, t) + (if t == token {
                        amount as nat
                    } else {
                        0nat
                    }) by {
                    lemma_units_push(h0, entry, t);
                }
                assert forall|n: int| 0 <= n < h0.len() implies !(h0[n].token == token
                    && h0[n].owner == owner) by {
                    assert(!holds_at(h0, n, token, owner));
                }
                assert forall|n: int| 0 <= n < h1.len() implies next.balances[(
                    (#[trigger] h1[n]).token,
                    h1[n].owner,
                )] == h1[n].amount by {
                    if n < h0.len() {
                        assert(h1[n] == h0[n]);
                    }
                }
                assert forall|t: Identity, o: Identity| absent(h1, t, o) implies #[trigger] next.balances[(
                    t,
                    o,
                )] == 0 by {
                    assert(!holds_at(h1, h0.len() as int, t, o));
                    assert forall|n: int| !holds_at(h0, n, t, o) by {
                        assert(!holds_at(h1, n, t, o));
                    }
                }
            }
        },
    }
}

impl Ledger {
    /// Moves `amount` units of `token` from `from` to `to`.
    ///
    /// Rejected, with nothing changed, when `from` holds less than `amount`:
    /// with `InsufficientFunds` for the currency and with
    /// `InsufficientAssetBalance` for any other token.
    pub fn transfer(&mut self, token: Identity, from: Identity, to: Identity, amount: u64) -> (r:
        Result<(), MarketError>)
        requires
            old(self).wf(),
        ensures
            final(self).wf(),
            match r {
                Ok(()) => old(self)@.transfer(token, from, to, amount as nat) == Ok::<
                    LedgerState,
                    MarketError,
                >(final(self)@),
                Err(e) => old(self)@.transfer(token, from, to, amount as nat) == Err::<
                    LedgerState,
                    MarketError,
                >(e) && final(self)@ == old(self)@,
            },
    {
        let ghost before = self.state@;
        let ghost mid = before.debit(token, from, amount as nat);
        let ghost after = mid.credit(token, to, amount as nat);
        let ghost h0 = self.holdings@;
        let src = find_holding(&self.holdings, token, from);
        let available: u64 = match src {
            Some(i) => self.holdings[i].amount,
            None => 0,
        };
        if available < amount {
            if token == self.currency {
                return Err(MarketError::InsufficientFunds);
            } else {
                return Err(MarketError::InsufficientAssetBalance);
            }
        }
        if amount == 0 {
            proof {
                assert(after.balances =~= before.balances);
            }
            self.state = Ghost(after);
            return Ok(());
        }
        proof {
            let i = src->0 as int;
            assert(before.issues.contains_key(h0[i].token));
            let k = choose|k: int| issued_at(self.issues@, k, token);
            assert(units_of(h0, self.issues@[k].token) == self.issues@[k].supply);
        }
        set_balance(&mut self.holdings, token, from, available - amount, Ghost(before));
        let ghost h1 = self.holdings@;
        let there: u64 = match find_holding(&self.holdings, token, to) {
            Some(j) => {
                proof {
                    lemma_units_cover_one(h1, j as int, token);
                }
                self.holdings[j].amount
            },
            None => 0,
        };
        set_balance(&mut self.holdings, token, to, there + amount, Ghost(mid));
        self.state = Ghost(after);
        proof {
            assert(mid == with_balance(before, token, from, (available - amount) as nat));
            assert(after == with_balance(mid, token, to, (there + amount) as nat));
            assert forall|i: int| 0 <= i < self.issues@.len() implies units_of(
                self.holdings@,
                (#[trigger] self.issues@[i]).token,
            ) == self.issues@[i].supply by {
                let t = self.issues@[i].token;
                assert(units_of(h0, t) == self.issues@[i].supply);
            }
        }
        Ok(())
    }
}

impl Ledger {
    /// Creates `amount` units of `token` in the hands of `to`.
    ///
    /// A token that the ledger does not know comes into being with `authority`
    /// as its minting authority. For a known token the request is rejected,
    /// with nothing changed: with `MintFailed` once its authority was revoked,
    /// with `Unauthorized` when `authority` is not its authority. A supply
    /// beyond 64 bits is rejected with `LedgerOperationFailed`.
    pub fn mint(&mut self, token: Identity, authority: Identity, to: Identity, amount: u64) -> (r:
        Result<(), MarketError>)
        requires
            old(self).wf(),
        ensures
            final(self).wf(),
            match r {
                Ok(()) => old(self)@.mint(token, authority, to, amount as nat) == Ok::<
                    LedgerState,
                    MarketError,
                >(final(self)@),
                Err(e) => old(self)@.mint(token, authority, to, amount as nat) == Err::<
                    LedgerState,
                    MarketError,
                >(e) && final(self)@ == old(self)@,
            },
    {
        let ghost before = self.state@;
        let ghost h0 = self.holdings@;
        let ghost i0 = self.issues@;
        let slot = find_issue(&self.issues, token);
        let supply: u64 = match slot {
            Some(k) => {
                proof {
                    assert(before.issues.contains_key(i0[k as int].token));
                }
                let issue = self.issues[k];
                match issue.authority {
                    None => {
                        return Err(MarketError::MintFailed);
                    },
                    Some(a) => {
                        if a != authority {
                            return Err(MarketError::Unauthorized);
                        }
                    },
                }
                issue.supply
            },
            None => 0,
        };
        if amount > u64::MAX - supply {
            return Err(MarketError::LedgerOperationFailed);
        }
        let issue = Issue { token, authority: Some(authority), supply: supply + amount };
        let ghost issued = before.record_issue(
            token,
            Issuance { authority: Some(authority), supply: (supply + amount) as nat },
        );
        let ghost after = issued.credit(token, to, amount as nat);
        match slot {
            Some(k) => {
                self.issues.set(k, issue);
                proof {
                    assert(issued_at(self.issues@, k as int, token));
                    assert forall|t: Identity| #[trigger]
                        issued.issues.contains_key(t) implies exists|i: int|
                        issued_at(self.issues@, i, t) by {
                        if t != token {
                            let i = choose|i: int| issued_at(i0, i, t);
                            assert(issued_at(self.issues@, i, t));
                        }
                    }
                    assert(units_of(h0, i0[k as int].token) == i0[k as int].supply);
                }
            },
            None => {
                self.issues.push(issue);
                proof {
                    assert(issued_at(self.issues@, i0.len() as int, token));
                    assert forall|i: int| 0 <= i < i0.len() implies i0[i].token != token by {
                        assert(!issued_at(i0, i, token));
                    }
                    assert forall|t: Identity| #[trigger]
                        issued.issues.contains_key(t) implies exists|i: int|
                        issued_at(self.issues@, i, t) by {
                        if t != token {
                            let i = choose|i: int| issued_at(i0, i, t);
                            assert(issued_at(self.issues@, i, t));
                        }
                    }
                    assert forall|j: int| 0 <= j < h0.len() implies h0[j].token != token by {
                        assert(before.issues.contains_key(h0[j].token));
                    }
                    lemma_units_none(h0, token);
                }
            },
        }
        proof {
            assert(issues_match(self.issues@, issued));
            assert(holdings_match(h0, issued));
            assert(units_of(h0, token) == supply);
        }
        let there: u64 = match find_holding(&self.holdings, token, to) {
            Some(j) => {
                proof {
                    lemma_units_cover_one(h0, j as int, token);
                }
                self.holdings[j].amount
            },
            None => 0,
        };
        set_balance(&mut self.holdings, token, to, there + amount, Ghost(issued));
        self.state = Ghost(after);
        proof {
            assert(after == with_balance(issued, token, to, (there + amount) as nat));
            assert forall|i: int| 0 <= i < self.issues@.len() implies units_of(
                self.holdings@,
                (#[trigger] self.issues@[i]).token,
            ) == self.issues@[i].supply by {
                let t = self.issues@[i].token;
                if t != token {
                    assert(self.issues@[i] == i0[i]);
                    assert(units_of(h0, i0[i].token) == i0[i].supply);
                }
            }
        }
        Ok(())
    }

    /// Gives up the minting authority of `token` for good: no unit of it can
    /// be minted afterwards.
    ///
    /// Rejected, with nothing changed: with `AuthorityRevocationFailed` when
    /// the token is unknown or has no authority left, with `Unauthorized` when
    /// `authority` is not its authority.
    pub fn revoke_mint_authority(&mut self, token: Identity, authority: Identity) -> (r: Result<
        (),
        MarketError,
    >)
        requires
            old(self).wf(),
        ensures
            final(self).wf(),
            match r {
                Ok(()) => old(self)@.revoke_mint_authority(token, authority) == Ok::<
                    LedgerState,
                    MarketError,
                >(final(self)@),
                Err(e) => old(self)@.revoke_mint_authority(token, authority) == Err::<
                    LedgerState,
                    MarketError,
                >(e) && final(self)@ == old(self)@,
            },
    {
        let ghost before = self.state@;
        let ghost i0 = self.issues@;
        match find_issue(&self.issues, token) {
            None => Err(MarketError::AuthorityRevocationFailed),
            Some(k) => {
                proof {
                    assert(before.issues.contains_key(i0[k as int].token));
                }
                let issue = self.issues[k];
                match issue.authority {
                    None => Err(MarketError::AuthorityRevocationFailed),
                    Some(a) => {
                        if a != authority {
                            return Err(MarketError::Unauthorized);
                        }
                        let ghost after = before.record_issue(
                            token,
                            Issuance { authority: None, supply: issue.supply as nat },
                        );
                        self.issues.set(k, Issue { token, authority: None, supply: issue.supply });
                        self.state = Ghost(after);
                        proof {
                            assert forall|t: Identity| #[trigger]
                                after.issues.contains_key(t) implies exists|i: int|
                                issued_at(self.issues@, i, t) by {
                                if t != token {
                                    let i = choose|i: int| issued_at(i0, i, t);
                                    assert(issued_at(self.issues@, i, t));
                                } else {
                                    assert(issued_at(self.issues@, k as int, t));
                                }
                            }
                            assert forall|i: int| 0 <= i < self.issues@.len() implies units_of(
                                self.holdings@,
                                (#[trigger] self.issues@[i]).token,
                            ) == self.issues@[i].supply by {
                                assert(units_of(self.holdings@, i0[i].token) == i0[i].supply);
                            }
                        }
                        Ok(())
                    },
                }
            },
        }
    }

    /// Carries out one step, or rejects it with nothing changed.
    pub fn apply(&mut self, step: &Step) -> (r: Result<(), MarketError>)
        requires
            old(self).wf(),
        ensures
            final(self).wf(),
            match r {
                Ok(()) => old(self)@.apply(*step) == Ok::<LedgerState, MarketError>(final(self)@),
                Err(e) => old(self)@.apply(*step) == Err::<LedgerState, MarketError>(e) && final(self)@ == old(self)@,
            },
    {
        match *step {
            Step::Mint { token, authority, to, amount } => self.mint(token, authority, to, amount),
            Step::RevokeMintAuthority { token, authority } => self.revoke_mint_authority(
                token,
                authority,
            ),
            Step::Transfer { token, from, to, amount } => self.transfer(token, from, to, amount),
        }
    }

    /// A copy of the ledger as it stands.
    fn snapshot(&self) -> (copy: Ledger)
        requires
            self.wf(),
        ensures
            copy.wf(),
            copy@ == self@,
    {
        Ledger {
            currency: self.currency,
            issues: copy_of(&self.issues),
            holdings: copy_of(&self.holdings),
            state: Ghost(self.state@),
        }
    }

    /// Carries out the steps in order as one atomic unit: either all of them
    /// take effect, or the first step that is rejected rejects the whole
    /// sequence and the ledger is as it was.
    pub fn execute(&mut self, steps: &Vec<Step>) -> (r: Result<(), MarketError>)
        requires
            old(self).wf(),
        ensures
            final(self).wf(),
            match r {
                Ok(()) => old(self)@.run(steps@) == Ok::<LedgerState, MarketError>(final(self)@),
                Err(e) => old(self)@.run(steps@) == Err::<LedgerState, MarketError>(e) && final(self)@ == old(self)@,
            },
    {
        let saved = self.snapshot();
        let ghost start = self@;
        let mut i: usize = 0;
        while i < steps.len()
            invariant
                i <= steps.len(),
                self.wf(),
                saved.wf(),
                saved@ == start,
                start == old(self)@,
                start.run_from(steps@, 0) == self@.run_from(steps@, i as int),
            decreases steps.len() - i,
        {
            match self.apply(&steps[i]) {
                Ok(()) => {},
                Err(e) => {
                    *self = saved;
                    return Err(e);
                },
            }
            i += 1;
        }
        Ok(())
    }

    /// Nobody holds a unit of a token that the ledger does not know.
    pub proof fn lemma_unissued_is_unheld(&self, token: Identity)
        requires
            self.wf(),
            !self@.issued(token),
        ensures
            forall|owner: Identity| #[trigger] self@.balance(token, owner) == 0,
    {
        let hs = self.holdings@;
        assert forall|owner: Identity| #[trigger] self@.balance(token, owner) == 0 by {
            assert forall|j: int| !holds_at(hs, j, token, owner) by {
                if holds_at(hs, j, token, owner) {
                    assert(self.state@.issues.contains_key(hs[j].token));
                }
            }
            assert(absent(hs, token, owner));
        }
    }

    /// A token of which one unit exists has one holder at most: whoever holds
    /// the unit holds it alone.
    pub proof fn law_single_unit_has_sole_holder(&self, token: Identity, owner: Identity)
        requires
            self.wf(),
            self@.supply(token) == 1,
            self@.balance(token, owner) == 1,
        ensures
            self@.sole_holder(token, owner),
    {
        assert forall|other: Identity| other != owner implies #[trigger] self@.balance(
            token,
            other,
        ) == 0 by {
            self.lemma_supply_covers(token, owner, other);
        }
    }
}

} // verus!
