//! The ledger as a mathematical value, and the steps that change it.
//!
//! The contracts of the executable ledger and of the marketplace operations
//! are stated over `LedgerState`.

use vstd::prelude::*;
use crate::error::MarketError;
use crate::identity::Identity;

verus! {

/// One request to the ledger.
#[derive(Clone, Copy, Debug, PartialEq, Eq, Structural)]
pub enum Step {
    /// Create `amount` units of `token` in the hands of `to`. A token that the
    /// ledger does not know yet comes into being with `authority` as its
    /// minting authority.
    Mint { token: Identity, authority: Identity, to: Identity, amount: u64 },
    /// Give up the minting authority of `token` for good.
    RevokeMintAuthority { token: Identity, authority: Identity },
    /// Move `amount` units of `token` from `from` to `to`.
    Transfer { token: Identity, from: Identity, to: Identity, amount: u64 },
}

/// What the ledger knows of one token.
pub struct Issuance {
    /// Who may mint further units; `None` once the authority was revoked.
    pub authority: Option<Identity>,
    /// The number of units in existence.
    pub supply: nat,
}

/// The state of the ledger.
///
/// `balances` is total: a pair of token and owner that was never credited
/// holds zero.
#[verifier::ext_equal]
pub struct LedgerState {
    /// The token in which prices are paid.
    pub currency: Identity,
    /// The tokens that exist.
    pub issues: Map<Identity, Issuance>,
    /// The units of each token in the hands of each owner.
    pub balances: Map<(Identity, Identity), nat>,
}

impl LedgerState {
    /// The ledger on which only the currency exists, with no unit minted yet.
    pub open spec fn fresh(currency: Identity, treasury: Identity) -> LedgerState {
        LedgerState {
            currency,
            issues: Map::empty().insert(
                currency,
                Issuance { authority: Some(treasury), supply: 0 },
            ),
            balances: Map::total(|k: (Identity, Identity)| 0nat),
        }
    }

    /// The units of `token` that `owner` holds.
    pub open spec fn balance(self, token: Identity, owner: Identity) -> nat {
        self.balances[(token, owner)]
    }

    /// Whether the ledger knows `token`.
    pub open spec fn issued(self, token: Identity) -> bool {
        self.issues.contains_key(token)
    }

    /// The units of `token` in existence.
    pub open spec fn supply(self, token: Identity) -> nat {
        if self.issued(token) {
            self.issues[token].supply
        } else {
            0
        }
    }

    /// Who may mint `token`, if anyone.
    pub open spec fn authority(self, token: Identity) -> Option<Identity> {
        if self.issued(token) {
            self.issues[token].authority
        } else {
            None
        }
    }

    /// Whether `token` exists and can never be minted again.
    pub open spec fn revoked(self, token: Identity) -> bool {
        self.issued(token) && self.issues[token].authority is None
    }

    /// Whether `owner` holds a unit of `token` and nobody else holds any.
    pub open spec fn sole_holder(self, token: Identity, owner: Identity) -> bool {
        &&& self.balance(token, owner) == 1
        &&& forall|other: Identity| other != owner ==> #[trigger] self.balance(token, other) == 0
    }

    /// The error of a transfer that the sender cannot cover.
    pub open spec fn shortfall(self, token: Identity) -> MarketError {
        if token == self.currency {
            MarketError::InsufficientFunds
        } else {
            MarketError::InsufficientAssetBalance
        }
    }

    /// The state with `amount` more units of `token` in the hands of `owner`.
    pub open spec fn credit(self, token: Identity, owner: Identity, amount: nat) -> LedgerState {
        LedgerState {
            currency: self.currency,
            issues: self.issues,
            balances: self.balances.insert((token, owner), self.balance(token, owner) + amount),
        }
    }

    /// The state with `amount` fewer units of `token` in the hands of `owner`.
    pub open spec fn debit(self, token: Identity, owner: Identity, amount: nat) -> LedgerState {
        LedgerState {
            currency: self.currency,
            issues: self.issues,
            balances: self.balances.insert(
                (token, owner),
                (self.balance(token, owner) - amount) as nat,
            ),
        }
    }

    /// The state in which `token` is recorded with the given issuance.
    pub open spec fn record_issue(self, token: Identity, issuance: Issuance) -> LedgerState {
        LedgerState {
            currency: self.currency,
            issues: self.issues.insert(token, issuance),
            balances: self.balances,
        }
    }

    /// Moving units: the sender is debited, then the receiver is credited.
    /// Rejected when the sender holds less than `amount`.
    pub open spec fn transfer(
        self,
        token: Identity,
        from: Identity,
        to: Identity,
        amount: nat,
    ) -> Result<LedgerState, MarketError> {
        if self.balance(token, from) < amount {
            Err(self.shortfall(token))
        } else {
            Ok(self.debit(token, from, amount).credit(token, to, amount))
        }
    }

    /// Minting units. An unknown token is created under `authority`. A known
    /// token is minted only by its authority: `MintFailed` once the authority
    /// was revoked, `Unauthorized` for anyone else. A supply beyond 64 bits is
    /// refused with `LedgerOperationFailed`.
    pub open spec fn mint(
        self,
        token: Identity,
        authority: Identity,
        to: Identity,
        amount: nat,
    ) -> Result<LedgerState, MarketError> {
        if self.issued(token) && self.issues[token].authority is None {
            Err(MarketError::MintFailed)
        } else if self.issued(token) && self.issues[token].authority != Some(authority) {
            Err(MarketError::Unauthorized)
        } else if self.supply(token) + amount > u64::MAX {
            Err(MarketError::LedgerOperationFailed)
        } else {
            Ok(
                self.record_issue(
                    token,
                    Issuance { authority: Some(authority), supply: self.supply(token) + amount },
                ).credit(token, to, amount),
            )
        }
    }

    /// Revoking the minting authority. Only the authority itself can do so:
    /// `AuthorityRevocationFailed` when the token is unknown or has no
    /// authority left, `Unauthorized` for anyone else.
    pub open spec fn revoke_mint_authority(self, token: Identity, authority: Identity) -> Result<
        LedgerState,
        MarketError,
    > {
        if !self.issued(token) || self.issues[token].authority is None {
            Err(MarketError::AuthorityRevocationFailed)
        } else if self.issues[token].authority != Some(authority) {
            Err(MarketError::Unauthorized)
        } else {
            Ok(
                self.record_issue(
                    token,
                    Issuance { authority: None, supply: self.issues[token].supply },
                ),
            )
        }
    }

    /// The outcome of one step.
    pub open spec fn apply(self, step: Step) -> Result<LedgerState, MarketError> {
        match step {
            Step::Mint { token, authority, to, amount } => self.mint(
                token,
                authority,
                to,
                amount as nat,
            ),
            Step::RevokeMintAuthority { token, authority } => self.revoke_mint_authority(
                token,
                authority,
            ),
            Step::Transfer { token, from, to, amount } => self.transfer(
                token,
                from,
                to,
                amount as nat,
            ),
        }
    }

    /// The outcome of the steps from position `start` on, one after the other.
    /// The first step that is rejected rejects the whole sequence.
    pub open spec fn run_from(self, steps: Seq<Step>, start: int) -> Result<
        LedgerState,
        MarketError,
    >
        decreases steps.len() - start,
    {
        if start < 0 || start >= steps.len() {
            Ok(self)
        } else {
            match self.apply(steps[start]) {
                Err(e) => Err(e),
                Ok(next) => next.run_from(steps, start + 1),
            }
        }
    }

    /// The outcome of a sequence of steps as one atomic unit.
    pub open spec fn run(self, steps: Seq<Step>) -> Result<LedgerState, MarketError> {
        self.run_from(steps, 0)
    }
}

} // verus!
