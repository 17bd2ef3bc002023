//! The failures that a marketplace operation reports.

use vstd::prelude::*;

verus! {

/// Why an operation was rejected. A rejected operation changes nothing.
#[derive(Clone, Copy, Debug, PartialEq, Eq, Structural)]
pub enum MarketError {
    /// A party whose consent is needed has not signed, or the caller is not
    /// the authority that the ledger knows for a token.
    Unauthorized,
    /// The payer holds fewer payment units than the transfer moves.
    InsufficientFunds,
    /// The seller holds fewer units of the ownership token than the transfer
    /// moves.
    InsufficientAssetBalance,
    /// A text field is longer than the space reserved for it.
    CapacityExceeded,
    /// The sale price is too large for the royalty computation.
    ArithmeticOverflow,
    /// The ledger cannot carry out the operation for a reason of its own.
    LedgerOperationFailed,
    /// The ledger refuses to mint the ownership token.
    MintFailed,
    /// The ledger refuses to give up the minting authority.
    AuthorityRevocationFailed,
}

} // verus!
