//! Identities of parties and of tokens.

use vstd::prelude::*;

verus! {

/// A 256-bit identity, held as two 128-bit halves.
///
/// The same type names a party (a vendor, a buyer), the payment currency and
/// an ownership token.
#[derive(Clone, Copy, Debug, PartialEq, Eq, Structural)]
pub struct Identity {
    pub hi: u128,
    pub lo: u128,
}

impl Identity {
    /// The identity with the given halves.
    pub fn new(hi: u128, lo: u128) -> (id: Identity)
        ensures
            id == (Identity { hi, lo }),
    {
        Identity { hi, lo }
    }
}

/// A party to a request, together with the outcome of checking its signature.
///
/// Verifying signatures is not done here: `signed` records what the caller
/// found.
#[derive(Clone, Copy, Debug, PartialEq, Eq, Structural)]
pub struct Party {
    pub identity: Identity,
    pub signed: bool,
}

impl Party {
    /// A party that has authorized the request.
    pub fn signer(identity: Identity) -> (p: Party)
        ensures
            p == (Party { identity, signed: true }),
    {
        Party { identity, signed: true }
    }

    /// A party that is named in the request without having authorized it.
    pub fn bystander(identity: Identity) -> (p: Party)
        ensures
            p == (Party { identity, signed: false }),
    {
        Party { identity, signed: false }
    }
}

} // verus!
