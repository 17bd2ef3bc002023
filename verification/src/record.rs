//! The record of a listed service.

use vstd::prelude::*;
use crate::identity::Identity;

verus! {

/// The longest service name, in bytes of its UTF-8 encoding.
pub const MAX_SERVICE_NAME_LEN: usize = 50;

/// The longest description, in bytes of its UTF-8 encoding.
pub const MAX_DESCRIPTION_LEN: usize = 100;

/// The bytes reserved for a stored record: a tag of eight bytes, the vendor,
/// the two texts each behind a length of four bytes, the price, the soulbound
/// flag and the token's identity.
pub const SERVICE_ACCOUNT_SPACE: usize = 8 + 32 + 4 + 50 + 4 + 100 + 8 + 1 + 32;

/// The length of a text in bytes of its UTF-8 encoding.
pub open spec fn encoded_len(text: Seq<char>) -> nat {
    vstd::utf8::encode_utf8(text).len()
}

/// Whether the two texts of a record fit the space reserved for them.
pub open spec fn fits_reserved_space(service_name: Seq<char>, description: Seq<char>) -> bool {
    encoded_len(service_name) <= MAX_SERVICE_NAME_LEN && encoded_len(description)
        <= MAX_DESCRIPTION_LEN
}

/// A service record as a mathematical value.
pub struct ServiceRecord {
    /// Who listed the service. Royalties go to this identity.
    pub vendor: Identity,
    pub service_name: Seq<char>,
    pub description: Seq<char>,
    /// The price of the first sale, in units of the payment currency.
    pub price: u64,
    /// Whether the minting authority of the token was revoked at listing.
    pub is_soulbound: bool,
    /// The ownership token of this service.
    pub mint: Identity,
}

/// The record of one listed service. It is written once, at listing.
///
/// Who owns the service is not recorded here: the owner is whoever holds the
/// unit of the token `mint` on the ledger.
#[derive(Debug)]
pub struct ServiceAccount {
    pub vendor: Identity,
    pub service_name: String,
    pub description: String,
    pub price: u64,
    pub is_soulbound: bool,
    pub mint: Identity,
}

impl View for ServiceAccount {
    type V = ServiceRecord;

    open spec fn view(&self) -> ServiceRecord {
        ServiceRecord {
            vendor: self.vendor,
            service_name: self.service_name@,
            description: self.description@,
            price: self.price,
            is_soulbound: self.is_soulbound,
            mint: self.mint,
        }
    }
}

impl Clone for ServiceAccount {
    fn clone(&self) -> (copy: Self)
        ensures
            copy@ == self@,
    {
        ServiceAccount {
            vendor: self.vendor,
            service_name: self.service_name.clone(),
            description: self.description.clone(),
            price: self.price,
            is_soulbound: self.is_soulbound,
            mint: self.mint,
        }
    }
}

/// Whether the two texts fit the space reserved for them in a record.
pub fn texts_fit(service_name: &String, description: &String) -> (b: bool)
    ensures
        b == fits_reserved_space(service_name@, description@),
{
    service_name.as_str().as_bytes().len() <= MAX_SERVICE_NAME_LEN
        && description.as_str().as_bytes().len() <= MAX_DESCRIPTION_LEN
}

impl ServiceAccount {
    /// The bytes that the stored record takes.
    pub open spec fn encoded_size(record: ServiceRecord) -> nat {
        8 + 32 + 4 + encoded_len(record.service_name) + 4 + encoded_len(record.description) + 8 + 1
            + 32
    }

    /// A record whose texts fit their reserved space fits the space reserved
    /// for the whole record.
    pub proof fn law_record_fits_account_space(record: ServiceRecord)
        requires
            fits_reserved_space(record.service_name, record.description),
        ensures
            Self::encoded_size(record) <= SERVICE_ACCOUNT_SPACE,
    {
    }
}

} // verus!
