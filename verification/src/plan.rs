//! The steps that each marketplace operation asks of the ledger, in the order
//! in which they are to be carried out.
//!
//! Whoever drives a ledger of its own takes the steps from here, carries them
//! out as one atomic unit and stops at the first that is rejected.

use vstd::prelude::*;
use crate::error::MarketError;
use crate::identity::Identity;
use crate::record::{ServiceAccount, ServiceRecord};
use crate::royalty::{royalty_fee, royalty_overflows, split_sale};
use crate::state::Step;

verus! {

/// Listing: one unit of the new token is minted to the vendor, under the
/// vendor's authority. For a soulbound service the vendor then gives that
/// authority up.
pub open spec fn listing_steps(vendor: Identity, mint: Identity, is_soulbound: bool) -> Seq<Step> {
    if is_soulbound {
        seq![
            Step::Mint { token: mint, authority: vendor, to: vendor, amount: 1 },
            Step::RevokeMintAuthority { token: mint, authority: vendor },
        ]
    } else {
        seq![Step::Mint { token: mint, authority: vendor, to: vendor, amount: 1 }]
    }
}

/// First sale: the price goes from the consumer to the vendor, then the unit
/// of the token goes from the vendor to the consumer.
pub open spec fn purchase_steps(currency: Identity, record: ServiceRecord, consumer: Identity) -> Seq<
    Step,
> {
    seq![
        Step::Transfer {
            token: currency,
            from: consumer,
            to: record.vendor,
            amount: record.price,
        },
        Step::Transfer { token: record.mint, from: record.vendor, to: consumer, amount: 1 },
    ]
}

/// Resale: the buyer pays the sale price to the reseller, the reseller passes
/// the royalty on to the vendor of the record, then the unit of the token goes
/// from the reseller to the buyer.
pub open spec fn resale_steps(
    currency: Identity,
    record: ServiceRecord,
    reseller: Identity,
    buyer: Identity,
    sale_price: u64,
) -> Seq<Step> {
    seq![
        Step::Transfer { token: currency, from: buyer, to: reseller, amount: sale_price },
        Step::Transfer {
            token: currency,
            from: reseller,
            to: record.vendor,
            amount: royalty_fee(sale_price as nat) as u64,
        },
        Step::Transfer { token: record.mint, from: reseller, to: buyer, amount: 1 },
    ]
}

/// The steps of a listing.
pub fn plan_listing(vendor: Identity, mint: Identity, is_soulbound: bool) -> (steps: Vec<Step>)
    ensures
        steps@ == listing_steps(vendor, mint, is_soulbound),
{
    let mut steps: Vec<Step> = Vec::new();
    steps.push(Step::Mint { token: mint, authority: vendor, to: vendor, amount: 1 });
    if is_soulbound {
        steps.push(Step::RevokeMintAuthority { token: mint, authority: vendor });
    }
    assert(steps@ =~= listing_steps(vendor, mint, is_soulbound));
    steps
}

/// The steps of the first sale of the service of `record` to `consumer`.
pub fn plan_purchase(currency: Identity, record: &ServiceAccount, consumer: Identity) -> (steps:
    Vec<Step>)
    ensures
        steps@ == purchase_steps(currency, record@, consumer),
{
    let mut steps: Vec<Step> = Vec::new();
    steps.push(
        Step::Transfer { token: currency, from: consumer, to: record.vendor, amount: record.price },
    );
    steps.push(Step::Transfer { token: record.mint, from: record.vendor, to: consumer, amount: 1 });
    assert(steps@ =~= purchase_steps(currency, record@, consumer));
    steps
}

/// The steps of a resale of the service of `record` from `reseller` to `buyer`
/// at `sale_price`.
///
/// Fails with `ArithmeticOverflow` exactly when the price is too large for the
/// royalty to be computed.
pub fn plan_resale(
    currency: Identity,
    record: &ServiceAccount,
    reseller: Identity,
    buyer: Identity,
    sale_price: u64,
) -> (r: Result<Vec<Step>, MarketError>)
    ensures
        match r {
            Ok(steps) => !royalty_overflows(sale_price as nat) && steps@ == resale_steps(
                currency,
                record@,
                reseller,
                buyer,
                sale_price,
            ),
            Err(e) => royalty_overflows(sale_price as nat) && e == MarketError::ArithmeticOverflow,
        },
{
    match split_sale(sale_price) {
        Err(e) => Err(e),
        Ok(split) => {
            let mut steps: Vec<Step> = Vec::new();
            steps.push(
                Step::Transfer { token: currency, from: buyer, to: reseller, amount: sale_price },
            );
            steps.push(
                Step::Transfer {
                    token: currency,
                    from: reseller,
                    to: record.vendor,
                    amount: split.royalty_fee,
                },
            );
            steps.push(Step::Transfer { token: record.mint, from: reseller, to: buyer, amount: 1 });
            assert(steps@ =~= resale_steps(currency, record@, reseller, buyer, sale_price));
            Ok(steps)
        },
    }
}

} // verus!
