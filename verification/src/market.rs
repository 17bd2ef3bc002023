//! The marketplace operations: listing a service, its first sale, and every
//! later resale.
//!
//! Each operation is one atomic unit. It either takes effect as a whole or is
//! rejected with the ledger and the registry as they were.

use vstd::prelude::*;
use crate::error::MarketError;
use crate::identity::{Identity, Party};
use crate::ledger::Ledger;
use crate::plan::{listing_steps, plan_listing, plan_purchase, plan_resale, purchase_steps, resale_steps};
use crate::record::{fits_reserved_space, texts_fit, ServiceAccount, ServiceRecord};
use crate::registry::Registry;
use crate::royalty::{royalty_fee, royalty_overflows};
use crate::state::{Issuance, LedgerState};

verus! {

/// The parties to `initialize`: none.
#[derive(Clone, Copy, Debug)]
pub struct Initialize {}

/// The parties to a listing.
#[derive(Clone, Copy, Debug)]
pub struct ListService {
    /// Who lists the service. The vendor has to sign.
    pub vendor: Party,
    /// The identity of the ownership token to be minted. It has to be new.
    pub mint: Identity,
}

/// The parties to a first sale.
#[derive(Debug)]
pub struct PurchaseService {
    /// The record of the service that is sold.
    pub service_account: ServiceAccount,
    /// The seller: the vendor of the record, who has to sign.
    pub vendor: Party,
    /// The buyer, who has to sign.
    pub consumer: Party,
}

/// The parties to a resale.
#[derive(Debug)]
pub struct ResaleService {
    /// The record of the service that is sold.
    pub service_account: ServiceAccount,
    /// The seller, who has to sign.
    pub reseller: Party,
    /// The buyer, who has to sign.
    pub buyer: Party,
}

/// Why a listing is rejected, if it is: the vendor has not signed, a text is
/// too long, or the token is not new.
pub open spec fn list_rejection(
    listed: Map<Identity, ServiceRecord>,
    state: LedgerState,
    ctx: ListService,
    service_name: Seq<char>,
    description: Seq<char>,
) -> Option<MarketError> {
    if !ctx.vendor.signed {
        Some(MarketError::Unauthorized)
    } else if !fits_reserved_space(service_name, description) {
        Some(MarketError::CapacityExceeded)
    } else if listed.contains_key(ctx.mint) || state.issued(ctx.mint) {
        Some(MarketError::MintFailed)
    } else {
        None
    }
}

/// The ledger after the listing of a new token: one unit exists, the vendor
/// holds it, and the minting authority is the vendor's unless the service is
/// soulbound, in which case there is none.
pub open spec fn listed_state(
    state: LedgerState,
    vendor: Identity,
    mint: Identity,
    is_soulbound: bool,
) -> LedgerState {
    state.record_issue(
        mint,
        Issuance {
            authority: if is_soulbound {
                None
            } else {
                Some(vendor)
            },
            supply: 1,
        },
    ).credit(mint, vendor, 1)
}

/// Whether the parties to a first sale may go ahead: both have signed, and
/// the seller is the vendor of the record.
pub open spec fn purchase_authorized(record: ServiceRecord, vendor: Party, consumer: Party) -> bool {
    vendor.signed && consumer.signed && vendor.identity == record.vendor
}

/// Whether the parties to a resale may go ahead: both have signed.
pub open spec fn resale_authorized(reseller: Party, buyer: Party) -> bool {
    reseller.signed && buyer.signed
}

impl ListService {
    /// Whether the vendor has signed.
    pub fn authorized(&self) -> (b: bool)
        ensures
            b == self.vendor.signed,
    {
        self.vendor.signed
    }
}

impl PurchaseService {
    /// Whether the parties may go ahead with the sale.
    pub fn authorized(&self) -> (b: bool)
        ensures
            b == purchase_authorized(self.service_account@, self.vendor, self.consumer),
    {
        self.vendor.signed && self.consumer.signed && self.vendor.identity
            == self.service_account.vendor
    }
}

impl ResaleService {
    /// Whether the parties may go ahead with the sale.
    pub fn authorized(&self) -> (b: bool)
        ensures
            b == resale_authorized(self.reseller, self.buyer),
    {
        self.reseller.signed && self.buyer.signed
    }
}

/// The outcome of a first sale. All three conditions on the parties are
/// checked before the ledger is touched; then the payment is attempted, then
/// the handing over of the token.
pub open spec fn purchase_outcome(
    state: LedgerState,
    record: ServiceRecord,
    vendor: Party,
    consumer: Party,
) -> Result<LedgerState, MarketError> {
    if !purchase_authorized(record, vendor, consumer) {
        Err(MarketError::Unauthorized)
    } else {
        state.run(purchase_steps(state.currency, record, consumer.identity))
    }
}

/// Why a first sale between two different parties is rejected, if it is.
pub open spec fn purchase_rejection(
    state: LedgerState,
    record: ServiceRecord,
    vendor: Party,
    consumer: Party,
) -> Option<MarketError> {
    if !purchase_authorized(record, vendor, consumer) {
        Some(MarketError::Unauthorized)
    } else if state.balance(state.currency, consumer.identity) < record.price {
        Some(MarketError::InsufficientFunds)
    } else if state.balance(record.mint, record.vendor) < 1 {
        Some(MarketError::InsufficientAssetBalance)
    } else {
        None
    }
}

/// What a first sale between two different parties does: the consumer pays
/// the price to the vendor, the vendor hands one unit of the token to the
/// consumer, and nothing else changes.
pub open spec fn purchase_settled(
    before: LedgerState,
    after: LedgerState,
    record: ServiceRecord,
    consumer: Identity,
) -> bool {
    let currency = before.currency;
    let vendor = record.vendor;
    let mint = record.mint;
    &&& after.currency == currency
    &&& after.issues == before.issues
    &&& after.balance(currency, consumer) == before.balance(currency, consumer) - record.price
    &&& after.balance(currency, vendor) == before.balance(currency, vendor) + record.price
    &&& after.balance(mint, vendor) == before.balance(mint, vendor) - 1
    &&& after.balance(mint, consumer) == before.balance(mint, consumer) + 1
    &&& forall|t: Identity, o: Identity|
        !((t == currency || t == mint) && (o == consumer || o == vendor)) ==> #[trigger] after.balance(
            t,
            o,
        ) == before.balance(t, o)
}

/// The outcome of a resale. The signatures are checked first, then the
/// royalty is computed; then the buyer pays the reseller, the reseller pays
/// the royalty to the vendor of the record, and the token is handed over.
pub open spec fn resale_outcome(
    state: LedgerState,
    record: ServiceRecord,
    reseller: Party,
    buyer: Party,
    sale_price: u64,
) -> Result<LedgerState, MarketError> {
    if !resale_authorized(reseller, buyer) {
        Err(MarketError::Unauthorized)
    } else if royalty_overflows(sale_price as nat) {
        Err(MarketError::ArithmeticOverflow)
    } else {
        state.run(
            resale_steps(state.currency, record, reseller.identity, buyer.identity, sale_price),
        )
    }
}

/// Why a resale between two different parties is rejected, if it is.
pub open spec fn resale_rejection(
    state: LedgerState,
    record: ServiceRecord,
    reseller: Party,
    buyer: Party,
    sale_price: u64,
) -> Option<MarketError> {
    if !resale_authorized(reseller, buyer) {
        Some(MarketError::Unauthorized)
    } else if royalty_overflows(sale_price as nat) {
        Some(MarketError::ArithmeticOverflow)
    } else if state.balance(state.currency, buyer.identity) < sale_price {
        Some(MarketError::InsufficientFunds)
    } else if state.balance(record.mint, reseller.identity) < 1 {
        Some(MarketError::InsufficientAssetBalance)
    } else {
        None
    }
}

/// What a resale among three different parties does: the buyer pays the sale
/// price, of which the vendor of the record receives the royalty and the
/// reseller the rest; the reseller hands one unit of the token to the buyer;
/// nothing else changes.
pub open spec fn resale_settled(
    before: LedgerState,
    after: LedgerState,
    record: ServiceRecord,
    reseller: Identity,
    buyer: Identity,
    sale_price: u64,
) -> bool {
    let currency = before.currency;
    let vendor = record.vendor;
    let mint = record.mint;
    let fee = royalty_fee(sale_price as nat);
    &&& after.currency == currency
    &&& after.issues == before.issues
    &&& after.balance(currency, vendor) == before.balance(currency, vendor) + fee
    &&& after.balance(currency, reseller) == before.balance(currency, reseller) + (sale_price
        - fee)
    &&& after.balance(currency, buyer) == before.balance(currency, buyer) - sale_price
    &&& after.balance(mint, reseller) == before.balance(mint, reseller) - 1
    &&& after.balance(mint, buyer) == before.balance(mint, buyer) + 1
    &&& forall|t: Identity, o: Identity|
        !((t == currency && (o == vendor || o == reseller || o == buyer)) || (t == mint && (o
            == reseller || o == buyer))) ==> #[trigger] after.balance(t, o) == before.balance(
            t,
            o,
        )
}

/// The listing of a new token always goes through on the ledger, and leaves
/// it in the listed state.
pub proof fn lemma_listing_runs(state: LedgerState, vendor: Identity, mint: Identity, is_soulbound: bool)
    requires
        !state.issued(mint),
    ensures
        state.run(listing_steps(vendor, mint, is_soulbound)) == Ok::<LedgerState, MarketError>(
            listed_state(state, vendor, mint, is_soulbound),
        ),
{
    reveal_with_fuel(LedgerState::run_from, 3);
    let steps = listing_steps(vendor, mint, is_soulbound);
    let minted = state.mint(mint, vendor, vendor, 1)->Ok_0;
    assert(state.apply(steps[0]) == Ok::<LedgerState, MarketError>(minted));
    if is_soulbound {
        let revoked = minted.revoke_mint_authority(mint, vendor)->Ok_0;
        assert(minted.apply(steps[1]) == Ok::<LedgerState, MarketError>(revoked));
        assert(revoked.issues =~= listed_state(state, vendor, mint, is_soulbound).issues);
        assert(revoked == listed_state(state, vendor, mint, is_soulbound));
    } else {
        assert(minted == listed_state(state, vendor, mint, is_soulbound));
    }
}

/// A first sale between two different parties, of a token that is not the
/// currency, goes through exactly when both have signed, the seller is the
/// vendor of the record, the consumer can pay the price and the vendor holds
/// a unit. It then moves the price one way and the unit the other way, and
/// nothing else; otherwise it fails for the first of these reasons that
/// applies.
pub proof fn law_purchase_settles(
    state: LedgerState,
    record: ServiceRecord,
    vendor: Party,
    consumer: Party,
)
    requires
        consumer.identity != record.vendor,
        record.mint != state.currency,
    ensures
        match purchase_outcome(state, record, vendor, consumer) {
            Ok(after) => purchase_rejection(state, record, vendor, consumer) is None
                && purchase_settled(state, after, record, consumer.identity),
            Err(e) => purchase_rejection(state, record, vendor, consumer) == Some(e),
        },
{
    reveal_with_fuel(LedgerState::run_from, 3);
    let steps = purchase_steps(state.currency, record, consumer.identity);
    if vendor.signed && consumer.signed && vendor.identity == record.vendor {
        let paid = state.transfer(state.currency, consumer.identity, record.vendor, record.price as nat);
        assert(state.apply(steps[0]) == paid);
        if paid is Ok {
            let mid = paid->Ok_0;
            let handed = mid.transfer(record.mint, record.vendor, consumer.identity, 1);
            assert(mid.apply(steps[1]) == handed);
            assert(state.run(steps) == handed);
        }
    }
}

/// A resale among three different parties, of a token that is not the
/// currency, goes through exactly when reseller and buyer have signed, the
/// royalty can be computed, the buyer can pay the sale price and the reseller
/// holds a unit. The vendor of the record then receives the royalty, the
/// reseller the rest of the price, and the buyer the unit; otherwise it fails
/// for the first of these reasons that applies.
pub proof fn law_resale_settles(
    state: LedgerState,
    record: ServiceRecord,
    reseller: Party,
    buyer: Party,
    sale_price: u64,
)
    requires
        reseller.identity != buyer.identity,
        reseller.identity != record.vendor,
        buyer.identity != record.vendor,
        record.mint != state.currency,
    ensures
        match resale_outcome(state, record, reseller, buyer, sale_price) {
            Ok(after) => resale_rejection(state, record, reseller, buyer, sale_price) is None
                && resale_settled(state, after, record, reseller.identity, buyer.identity, sale_price),
            Err(e) => resale_rejection(state, record, reseller, buyer, sale_price) == Some(e),
        },
{
    reveal_with_fuel(LedgerState::run_from, 4);
    let steps = resale_steps(state.currency, record, reseller.identity, buyer.identity, sale_price);
    let fee = royalty_fee(sale_price as nat);
    if reseller.signed && buyer.signed && !royalty_overflows(sale_price as nat) {
        let paid = state.transfer(state.currency, buyer.identity, reseller.identity, sale_price as nat);
        assert(state.apply(steps[0]) == paid);
        if paid is Ok {
            let s1 = paid->Ok_0;
            assert(fee as u64 == fee);
            let shared = s1.transfer(state.currency, reseller.identity, record.vendor, fee);
            assert(s1.apply(steps[1]) == shared);
            assert(shared is Ok);
            let s2 = shared->Ok_0;
            let handed = s2.transfer(record.mint, reseller.identity, buyer.identity, 1);
            assert(s2.apply(steps[2]) == handed);
            assert(state.run(steps) == handed);
        }
    }
}

/// Greets the marketplace. Nothing is read, nothing changes, and the call
/// never fails.
pub fn initialize(ctx: &Initialize) -> (r: Result<(), MarketError>)
    ensures
        r == Ok::<(), MarketError>(()),
{
    Ok(())
}

/// Lists a service: stores its record and mints the one unit of its ownership
/// token to the vendor. For a soulbound service the minting authority is
/// revoked at once.
///
/// The listing is rejected, with nothing changed, for the first reason that
/// applies: `Unauthorized` when the vendor has not signed, `CapacityExceeded`
/// when the name takes more than 50 bytes or the description more than 100,
/// `MintFailed` when the token is already listed or already exists.
pub fn list_service(
    registry: &mut Registry,
    ledger: &mut Ledger,
    ctx: &ListService,
    service_name: String,
    description: String,
    price: u64,
    is_soulbound: bool,
) -> (r: Result<ServiceAccount, MarketError>)
    requires
        old(registry).wf(),
        old(ledger).wf(),
    ensures
        final(registry).wf(),
        final(ledger).wf(),
        match r {
            Ok(record) => {
                &&& list_rejection(
                    old(registry)@,
                    old(ledger)@,
                    *ctx,
                    service_name@,
                    description@,
                ) is None
                &&& record@ == (ServiceRecord {
                    vendor: ctx.vendor.identity,
                    service_name: service_name@,
                    description: description@,
                    price,
                    is_soulbound,
                    mint: ctx.mint,
                })
                &&& !old(registry)@.contains_key(ctx.mint)
                &&& final(registry)@ == old(registry)@.insert(ctx.mint, record@)
                &&& forall|t: Identity| #[trigger]
                    old(registry)@.contains_key(t) ==> final(registry)@.contains_key(t)
                        && final(registry)@[t] == old(registry)@[t]
                &&& final(ledger)@ == listed_state(
                    old(ledger)@,
                    ctx.vendor.identity,
                    ctx.mint,
                    is_soulbound,
                )
                &&& final(ledger)@.supply(ctx.mint) == 1
                &&& final(ledger)@.sole_holder(ctx.mint, ctx.vendor.identity)
                &&& is_soulbound ==> final(ledger)@.revoked(ctx.mint)
            },
            Err(e) => {
                &&& list_rejection(
                    old(registry)@,
                    old(ledger)@,
                    *ctx,
                    service_name@,
                    description@,
                ) == Some(e)
                &&& final(registry)@ == old(registry)@
                &&& final(ledger)@ == old(ledger)@
            },
        },
{
    if !ctx.authorized() {
        return Err(MarketError::Unauthorized);
    }
    if !texts_fit(&service_name, &description) {
        return Err(MarketError::CapacityExceeded);
    }
    if registry.contains(ctx.mint) || ledger.is_issued(ctx.mint) {
        return Err(MarketError::MintFailed);
    }
    let steps = plan_listing(ctx.vendor.identity, ctx.mint, is_soulbound);
    proof {
        lemma_listing_runs(ledger@, ctx.vendor.identity, ctx.mint, is_soulbound);
        ledger.lemma_unissued_is_unheld(ctx.mint);
    }
    match ledger.execute(&steps) {
        Err(e) => Err(e),
        Ok(()) => {
            let record = ServiceAccount {
                vendor: ctx.vendor.identity,
                service_name,
                description,
                price,
                is_soulbound,
                mint: ctx.mint,
            };
            registry.register(record.clone());
            proof {
                let before = old(ledger)@;
                let after = listed_state(before, ctx.vendor.identity, ctx.mint, is_soulbound);
                assert(ledger@ == after);
                assert(after.supply(ctx.mint) == 1);
                assert(before.balance(ctx.mint, ctx.vendor.identity) == 0);
                assert(after.balance(ctx.mint, ctx.vendor.identity) == 1);
                assert forall|other: Identity| other != ctx.vendor.identity implies #[trigger] after.balance(
                    ctx.mint,
                    other,
                ) == 0 by {
                    assert(before.balance(ctx.mint, other) == 0);
                }
                assert(after.sole_holder(ctx.mint, ctx.vendor.identity));
            }
            Ok(record)
        },
    }
}

/// The first sale of a service: the consumer pays the price of the record to
/// the vendor and receives the unit of the token from the vendor.
///
/// The sale is rejected, with nothing changed: with `Unauthorized` when the
/// vendor or the consumer has not signed or the seller is not the vendor of
/// the record; else with `InsufficientFunds` when the consumer cannot pay;
/// else with `InsufficientAssetBalance` when the vendor holds no unit.
pub fn purchase_service(ledger: &mut Ledger, ctx: &PurchaseService) -> (r: Result<(), MarketError>)
    requires
        old(ledger).wf(),
    ensures
        final(ledger).wf(),
        match r {
            Ok(()) => purchase_outcome(old(ledger)@, ctx.service_account@, ctx.vendor, ctx.consumer)
                == Ok::<LedgerState, MarketError>(final(ledger)@),
            Err(e) => purchase_outcome(old(ledger)@, ctx.service_account@, ctx.vendor, ctx.consumer)
                == Err::<LedgerState, MarketError>(e) && final(ledger)@ == old(ledger)@,
        },
        ctx.consumer.identity != ctx.service_account.vendor && ctx.service_account.mint != old(
            ledger,
        )@.currency ==> match r {
            Ok(()) => purchase_rejection(
                old(ledger)@,
                ctx.service_account@,
                ctx.vendor,
                ctx.consumer,
            ) is None && purchase_settled(
                old(ledger)@,
                final(ledger)@,
                ctx.service_account@,
                ctx.consumer.identity,
            ),
            Err(e) => purchase_rejection(
                old(ledger)@,
                ctx.service_account@,
                ctx.vendor,
                ctx.consumer,
            ) == Some(e),
        },
{
    if !ctx.authorized() {
        return Err(MarketError::Unauthorized);
    }
    let steps = plan_purchase(ledger.currency(), &ctx.service_account, ctx.consumer.identity);
    proof {
        if ctx.consumer.identity != ctx.service_account.vendor && ctx.service_account.mint
            != ledger@.currency {
            law_purchase_settles(ledger@, ctx.service_account@, ctx.vendor, ctx.consumer);
        }
    }
    ledger.execute(&steps)
}

/// A resale of a service at `sale_price`: the buyer pays the price, the
/// vendor of the record receives the royalty of five percent, rounded down,
/// the reseller keeps the rest, and the unit of the token goes from the
/// reseller to the buyer.
///
/// The sale is rejected, with nothing changed: with `Unauthorized` when the
/// reseller or the buyer has not signed; else with `ArithmeticOverflow` when
/// five times the price does not fit in 64 bits; else with `InsufficientFunds`
/// when the buyer cannot pay; else with `InsufficientAssetBalance` when the
/// reseller holds no unit.
pub fn resale_service(ledger: &mut Ledger, ctx: &ResaleService, sale_price: u64) -> (r: Result<
    (),
    MarketError,
>)
    requires
        old(ledger).wf(),
    ensures
        final(ledger).wf(),
        match r {
            Ok(()) => resale_outcome(
                old(ledger)@,
                ctx.service_account@,
                ctx.reseller,
                ctx.buyer,
                sale_price,
            ) == Ok::<LedgerState, MarketError>(final(ledger)@),
            Err(e) => resale_outcome(
                old(ledger)@,
                ctx.service_account@,
                ctx.reseller,
                ctx.buyer,
                sale_price,
            ) == Err::<LedgerState, MarketError>(e) && final(ledger)@ == old(ledger)@,
        },
        ctx.reseller.identity != ctx.buyer.identity && ctx.reseller.identity
            != ctx.service_account.vendor && ctx.buyer.identity != ctx.service_account.vendor
            && ctx.service_account.mint != old(ledger)@.currency ==> match r {
            Ok(()) => resale_rejection(
                old(ledger)@,
                ctx.service_account@,
                ctx.reseller,
                ctx.buyer,
                sale_price,
            ) is None && resale_settled(
                old(ledger)@,
                final(ledger)@,
                ctx.service_account@,
                ctx.reseller.identity,
                ctx.buyer.identity,
                sale_price,
            ),
            Err(e) => resale_rejection(
                old(ledger)@,
                ctx.service_account@,
                ctx.reseller,
                ctx.buyer,
                sale_price,
            ) == Some(e),
        },
{
    proof {
        if ctx.reseller.identity != ctx.buyer.identity && ctx.reseller.identity
            != ctx.service_account.vendor && ctx.buyer.identity != ctx.service_account.vendor
            && ctx.service_account.mint != ledger@.currency {
            law_resale_settles(
                ledger@,
                ctx.service_account@,
                ctx.reseller,
                ctx.buyer,
                sale_price,
            );
        }
    }
    if !ctx.authorized() {
        return Err(MarketError::Unauthorized);
    }
    let planned = plan_resale(
        ledger.currency(),
        &ctx.service_account,
        ctx.reseller.identity,
        ctx.buyer.identity,
        sale_price,
    );
    match planned {
        Err(e) => Err(e),
        Ok(steps) => ledger.execute(&steps),
    }
}

} // verus!
