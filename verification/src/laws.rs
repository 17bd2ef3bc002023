//! Laws of the marketplace that span more than one operation.

use vstd::prelude::*;
use crate::error::MarketError;
use crate::identity::{Identity, Party};
use crate::market::{
    purchase_outcome, purchase_settled, resale_authorized, resale_outcome, resale_settled,
};
use crate::plan::{purchase_steps, resale_steps};
use crate::record::ServiceRecord;
use crate::royalty::royalty_fee;
use crate::state::{LedgerState, Step};

verus! {

/// A step that goes through leaves a revoked token revoked, with the supply
/// it had.
pub proof fn law_step_keeps_revocation(state: LedgerState, step: Step, token: Identity)
    requires
        state.revoked(token),
        state.apply(step) is Ok,
    ensures
        state.apply(step)->Ok_0.revoked(token),
        state.apply(step)->Ok_0.supply(token) == state.supply(token),
{
}

proof fn lemma_run_keeps_revocation(state: LedgerState, steps: Seq<Step>, start: int, token: Identity)
    requires
        state.revoked(token),
        state.run_from(steps, start) is Ok,
    ensures
        state.run_from(steps, start)->Ok_0.revoked(token),
        state.run_from(steps, start)->Ok_0.supply(token) == state.supply(token),
    decreases steps.len() - start,
{
    if 0 <= start < steps.len() {
        law_step_keeps_revocation(state, steps[start], token);
        lemma_run_keeps_revocation(state.apply(steps[start])->Ok_0, steps, start + 1, token);
    }
}

/// Once the minting authority of a token is revoked, whatever steps the
/// ledger carries out afterwards, no further unit of the token is minted: the
/// token stays revoked, its supply stays what it was, and every request to
/// mint it is rejected with `MintFailed`. A holder can still transfer a unit.
pub proof fn law_revoked_token_is_never_minted_again(
    state: LedgerState,
    steps: Seq<Step>,
    token: Identity,
    authority: Identity,
    from: Identity,
    to: Identity,
    amount: nat,
)
    requires
        state.revoked(token),
        state.run(steps) is Ok,
    ensures
        state.run(steps)->Ok_0.revoked(token),
        state.run(steps)->Ok_0.supply(token) == state.supply(token),
        state.run(steps)->Ok_0.mint(token, authority, to, amount) == Err::<
            LedgerState,
            MarketError,
        >(MarketError::MintFailed),
        state.run(steps)->Ok_0.balance(token, from) >= 1 ==> state.run(steps)->Ok_0.transfer(
            token,
            from,
            to,
            1,
        ) is Ok,
{
    lemma_run_keeps_revocation(state, steps, 0, token);
}

/// A sale creates and destroys nothing: whether a first sale or a resale,
/// and whoever the parties are, every token has afterwards the supply and the
/// minting authority that it had.
pub proof fn law_sales_keep_every_supply(
    state: LedgerState,
    record: ServiceRecord,
    seller: Party,
    buyer: Party,
    sale_price: u64,
)
    ensures
        purchase_outcome(state, record, seller, buyer) is Ok ==> purchase_outcome(
            state,
            record,
            seller,
            buyer,
        )->Ok_0.issues == state.issues,
        resale_outcome(state, record, seller, buyer, sale_price) is Ok ==> resale_outcome(
            state,
            record,
            seller,
            buyer,
            sale_price,
        )->Ok_0.issues == state.issues,
{
    reveal_with_fuel(LedgerState::run_from, 4);
    let currency = state.currency;
    if purchase_outcome(state, record, seller, buyer) is Ok {
        let steps = purchase_steps(currency, record, buyer.identity);
        let a1 = state.apply(steps[0]);
        let a2 = a1->Ok_0.apply(steps[1]);
        assert(state.run(steps) == a2);
    }
    if resale_outcome(state, record, seller, buyer, sale_price) is Ok {
        let steps = resale_steps(currency, record, seller.identity, buyer.identity, sale_price);
        let b1 = state.apply(steps[0]);
        let b2 = b1->Ok_0.apply(steps[1]);
        let b3 = b2->Ok_0.apply(steps[2]);
        assert(state.run(steps) == b3);
    }
}

/// A first sale cannot be replayed. When the vendor held the one unit and has
/// sold it to someone else, a second attempt at the same sale, by a consumer
/// who can pay again, is rejected with `InsufficientAssetBalance`.
pub proof fn law_purchase_is_not_replayable(
    state: LedgerState,
    sold: LedgerState,
    record: ServiceRecord,
    vendor: Party,
    consumer: Party,
)
    requires
        consumer.identity != record.vendor,
        record.mint != state.currency,
        state.balance(record.mint, record.vendor) == 1,
        purchase_outcome(state, record, vendor, consumer) == Ok::<LedgerState, MarketError>(sold),
        sold.balance(sold.currency, consumer.identity) >= record.price,
    ensures
        purchase_outcome(sold, record, vendor, consumer) == Err::<LedgerState, MarketError>(
            MarketError::InsufficientAssetBalance,
        ),
{
    crate::market::law_purchase_settles(state, record, vendor, consumer);
    crate::market::law_purchase_settles(sold, record, vendor, consumer);
}

/// A resale cannot be replayed. When the reseller held the one unit and has
/// sold it to someone else, a second attempt at the same resale, by a buyer
/// who can pay again, is rejected with `InsufficientAssetBalance`.
pub proof fn law_resale_is_not_replayable(
    state: LedgerState,
    sold: LedgerState,
    record: ServiceRecord,
    reseller: Party,
    buyer: Party,
    sale_price: u64,
)
    requires
        reseller.identity != buyer.identity,
        record.mint != state.currency,
        state.balance(record.mint, reseller.identity) == 1,
        resale_outcome(state, record, reseller, buyer, sale_price) == Ok::<
            LedgerState,
            MarketError,
        >(sold),
        sold.balance(sold.currency, buyer.identity) >= sale_price,
    ensures
        resale_outcome(sold, record, reseller, buyer, sale_price) == Err::<
            LedgerState,
            MarketError,
        >(MarketError::InsufficientAssetBalance),
{
    reveal_with_fuel(LedgerState::run_from, 4);
    let currency = state.currency;
    let fee = royalty_fee(sale_price as nat);
    let steps = resale_steps(currency, record, reseller.identity, buyer.identity, sale_price);
    assert(fee as u64 == fee);
    // The sale that went through.
    let a1 = state.transfer(currency, buyer.identity, reseller.identity, sale_price as nat);
    assert(state.apply(steps[0]) == a1);
    let a2 = a1->Ok_0.transfer(currency, reseller.identity, record.vendor, fee);
    assert(a1->Ok_0.apply(steps[1]) == a2);
    let a3 = a2->Ok_0.transfer(record.mint, reseller.identity, buyer.identity, 1);
    assert(a2->Ok_0.apply(steps[2]) == a3);
    assert(a3 == Ok::<LedgerState, MarketError>(sold));
    assert(sold.balance(record.mint, reseller.identity) == 0);
    // The second attempt.
    let b1 = sold.transfer(currency, buyer.identity, reseller.identity, sale_price as nat);
    assert(sold.apply(steps[0]) == b1);
    let b2 = b1->Ok_0.transfer(currency, reseller.identity, record.vendor, fee);
    assert(b1->Ok_0.apply(steps[1]) == b2);
    assert(b2 is Ok);
    let b3 = b2->Ok_0.transfer(record.mint, reseller.identity, buyer.identity, 1);
    assert(b2->Ok_0.apply(steps[2]) == b3);
    assert(b2->Ok_0.balance(record.mint, reseller.identity) == 0);
}

/// A resale for nothing goes through whenever both parties have signed and
/// the reseller holds a unit: no royalty is owed, nobody's balance in the
/// currency changes, and the unit goes to the buyer.
pub proof fn law_free_resale_moves_only_the_token(
    state: LedgerState,
    record: ServiceRecord,
    reseller: Party,
    buyer: Party,
)
    requires
        resale_authorized(reseller, buyer),
        record.mint != state.currency,
        state.balance(record.mint, reseller.identity) >= 1,
    ensures
        royalty_fee(0) == 0,
        resale_outcome(state, record, reseller, buyer, 0) is Ok,
        forall|owner: Identity| #[trigger]
            resale_outcome(state, record, reseller, buyer, 0)->Ok_0.balance(state.currency, owner)
                == state.balance(state.currency, owner),
        reseller.identity != buyer.identity ==> resale_outcome(
            state,
            record,
            reseller,
            buyer,
            0,
        )->Ok_0.balance(record.mint, buyer.identity) == state.balance(
            record.mint,
            buyer.identity,
        ) + 1 && resale_outcome(state, record, reseller, buyer, 0)->Ok_0.balance(
            record.mint,
            reseller.identity,
        ) == state.balance(record.mint, reseller.identity) - 1,
{
    reveal_with_fuel(LedgerState::run_from, 4);
    let currency = state.currency;
    let steps = resale_steps(currency, record, reseller.identity, buyer.identity, 0);
    let a1 = state.transfer(currency, buyer.identity, reseller.identity, 0);
    assert(state.apply(steps[0]) == a1);
    let a2 = a1->Ok_0.transfer(currency, reseller.identity, record.vendor, 0);
    assert(a1->Ok_0.apply(steps[1]) == a2);
    let a3 = a2->Ok_0.transfer(record.mint, reseller.identity, buyer.identity, 1);
    assert(a2->Ok_0.apply(steps[2]) == a3);
    assert(state.run(steps) == a3);
}

/// A first sale hands the ownership over: when the vendor was the sole holder
/// of the token, the consumer is its sole holder afterwards, and the supply
/// of the token is what it was.
pub proof fn law_purchase_hands_over_ownership(
    before: LedgerState,
    after: LedgerState,
    record: ServiceRecord,
    consumer: Identity,
)
    requires
        consumer != record.vendor,
        record.mint != before.currency,
        before.sole_holder(record.mint, record.vendor),
        purchase_settled(before, after, record, consumer),
    ensures
        after.sole_holder(record.mint, consumer),
        after.supply(record.mint) == before.supply(record.mint),
{
    assert forall|other: Identity| other != consumer implies #[trigger] after.balance(
        record.mint,
        other,
    ) == 0 by {
        assert(before.balance(record.mint, other) == if other == record.vendor {
            1nat
        } else {
            0nat
        });
    }
    assert(before.balance(record.mint, consumer) == 0);
}

/// A resale hands the ownership over: when the reseller was the sole holder
/// of the token, the buyer is its sole holder afterwards, and the supply of
/// the token is what it was.
pub proof fn law_resale_hands_over_ownership(
    before: LedgerState,
    after: LedgerState,
    record: ServiceRecord,
    reseller: Identity,
    buyer: Identity,
    sale_price: u64,
)
    requires
        reseller != buyer,
        record.mint != before.currency,
        before.sole_holder(record.mint, reseller),
        resale_settled(before, after, record, reseller, buyer, sale_price),
    ensures
        after.sole_holder(record.mint, buyer),
        after.supply(record.mint) == before.supply(record.mint),
{
    assert forall|other: Identity| other != buyer implies #[trigger] after.balance(
        record.mint,
        other,
    ) == 0 by {
        assert(before.balance(record.mint, other) == if other == reseller {
            1nat
        } else {
            0nat
        });
    }
    assert(before.balance(record.mint, buyer) == 0);
}

} // verus!
