//! The royalty owed on every resale to the vendor who listed the service.

use vstd::prelude::*;
use crate::error::MarketError;

verus! {

/// The royalty rate, in percent of the sale price.
pub const ROYALTY_PERCENT: u64 = 5;

/// The royalty on a sale: five percent of the price, rounded down.
pub open spec fn royalty_fee(sale_price: nat) -> nat {
    sale_price * ROYALTY_PERCENT as nat / 100
}

/// What the seller keeps of a sale.
pub open spec fn remaining_after_royalty(sale_price: nat) -> nat {
    (sale_price - royalty_fee(sale_price)) as nat
}

/// Whether the price is too large for the 64-bit product that the royalty is
/// computed from.
pub open spec fn royalty_overflows(sale_price: nat) -> bool {
    sale_price * ROYALTY_PERCENT as nat > u64::MAX
}

/// A sale price divided between the vendor who listed the service and the
/// seller.
#[derive(Clone, Copy, Debug, PartialEq, Eq, Structural)]
pub struct SaleSplit {
    pub royalty_fee: u64,
    pub remaining: u64,
}

/// Divides a sale price into the royalty and what remains for the seller.
///
/// Fails with `ArithmeticOverflow` exactly when five times the price does not
/// fit in 64 bits.
pub fn split_sale(sale_price: u64) -> (r: Result<SaleSplit, MarketError>)
    ensures
        r == (if royalty_overflows(sale_price as nat) {
            Err::<SaleSplit, MarketError>(MarketError::ArithmeticOverflow)
        } else {
            Ok(
                SaleSplit {
                    royalty_fee: royalty_fee(sale_price as nat) as u64,
                    remaining: remaining_after_royalty(sale_price as nat) as u64,
                },
            )
        }),
{
    match sale_price.checked_mul(ROYALTY_PERCENT) {
        None => Err(MarketError::ArithmeticOverflow),
        Some(scaled) => {
            let fee: u64 = scaled / 100;
            Ok(SaleSplit { royalty_fee: fee, remaining: sale_price - fee })
        },
    }
}

/// The royalty is the floor of five percent of the price: it is the largest
/// whole number whose hundredfold does not exceed five times the price. It is
/// also a twentieth of the price, rounded down, and never more than the price.
pub proof fn law_royalty_is_floor_of_five_percent(sale_price: nat)
    ensures
        royalty_fee(sale_price) * 100 <= sale_price * 5,
        sale_price * 5 < (royalty_fee(sale_price) + 1) * 100,
        royalty_fee(sale_price) == sale_price / 20,
        royalty_fee(sale_price) <= sale_price,
        royalty_fee(sale_price) + remaining_after_royalty(sale_price) == sale_price,
{
}

/// A free sale owes no royalty and leaves nothing to the seller.
pub proof fn law_free_sale_splits_to_nothing()
    ensures
        !royalty_overflows(0),
        royalty_fee(0) == 0,
        remaining_after_royalty(0) == 0,
{
}

} // verus!
