//! Constant-product pricing with a fee on the output side.
//!
//! A trade against reserves `(supply_pool, target_pool)` keeps the product of
//! the reserves: supplying `supply_amount` leaves
//! `supply_pool * target_pool / (supply_pool + supply_amount)` in the target
//! reserve, and the difference, less the fee, is paid out. Both directions
//! return `0` where no price can be computed.

use crate::fixed::{
    lemma_floor_bounds, lemma_scaled_product_at_most, lemma_scaled_product_by_one,
    lemma_scaled_quotient_at_most_one, lemma_scaled_quotient_of_equal, saturated, scaled_product,
    scaled_quotient, Ratio, ACCURACY,
};
use vstd::prelude::*;

verus! {

/// What a trade of `supply_amount` leaves in the target reserve, rounded
/// towards zero twice (once for the ratio, once for its product); `0` where
/// the grown supply reserve is zero or does not fit in 128 bits.
pub open spec fn new_target_pool(supply_pool: nat, target_pool: nat, supply_amount: nat) -> nat {
    if supply_pool + supply_amount == 0 || supply_pool + supply_amount > u128::MAX {
        0
    } else {
        scaled_product(scaled_quotient(supply_pool, supply_pool + supply_amount), target_pool)
    }
}

/// The part of the target reserve that a trade releases before the fee.
pub open spec fn gross_target_amount(supply_pool: nat, target_pool: nat, supply_amount: nat) -> nat {
    let remaining = new_target_pool(supply_pool, target_pool, supply_amount);
    if remaining == 0 {
        0
    } else {
        (target_pool - remaining) as nat
    }
}

/// The fee withheld from a gross amount.
pub open spec fn fee_amount(fee: nat, gross: nat) -> nat {
    scaled_product(fee, gross)
}

/// The amount paid out for `supply_amount`: the released part of the target
/// reserve less the fee, and `0` where the trade cannot be priced.
pub open spec fn swap_target_amount(
    fee: nat,
    supply_pool: nat,
    target_pool: nat,
    supply_amount: nat,
) -> nat {
    let gross = gross_target_amount(supply_pool, target_pool, supply_amount);
    if fee_amount(fee, gross) > gross {
        0
    } else {
        (gross - fee_amount(fee, gross)) as nat
    }
}

/// The amount that must leave the target reserve so that `target_amount`
/// remains after the fee: `target_amount / (1 - fee)`, rounded towards zero
/// twice.
pub open spec fn gross_for_target(fee: nat, target_amount: nat) -> nat
    recommends
        fee < ACCURACY,
{
    scaled_product(scaled_quotient(ACCURACY as nat, (ACCURACY - fee) as nat), target_amount)
}

/// The supply that the constant product asks for `target_amount`:
/// `supply_pool * target_pool / (target_pool - gross) - supply_pool`, and `0`
/// where the fee is one or more, the reserve cannot release the gross amount,
/// or the result is not a positive 128-bit integer.
pub open spec fn swap_supply_amount(
    fee: nat,
    supply_pool: nat,
    target_pool: nat,
    target_amount: nat,
) -> nat {
    if fee >= ACCURACY {
        0
    } else {
        let gross = gross_for_target(fee, target_amount);
        if gross >= target_pool {
            0
        } else {
            let grown = scaled_product(
                saturated(scaled_quotient(supply_pool, (target_pool - gross) as nat)),
                target_pool,
            );
            if grown > u128::MAX || grown < supply_pool {
                0
            } else {
                (grown - supply_pool) as nat
            }
        }
    }
}

/// The remaining target reserve never exceeds the reserve it is taken from.
pub proof fn lemma_new_target_pool_bounded(supply_pool: nat, target_pool: nat, supply_amount: nat)
    ensures
        new_target_pool(supply_pool, target_pool, supply_amount) <= target_pool,
{
    let grown = supply_pool + supply_amount;
    if grown != 0 && grown <= u128::MAX {
        lemma_scaled_quotient_at_most_one(supply_pool, grown);
        lemma_scaled_product_at_most(scaled_quotient(supply_pool, grown), target_pool);
    }
}

/// What a trade pays out never exceeds what it releases, which never
/// reaches the whole target reserve.
pub proof fn lemma_swap_target_amount_bounded(
    fee: nat,
    supply_pool: nat,
    target_pool: nat,
    supply_amount: nat,
)
    ensures
        swap_target_amount(fee, supply_pool, target_pool, supply_amount) <= gross_target_amount(
            supply_pool,
            target_pool,
            supply_amount,
        ),
        gross_target_amount(supply_pool, target_pool, supply_amount) <= target_pool,
        swap_target_amount(fee, supply_pool, target_pool, supply_amount) > 0 ==> {
            &&& supply_pool + supply_amount <= u128::MAX
            &&& swap_target_amount(fee, supply_pool, target_pool, supply_amount) < target_pool
        },
{
    lemma_new_target_pool_bounded(supply_pool, target_pool, supply_amount);
}

/// A trade that supplies nothing is paid nothing.
pub proof fn lemma_no_supply_no_target(fee: nat, supply_pool: nat, target_pool: nat)
    requires
        target_pool <= u128::MAX,
    ensures
        swap_target_amount(fee, supply_pool, target_pool, 0) == 0,
{
    assert(scaled_product(fee, 0) == 0) by (nonlinear_arith);
    if supply_pool != 0 && supply_pool <= u128::MAX {
        lemma_scaled_quotient_of_equal(supply_pool);
        lemma_scaled_product_by_one(target_pool);
    }
}

/// Prices a trade of `supply_amount` into the reserves
/// `(supply_pool, target_pool)` under the fee rate `fee`.
pub fn target_amount(fee: Ratio, supply_pool: u128, target_pool: u128, supply_amount: u128) -> (out:
    u128)
    ensures
        out as nat == swap_target_amount(
            fee@,
            supply_pool as nat,
            target_pool as nat,
            supply_amount as nat,
        ),
{
    proof {
        lemma_new_target_pool_bounded(
            supply_pool as nat,
            target_pool as nat,
            supply_amount as nat,
        );
    }
    let remaining: u128 = match supply_pool.checked_add(supply_amount) {
        None => 0,
        Some(grown) => match Ratio::from_rational(supply_pool, grown) {
            None => 0,
            Some(ratio) => {
                proof {
                    lemma_scaled_quotient_at_most_one(supply_pool as nat, grown as nat);
                    lemma_scaled_product_at_most(
                        scaled_quotient(supply_pool as nat, grown as nat),
                        target_pool as nat,
                    );
                }
                match ratio.checked_mul_int(target_pool) {
                    Some(kept) => kept,
                    None => 0,
                }
            },
        },
    };
    assert(remaining as nat == new_target_pool(
        supply_pool as nat,
        target_pool as nat,
        supply_amount as nat,
    ));
    if remaining != 0 {
        match target_pool.checked_sub(remaining) {
            None => 0,
            Some(gross) => {
                let withheld: u128 = fee.saturating_mul_int(gross);
                match gross.checked_sub(withheld) {
                    Some(net) => net,
                    None => 0,
                }
            },
        }
    } else {
        proof {
            assert(scaled_product(fee@, 0) == 0) by (nonlinear_arith);
        }
        0
    }
}

/// Quotes the supply that buys `target_amount` out of the reserves
/// `(supply_pool, target_pool)` under the fee rate `fee`.
pub fn supply_amount(fee: Ratio, supply_pool: u128, target_pool: u128, target_amount: u128) -> (supply:
    u128)
    ensures
        supply as nat == swap_supply_amount(
            fee@,
            supply_pool as nat,
            target_pool as nat,
            target_amount as nat,
        ),
{
    let one = Ratio::from_natural(1);
    assert(one@ == ACCURACY);
    let kept = match one.checked_sub(&fee) {
        None => { return 0; },
        Some(kept) => kept,
    };
    let inverse = match one.checked_div(&kept) {
        None => {
            proof {
                if kept@ != 0 {
                    lemma_inverse_fits(kept@);
                }
            }
            return 0;
        },
        Some(inverse) => inverse,
    };
    let gross: u128 = match inverse.checked_mul_int(target_amount) {
        None => { return 0; },
        Some(gross) => gross,
    };
    let left: u128 = match target_pool.checked_sub(gross) {
        None => { return 0; },
        Some(left) => left,
    };
    let ratio = match Ratio::from_rational(supply_pool, left) {
        None => { return 0; },
        Some(ratio) => ratio,
    };
    let grown: u128 = match ratio.checked_mul_int(target_pool) {
        None => { return 0; },
        Some(grown) => grown,
    };
    match grown.checked_sub(supply_pool) {
        None => 0,
        Some(supply) => supply,
    }
}

/// The inverse of a positive fixed-point value of at most one is
/// representable.
pub proof fn lemma_inverse_fits(kept: nat)
    requires
        0 < kept <= ACCURACY,
    ensures
        scaled_quotient(ACCURACY as nat, kept) <= u128::MAX,
{
    let a = ACCURACY as nat;
    lemma_floor_bounds(a * a, kept);
    let q = a * a / kept;
    assert(q <= a * a) by (nonlinear_arith)
        requires
            kept >= 1,
            q * kept <= a * a,
    ;
    assert(a * a <= u128::MAX) by (nonlinear_arith)
        requires
            a == 1_000_000_000_000_000_000,
    ;
}

} // verus!
