//! Share accounting: what a deposit mints and what a withdrawal returns.
//!
//! The first deposit into a pool sets its price and mints as many shares as
//! the greater of its two amounts. A later deposit is taken in the pool's own
//! proportion: of the two offered amounts the one that is proportionally
//! scarcer is taken whole, the other is cut down to match, and shares are
//! minted in the proportion of what was taken to what the pool held.

use crate::fixed::{
    lemma_scaled_product_at_most, lemma_scaled_quotient_at_most_one, saturated, scaled_product,
    scaled_quotient, Ratio,
};
use vstd::prelude::*;

verus! {

/// The increments of a deposit: what is taken of the listed currency, what is
/// taken of the base currency, and the shares minted for it.
#[derive(Clone, Copy, Debug, PartialEq, Eq, Structural)]
pub struct Increment {
    pub other: u128,
    pub base: u128,
    pub share: u128,
}

/// The price `base / other` as a fixed-point numerator.
pub open spec fn price(base: nat, other: nat) -> nat
    recommends
        other > 0,
{
    saturated(scaled_quotient(base, other))
}

/// Shares minted for `amount` added to a reserve of `pool`, out of
/// `total_shares` in issue; `0` where the product does not fit in 128 bits.
pub open spec fn minted_share(amount: nat, pool: nat, total_shares: nat) -> nat
    recommends
        pool > 0,
{
    let share = scaled_product(price(amount, pool), total_shares);
    if share > u128::MAX {
        0
    } else {
        share
    }
}

/// Shares minted by the first deposit into a pool.
pub open spec fn initial_share(max_other: nat, max_base: nat) -> nat {
    if max_other >= max_base {
        max_other
    } else {
        max_base
    }
}

/// What a deposit of at most `(max_other, max_base)` adds to a pool that
/// holds `(pool_other, pool_base)` and has `total_shares` in issue. Where the
/// offered price `max_base / max_other` is at most the pool's, the base
/// amount is taken whole; otherwise the other amount is.
pub open spec fn liquidity_increment(
    pool_other: nat,
    pool_base: nat,
    total_shares: nat,
    max_other: nat,
    max_base: nat,
) -> (nat, nat, nat)
    recommends
        max_other > 0,
        total_shares > 0 ==> pool_other > 0 && pool_base > 0,
{
    if total_shares == 0 {
        (max_other, max_base, initial_share(max_other, max_base))
    } else if price(max_base, max_other) <= price(pool_base, pool_other) {
        let other = saturated(scaled_product(price(pool_other, pool_base), max_base));
        (other, max_base, minted_share(other, pool_other, total_shares))
    } else {
        let base = saturated(scaled_product(price(pool_base, pool_other), max_other));
        (max_other, base, minted_share(base, pool_base, total_shares))
    }
}

/// What `share` out of `total_shares` withdraws from a reserve of `pool`.
pub open spec fn withdrawn_amount(share: nat, total_shares: nat, pool: nat) -> nat
    recommends
        total_shares > 0,
{
    saturated(scaled_product(price(share, total_shares), pool))
}

/// A withdrawal of no more shares than are in issue takes no more than the
/// reserve holds, and takes all of it exactly when every share is returned.
pub proof fn lemma_withdrawn_amount_bounded(share: nat, total_shares: nat, pool: nat)
    requires
        0 < total_shares,
        share <= total_shares,
        pool <= u128::MAX,
    ensures
        withdrawn_amount(share, total_shares, pool) == scaled_product(
            scaled_quotient(share, total_shares),
            pool,
        ),
        withdrawn_amount(share, total_shares, pool) <= pool,
        share == total_shares ==> withdrawn_amount(share, total_shares, pool) == pool,
        share < total_shares && pool > 0 ==> withdrawn_amount(share, total_shares, pool) < pool,
{
    lemma_scaled_quotient_at_most_one(share, total_shares);
    lemma_scaled_product_at_most(scaled_quotient(share, total_shares), pool);
    if share == total_shares {
        crate::fixed::lemma_scaled_quotient_of_equal(total_shares);
        crate::fixed::lemma_scaled_product_by_one(pool);
    } else if pool > 0 {
        crate::fixed::lemma_scaled_quotient_below_one(share, total_shares);
        crate::fixed::lemma_scaled_product_below(scaled_quotient(share, total_shares), pool);
    }
}

/// Shares minted for `amount` added to a reserve of `pool`.
fn mint(amount: u128, pool: u128, total_shares: u128) -> (share: u128)
    requires
        pool > 0,
    ensures
        share as nat == minted_share(amount as nat, pool as nat, total_shares as nat),
{
    match Ratio::from_rational(amount, pool).unwrap().checked_mul_int(total_shares) {
        Some(share) => share,
        None => 0,
    }
}

/// Computes the increments of a deposit of at most `(max_other, max_base)`.
pub fn increment(
    pool_other: u128,
    pool_base: u128,
    total_shares: u128,
    max_other: u128,
    max_base: u128,
) -> (inc: Increment)
    requires
        max_other > 0,
        total_shares > 0 ==> pool_other > 0 && pool_base > 0,
    ensures
        (inc.other as nat, inc.base as nat, inc.share as nat) == liquidity_increment(
            pool_other as nat,
            pool_base as nat,
            total_shares as nat,
            max_other as nat,
            max_base as nat,
        ),
{
    if total_shares == 0 {
        let share: u128 = if max_other >= max_base {
            max_other
        } else {
            max_base
        };
        return Increment { other: max_other, base: max_base, share };
    }
    let pool_price = Ratio::from_rational(pool_base, pool_other).unwrap();
    let input_price = Ratio::from_rational(max_base, max_other).unwrap();
    if input_price.le(&pool_price) {
        let inverse_price = Ratio::from_rational(pool_other, pool_base).unwrap();
        let other: u128 = inverse_price.saturating_mul_int(max_base);
        Increment { other, base: max_base, share: mint(other, pool_other, total_shares) }
    } else {
        let base: u128 = pool_price.saturating_mul_int(max_other);
        Increment { other: max_other, base, share: mint(base, pool_base, total_shares) }
    }
}

/// Computes what `share` out of `total_shares` withdraws from a reserve.
pub fn withdrawal(share: u128, total_shares: u128, pool: u128) -> (amount: u128)
    requires
        total_shares > 0,
    ensures
        amount as nat == withdrawn_amount(share as nat, total_shares as nat, pool as nat),
{
    Ratio::from_rational(share, total_shares).unwrap().saturating_mul_int(pool)
}

} // verus!
