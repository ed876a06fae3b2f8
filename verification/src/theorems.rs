//! What holds of the pricing and of the share accounting for all inputs.

use crate::fixed::{
    lemma_floor_bounds, lemma_scaled_product_at_most, saturated, scaled_product, scaled_quotient,
    ACCURACY,
};
use crate::pricing::{
    fee_amount, gross_for_target, gross_target_amount, lemma_new_target_pool_bounded,
    new_target_pool, swap_supply_amount, swap_target_amount,
};
use crate::shares::{
    lemma_withdrawn_amount_bounded, liquidity_increment, minted_share, price, withdrawn_amount,
};
use crate::module::{balanced, Module};
use crate::runtime::Runtime;
use crate::store::{held_at, held_sum, lemma_base_at_most_sum, lemma_held_at_most_sum, pool_at};
use crate::types::{AccountId, Balance, CurrencyId};
use vstd::prelude::*;

verus! {

/// What the two roundings of a price take from the product of the reserves:
/// the product before the trade less the product of the grown supply reserve
/// and the remaining target reserve.
pub open spec fn rounding_loss(supply_pool: nat, target_pool: nat, supply_amount: nat) -> int {
    supply_pool * target_pool - (supply_pool + supply_amount) * new_target_pool(
        supply_pool,
        target_pool,
        supply_amount,
    )
}

/// The reserve that remains after a trade is rounded towards zero, so the
/// product of the reserves without the fee is at most what it was, and falls
/// short of it by less than the grown supply reserve times
/// `1 + target_pool / 10^18`.
pub proof fn theorem_rounding_loss_bounded(supply_pool: nat, target_pool: nat, supply_amount: nat)
    requires
        0 < supply_pool + supply_amount <= u128::MAX,
    ensures
        0 <= rounding_loss(supply_pool, target_pool, supply_amount),
        rounding_loss(supply_pool, target_pool, supply_amount) * ACCURACY < (supply_pool
            + supply_amount) * (target_pool + ACCURACY),
        scaled_quotient(supply_pool, supply_pool + supply_amount) * (supply_pool + supply_amount)
            == supply_pool * ACCURACY && new_target_pool(supply_pool, target_pool, supply_amount)
            * ACCURACY == scaled_quotient(supply_pool, supply_pool + supply_amount) * target_pool
            ==> rounding_loss(supply_pool, target_pool, supply_amount) == 0,
{
    let a = ACCURACY as nat;
    let s = supply_pool;
    let t = target_pool;
    let g = supply_pool + supply_amount;
    let q = scaled_quotient(s, g);
    let kept = new_target_pool(s, t, supply_amount);
    lemma_floor_bounds(s * a, g);
    lemma_floor_bounds(q * t, a);
    assert(kept == q * t / a);
    assert(q * g <= s * a);
    assert(s * a < q * g + g);
    assert(kept * a <= q * t);
    assert(q * t < kept * a + a);
    let loss = s * t - g * kept;
    assert(0 <= loss) by (nonlinear_arith)
        requires
            loss == s * t - g * kept,
            q * g <= s * a,
            kept * a <= q * t,
            a > 0,
    {
        assert(g * kept * a <= g * (q * t));
        assert(g * (q * t) == (q * g) * t);
        assert((q * g) * t <= (s * a) * t);
        assert((s * a) * t == (s * t) * a);
        assert(g * kept * a == (g * kept) * a);
    }
    assert(loss * a < g * (t + a)) by (nonlinear_arith)
        requires
            loss == s * t - g * kept,
            s * a < q * g + g,
            q * t < kept * a + a,
            a > 0,
            g > 0,
    {
        assert(g * (q * t) < g * (kept * a + a));
        assert((s * a) * t <= (q * g + g) * t);
        assert((q * g + g) * t == g * (q * t) + g * t);
        assert(g * (kept * a + a) == (g * kept) * a + g * a);
        assert((s * a) * t == (s * t) * a);
        assert(loss * a == (s * t) * a - (g * kept) * a);
    }
    if q * g == s * a && kept * a == q * t {
        assert(loss == 0) by (nonlinear_arith)
            requires
                loss == s * t - g * kept,
                q * g == s * a,
                kept * a == q * t,
                a > 0,
        {
            assert((g * kept) * a == g * (q * t));
            assert(g * (q * t) == (q * g) * t);
            assert((s * a) * t == (s * t) * a);
        }
    }
}

/// The product of the reserves after a trade that is paid: the product
/// before it, less the rounding loss, plus the fee withheld times the grown
/// supply reserve.
pub proof fn lemma_product_after_trade(
    fee: nat,
    supply_pool: nat,
    target_pool: nat,
    supply_amount: nat,
)
    requires
        swap_target_amount(fee, supply_pool, target_pool, supply_amount) > 0,
    ensures
        ({
            let out = swap_target_amount(fee, supply_pool, target_pool, supply_amount);
            let withheld = fee_amount(
                fee,
                gross_target_amount(supply_pool, target_pool, supply_amount),
            );
            let loss = rounding_loss(supply_pool, target_pool, supply_amount);
            &&& out <= target_pool
            &&& 0 < supply_pool + supply_amount <= u128::MAX
            &&& 0 <= loss
            &&& loss * ACCURACY < (supply_pool + supply_amount) * (target_pool + ACCURACY)
            &&& (supply_pool + supply_amount) * (target_pool - out) == supply_pool * target_pool
                - loss + (supply_pool + supply_amount) * withheld
        }),
{
    let g = supply_pool + supply_amount;
    let kept = new_target_pool(supply_pool, target_pool, supply_amount);
    let gross = gross_target_amount(supply_pool, target_pool, supply_amount);
    let withheld = fee_amount(fee, gross);
    let out = swap_target_amount(fee, supply_pool, target_pool, supply_amount);
    lemma_new_target_pool_bounded(supply_pool, target_pool, supply_amount);
    assert(scaled_product(fee, 0) == 0) by (nonlinear_arith);
    assert(kept > 0);
    assert(gross == target_pool - kept);
    assert(out == gross - withheld);
    assert(target_pool - out == kept + withheld);
    theorem_rounding_loss_bounded(supply_pool, target_pool, supply_amount);
    assert(g * (target_pool - out) == g * kept + g * withheld) by (nonlinear_arith)
        requires
            target_pool - out == kept + withheld,
    ;
}

/// A trade that is paid leaves a product of reserves that is at least the
/// product before it exactly where the fee withheld, times the grown supply
/// reserve, covers the rounding loss; and a product that is greater exactly
/// where it more than covers it.
pub proof fn theorem_constant_product(
    fee: nat,
    supply_pool: nat,
    target_pool: nat,
    supply_amount: nat,
)
    requires
        swap_target_amount(fee, supply_pool, target_pool, supply_amount) > 0,
    ensures
        ({
            let out = swap_target_amount(fee, supply_pool, target_pool, supply_amount);
            let withheld = fee_amount(
                fee,
                gross_target_amount(supply_pool, target_pool, supply_amount),
            );
            let loss = rounding_loss(supply_pool, target_pool, supply_amount);
            &&& out <= target_pool
            &&& ((supply_pool + supply_amount) * (target_pool - out) >= supply_pool * target_pool
                <==> (supply_pool + supply_amount) * withheld >= loss)
            &&& ((supply_pool + supply_amount) * (target_pool - out) > supply_pool * target_pool
                <==> (supply_pool + supply_amount) * withheld > loss)
        }),
{
    lemma_product_after_trade(fee, supply_pool, target_pool, supply_amount);
}

/// A trade whose price is not rounded never lowers the product of the
/// reserves, and raises it where a fee is withheld.
pub proof fn theorem_constant_product_without_rounding(
    fee: nat,
    supply_pool: nat,
    target_pool: nat,
    supply_amount: nat,
)
    requires
        swap_target_amount(fee, supply_pool, target_pool, supply_amount) > 0,
        scaled_quotient(supply_pool, supply_pool + supply_amount) * (supply_pool + supply_amount)
            == supply_pool * ACCURACY,
        new_target_pool(supply_pool, target_pool, supply_amount) * ACCURACY == scaled_quotient(
            supply_pool,
            supply_pool + supply_amount,
        ) * target_pool,
    ensures
        ({
            let out = swap_target_amount(fee, supply_pool, target_pool, supply_amount);
            let withheld = fee_amount(
                fee,
                gross_target_amount(supply_pool, target_pool, supply_amount),
            );
            &&& out <= target_pool
            &&& (supply_pool + supply_amount) * (target_pool - out) >= supply_pool * target_pool
            &&& withheld > 0 ==> (supply_pool + supply_amount) * (target_pool - out) > supply_pool
                * target_pool
        }),
{
    let g = supply_pool + supply_amount;
    let withheld = fee_amount(fee, gross_target_amount(supply_pool, target_pool, supply_amount));
    assert(scaled_product(fee, 0) == 0) by (nonlinear_arith);
    theorem_constant_product(fee, supply_pool, target_pool, supply_amount);
    theorem_rounding_loss_bounded(supply_pool, target_pool, supply_amount);
    assert(g * withheld >= 0) by (nonlinear_arith)
        requires
            g >= 0,
            withheld >= 0,
    ;
    if withheld > 0 {
        assert(g * withheld > 0) by (nonlinear_arith)
            requires
                g > 0,
                withheld > 0,
        ;
    }
}

/// Shares are minted rounded towards zero: what is minted for `amount` holds
/// no greater a proportion of the shares in issue than `amount` does of the
/// reserve.
pub proof fn lemma_minted_share_proportion(amount: nat, pool: nat, total_shares: nat)
    requires
        pool > 0,
    ensures
        minted_share(amount, pool, total_shares) * pool <= amount * total_shares,
{
    let a = ACCURACY as nat;
    let q = scaled_quotient(amount, pool);
    let r = price(amount, pool);
    let m = minted_share(amount, pool, total_shares);
    lemma_floor_bounds(amount * a, pool);
    lemma_floor_bounds(r * total_shares, a);
    assert(r <= q);
    assert(q * pool <= amount * a);
    let raw = scaled_product(r, total_shares);
    assert(raw * a <= r * total_shares);
    assert(m <= raw);
    assert(m * pool <= amount * total_shares) by (nonlinear_arith)
        requires
            m <= raw,
            raw * a <= r * total_shares,
            r <= q,
            q * pool <= amount * a,
            a > 0,
    {
        assert((raw * a) * pool <= (r * total_shares) * pool);
        assert((r * total_shares) * pool == (r * pool) * total_shares);
        assert(r * pool <= q * pool);
        assert((r * pool) * total_shares <= (amount * a) * total_shares);
        assert((amount * a) * total_shares == (amount * total_shares) * a);
        assert((raw * a) * pool == (raw * pool) * a);
        assert(raw * pool <= amount * total_shares);
        assert(m * pool <= raw * pool);
    }
}

/// An amount that is cut down to the pool's proportion is rounded towards
/// zero: it holds no greater a proportion of its reserve than the amount
/// taken whole does of the other reserve.
pub proof fn lemma_matched_amount_proportion(pool: nat, other_pool: nat, whole: nat)
    requires
        other_pool > 0,
    ensures
        saturated(scaled_product(price(pool, other_pool), whole)) * other_pool <= pool * whole,
{
    let a = ACCURACY as nat;
    let q = scaled_quotient(pool, other_pool);
    let r = price(pool, other_pool);
    let raw = scaled_product(r, whole);
    let m = saturated(raw);
    lemma_floor_bounds(pool * a, other_pool);
    lemma_floor_bounds(r * whole, a);
    assert(m * other_pool <= pool * whole) by (nonlinear_arith)
        requires
            m <= raw,
            raw * a <= r * whole,
            r <= q,
            q * other_pool <= pool * a,
            a > 0,
    {
        assert((raw * a) * other_pool <= (r * whole) * other_pool);
        assert((r * whole) * other_pool == (r * other_pool) * whole);
        assert(r * other_pool <= q * other_pool);
        assert((r * other_pool) * whole <= (pool * a) * whole);
        assert((pool * a) * whole == (pool * whole) * a);
        assert((raw * a) * other_pool == (raw * other_pool) * a);
        assert(raw * other_pool <= pool * whole);
        assert(m * other_pool <= raw * other_pool);
    }
}

/// Withdrawing `share` out of `total_shares` from a reserve returns no more
/// than `amount` where `share` holds no greater a proportion of the other
/// shares than `amount` does of the rest of the reserve.
pub proof fn lemma_withdrawal_at_most_deposit(share: nat, rest_shares: nat, amount: nat, rest: nat)
    requires
        share > 0,
        share * rest <= amount * rest_shares,
        rest + amount <= u128::MAX,
    ensures
        withdrawn_amount(share, rest_shares + share, rest + amount) <= amount,
{
    let a = ACCURACY as nat;
    let total = rest_shares + share;
    let pool = rest + amount;
    let q = scaled_quotient(share, total);
    let w = withdrawn_amount(share, total, pool);
    lemma_withdrawn_amount_bounded(share, total, pool);
    lemma_floor_bounds(share * a, total);
    lemma_floor_bounds(q * pool, a);
    assert(w * a <= q * pool);
    assert(q * total <= share * a);
    assert(w <= amount) by (nonlinear_arith)
        requires
            w * a <= q * pool,
            q * total <= share * a,
            total == rest_shares + share,
            pool == rest + amount,
            share * rest <= amount * rest_shares,
            share > 0,
            a > 0,
    {
        assert((w * a) * total <= (q * pool) * total);
        assert((q * pool) * total == (q * total) * pool);
        assert((q * total) * pool <= (share * a) * pool);
        assert((share * a) * pool == (share * pool) * a);
        assert((w * a) * total == (w * total) * a);
        assert(w * total <= share * pool);
        assert(share * pool == share * rest + share * amount);
        assert(w * total == w * rest_shares + w * share);
        if w > amount {
            assert(w * rest_shares >= (amount + 1) * rest_shares);
            assert(w * share >= (amount + 1) * share);
            assert((amount + 1) * rest_shares == amount * rest_shares + rest_shares);
            assert((amount + 1) * share == amount * share + share);
            assert(amount * share == share * amount);
        }
    }
}

/// A deposit that is accepted, followed by the withdrawal of exactly the
/// shares that it minted, returns of each currency no more than the deposit
/// took of it.
pub proof fn theorem_no_free_liquidity(
    pool_other: nat,
    pool_base: nat,
    total_shares: nat,
    max_other: nat,
    max_base: nat,
)
    requires
        max_other > 0,
        max_base > 0,
        total_shares > 0 ==> pool_other > 0 && pool_base > 0,
        total_shares == 0 ==> pool_other == 0 && pool_base == 0,
        ({
            let (other, base, share) = liquidity_increment(
                pool_other,
                pool_base,
                total_shares,
                max_other,
                max_base,
            );
            &&& other > 0 && base > 0 && share > 0
            &&& pool_other + other <= u128::MAX
            &&& pool_base + base <= u128::MAX
            &&& total_shares + share <= u128::MAX
        }),
    ensures
        ({
            let (other, base, share) = liquidity_increment(
                pool_other,
                pool_base,
                total_shares,
                max_other,
                max_base,
            );
            &&& withdrawn_amount(share, total_shares + share, pool_other + other) <= other
            &&& withdrawn_amount(share, total_shares + share, pool_base + base) <= base
        }),
{
    let (other, base, share) = liquidity_increment(
        pool_other,
        pool_base,
        total_shares,
        max_other,
        max_base,
    );
    if total_shares == 0 {
        lemma_withdrawn_amount_bounded(share, share, other);
        lemma_withdrawn_amount_bounded(share, share, base);
    } else if price(max_base, max_other) <= price(pool_base, pool_other) {
        lemma_matched_amount_proportion(pool_other, pool_base, max_base);
        lemma_minted_share_proportion(other, pool_other, total_shares);
        assert(share * pool_base <= base * total_shares) by (nonlinear_arith)
            requires
                share * pool_other <= other * total_shares,
                other * pool_base <= pool_other * max_base,
                base == max_base,
                pool_other > 0,
        {
            assert((share * pool_other) * pool_base <= (other * total_shares) * pool_base);
            assert((other * total_shares) * pool_base == (other * pool_base) * total_shares);
            assert((other * pool_base) * total_shares <= (pool_other * max_base) * total_shares);
            assert((pool_other * max_base) * total_shares == (max_base * total_shares)
                * pool_other);
            assert((share * pool_other) * pool_base == (share * pool_base) * pool_other);
        }
        lemma_withdrawal_at_most_deposit(share, total_shares, other, pool_other);
        lemma_withdrawal_at_most_deposit(share, total_shares, base, pool_base);
    } else {
        lemma_matched_amount_proportion(pool_base, pool_other, max_other);
        lemma_minted_share_proportion(base, pool_base, total_shares);
        assert(share * pool_other <= other * total_shares) by (nonlinear_arith)
            requires
                share * pool_base <= base * total_shares,
                base * pool_other <= pool_base * max_other,
                other == max_other,
                pool_base > 0,
        {
            assert((share * pool_base) * pool_other <= (base * total_shares) * pool_other);
            assert((base * total_shares) * pool_other == (base * pool_other) * total_shares);
            assert((base * pool_other) * total_shares <= (pool_base * max_other) * total_shares);
            assert((pool_base * max_other) * total_shares == (max_other * total_shares)
                * pool_base);
            assert((share * pool_base) * pool_other == (share * pool_other) * pool_base);
        }
        lemma_withdrawal_at_most_deposit(share, total_shares, other, pool_other);
        lemma_withdrawal_at_most_deposit(share, total_shares, base, pool_base);
    }
}

/// The amount that a reserve is asked to release for a target amount is at
/// least that amount.
pub proof fn lemma_gross_for_target_at_least(fee: nat, target_amount: nat)
    requires
        fee < ACCURACY,
    ensures
        gross_for_target(fee, target_amount) >= target_amount,
{
    let a = ACCURACY as nat;
    let k = (a - fee) as nat;
    let inverse = scaled_quotient(a, k);
    let gross = gross_for_target(fee, target_amount);
    lemma_floor_bounds(a * a, k);
    lemma_floor_bounds(inverse * target_amount, a);
    assert(inverse >= a) by (nonlinear_arith)
        requires
            a * a < inverse * k + k,
            0 < k <= a,
    {
        assert(a * k <= a * a);
        if inverse < a {
            assert((inverse + 1) * k <= a * k);
            assert((inverse + 1) * k == inverse * k + k);
        }
    }
    assert(gross >= target_amount) by (nonlinear_arith)
        requires
            inverse >= a,
            inverse * target_amount < gross * a + a,
            a > 0,
    {
        assert(a * target_amount <= inverse * target_amount);
        if gross < target_amount {
            assert((gross + 1) * a <= target_amount * a);
            assert((gross + 1) * a == gross * a + a);
            assert(target_amount * a == a * target_amount);
        }
    }
}

/// Where the target reserve is at most `10^18` and the quote is computed
/// without saturation, the quoted supply falls short of a supply that buys
/// the target amount by at most two: a trade of the quote and two more, if
/// it can be priced at all, pays out at least the amount quoted for.
pub proof fn theorem_quoted_supply_suffices(
    fee: nat,
    supply_pool: nat,
    target_pool: nat,
    target_amount: nat,
)
    requires
        fee < ACCURACY,
        target_pool <= ACCURACY,
        gross_for_target(fee, target_amount) < target_pool,
        scaled_quotient(
            supply_pool,
            (target_pool - gross_for_target(fee, target_amount)) as nat,
        ) <= u128::MAX,
        swap_supply_amount(fee, supply_pool, target_pool, target_amount) > 0,
        new_target_pool(
            supply_pool,
            target_pool,
            swap_supply_amount(fee, supply_pool, target_pool, target_amount) + 2,
        ) > 0,
    ensures
        swap_target_amount(
            fee,
            supply_pool,
            target_pool,
            swap_supply_amount(fee, supply_pool, target_pool, target_amount) + 2,
        ) >= target_amount,
{
    let a = ACCURACY as nat;
    let k = (a - fee) as nat;
    let x = target_amount;
    let big_s = supply_pool;
    let big_t = target_pool;
    let inverse = scaled_quotient(a, k);
    let need = gross_for_target(fee, x);
    let left = (big_t - need) as nat;
    let ratio = scaled_quotient(big_s, left);
    let grown = scaled_product(ratio, big_t);
    let quote = swap_supply_amount(fee, big_s, big_t, x);
    assert(quote == grown - big_s);
    let g = big_s + quote + 2;
    assert(g == grown + 2);
    let q = scaled_quotient(big_s, g);
    let kept = new_target_pool(big_s, big_t, quote + 2);
    assert(kept == scaled_product(q, big_t));
    let gross = gross_target_amount(big_s, big_t, quote + 2);
    lemma_new_target_pool_bounded(big_s, big_t, quote + 2);
    assert(gross == big_t - kept);
    let withheld = fee_amount(fee, gross);
    lemma_scaled_product_at_most(fee, gross);
    let out = swap_target_amount(fee, big_s, big_t, quote + 2);
    assert(out == gross - withheld);
    lemma_gross_for_target_at_least(fee, x);
    lemma_floor_bounds(a * a, k);
    lemma_floor_bounds(inverse * x, a);
    lemma_floor_bounds(big_s * a, left);
    lemma_floor_bounds(ratio * big_t, a);
    lemma_floor_bounds(big_s * a, g);
    lemma_floor_bounds(q * big_t, a);
    lemma_floor_bounds(fee * gross, a);
    // The grown supply reserve, times what the quote leaves in the target
    // reserve, exceeds the product of the reserves.
    assert(g * left > big_s * big_t) by (nonlinear_arith)
        requires
            g == grown + 2,
            big_s * a < ratio * left + left,
            ratio * big_t < grown * a + a,
            big_t <= a,
            left > 0,
            a > 0,
    {
        assert((big_s * a) * big_t <= (ratio * left + left) * big_t);
        assert((ratio * left + left) * big_t == (ratio * big_t) * left + left * big_t);
        assert((ratio * big_t) * left <= (grown * a + a) * left);
        assert((grown * a + a) * left == (grown * left) * a + a * left);
        assert(left * big_t <= left * a);
        assert((big_s * a) * big_t == (big_s * big_t) * a);
        assert((big_s * big_t) * a < (grown * left) * a + 2 * (a * left));
        assert((grown * left) * a + 2 * (a * left) == ((grown + 2) * left) * a);
    }
    // So the trade releases more than the quote asked for.
    assert(kept < left) by (nonlinear_arith)
        requires
            g * left > big_s * big_t,
            kept * a <= q * big_t,
            q * g <= big_s * a,
            a > 0,
            g > 0,
    {
        assert((kept * a) * g <= (q * big_t) * g);
        assert((q * big_t) * g == (q * g) * big_t);
        assert((q * g) * big_t <= (big_s * a) * big_t);
        assert((big_s * a) * big_t == (big_s * big_t) * a);
        assert((kept * a) * g == (kept * g) * a);
        assert(kept * g <= big_s * big_t);
        if kept >= left {
            assert(kept * g >= left * g);
            assert(left * g == g * left);
        }
    }
    assert(gross >= need + 1);
    // What is paid out of one more than the asked release is the target
    // amount at least.
    assert(out >= x) by (nonlinear_arith)
        requires
            out == gross - withheld,
            gross >= need + 1,
            withheld * a <= fee * gross,
            k == a - fee,
            0 < k <= a,
            inverse * x < need * a + a,
            a * a < inverse * k + k,
            x <= a,
    {
        assert(out * a == gross * a - withheld * a);
        assert(gross * a - fee * gross == gross * k);
        assert(out * a >= gross * k);
        assert(gross * k >= (need + 1) * k);
        assert(((need + 1) * k) * a == ((need + 1) * a) * k);
        assert((need + 1) * a == need * a + a);
        assert(((need + 1) * a) * k > (inverse * x) * k);
        assert((inverse * x) * k == (inverse * k) * x);
        assert((inverse * k) * x >= (a * a + 1 - k) * x);
        assert((a * a + 1 - k) * x == (a * a) * x + x - k * x);
        assert(k * x <= a * a);
        assert((out * a) * a >= ((need + 1) * k) * a);
        if out < x {
            assert((out + 1) * (a * a) <= x * (a * a));
            assert((out + 1) * (a * a) == (out * a) * a + a * a);
            assert(x * (a * a) == (a * a) * x);
        }
    }
}

/// Share conservation: on a well-formed exchange the shares issued on a
/// pool are the shares that all accounts hold of it together, so no account
/// holds more than are issued.
pub proof fn theorem_share_conservation(module: Module, currency_id: CurrencyId, who: AccountId)
    requires
        module.wf(),
    ensures
        module.spec_total_shares(currency_id) == held_sum(module@.holdings, currency_id),
        module.spec_shares(currency_id, who) <= module.spec_total_shares(currency_id),
{
    lemma_held_at_most_sum(module@.holdings, currency_id, who);
    assert(pool_at(module@.pools, currency_id).total_shares == held_sum(
        module@.holdings,
        currency_id,
    ));
}

/// Reserve custody: on a well-formed runtime the pool account holds of
/// every listed currency what the pool of that currency holds of it, and of
/// the base currency what all pools hold of it together.
pub proof fn theorem_reserve_custody(runtime: Runtime, currency_id: CurrencyId)
    requires
        runtime.wf(),
    ensures
        currency_id != runtime.spec_dex()@.base_currency_id ==> runtime.spec_tokens().spec_free_balance(
            currency_id,
            Module::spec_account_id(),
        ) == runtime.spec_dex().spec_liquidity_pool(currency_id).0,
        runtime.spec_tokens().spec_free_balance(
            runtime.spec_dex()@.base_currency_id,
            Module::spec_account_id(),
        ) as nat == runtime.spec_dex().base_reserves(),
        runtime.spec_dex().spec_liquidity_pool(currency_id).1
            <= runtime.spec_dex().base_reserves(),
{
    lemma_base_at_most_sum(runtime.spec_dex()@.pools, currency_id);
}

/// After a deposit that the exchange commits, the depositor can withdraw
/// exactly the shares that the deposit minted, and is returned of each
/// currency no more than the deposit took of it.
pub proof fn theorem_deposit_then_withdraw(
    before: Module,
    after: Module,
    who: AccountId,
    other_currency_id: CurrencyId,
    max_other: Balance,
    max_base: Balance,
)
    requires
        before.wf(),
        before.deposit_outcome(other_currency_id, max_other, max_base) is Ok,
        before.add_liquidity_effect(after, who, other_currency_id, max_other, max_base),
    ensures
        ({
            let inc = before.deposit_outcome(other_currency_id, max_other, max_base)->Ok_0;
            &&& after.withdraw_liquidity_outcome(who, other_currency_id, inc.share) is Ok
            &&& after.withdrawal_amounts(other_currency_id, inc.share).0 <= inc.other
            &&& after.withdrawal_amounts(other_currency_id, inc.share).1 <= inc.base
        }),
{
    let pool = pool_at(before@.pools, other_currency_id);
    let inc = before.deposit_outcome(other_currency_id, max_other, max_base)->Ok_0;
    assert(balanced(pool));
    theorem_no_free_liquidity(
        pool.other as nat,
        pool.base as nat,
        pool.total_shares as nat,
        max_other as nat,
        max_base as nat,
    );
    lemma_held_at_most_sum(before@.holdings, other_currency_id, who);
    assert(pool.total_shares == held_sum(before@.holdings, other_currency_id));
    let entry = pool_at(after@.pools, other_currency_id);
    assert(entry.other == pool.other + inc.other);
    assert(entry.base == pool.base + inc.base);
    assert(entry.total_shares == pool.total_shares + inc.share);
    assert(held_at(after@.holdings, other_currency_id, who) == held_at(
        before@.holdings,
        other_currency_id,
        who,
    ) + inc.share);
    lemma_withdrawn_amount_bounded(
        inc.share as nat,
        entry.total_shares as nat,
        entry.other as nat,
    );
    lemma_withdrawn_amount_bounded(inc.share as nat, entry.total_shares as nat, entry.base as nat);
}

/// A committed trade of a listed currency for the base currency leaves in
/// the pool a product of reserves that falls short of the product before it
/// by less than the rounding bound, and that is at least the product before
/// it exactly where the fee withheld covers the rounding loss.
pub proof fn theorem_swap_other_to_base_product(
    before: Module,
    after: Module,
    other_currency_id: CurrencyId,
    other_currency_amount: Balance,
)
    requires
        before.wf(),
        before.other_to_base_amount(other_currency_id, other_currency_amount) > 0,
        before.swap_other_to_base_effect(after, other_currency_id, other_currency_amount),
    ensures
        ({
            let old_pool = pool_at(before@.pools, other_currency_id);
            let new_pool = pool_at(after@.pools, other_currency_id);
            let loss = rounding_loss(
                old_pool.other as nat,
                old_pool.base as nat,
                other_currency_amount as nat,
            );
            let withheld = fee_amount(
                before@.exchange_fee,
                gross_target_amount(
                    old_pool.other as nat,
                    old_pool.base as nat,
                    other_currency_amount as nat,
                ),
            );
            &&& 0 <= loss
            &&& loss * ACCURACY < new_pool.other * (old_pool.base + ACCURACY)
            &&& new_pool.other * new_pool.base == old_pool.other * old_pool.base - loss
                + new_pool.other * withheld
            &&& (new_pool.other * new_pool.base >= old_pool.other * old_pool.base
                <==> new_pool.other * withheld >= loss)
        }),
{
    let old_pool = pool_at(before@.pools, other_currency_id);
    let new_pool = pool_at(after@.pools, other_currency_id);
    lemma_product_after_trade(
        before@.exchange_fee,
        old_pool.other as nat,
        old_pool.base as nat,
        other_currency_amount as nat,
    );
    assert(new_pool.other == old_pool.other + other_currency_amount);
    assert(new_pool.base == old_pool.base - before.other_to_base_amount(
        other_currency_id,
        other_currency_amount,
    ));
}

/// A committed trade of the base currency for a listed currency leaves in
/// the pool a product of reserves that falls short of the product before it
/// by less than the rounding bound, and that is at least the product before
/// it exactly where the fee withheld covers the rounding loss.
pub proof fn theorem_swap_base_to_other_product(
    before: Module,
    after: Module,
    other_currency_id: CurrencyId,
    base_currency_amount: Balance,
)
    requires
        before.wf(),
        before.base_to_other_amount(other_currency_id, base_currency_amount) > 0,
        before.swap_base_to_other_effect(after, other_currency_id, base_currency_amount),
    ensures
        ({
            let old_pool = pool_at(before@.pools, other_currency_id);
            let new_pool = pool_at(after@.pools, other_currency_id);
            let loss = rounding_loss(
                old_pool.base as nat,
                old_pool.other as nat,
                base_currency_amount as nat,
            );
            let withheld = fee_amount(
                before@.exchange_fee,
                gross_target_amount(
                    old_pool.base as nat,
                    old_pool.other as nat,
                    base_currency_amount as nat,
                ),
            );
            &&& 0 <= loss
            &&& loss * ACCURACY < new_pool.base * (old_pool.other + ACCURACY)
            &&& new_pool.base * new_pool.other == old_pool.base * old_pool.other - loss
                + new_pool.base * withheld
            &&& (new_pool.base * new_pool.other >= old_pool.base * old_pool.other
                <==> new_pool.base * withheld >= loss)
        }),
{
    let old_pool = pool_at(before@.pools, other_currency_id);
    let new_pool = pool_at(after@.pools, other_currency_id);
    lemma_product_after_trade(
        before@.exchange_fee,
        old_pool.base as nat,
        old_pool.other as nat,
        base_currency_amount as nat,
    );
    assert(new_pool.base == old_pool.base + base_currency_amount);
    assert(new_pool.other == old_pool.other - before.base_to_other_amount(
        other_currency_id,
        base_currency_amount,
    ));
}

} // verus!
