//! Fixed-point arithmetic kernel: unsigned rationals `parts / 10^18` held in
//! 128 bits. Products and quotients are formed in 256 bits by
//! `orml_utilities::FixedU128`, so a result is either exact up to rounding
//! towards zero or reported as not representable.

use orml_utilities::{FixedU128, FixedUnsignedNumber};
use sp_runtime::traits::{CheckedDiv, CheckedMul};
use vstd::arithmetic::div_mod::{lemma_fundamental_div_mod, lemma_mod_bound};
use vstd::prelude::*;

verus! {

/// The denominator shared by every fixed-point value.
pub const ACCURACY: u128 = 1_000_000_000_000_000_000;

/// `v`, or the greatest 128-bit value where `v` exceeds it.
pub open spec fn saturated(v: nat) -> nat {
    if v > u128::MAX {
        u128::MAX as nat
    } else {
        v
    }
}

/// Numerator of the fixed-point value closest to `n / d` from below.
pub open spec fn scaled_quotient(n: nat, d: nat) -> nat
    recommends
        d > 0,
{
    n * (ACCURACY as nat) / d
}

/// Whole part of `parts / 10^18` times `n`.
pub open spec fn scaled_product(parts: nat, n: nat) -> nat {
    parts * n / (ACCURACY as nat)
}

/// `Some(v)` where `v` fits in 128 bits, `None` otherwise.
pub open spec fn fitting(v: nat) -> Option<u128> {
    if v > u128::MAX {
        None
    } else {
        Some(v as u128)
    }
}

/// Rounding towards zero: `x / d` is the greatest integer whose multiple by
/// `d` does not exceed `x`.
pub proof fn lemma_floor_bounds(x: nat, d: nat)
    requires
        d > 0,
    ensures
        (x / d) * d <= x,
        x < (x / d) * d + d,
{
    lemma_fundamental_div_mod(x as int, d as int);
    lemma_mod_bound(x as int, d as int);
    assert((x / d) * d == d * (x / d)) by (nonlinear_arith);
}

/// Every integer `q` with `q * d <= x < q * d + d` is the quotient `x / d`.
pub proof fn lemma_floor_unique(x: nat, d: nat, q: nat)
    requires
        d > 0,
        q * d <= x,
        x < q * d + d,
    ensures
        x / d == q,
{
    lemma_floor_bounds(x, d);
    let p = x / d;
    assert(p == q) by (nonlinear_arith)
        requires
            d > 0,
            q * d <= x,
            x < q * d + d,
            p * d <= x,
            x < p * d + d,
    ;
}

/// Division rounds the same way for ordered numerators.
pub proof fn lemma_floor_monotone(x: nat, y: nat, d: nat)
    requires
        d > 0,
        x <= y,
    ensures
        x / d <= y / d,
{
    lemma_floor_bounds(x, d);
    lemma_floor_bounds(y, d);
    let p = x / d;
    let q = y / d;
    assert(p <= q) by (nonlinear_arith)
        requires
            d > 0,
            x <= y,
            p * d <= x,
            y < q * d + d,
    ;
}

/// A fraction of at most one has a numerator of at most `10^18`.
pub proof fn lemma_scaled_quotient_at_most_one(n: nat, d: nat)
    requires
        d > 0,
        n <= d,
    ensures
        scaled_quotient(n, d) <= ACCURACY,
{
    let a = ACCURACY as nat;
    assert(n * a <= a * d) by (nonlinear_arith)
        requires
            n <= d,
    ;
    lemma_floor_monotone(n * a, a * d, d);
    lemma_floor_unique(a * d, d, a);
}

/// A whole fraction `d / d` has the numerator `10^18` exactly.
pub proof fn lemma_scaled_quotient_of_equal(d: nat)
    requires
        d > 0,
    ensures
        scaled_quotient(d, d) == ACCURACY,
{
    let a = ACCURACY as nat;
    assert(d * a == a * d) by (nonlinear_arith);
    lemma_floor_unique(d * a, d, a);
}

/// A proper fraction has a numerator below `10^18`.
pub proof fn lemma_scaled_quotient_below_one(n: nat, d: nat)
    requires
        n < d,
    ensures
        scaled_quotient(n, d) < ACCURACY,
{
    let a = ACCURACY as nat;
    lemma_floor_bounds(n * a, d);
    let q = n * a / d;
    assert(q < a) by (nonlinear_arith)
        requires
            n < d,
            q * d <= n * a,
            a > 0,
    ;
}

/// Multiplying by a value of at most one does not increase an integer.
pub proof fn lemma_scaled_product_at_most(parts: nat, n: nat)
    requires
        parts <= ACCURACY,
    ensures
        scaled_product(parts, n) <= n,
{
    let a = ACCURACY as nat;
    assert(parts * n <= n * a) by (nonlinear_arith)
        requires
            parts <= a,
    ;
    lemma_floor_monotone(parts * n, n * a, a);
    lemma_floor_unique(n * a, a, n);
}

/// Multiplying by one keeps an integer.
pub proof fn lemma_scaled_product_by_one(n: nat)
    ensures
        scaled_product(ACCURACY as nat, n) == n,
{
    let a = ACCURACY as nat;
    assert(a * n == n * a) by (nonlinear_arith);
    lemma_floor_unique(a * n, a, n);
}

/// Multiplying a positive integer by a value below one decreases it.
pub proof fn lemma_scaled_product_below(parts: nat, n: nat)
    requires
        parts < ACCURACY,
        n > 0,
    ensures
        scaled_product(parts, n) < n,
{
    let a = ACCURACY as nat;
    lemma_floor_bounds(parts * n, a);
    let q = parts * n / a;
    assert(q < n) by (nonlinear_arith)
        requires
            parts < a,
            n > 0,
            q * a <= parts * n,
    ;
}

/// `FixedU128::from_natural` of orml_utilities: the fixed-point value of the
/// integer `k`, whose numerator is `k * 10^18`, or the greatest 128-bit value
/// where that product does not fit.
#[verifier::external_body]
fn kernel_from_natural(k: u128) -> (parts: u128)
    ensures
        parts as nat == saturated(k as nat * (ACCURACY as nat)),
{
    FixedU128::from_natural(k).into_inner()
}

/// `FixedU128::saturating_from_rational` of orml_utilities: the fixed-point
/// value of `n / d`. Its numerator is `n * 10^18 / d` rounded towards zero, or
/// the greatest 128-bit value where the quotient does not fit. The outside
/// function panics on a zero denominator, which the precondition leaves out.
#[verifier::external_body]
fn kernel_from_rational(n: u128, d: u128) -> (parts: u128)
    requires
        d != 0,
    ensures
        parts as nat == saturated(scaled_quotient(n as nat, d as nat)),
{
    FixedU128::saturating_from_rational(n, d).into_inner()
}

/// `CheckedMul::checked_mul` of orml_utilities' `FixedU128`: the product of
/// two fixed-point values, with numerator `a * b / 10^18` rounded towards
/// zero, or `None` where that numerator does not fit in 128 bits.
#[verifier::external_body]
fn kernel_checked_mul(a: u128, b: u128) -> (parts: Option<u128>)
    ensures
        parts == fitting(scaled_product(a as nat, b as nat)),
{
    match FixedU128::from_inner(a).checked_mul(&FixedU128::from_inner(b)) {
        Some(product) => Some(product.into_inner()),
        None => None,
    }
}

/// `CheckedDiv::checked_div` of orml_utilities' `FixedU128`: the quotient of
/// two fixed-point values, with numerator `a * 10^18 / b` rounded towards
/// zero, or `None` where `b` is zero or that numerator does not fit in 128
/// bits.
#[verifier::external_body]
fn kernel_checked_div(a: u128, b: u128) -> (parts: Option<u128>)
    ensures
        b == 0 ==> parts is None,
        b != 0 ==> parts == fitting(scaled_quotient(a as nat, b as nat)),
{
    match FixedU128::from_inner(a).checked_div(&FixedU128::from_inner(b)) {
        Some(quotient) => Some(quotient.into_inner()),
        None => None,
    }
}

/// `FixedUnsignedNumber::checked_mul_int` of orml_utilities' `FixedU128`: the
/// fixed-point value with numerator `parts` times the integer `n`, as the
/// integer `parts * n / 10^18` rounded towards zero, or `None` where that
/// integer does not fit in 128 bits.
#[verifier::external_body]
fn kernel_checked_mul_int(parts: u128, n: u128) -> (product: Option<u128>)
    ensures
        product == fitting(scaled_product(parts as nat, n as nat)),
{
    FixedU128::from_inner(parts).checked_mul_int(n)
}

/// An unsigned rational `parts / 10^18`.
#[derive(Clone, Copy, Debug, PartialEq, Eq, Structural)]
pub struct Ratio {
    pub parts: u128,
}

impl View for Ratio {
    type V = nat;

    /// The numerator over the fixed denominator.
    open spec fn view(&self) -> nat {
        self.parts as nat
    }
}

impl Ratio {
    /// The value whose numerator is `parts`.
    pub fn from_inner(parts: u128) -> (r: Ratio)
        ensures
            r.parts == parts,
    {
        Ratio { parts }
    }

    /// The numerator.
    pub fn into_inner(self) -> (parts: u128)
        ensures
            parts == self.parts,
    {
        self.parts
    }

    /// The integer `k` as a fixed-point value, saturating at the greatest
    /// representable value.
    pub fn from_natural(k: u128) -> (r: Ratio)
        ensures
            r@ == saturated(k as nat * (ACCURACY as nat)),
    {
        Ratio { parts: kernel_from_natural(k) }
    }

    /// `n / d` rounded towards zero, saturating at the greatest representable
    /// value; `None` exactly when the denominator is zero.
    pub fn from_rational(n: u128, d: u128) -> (r: Option<Ratio>)
        ensures
            d == 0 <==> r is None,
            d != 0 ==> r == Some(Ratio { parts: saturated(scaled_quotient(n as nat, d as nat)) as u128 }),
    {
        if d == 0 {
            None
        } else {
            Some(Ratio { parts: kernel_from_rational(n, d) })
        }
    }

    /// The sum, or `None` where it is not representable.
    pub fn checked_add(&self, rhs: &Ratio) -> (r: Option<Ratio>)
        ensures
            self@ + rhs@ > u128::MAX <==> r is None,
            self@ + rhs@ <= u128::MAX ==> r == Some(Ratio { parts: (self.parts + rhs.parts) as u128 }),
    {
        match self.parts.checked_add(rhs.parts) {
            Some(parts) => Some(Ratio { parts }),
            None => None,
        }
    }

    /// The difference, or `None` where `rhs` is the greater.
    pub fn checked_sub(&self, rhs: &Ratio) -> (r: Option<Ratio>)
        ensures
            self@ < rhs@ <==> r is None,
            self@ >= rhs@ ==> r == Some(Ratio { parts: (self.parts - rhs.parts) as u128 }),
    {
        match self.parts.checked_sub(rhs.parts) {
            Some(parts) => Some(Ratio { parts }),
            None => None,
        }
    }

    /// The product rounded towards zero, or `None` where it is not
    /// representable.
    pub fn checked_mul(&self, rhs: &Ratio) -> (r: Option<Ratio>)
        ensures
            scaled_product(self@, rhs@) > u128::MAX <==> r is None,
            scaled_product(self@, rhs@) <= u128::MAX ==> r == Some(
                Ratio { parts: scaled_product(self@, rhs@) as u128 },
            ),
    {
        match kernel_checked_mul(self.parts, rhs.parts) {
            Some(parts) => Some(Ratio { parts }),
            None => None,
        }
    }

    /// The quotient rounded towards zero, or `None` where `rhs` is zero or the
    /// quotient is not representable.
    pub fn checked_div(&self, rhs: &Ratio) -> (r: Option<Ratio>)
        ensures
            (rhs@ == 0 || scaled_quotient(self@, rhs@) > u128::MAX) <==> r is None,
            rhs@ != 0 && scaled_quotient(self@, rhs@) <= u128::MAX ==> r == Some(
                Ratio { parts: scaled_quotient(self@, rhs@) as u128 },
            ),
    {
        match kernel_checked_div(self.parts, rhs.parts) {
            Some(parts) => Some(Ratio { parts }),
            None => None,
        }
    }

    /// This value times the integer `n`, rounded towards zero, or `None` where
    /// the product does not fit in 128 bits.
    pub fn checked_mul_int(&self, n: u128) -> (product: Option<u128>)
        ensures
            product == fitting(scaled_product(self@, n as nat)),
    {
        kernel_checked_mul_int(self.parts, n)
    }

    /// This value times the integer `n`, rounded towards zero and saturating
    /// at the greatest 128-bit integer.
    pub fn saturating_mul_int(&self, n: u128) -> (product: u128)
        ensures
            product as nat == saturated(scaled_product(self@, n as nat)),
    {
        match kernel_checked_mul_int(self.parts, n) {
            Some(product) => product,
            None => u128::MAX,
        }
    }

    /// Whether this value is at most `rhs`.
    pub fn le(&self, rhs: &Ratio) -> (b: bool)
        ensures
            b == (self@ <= rhs@),
    {
        self.parts <= rhs.parts
    }
}

} // verus!
