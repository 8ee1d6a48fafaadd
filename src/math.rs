//! Fixed-point arithmetic and collateralisation ratios.
use vstd::prelude::*;

verus! {

/// One whole unit in base units (24 decimals).
pub const ONE: u128 = 1_000000_000000_000000_000000;

/// Minimum collateralisation ratio for opening or keeping a position (110%).
pub const MIN_CR: u128 = 1_100_000_000_000_000_000_000_000;

/// Collateralisation ratio under which a position is liquidated (100%).
pub const KILL_CR: u128 = 1_000_000_000_000_000_000_000_000;

/// `1 - 1 / 1.1`, scaled by `ONE`.
pub const DOT_OH_NINE: u128 = 90_909_090_909_090_909_090_909;

/// Protocol fee (1/110), scaled by `ONE`.
pub const FEE: u128 = 9_090_909_090_909_090_909_090;

/// Smallest debt worth opening, in QD base units.
pub const MIN_DEBT: u128 = 90_909_090_909_090_909_090_909_090;

/// Nanoseconds between two update cycles.
pub const EIGHT_HOURS: u64 = 28_800_000_000_000;

/// The protocol's "hour": 360 * 10^9 nanoseconds.
pub const ONE_HOUR: u64 = 360_000_000_000;

/// The value `(numerator * multiplier) / denominator`, rounded down.
pub open spec fn ratio_spec(multiplier: int, numerator: int, denominator: int) -> int {
    (numerator * multiplier) / denominator
}

/// `ratio` is defined when the divisor is not zero and the quotient fits in 128 bits.
pub open spec fn ratio_ok(multiplier: u128, numerator: u128, denominator: u128) -> bool {
    denominator > 0 && ratio_spec(multiplier as int, numerator as int, denominator as int)
        <= u128::MAX
}

/// Adds two residues modulo `d`: `a + b == c * d + r` with a carry `c` of 0 or 1.
fn add_mod(a: u128, b: u128, d: u128) -> (res: (u128, u128))
    requires
        a < d,
        b < d,
    ensures
        a + b == res.1 * d + res.0,
        res.0 < d,
        res.1 <= 1,
{
    if a >= d - b {
        (a - (d - b), 1)
    } else {
        (a + b, 0)
    }
}

/// Quotient and remainder of `n * m` by `d`, where `qn`, `rn` are those of `n`.
/// Works bit by bit on `m`, so that no intermediate value needs more than 128 bits.
fn mul_div_rec(n: u128, m: u128, d: u128, qn: u128, rn: u128) -> (res: (u128, u128))
    requires
        d > 0,
        qn == n / d,
        rn == n % d,
        (n * m) / (d as int) <= u128::MAX,
    ensures
        res.0 * d + res.1 == n * m,
        res.1 < d,
    decreases m,
{
    if m == 0 {
        assert(n * m == 0) by (nonlinear_arith)
            requires
                m == 0,
        ;
        (0, 0)
    } else {
        let h = m / 2;
        let b = m % 2;
        assert(n * h <= n * m) by (nonlinear_arith)
            requires
                h == m / 2,
                m > 0,
        ;
        proof {
            vstd::arithmetic::div_mod::lemma_div_is_ordered(n * h, n * m, d as int);
        }
        let (q0, r0) = mul_div_rec(n, h, d, qn, rn);
        let (r1, c1) = add_mod(r0, r0, d);
        // q0 * d + r0 == n * h, so doubling gives (2 q0 + c1) * d + r1 == 2 n h <= n m
        assert((2 * q0 + c1) * d + r1 == 2 * (n * h)) by (nonlinear_arith)
            requires
                q0 * d + r0 == n * h,
                r0 + r0 == c1 * d + r1,
        ;
        assert(2 * (n * h) + n * b == n * m) by (nonlinear_arith)
            requires
                h == m / 2,
                b == m % 2,
        ;
        assert(n * b >= 0) by (nonlinear_arith)
            requires
                b >= 0,
        ;
        proof {
            let q1: int = 2 * q0 + c1;
            assert(q1 * d <= n * m) by (nonlinear_arith)
                requires
                    q1 * d + r1 == 2 * (n * h),
                    2 * (n * h) + n * b == n * m,
                    n * b >= 0,
                    r1 >= 0,
            ;
            vstd::arithmetic::div_mod::lemma_div_is_ordered(q1 * d, n * m, d as int);
            assert(q1 * d / (d as int) == q1) by (nonlinear_arith)
                requires
                    d > 0,
            {
                vstd::arithmetic::div_mod::lemma_div_multiples_vanish(q1, d as int);
                assert(d * q1 == q1 * d);
            }
        }
        let q1 = 2 * q0 + c1;
        if b == 1 {
            proof {
                vstd::arithmetic::div_mod::lemma_fundamental_div_mod(n as int, d as int);
            }
            assert(n == qn * d + rn) by (nonlinear_arith)
                requires
                    qn == n / d,
                    rn == n % d,
                    n == d * (n / d) + n % d,
            ;
            let (r2, c2) = add_mod(r1, rn, d);
            proof {
                let q2: int = q1 + qn + c2;
                assert(q2 * d + r2 == n * m) by (nonlinear_arith)
                    requires
                        q1 * d + r1 == 2 * (n * h),
                        2 * (n * h) + n * b == n * m,
                        b == 1,
                        n == qn * d + rn,
                        r1 + rn == c2 * d + r2,
                        q2 == q1 + qn + c2,
                ;
                vstd::arithmetic::div_mod::lemma_fundamental_div_mod_converse(n * m, d as int, q2, r2 as int);
            }
            (q1 + qn + c2, r2)
        } else {
            assert(q1 * d + r1 == n * m) by (nonlinear_arith)
                requires
                    q1 * d + r1 == 2 * (n * h),
                    2 * (n * h) + n * b == n * m,
                    b == 0,
            ;
            (q1, r1)
        }
    }
}

/// `ratio` where it is defined, else `None`.
pub fn checked_ratio(multiplier: u128, numerator: u128, denominator: u128) -> (r: Option<u128>)
    ensures
        r.is_some() == ratio_ok(multiplier, numerator, denominator),
        r.is_some() ==> r.unwrap() == ratio_spec(
            multiplier as int,
            numerator as int,
            denominator as int,
        ),
{
    if denominator == 0 {
        return None;
    }
    let d = denominator;
    let m = multiplier;
    let qn = numerator / d;
    let rn = numerator % d;
    proof {
        vstd::arithmetic::div_mod::lemma_fundamental_div_mod(numerator as int, d as int);
        vstd::arithmetic::div_mod::lemma_basic_div(rn as int, d as int);
        vstd::arithmetic::div_mod::lemma_small_mod(rn as nat, d as nat);
        assert(rn * m <= d * m) by (nonlinear_arith)
            requires
                rn < d,
                m >= 0,
        ;
        vstd::arithmetic::div_mod::lemma_multiply_divide_le(rn * m, d as int, m as int);
    }
    let (t, rem) = mul_div_rec(rn, m, d, 0, rn);
    assert(numerator * m == (qn * m + t) * d + rem) by (nonlinear_arith)
        requires
            numerator == d * qn + rn,
            rn * m == t * d + rem,
    ;
    proof {
        vstd::arithmetic::div_mod::lemma_fundamental_div_mod_converse(
            numerator * m,
            d as int,
            qn * m + t,
            rem as int,
        );
    }
    match qn.checked_mul(m) {
        None => {
            assert(qn * m + t > u128::MAX);
            None
        },
        Some(a) => a.checked_add(t),
    }
}

/// `(numerator * multiplier) / denominator` with a 256-bit intermediate product.
/// The product itself never overflows; the call is refused where the divisor is
/// zero or the quotient does not fit in 128 bits.
pub fn ratio(multiplier: u128, numerator: u128, denominator: u128) -> (r: u128)
    requires
        ratio_ok(multiplier, numerator, denominator),
    ensures
        r == ratio_spec(multiplier as int, numerator as int, denominator as int),
{
    match checked_ratio(multiplier, numerator, denominator) {
        Some(q) => q,
        None => 0,
    }
}

/// Collateralisation ratio of a position, scaled by `ONE`.
/// Long: `price * collat / debt`; short: `collat / (price * debt / ONE)`.
/// Zero when there is no collateral, `u128::MAX` when there is collateral and no debt.
pub open spec fn cr_spec(price: u128, collat: u128, debt: u128, short: bool) -> int {
    if debt > 0 {
        if collat > 0 {
            if short {
                ratio_spec(ONE as int, collat as int, ratio_spec(price as int, debt as int, ONE as int))
            } else {
                ratio_spec(price as int, collat as int, debt as int)
            }
        } else {
            0
        }
    } else if collat > 0 {
        u128::MAX as int
    } else {
        0
    }
}

/// The ratio can be computed: no division by a zero debt value and no
/// quotient beyond 128 bits.
pub open spec fn cr_ok(price: u128, collat: u128, debt: u128, short: bool) -> bool {
    debt > 0 && collat > 0 ==> if short {
        ratio_ok(price, debt, ONE) && ratio_ok(
            ONE,
            collat,
            ratio_spec(price as int, debt as int, ONE as int) as u128,
        )
    } else {
        ratio_ok(price, collat, debt)
    }
}

/// Collateralisation ratio of `_collat` against `_debt` at `_price`.
pub fn computeCR(_price: u128, _collat: u128, _debt: u128, _short: bool) -> (r: u128)
    requires
        cr_ok(_price, _collat, _debt, _short),
    ensures
        r == cr_spec(_price, _collat, _debt, _short),
{
    if _debt > 0 {
        if _collat > 0 {
            if _short {
                let debt = ratio(_price, _debt, ONE);
                ratio(ONE, _collat, debt)
            } else {
                ratio(_price, _collat, _debt)
            }
        } else {
            0
        }
    } else if _collat > 0 {
        u128::MAX
    } else {
        0
    }
}

/// Collateralisation ratio where it can be computed, else `None`.
pub fn checked_cr(price: u128, collat: u128, debt: u128, short: bool) -> (r: Option<u128>)
    ensures
        r.is_some() == cr_ok(price, collat, debt, short),
        r.is_some() ==> r.unwrap() == cr_spec(price, collat, debt, short),
{
    if debt > 0 && collat > 0 {
        if short {
            match checked_ratio(price, debt, ONE) {
                None => None,
                Some(dv) => checked_ratio(ONE, collat, dv),
            }
        } else {
            checked_ratio(price, collat, debt)
        }
    } else {
        Some(computeCR(price, collat, debt, short))
    }
}

/// Raising the collateral or lowering the debt never lowers the collateralisation
/// ratio (and, read backwards, lowering the collateral or raising the debt never
/// raises it), wherever both ratios can be computed.
pub proof fn lemma_cr_monotone(
    price: u128,
    collat_lo: u128,
    debt_hi: u128,
    collat_hi: u128,
    debt_lo: u128,
    short: bool,
)
    requires
        collat_lo <= collat_hi,
        debt_lo <= debt_hi,
        cr_ok(price, collat_lo, debt_hi, short),
        cr_ok(price, collat_hi, debt_lo, short),
    ensures
        cr_spec(price, collat_lo, debt_hi, short) <= cr_spec(price, collat_hi, debt_lo, short),
{
    let lo = cr_spec(price, collat_lo, debt_hi, short);
    let hi = cr_spec(price, collat_hi, debt_lo, short);
    if debt_lo == 0 {
        if collat_hi == 0 {
            assert(collat_lo == 0);
        } else if debt_hi > 0 && collat_lo > 0 {
            assert(lo <= u128::MAX);
        }
    } else if collat_lo > 0 {
        assert(debt_hi > 0 && collat_hi > 0);
        if short {
            let dv_hi = ratio_spec(price as int, debt_hi as int, ONE as int);
            let dv_lo = ratio_spec(price as int, debt_lo as int, ONE as int);
            assert(debt_lo * price <= debt_hi * price) by (nonlinear_arith)
                requires
                    debt_lo <= debt_hi,
                    price >= 0,
            ;
            vstd::arithmetic::div_mod::lemma_div_is_ordered(
                debt_lo * price,
                debt_hi * price,
                ONE as int,
            );
            assert(collat_lo * ONE <= collat_hi * ONE) by (nonlinear_arith)
                requires
                    collat_lo <= collat_hi,
            ;
            vstd::arithmetic::div_mod::lemma_div_is_ordered(
                collat_lo * ONE,
                collat_hi * ONE,
                dv_hi,
            );
            vstd::arithmetic::div_mod::lemma_div_is_ordered_by_denominator(
                collat_hi * ONE,
                dv_lo,
                dv_hi,
            );
        } else {
            assert(collat_lo * price <= collat_hi * price) by (nonlinear_arith)
                requires
                    collat_lo <= collat_hi,
                    price >= 0,
            ;
            vstd::arithmetic::div_mod::lemma_div_is_ordered(
                collat_lo * price,
                collat_hi * price,
                debt_hi as int,
            );
            assert(collat_hi * price >= 0) by (nonlinear_arith)
                requires
                    price >= 0,
            ;
            vstd::arithmetic::div_mod::lemma_div_is_ordered_by_denominator(
                collat_hi * price,
                debt_lo as int,
                debt_hi as int,
            );
        }
    }
}

} // verus!