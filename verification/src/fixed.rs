//! Exact integer arithmetic under the fixed-point amounts: products and
//! quotients taken at double width and rounded once toward zero, integer
//! square roots, sums that report what does not fit, and a fixed-point
//! natural logarithm.

use vstd::prelude::*;
use crate::constants::{EPSILON, SCALE};

verus! {

/// The magnitude of an integer.
pub open spec fn abs_int(x: int) -> int {
    if x < 0 {
        -x
    } else {
        x
    }
}

/// Whether an integer can be held in an `i128`.
pub open spec fn fits_i128(x: int) -> bool {
    i128::MIN <= x <= i128::MAX
}

/// An integer as an `i128`, or `None` when it cannot be held in one.
pub open spec fn checked(x: int) -> Option<i128> {
    if fits_i128(x) {
        Some(x as i128)
    } else {
        None
    }
}

/// The quotient of `a` by `b`, rounded toward zero.
pub open spec fn trunc_div(a: int, b: int) -> int
    recommends
        b != 0,
{
    if b > 0 {
        if a >= 0 {
            a / b
        } else {
            -((-a) / b)
        }
    } else {
        if a >= 0 {
            -(a / (-b))
        } else {
            (-a) / (-b)
        }
    }
}

/// The product of two amounts, as an amount, rounded toward zero.
pub open spec fn mul_amounts(a: int, b: int) -> int {
    trunc_div(a * b, SCALE as int)
}

/// The quotient of two amounts, as an amount, rounded toward zero.
pub open spec fn div_amounts(a: int, b: int) -> int
    recommends
        b != 0,
{
    trunc_div(a * SCALE, b)
}

/// `r` is the integer square root of `n`: the largest integer whose square
/// does not exceed `n`.
pub open spec fn is_isqrt(n: int, r: int) -> bool {
    r >= 0 && r * r <= n && n < (r + 1) * (r + 1)
}

/// The integer square root of `n` (zero for negative `n`).
pub open spec fn isqrt(n: int) -> int {
    if n < 0 {
        0
    } else {
        choose|r: int| is_isqrt(n, r)
    }
}

/// Two integers that both are the integer square root of `n` are equal.
pub proof fn lemma_isqrt_unique(n: int, r1: int, r2: int)
    requires
        is_isqrt(n, r1),
        is_isqrt(n, r2),
    ensures
        r1 == r2,
{
    if r1 < r2 {
        assert((r1 + 1) * (r1 + 1) <= r2 * r2) by (nonlinear_arith)
            requires
                0 <= r1 + 1 <= r2,
        ;
    } else if r2 < r1 {
        assert((r2 + 1) * (r2 + 1) <= r1 * r1) by (nonlinear_arith)
            requires
                0 <= r2 + 1 <= r1,
        ;
    }
}

/// Every natural number has an integer square root.
pub proof fn lemma_isqrt_exists(n: int)
    requires
        n >= 0,
    ensures
        is_isqrt(n, isqrt(n)),
    decreases n,
{
    if n == 0 {
        assert(is_isqrt(0, 0));
    } else {
        lemma_isqrt_exists(n - 1);
        let r = isqrt(n - 1);
        if (r + 1) * (r + 1) <= n {
            assert((r + 2) * (r + 2) > n) by (nonlinear_arith)
                requires
                    r >= 0,
                    n - 1 < (r + 1) * (r + 1),
            ;
            assert(is_isqrt(n, r + 1));
        } else {
            assert(r * r <= n);
            assert(is_isqrt(n, r));
        }
    }
}

/// The integer square root is the only integer with its defining property.
pub proof fn lemma_isqrt_is(n: int, r: int)
    requires
        is_isqrt(n, r),
    ensures
        isqrt(n) == r,
{
    assert(n >= 0) by (nonlinear_arith)
        requires
            r * r <= n,
    ;
    lemma_isqrt_exists(n);
    lemma_isqrt_unique(n, r, isqrt(n));
}

/// The integer square root does not decrease when its argument grows.
pub proof fn lemma_isqrt_monotonic(a: int, b: int)
    requires
        0 <= a <= b,
    ensures
        isqrt(a) <= isqrt(b),
{
    lemma_isqrt_exists(a);
    lemma_isqrt_exists(b);
    let ra = isqrt(a);
    let rb = isqrt(b);
    if rb < ra {
        assert((rb + 1) * (rb + 1) <= ra * ra) by (nonlinear_arith)
            requires
                0 <= rb + 1 <= ra,
        ;
    }
}

/// Two to the power 64.
pub const LIMB: u128 = 0x1_0000_0000_0000_0000;

/// A natural number below two to the power 256, in two halves.
pub struct Wide {
    pub hi: u128,
    pub lo: u128,
}

impl View for Wide {
    type V = int;

    open spec fn view(&self) -> int {
        self.hi * 0x1_0000_0000_0000_0000_0000_0000_0000_0000 + self.lo
    }
}

/// The product of two numbers at double width.
pub fn wide_mul(a: u128, b: u128) -> (w: Wide)
    ensures
        w@ == a * b,
{
    let al: u128 = a % LIMB;
    let ah: u128 = a / LIMB;
    let bl: u128 = b % LIMB;
    let bh: u128 = b / LIMB;
    proof {
        lemma_limb_product(al as int, bl as int);
        lemma_limb_product(al as int, bh as int);
        lemma_limb_product(ah as int, bl as int);
        lemma_limb_product(ah as int, bh as int);
    }
    let ll: u128 = al * bl;
    let lh: u128 = al * bh;
    let hl: u128 = ah * bl;
    let hh: u128 = ah * bh;
    let mid1: u128 = lh + ll / LIMB;
    let mid2: u128 = hl + mid1 % LIMB;
    let lo: u128 = (mid2 % LIMB) * LIMB + ll % LIMB;
    let hi: u128 = hh + mid1 / LIMB + mid2 / LIMB;
    proof {
        lemma_product_of_halves(
            a as int,
            b as int,
            al as int,
            ah as int,
            bl as int,
            bh as int,
            ll as int,
            lh as int,
            hl as int,
            hh as int,
        );
    }
    Wide { hi, lo }
}

/// The product of two numbers below two to the power 64 is below two to the
/// power 128, by a margin.
proof fn lemma_limb_product(x: int, y: int)
    by (nonlinear_arith)
    requires
        0 <= x < 0x1_0000_0000_0000_0000,
        0 <= y < 0x1_0000_0000_0000_0000,
    ensures
        0 <= x * y <= 0xffff_ffff_ffff_fffe_0000_0000_0000_0001,
{
}

/// A product in terms of the products of the factors' halves.
proof fn lemma_product_of_halves(
    a: int,
    b: int,
    al: int,
    ah: int,
    bl: int,
    bh: int,
    ll: int,
    lh: int,
    hl: int,
    hh: int,
)
    by (nonlinear_arith)
    requires
        a == ah * 0x1_0000_0000_0000_0000 + al,
        b == bh * 0x1_0000_0000_0000_0000 + bl,
        ll == al * bl,
        lh == al * bh,
        hl == ah * bl,
        hh == ah * bh,
    ensures
        a * b == hh * 0x1_0000_0000_0000_0000_0000_0000_0000_0000 + (lh + hl)
            * 0x1_0000_0000_0000_0000 + ll,
{
}

/// Whether one number at double width is no larger than another.
pub fn wide_le(x: &Wide, y: &Wide) -> (b: bool)
    ensures
        b == (x@ <= y@),
{
    x.hi < y.hi || (x.hi == y.hi && x.lo <= y.lo)
}

/// The one number between whose multiple of `d` and the next `n` lies is
/// the quotient of `n` by `d`.
proof fn lemma_quotient_is(n: int, d: int, q: int)
    by (nonlinear_arith)
    requires
        d > 0,
        q * d <= n < (q + 1) * d,
    ensures
        n / d == q,
{
}

/// Multiples of a positive number grow with the multiplier.
proof fn lemma_multiples_grow(x: int, y: int, d: int)
    by (nonlinear_arith)
    requires
        0 <= x <= y,
        0 <= d,
    ensures
        x * d <= y * d,
{
}

/// The quotient of a product by a divisor, rounded down; `None` when it is
/// above `limit`.
pub fn mul_div_floor(a: u128, b: u128, d: u128, limit: u128) -> (q: Option<u128>)
    requires
        d > 0,
        limit < u128::MAX,
    ensures
        q == (if (a * b) / (d as int) <= limit {
            Some(((a * b) / (d as int)) as u128)
        } else {
            None
        }),
{
    let n = wide_mul(a, b);
    let over = wide_mul(limit + 1, d);
    proof {
        assert(0 <= a * b) by (nonlinear_arith)
            requires
                0 <= a,
                0 <= b,
        ;
    }
    if wide_le(&over, &n) {
        proof {
            let q0 = (a * b) / (d as int);
            assert(q0 > limit) by (nonlinear_arith)
                requires
                    (limit + 1) * d <= a * b,
                    d > 0,
                    q0 == (a * b) / (d as int),
            ;
        }
        return None;
    }
    let mut lo: u128 = 0;
    let mut hi: u128 = limit;
    while lo < hi
        invariant
            lo <= hi <= limit,
            d > 0,
            n@ == a * b,
            lo * d <= n@,
            n@ < (hi + 1) * d,
        decreases hi - lo,
    {
        let mid: u128 = lo + (hi - lo - 1) / 2 + 1;
        let w = wide_mul(mid, d);
        if wide_le(&w, &n) {
            lo = mid;
        } else {
            hi = mid - 1;
        }
    }
    proof {
        lemma_quotient_is(a * b, d as int, lo as int);
    }
    Some(lo)
}

/// The integer square root of a product.
pub fn sqrt_of_product(a: u128, b: u128) -> (r: u128)
    ensures
        is_isqrt(a * b, r as int),
        r == isqrt(a * b),
{
    let n = wide_mul(a, b);
    let mut lo: u128 = 0;
    let mut hi: u128 = u128::MAX;
    proof {
        assert(a * b < 0x1_0000_0000_0000_0000_0000_0000_0000_0000
            * 0x1_0000_0000_0000_0000_0000_0000_0000_0000 && 0 <= a * b) by (nonlinear_arith)
            requires
                0 <= a < 0x1_0000_0000_0000_0000_0000_0000_0000_0000,
                0 <= b < 0x1_0000_0000_0000_0000_0000_0000_0000_0000,
        ;
    }
    while lo < hi
        invariant
            lo <= hi,
            n@ == a * b,
            lo * lo <= n@,
            n@ < (hi + 1) * (hi + 1),
        decreases hi - lo,
    {
        let mid: u128 = lo + (hi - lo - 1) / 2 + 1;
        let w = wide_mul(mid, mid);
        if wide_le(&w, &n) {
            lo = mid;
        } else {
            hi = mid - 1;
        }
    }
    proof {
        lemma_isqrt_is(a * b, lo as int);
    }
    lo
}

/// The magnitude of a number.
pub fn magnitude(x: i128) -> (m: u128)
    ensures
        m == abs_int(x as int),
{
    if x >= 0 {
        x as u128
    } else {
        ((-(x + 1)) as u128) + 1
    }
}

/// The magnitude of a product is the product of the magnitudes, and the
/// product is below zero exactly when one factor is and the other is above.
proof fn lemma_product_sign(a: int, b: int)
    by (nonlinear_arith)
    ensures
        abs_int(a * b) == abs_int(a) * abs_int(b),
        a * b < 0 <==> (a < 0 && b > 0) || (a > 0 && b < 0),
{
}

/// A non-negative number divided by a positive one is non-negative, and
/// zero divided is zero.
proof fn lemma_quotient_sign(n: int, d: int)
    by (nonlinear_arith)
    requires
        0 <= n,
        0 < d,
    ensures
        0 <= n / d,
        n == 0 ==> n / d == 0,
{
}

/// A quotient rounded toward zero is the quotient of the magnitudes, with
/// the sign of the exact quotient.
proof fn lemma_trunc_by_magnitudes(p: int, d: int)
    requires
        d != 0,
    ensures
        0 <= abs_int(p) / abs_int(d),
        p == 0 ==> trunc_div(p, d) == 0,
        trunc_div(p, d) == (if (p < 0) != (d < 0) {
            -(abs_int(p) / abs_int(d))
        } else {
            abs_int(p) / abs_int(d)
        }),
{
    lemma_quotient_sign(abs_int(p), abs_int(d));
}

/// The quotient of a product by a divisor, rounded toward zero; `None` when
/// it is not an `i128`.
pub fn scaled_ratio(a: i128, b: i128, d: i128) -> (r: Option<i128>)
    requires
        d != 0,
    ensures
        r == checked(trunc_div(a * b, d as int)),
{
    let below_zero = ((a < 0) != (b < 0)) != (d < 0) && a != 0 && b != 0;
    let limit: u128 = if below_zero {
        0x8000_0000_0000_0000_0000_0000_0000_0000
    } else {
        0x7fff_ffff_ffff_ffff_ffff_ffff_ffff_ffff
    };
    proof {
        lemma_product_sign(a as int, b as int);
        lemma_trunc_by_magnitudes(a * b, d as int);
    }
    let ma = magnitude(a);
    let mb = magnitude(b);
    let md = magnitude(d);
    proof {
        assert(abs_int(a * b) == ma * mb);
    }
    match mul_div_floor(ma, mb, md, limit) {
        Some(q) => {
            if below_zero {
                if q == 0x8000_0000_0000_0000_0000_0000_0000_0000 {
                    Some(i128::MIN)
                } else {
                    Some(-(q as i128))
                }
            } else {
                Some(q as i128)
            }
        },
        None => None,
    }
}

/// Multiplies two amounts, rounding toward zero; `None` when the product is
/// not an `i128`.
pub fn fx_mul(a: i128, b: i128) -> (r: Option<i128>)
    ensures
        r == checked(mul_amounts(a as int, b as int)),
{
    scaled_ratio(a, b, SCALE)
}

/// Divides one amount by another, rounding toward zero; `None` when the
/// quotient is not an `i128`.
pub fn fx_div(a: i128, b: i128) -> (r: Option<i128>)
    requires
        b != 0,
    ensures
        r == checked(div_amounts(a as int, b as int)),
{
    scaled_ratio(a, SCALE, b)
}

/// The sum of two amounts; `None` when it is not an `i128`.
pub fn add_amounts(a: i128, b: i128) -> (r: Option<i128>)
    ensures
        r == checked(a + b),
{
    if b >= 0 {
        if a > i128::MAX - b {
            None
        } else {
            Some(a + b)
        }
    } else {
        if a < i128::MIN - b {
            None
        } else {
            Some(a + b)
        }
    }
}

/// The difference of two amounts; `None` when it is not an `i128`.
pub fn sub_amounts(a: i128, b: i128) -> (r: Option<i128>)
    ensures
        r == checked(a - b),
{
    if b >= 0 {
        if a < i128::MIN + b {
            None
        } else {
            Some(a - b)
        }
    } else {
        if a > i128::MAX + b {
            None
        } else {
            Some(a - b)
        }
    }
}

/// Whether an amount is nearer to zero than the tolerance.
pub fn is_negligible(x: i128) -> (b: bool)
    ensures
        b == (abs_int(x as int) < EPSILON),
{
    -EPSILON < x && x < EPSILON
}

/// The number 2 with eighteen decimal places.
pub const TWO_E18: u128 = 2_000_000_000_000_000_000;

/// The natural logarithm of 2 with eighteen decimal places, rounded down.
pub const LN_2_E18: u128 = 693_147_180_559_945_309;

/// The number of binary digits of a logarithm's fractional part.
pub const LOG_DIGITS: u32 = 60;

/// Two to the power `LOG_DIGITS`.
pub const LOG_DIGITS_RANGE: u128 = 1_152_921_504_606_846_976;

/// How often `m` must be halved (rounding down) to fall below 2.
pub open spec fn halvings(m: int) -> int
    decreases m,
{
    if m < TWO_E18 as int {
        0
    } else {
        1 + halvings(m / 2)
    }
}

/// What is left of `m` after those halvings.
pub open spec fn mantissa(m: int) -> int
    decreases m,
{
    if m < TWO_E18 as int {
        m
    } else {
        mantissa(m / 2)
    }
}

/// The binary digits of the base-2 logarithm of the amount `x`, for `x`
/// from 1 up to but not including 2, found by repeated squaring: `digits`
/// holds the digits found so far and `n` more are appended to it.
pub open spec fn log2_digits(x: int, digits: int, n: nat) -> int
    decreases n,
{
    if n == 0 {
        digits
    } else {
        let square = x * x / (SCALE as int);
        if square >= TWO_E18 as int {
            log2_digits(square / 2, 2 * digits + 1, (n - 1) as nat)
        } else {
            log2_digits(square, 2 * digits, (n - 1) as nat)
        }
    }
}

/// The natural logarithm of the amount `v`, as an amount, for `v` at least
/// the amount 1. With `v = 2^k * m` and `m` in `[1, 2)`, it is
/// `(k + log2(m)) * ln 2`, where `log2(m)` is taken to `LOG_DIGITS` binary
/// digits and every step rounds down.
pub open spec fn ln_amount(v: int) -> int {
    halvings(v) * LN_2_E18 + log2_digits(mantissa(v), 0, LOG_DIGITS as nat) * LN_2_E18 / (
    LOG_DIGITS_RANGE as int)
}

proof fn lemma_halvings_bounds(m: int)
    requires
        SCALE <= m,
    ensures
        0 <= halvings(m),
        SCALE <= mantissa(m) < TWO_E18,
    decreases m,
{
    if m >= TWO_E18 as int {
        lemma_halvings_bounds(m / 2);
    }
}

proof fn lemma_halvings_count(m: int, bits: nat)
    requires
        0 <= m,
        m < vstd::arithmetic::power2::pow2(bits),
    ensures
        halvings(m) <= bits,
    decreases m,
{
    if m >= TWO_E18 as int {
        if bits == 0 {
            vstd::arithmetic::power2::lemma2_to64();
        } else {
            vstd::arithmetic::power2::lemma_pow2_unfold(bits);
            lemma_halvings_count(m / 2, (bits - 1) as nat);
        }
    }
}

proof fn lemma_square_bounds(x: int)
    requires
        SCALE <= x < TWO_E18,
    ensures
        x * x < 4_000_000_000_000_000_000_000_000_000_000_000_000,
        SCALE <= x * x / (SCALE as int) < 2 * TWO_E18,
{
    assert(1_000_000_000_000_000_000 * 1_000_000_000_000_000_000 <= x * x
        < 2_000_000_000_000_000_000 * 2_000_000_000_000_000_000) by (nonlinear_arith)
        requires
            1_000_000_000_000_000_000 <= x < 2_000_000_000_000_000_000,
    ;
}

/// Computes the natural logarithm of an amount that is at least 1.
pub fn ln_fixed(v: u128) -> (r: i128)
    requires
        v >= SCALE,
    ensures
        r == ln_amount(v as int),
        0 <= r <= 90_000_000_000_000_000_000,
{
    let mut m: u128 = v;
    let mut k: u128 = 0;
    proof {
        lemma_halvings_bounds(m as int);
        vstd::arithmetic::power2::lemma2_to64_rest();
        vstd::arithmetic::power2::lemma_pow2_adds(64, 64);
        assert(0x1_0000_0000_0000_0000 * 0x1_0000_0000_0000_0000
            == 0x1_0000_0000_0000_0000_0000_0000_0000_0000) by (nonlinear_arith);
        lemma_halvings_count(m as int, 128);
    }
    while m >= TWO_E18
        invariant
            SCALE <= m,
            0 <= k,
            k + halvings(m as int) == halvings(v as int),
            mantissa(m as int) == mantissa(v as int),
            halvings(v as int) <= 128,
        decreases m,
    {
        proof {
            lemma_halvings_bounds((m / 2) as int);
        }
        m = m / 2;
        k = k + 1;
    }
    let unit: u128 = SCALE as u128;
    let mut x: u128 = m;
    let mut digits: u128 = 0;
    let mut i: u32 = 0;
    proof {
        vstd::arithmetic::power2::lemma2_to64();
    }
    while i < LOG_DIGITS
        invariant
            i <= LOG_DIGITS,
            unit == SCALE,
            SCALE <= x < TWO_E18,
            0 <= digits < vstd::arithmetic::power2::pow2(i as nat),
            log2_digits(x as int, digits as int, (LOG_DIGITS - i) as nat) == log2_digits(
                mantissa(v as int),
                0,
                LOG_DIGITS as nat,
            ),
        decreases LOG_DIGITS - i,
    {
        proof {
            lemma_square_bounds(x as int);
            vstd::arithmetic::power2::lemma_pow2_unfold((i + 1) as nat);
            vstd::arithmetic::power2::lemma_pow2_strictly_increases(i as nat, 60);
            vstd::arithmetic::power2::lemma2_to64_rest();
        }
        let square: u128 = x * x / unit;
        if square >= TWO_E18 {
            x = square / 2;
            digits = 2 * digits + 1;
        } else {
            x = square;
            digits = 2 * digits;
        }
        i = i + 1;
    }
    proof {
        vstd::arithmetic::power2::lemma2_to64_rest();
        assert(digits < LOG_DIGITS_RANGE);
        assert(digits * LN_2_E18 <= LOG_DIGITS_RANGE * LN_2_E18) by (nonlinear_arith)
            requires
                0 <= digits < LOG_DIGITS_RANGE,
        ;
        assert(LOG_DIGITS_RANGE * LN_2_E18 < 0x1000_0000_0000_0000_0000_0000_0000_0000)
            by (nonlinear_arith);
        assert(0 <= k * LN_2_E18 <= 128 * LN_2_E18) by (nonlinear_arith)
            requires
                0 <= k <= 128,
        ;
        assert(0 <= digits * LN_2_E18 / (LOG_DIGITS_RANGE as int) <= LN_2_E18) by (nonlinear_arith)
            requires
                0 <= digits * LN_2_E18 <= LOG_DIGITS_RANGE * LN_2_E18,
                LOG_DIGITS_RANGE == 1_152_921_504_606_846_976,
        ;
    }
    let whole: u128 = k * LN_2_E18;
    let fraction: u128 = digits * LN_2_E18 / LOG_DIGITS_RANGE;
    (whole + fraction) as i128
}

} // verus!
