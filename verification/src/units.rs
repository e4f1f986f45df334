//! The fixed-point scales and the integer helpers that the geometry needs.

use vstd::arithmetic::div_mod::{lemma_fundamental_div_mod, lemma_fundamental_div_mod_converse};
use vstd::prelude::*;

verus! {

/// The luminance of a white pixel, and the threshold 1.0.
///
/// It is 255 * 10000 * 1024: an 8-bit channel weighted in ten-thousandths is
/// a whole number of units, and so is every step of the threshold search,
/// which halves a hundredth of the scale up to twelve times.
pub const FULL_SCALE: i64 = 2_611_200_000;

/// The coordinate 1.0: the full width or height of the image.
pub const UNIT: i64 = 1_000_000;

/// Division that rounds towards minus infinity. In contracts `/` on
/// integers means this; in executable code `/` rounds towards zero.
pub fn floor_div(a: i128, b: i128) -> (q: i128)
    requires
        b > 0,
        a > i128::MIN,
    ensures
        q == a as int / b as int,
        a >= 0 ==> 0 <= q <= a,
        a < 0 ==> a <= q < 0,
{
    if a >= 0 {
        let q: i128 = a / b;
        proof {
            lemma_fundamental_div_mod(a as int, b as int);
            assert(0 <= q <= a) by (nonlinear_arith)
                requires
                    a == b * q + (a % b),
                    0 <= a % b < b,
                    a >= 0,
            ;
        }
        q
    } else {
        let m: i128 = -a;
        let q: i128 = m / b;
        let r: i128 = m % b;
        proof {
            lemma_fundamental_div_mod(m as int, b as int);
            assert(b * q == q * b) by (nonlinear_arith);
            if r == 0 {
                assert(a == (-q) * b + 0) by (nonlinear_arith)
                    requires
                        a == -m,
                        m == q * b + r,
                        r == 0,
                ;
                lemma_fundamental_div_mod_converse(a as int, b as int, -q as int, 0);
            } else {
                assert(a == (-q - 1) * b + (b - r)) by (nonlinear_arith)
                    requires
                        a == -m,
                        m == q * b + r,
                ;
                lemma_fundamental_div_mod_converse(a as int, b as int, -q - 1, b - r);
            }
            assert(0 <= q <= m && (r != 0 ==> q + 1 <= m) && (r == 0 ==> q >= 1))
                by (nonlinear_arith)
                requires
                    m == q * b + r,
                    0 <= r < b,
                    m > 0,
                    q >= 0,
            ;
        }
        if r == 0 {
            -q
        } else {
            -q - 1
        }
    }
}

/// A quotient is no further from zero than what was divided.
pub proof fn lemma_floor_div_bounds(a: int, b: int)
    requires
        b > 0,
    ensures
        a >= 0 ==> 0 <= a / b <= a,
        a < 0 ==> a <= a / b < 0,
{
    lemma_fundamental_div_mod(a, b);
    let q = a / b;
    let r = a % b;
    assert((a >= 0 ==> 0 <= q <= a) && (a < 0 ==> a <= q < 0)) by (nonlinear_arith)
        requires
            a == b * q + r,
            0 <= r < b,
    ;
}

/// `r` is the square root of `n`, rounded down.
pub open spec fn is_floor_sqrt(n: int, r: int) -> bool {
    0 <= r && r * r <= n < (r + 1) * (r + 1)
}

/// The square root of `n`, rounded down.
pub open spec fn floor_sqrt(n: nat) -> int {
    choose|r: int| is_floor_sqrt(n as int, r)
}

/// Every number has a rounded-down square root.
pub proof fn lemma_floor_sqrt(n: nat)
    ensures
        is_floor_sqrt(n as int, floor_sqrt(n)),
    decreases n,
{
    if n == 0 {
        assert(is_floor_sqrt(0, 0));
    } else {
        lemma_floor_sqrt((n - 1) as nat);
        let r = floor_sqrt((n - 1) as nat);
        if n < (r + 1) * (r + 1) {
            assert(is_floor_sqrt(n as int, r));
        } else {
            assert(n < (r + 2) * (r + 2)) by (nonlinear_arith)
                requires
                    n - 1 < (r + 1) * (r + 1),
                    0 <= r,
            ;
            assert(is_floor_sqrt(n as int, r + 1));
        }
    }
}

/// Only one number is the rounded-down square root of `n`.
pub proof fn lemma_floor_sqrt_unique(n: nat, r: int)
    requires
        is_floor_sqrt(n as int, r),
    ensures
        floor_sqrt(n) == r,
{
    let s = floor_sqrt(n);
    assert(is_floor_sqrt(n as int, s));
    assert(s == r) by (nonlinear_arith)
        requires
            0 <= r,
            r * r <= n < (r + 1) * (r + 1),
            0 <= s,
            s * s <= n < (s + 1) * (s + 1),
    ;
}

/// Computes the square root of `n`, rounded down.
pub fn isqrt(n: u64) -> (r: u64)
    ensures
        r == floor_sqrt(n as nat),
        is_floor_sqrt(n as int, r as int),
{
    let mut low: u64 = 0;
    let mut high: u64 = 4_294_967_296;
    assert(n < high * high) by (nonlinear_arith)
        requires
            high == 4_294_967_296,
            n <= u64::MAX,
    ;
    while high - low > 1
        invariant
            low < high <= 4_294_967_296,
            low * low <= n < high * high,
        decreases high - low,
    {
        let middle: u64 = low + (high - low) / 2;
        assert(middle * middle <= 4_294_967_295 * 4_294_967_295) by (nonlinear_arith)
            requires
                0 <= middle <= 4_294_967_295,
        ;
        if middle * middle <= n {
            low = middle;
        } else {
            high = middle;
        }
    }
    proof {
        lemma_floor_sqrt_unique(n as nat, low as int);
    }
    low
}

} // verus!
