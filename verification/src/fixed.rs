//! Fixed-point scalar arithmetic.
//!
//! A real quantity `r` is stored as the integer `r * SCALE`, rounded
//! toward negative infinity. Every operation here has an exact
//! contract over mathematical integers, so the geometry and shading
//! code can state precisely which value each pixel receives.

use vstd::prelude::*;
use vstd::arithmetic::div_mod::{
    lemma_fundamental_div_mod, lemma_fundamental_div_mod_converse_div, lemma_div_is_ordered,
    lemma_div_pos_is_pos, lemma_div_nonincreasing, lemma_basic_div,
};

verus! {

/// Number of fixed-point units that stand for 1.0.
pub const SCALE: i128 = 65536;

/// Largest magnitude admitted for a raw intermediate value (a product
/// of two operands, or a numerator already multiplied by `SCALE`):
/// one bit under the `i128` range, so a few such values can still be
/// added without overflow.
pub const RAW_MAX: i128 = 0x4000_0000_0000_0000_0000_0000_0000_0000;

/// Largest operand whose product with `SCALE` stays within `RAW_MAX`.
pub const NUM_MAX: i128 = 0x4000_0000_0000_0000_0000_0000_0000;

/// Fixed-point product: the scaled value of `a * b`.
pub open spec fn fmul(a: int, b: int) -> int {
    (a * b) / (SCALE as int)
}

/// Fixed-point quotient: the scaled value of `a / b`.
pub open spec fn fdiv(a: int, b: int) -> int {
    (a * SCALE) / b
}

/// Truncated (toward zero) remainder, as Rust's `%` computes it for a
/// positive divisor.
pub open spec fn trem(a: int, d: int) -> int {
    if a >= 0 {
        a % d
    } else {
        -((-a) % d)
    }
}

/// Clamp a scalar to be non-negative.
pub open spec fn clamp0(a: int) -> int {
    if a < 0 {
        0
    } else {
        a
    }
}

/// `r` is the integer square root of `n`, rounded down.
pub open spec fn is_isqrt(n: int, r: int) -> bool {
    &&& 0 <= r
    &&& r * r <= n
    &&& n < (r + 1) * (r + 1)
}

/// The integer square root of `n`, rounded down (0 for negative input).
pub open spec fn isqrt_spec(n: int) -> int {
    if n < 0 {
        0
    } else {
        choose|r: int| is_isqrt(n, r)
    }
}

/// Fixed-point square root: the scaled value of `sqrt(x / SCALE)` is
/// `isqrt(x * SCALE)`.
pub open spec fn fsqrt(x: int) -> int {
    isqrt_spec(x * SCALE)
}

/// An integer square root exists for every non-negative integer.
pub proof fn lemma_isqrt_exists(n: int)
    requires
        n >= 0,
    ensures
        exists|r: int| is_isqrt(n, r),
    decreases n,
{
    if n == 0 {
        assert(is_isqrt(0, 0));
    } else {
        let m = n - 1;
        lemma_isqrt_exists(m);
        let p = choose|r: int| is_isqrt(m, r);
        if (p + 1) * (p + 1) <= n {
            assert(n - 1 < (p + 1) * (p + 1));
            assert(is_isqrt(n, p + 1)) by (nonlinear_arith)
                requires
                    0 <= p,
                    (p + 1) * (p + 1) <= n,
                    n <= (p + 1) * (p + 1);
        } else {
            assert(is_isqrt(n, p));
        }
    }
}

/// The integer square root is unique, so any witness equals `isqrt_spec`.
pub proof fn lemma_isqrt_is(n: int, r: int)
    requires
        is_isqrt(n, r),
    ensures
        isqrt_spec(n) == r,
{
    assert(n >= 0) by (nonlinear_arith)
        requires
            0 <= r,
            r * r <= n;
    lemma_isqrt_exists(n);
    let q = isqrt_spec(n);
    assert(is_isqrt(n, q));
    assert(q == r) by (nonlinear_arith)
        requires
            0 <= q,
            q * q <= n,
            n < (q + 1) * (q + 1),
            0 <= r,
            r * r <= n,
            n < (r + 1) * (r + 1);
}

/// A product is bounded by the product of the operands' bounds.
pub proof fn lemma_mul_abs_bound(a: int, b: int, ba: int, bb: int)
    requires
        -ba <= a <= ba,
        -bb <= b <= bb,
    ensures
        -(ba * bb) <= a * b <= ba * bb,
{
    assert(-(ba * bb) <= a * b <= ba * bb) by (nonlinear_arith)
        requires
            -ba <= a <= ba,
            -bb <= b <= bb;
}

/// Dividing by a positive integer cannot grow a value's magnitude.
pub proof fn lemma_div_abs_bound(a: int, d: int, bound: int)
    requires
        1 <= d,
        -bound <= a <= bound,
    ensures
        -bound <= a / d <= bound,
{
    if a >= 0 {
        lemma_div_pos_is_pos(a, d);
        lemma_div_nonincreasing(a, d);
    } else {
        lemma_div_is_ordered(a, 0, d);
        lemma_basic_div(0, d);
        let q = a / d;
        let r = a % d;
        lemma_fundamental_div_mod(a, d);
        assert(a == d * q + r);
        assert(q <= 0);
        assert(bound >= 1);
        assert(r <= bound * (d - 1)) by (nonlinear_arith)
            requires
                0 <= r < d,
                bound >= 1;
        assert(d * q >= -(d * bound)) by (nonlinear_arith)
            requires
                a == d * q + r,
                r <= bound * (d - 1),
                -bound <= a;
        assert(q >= -bound) by (nonlinear_arith)
            requires
                d * q >= -(d * bound),
                1 <= d;
    }
}

/// Division by a positive `d` shrinks a bounded value to within
/// `bound / d`, up to the one unit floor rounding can add below zero.
pub proof fn lemma_div_shrink_bound(a: int, d: int, bound: int)
    requires
        1 <= d,
        0 <= bound,
        -bound <= a <= bound,
    ensures
        -(bound / d + 1) <= a / d <= bound / d,
{
    lemma_div_pos_is_pos(bound, d);
    if a >= 0 {
        lemma_div_is_ordered(a, bound, d);
        lemma_div_pos_is_pos(a, d);
    } else {
        lemma_div_is_ordered(a, bound, d);
        lemma_div_is_ordered(-bound, a, d);
        let q = (-bound) / d;
        let r = (-bound) % d;
        lemma_fundamental_div_mod(-bound, d);
        if r == 0 {
            assert(bound == (-q) * d + 0) by (nonlinear_arith)
                requires
                    -bound == d * q + r,
                    r == 0;
            lemma_fundamental_div_mod_converse_div(bound, d, -q, 0);
        } else {
            assert(bound == (-q - 1) * d + (d - r)) by (nonlinear_arith)
                requires
                    -bound == d * q + r;
            lemma_fundamental_div_mod_converse_div(bound, d, -q - 1, d - r);
        }
    }
}

/// Floor division of `a` by a positive divisor `d`, exactly matching
/// mathematical (Euclidean) division.
pub fn div_floor(a: i128, d: i128) -> (r: i128)
    requires
        -RAW_MAX <= a <= RAW_MAX,
        0 < d <= RAW_MAX,
    ensures
        r == a as int / d as int,
{
    proof {
        lemma_div_abs_bound(a as int, d as int, RAW_MAX as int);
    }
    if a >= 0 {
        let q: u128 = (a as u128) / (d as u128);
        proof {
            assert(a as u128 == a as int);
            assert(d as u128 == d as int);
        }
        q as i128
    } else {
        let m: u128 = (-a) as u128;
        let num: u128 = m + (d - 1) as u128;
        let qc: u128 = num / (d as u128);
        proof {
            let mi = m as int;
            let di = d as int;
            let q0 = mi / di;
            let r0 = mi % di;
            lemma_fundamental_div_mod(mi, di);
            lemma_div_pos_is_pos(mi, di);
            lemma_div_nonincreasing(mi, di);
            if r0 == 0 {
                assert(mi + di - 1 == q0 * di + (di - 1)) by (nonlinear_arith)
                    requires
                        mi == di * q0 + r0,
                        r0 == 0;
                lemma_fundamental_div_mod_converse_div(mi + di - 1, di, q0, di - 1);
                assert(qc as int == q0);
                assert(-mi == (-q0) * di + 0) by (nonlinear_arith)
                    requires
                        mi == di * q0 + r0,
                        r0 == 0;
                lemma_fundamental_div_mod_converse_div(-mi, di, -q0, 0);
            } else {
                assert(mi + di - 1 == (q0 + 1) * di + (r0 - 1)) by (nonlinear_arith)
                    requires
                        mi == di * q0 + r0;
                lemma_fundamental_div_mod_converse_div(mi + di - 1, di, q0 + 1, r0 - 1);
                assert(qc as int == q0 + 1);
                assert(-mi == (-q0 - 1) * di + (di - r0)) by (nonlinear_arith)
                    requires
                        mi == di * q0 + r0;
                lemma_fundamental_div_mod_converse_div(-mi, di, -q0 - 1, di - r0);
            }
            assert(mi >= 1);
            if r0 == 0 {
                assert(qc as int <= mi);
            } else {
                assert(q0 + 1 <= mi) by (nonlinear_arith)
                    requires
                        mi == di * q0 + r0,
                        1 <= r0,
                        1 <= di,
                        0 <= q0;
            }
            assert(a as int / d as int == -(qc as int));
            assert(qc as int <= m as int);
        }
        -(qc as i128)
    }
}

/// Fixed-point multiply: exact floor of the scaled product.
pub fn mul_fx(a: i128, b: i128) -> (r: i128)
    requires
        -RAW_MAX <= a * b <= RAW_MAX,
    ensures
        r == fmul(a as int, b as int),
{
    let p: i128 = a * b;
    div_floor(p, SCALE)
}

/// Fixed-point divide by a positive divisor: exact floor of the scaled
/// quotient.
pub fn div_fx(a: i128, d: i128) -> (r: i128)
    requires
        -NUM_MAX <= a <= NUM_MAX,
        0 < d <= RAW_MAX,
    ensures
        r == fdiv(a as int, d as int),
{
    let p: i128 = a * SCALE;
    div_floor(p, d)
}

/// Fixed-point quotient for a divisor of either sign: the signs are
/// normalized so the floor is always taken with a positive divisor.
pub open spec fn fdiv_by(a: int, d: int) -> int {
    if d > 0 {
        (a * SCALE) / d
    } else {
        ((-a) * SCALE) / (-d)
    }
}

/// Fixed-point divide by a nonzero divisor of either sign.
pub fn div_fx_signed(a: i128, d: i128) -> (r: i128)
    requires
        -NUM_MAX <= a <= NUM_MAX,
        d != 0,
        -RAW_MAX <= d <= RAW_MAX,
    ensures
        r == fdiv_by(a as int, d as int),
{
    if d > 0 {
        div_fx(a, d)
    } else {
        div_fx(-a, -d)
    }
}

/// Both the raw product and the fixed-point product of two bounded
/// operands are bounded.
pub proof fn lemma_fmul_bound(x: int, y: int, bx: int, by: int)
    requires
        -bx <= x <= bx,
        -by <= y <= by,
        0 <= bx,
        0 <= by,
        bx * by <= RAW_MAX,
    ensures
        -RAW_MAX <= x * y <= RAW_MAX,
        -(bx * by / (SCALE as int) + 1) <= fmul(x, y) <= bx * by / (SCALE as int) + 1,
{
    lemma_mul_abs_bound(x, y, bx, by);
    lemma_div_shrink_bound(x * y, SCALE as int, bx * by);
}

/// Truncated remainder for a positive divisor, as the world-space
/// checkerboard tiling computes it.
pub fn rem_trunc(a: i128, d: i128) -> (r: i128)
    requires
        -RAW_MAX <= a <= RAW_MAX,
        0 < d <= RAW_MAX,
    ensures
        r == trem(a as int, d as int),
{
    if a >= 0 {
        let m: u128 = (a as u128) % (d as u128);
        proof {
            lemma_fundamental_div_mod(a as int, d as int);
        }
        m as i128
    } else {
        let m: u128 = ((-a) as u128) % (d as u128);
        proof {
            lemma_fundamental_div_mod((-a) as int, d as int);
        }
        -(m as i128)
    }
}

/// Integer square root by bisection, exact for every `u128`.
pub fn isqrt(n: u128) -> (r: u128)
    ensures
        is_isqrt(n as int, r as int),
        r as int == isqrt_spec(n as int),
        r < 0x10000000000000000u128,
{
    let mut lo: u128 = 0;
    let mut hi: u128 = 0x10000000000000000u128;
    proof {
        assert((hi as int) * (hi as int) > n as int) by (nonlinear_arith)
            requires
                hi as int == 0x10000000000000000,
                n as int <= 0xffffffffffffffffffffffffffffffff;
    }
    while lo + 1 < hi
        invariant
            0 <= lo < hi,
            hi <= 0x10000000000000000u128,
            (lo as int) * (lo as int) <= n as int,
            (hi as int) * (hi as int) > n as int,
        decreases hi - lo,
    {
        let mid: u128 = lo + (hi - lo) / 2;
        proof {
            assert(lo < mid < hi);
            assert((mid as int) * (mid as int) < 0xffffffffffffffffffffffffffffffff)
                by (nonlinear_arith)
                requires
                    0 <= mid as int,
                    (mid as int) < 0x10000000000000000;
        }
        if mid * mid <= n {
            lo = mid;
        } else {
            hi = mid;
        }
    }
    proof {
        assert(is_isqrt(n as int, lo as int));
        lemma_isqrt_is(n as int, lo as int);
    }
    lo
}

/// Fixed-point square root of a non-negative scalar.
pub fn sqrt_fx(x: i128) -> (r: i128)
    requires
        0 <= x <= NUM_MAX,
    ensures
        r == fsqrt(x as int),
        0 <= r,
        r * r <= x * SCALE < (r + 1) * (r + 1),
        r < 0x1_0000_0000_0000_0000i128,
{
    let n: u128 = (x * SCALE) as u128;
    let s: u128 = isqrt(n);
    proof {
        assert(n as int == x as int * SCALE as int);
    }
    s as i128
}

/// Clamp a scalar to be non-negative, as the diffuse and specular
/// terms do before scaling.
pub fn largest_of(num: i128) -> (r: i128)
    ensures
        r == clamp0(num as int),
{
    if num < 0 {
        0
    } else {
        num
    }
}

} // verus!
