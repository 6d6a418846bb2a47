//! Three-component vectors, used both for points/directions in space
//! and for RGB colors.
//!
//! The executable type `Vec3` holds fixed-point `i128` components; its
//! view `V3` is the triple of mathematical integers it stands for.
//! Every operation's contract states the exact resulting components.

use vstd::prelude::*;
use vstd::arithmetic::div_mod::{lemma_div_is_ordered, lemma_div_multiples_vanish};
use crate::fixed::{
    SCALE, RAW_MAX, fmul, fsqrt, is_isqrt, isqrt_spec, lemma_isqrt_exists, lemma_isqrt_is,
    lemma_mul_abs_bound, lemma_div_abs_bound, mul_fx, div_floor, sqrt_fx,
};

verus! {

/// Largest component magnitude accepted by `normalize`.
pub const NORM_MAX: i128 = 0x40_0000_0000_0000;

/// Largest component magnitude accepted by `mix`.
pub const MIX_MAX: i128 = 0x10_0000_0000_0000_0000_0000_0000;

/// Mathematical view of a vector: three unbounded integers.
pub ghost struct V3 {
    pub x: int,
    pub y: int,
    pub z: int,
}

/// Every component of `v` has magnitude at most `b`.
pub open spec fn bounded(v: V3, b: int) -> bool {
    &&& -b <= v.x <= b
    &&& -b <= v.y <= b
    &&& -b <= v.z <= b
}

pub open spec fn v3_add(a: V3, b: V3) -> V3 {
    V3 { x: a.x + b.x, y: a.y + b.y, z: a.z + b.z }
}

pub open spec fn v3_sub(a: V3, b: V3) -> V3 {
    V3 { x: a.x - b.x, y: a.y - b.y, z: a.z - b.z }
}

pub open spec fn v3_neg(a: V3) -> V3 {
    V3 { x: -a.x, y: -a.y, z: -a.z }
}

/// Scale a vector by a fixed-point scalar, component-wise.
pub open spec fn v3_scale(a: V3, s: int) -> V3 {
    V3 { x: fmul(a.x, s), y: fmul(a.y, s), z: fmul(a.z, s) }
}

/// Fixed-point dot product.
pub open spec fn v3_dot(a: V3, b: V3) -> int {
    (a.x * b.x + a.y * b.y + a.z * b.z) / (SCALE as int)
}

/// Fixed-point cross product.
pub open spec fn v3_cross(a: V3, b: V3) -> V3 {
    V3 {
        x: fmul(a.y, b.z) - fmul(a.z, b.y),
        y: fmul(a.z, b.x) - fmul(a.x, b.z),
        z: fmul(a.x, b.y) - fmul(a.y, b.x),
    }
}

/// The fixed-point length of `v`: the square root of its dot product
/// with itself.
pub open spec fn v3_len(v: V3) -> int {
    fsqrt(v3_dot(v, v))
}

/// Normalization: divide each component by the vector's length. A
/// vector too short to have a positive fixed-point length is returned
/// unchanged.
pub open spec fn v3_normalize(v: V3) -> V3 {
    let len = v3_len(v);
    if len <= 0 {
        v
    } else {
        V3 { x: (v.x * SCALE) / len, y: (v.y * SCALE) / len, z: (v.z * SCALE) / len }
    }
}

/// Blend two colors: `(1 - alpha) * a + alpha * b`, per channel, with
/// `alpha` in fixed-point units.
pub open spec fn v3_mix(a: V3, b: V3, alpha: int) -> V3 {
    V3 {
        x: ((SCALE - alpha) * a.x + alpha * b.x) / (SCALE as int),
        y: ((SCALE - alpha) * a.y + alpha * b.y) / (SCALE as int),
        z: ((SCALE - alpha) * a.z + alpha * b.z) / (SCALE as int),
    }
}

/// Component products and the dot product are bounded by the operands'
/// bounds.
pub proof fn lemma_dot_bound(a: V3, b: V3, ba: int, bb: int)
    requires
        bounded(a, ba),
        bounded(b, bb),
        0 <= ba,
        0 <= bb,
    ensures
        -(ba * bb) <= a.x * b.x <= ba * bb,
        -(ba * bb) <= a.y * b.y <= ba * bb,
        -(ba * bb) <= a.z * b.z <= ba * bb,
        -(3 * (ba * bb)) <= v3_dot(a, b) <= 3 * (ba * bb),
        -(3 * (ba * bb) / (SCALE as int) + 1) <= v3_dot(a, b) <= 3 * (ba * bb) / (SCALE as int)
            + 1,
{
    lemma_mul_abs_bound(a.x, b.x, ba, bb);
    lemma_mul_abs_bound(a.y, b.y, ba, bb);
    lemma_mul_abs_bound(a.z, b.z, ba, bb);
    lemma_div_abs_bound(
        a.x * b.x + a.y * b.y + a.z * b.z,
        SCALE as int,
        3 * (ba * bb),
    );
    crate::fixed::lemma_div_shrink_bound(
        a.x * b.x + a.y * b.y + a.z * b.z,
        SCALE as int,
        3 * (ba * bb),
    );
}

/// Every product in a cross product of bounded vectors stays in
/// range, and the result is bounded.
pub proof fn lemma_cross_bound(a: V3, b: V3, ba: int, bb: int)
    requires
        bounded(a, ba),
        bounded(b, bb),
        0 <= ba,
        0 <= bb,
        ba * bb <= RAW_MAX,
    ensures
        -RAW_MAX <= a.x * b.y <= RAW_MAX,
        -RAW_MAX <= a.x * b.z <= RAW_MAX,
        -RAW_MAX <= a.y * b.x <= RAW_MAX,
        -RAW_MAX <= a.y * b.z <= RAW_MAX,
        -RAW_MAX <= a.z * b.x <= RAW_MAX,
        -RAW_MAX <= a.z * b.y <= RAW_MAX,
        bounded(v3_cross(a, b), 2 * (ba * bb / (SCALE as int) + 1)),
{
    lemma_mul_abs_bound(a.x, b.y, ba, bb);
    lemma_mul_abs_bound(a.x, b.z, ba, bb);
    lemma_mul_abs_bound(a.y, b.x, ba, bb);
    lemma_mul_abs_bound(a.y, b.z, ba, bb);
    lemma_mul_abs_bound(a.z, b.x, ba, bb);
    lemma_mul_abs_bound(a.z, b.y, ba, bb);
    crate::fixed::lemma_div_shrink_bound(a.y * b.z, SCALE as int, ba * bb);
    crate::fixed::lemma_div_shrink_bound(a.z * b.y, SCALE as int, ba * bb);
    crate::fixed::lemma_div_shrink_bound(a.z * b.x, SCALE as int, ba * bb);
    crate::fixed::lemma_div_shrink_bound(a.x * b.z, SCALE as int, ba * bb);
    crate::fixed::lemma_div_shrink_bound(a.x * b.y, SCALE as int, ba * bb);
    crate::fixed::lemma_div_shrink_bound(a.y * b.x, SCALE as int, ba * bb);
}

/// The boundary cases of the blend law: weight 0 keeps the first
/// color, weight `SCALE` (that is, 1.0) takes the second.
pub proof fn lemma_mix_bounds(a: V3, b: V3)
    ensures
        v3_mix(a, b, 0) == a,
        v3_mix(a, b, SCALE as int) == b,
{
    let s = SCALE as int;
    assert(s * a.x + 0 * b.x == s * a.x) by (nonlinear_arith);
    assert(s * a.y + 0 * b.y == s * a.y) by (nonlinear_arith);
    assert(s * a.z + 0 * b.z == s * a.z) by (nonlinear_arith);
    lemma_div_multiples_vanish(a.x, s);
    lemma_div_multiples_vanish(a.y, s);
    lemma_div_multiples_vanish(a.z, s);
    assert(v3_mix(a, b, 0).x == a.x);
    assert(v3_mix(a, b, 0).y == a.y);
    assert(v3_mix(a, b, 0).z == a.z);
    assert((s - s) * a.x + s * b.x == s * b.x) by (nonlinear_arith);
    assert((s - s) * a.y + s * b.y == s * b.y) by (nonlinear_arith);
    assert((s - s) * a.z + s * b.z == s * b.z) by (nonlinear_arith);
    lemma_div_multiples_vanish(b.x, s);
    lemma_div_multiples_vanish(b.y, s);
    lemma_div_multiples_vanish(b.z, s);
    assert(v3_mix(a, b, s).x == b.x);
    assert(v3_mix(a, b, s).y == b.y);
    assert(v3_mix(a, b, s).z == b.z);
}

/// A normalized vector has components of magnitude at most `3 * SCALE`.
pub proof fn lemma_normalize_bound(v: V3)
    requires
        bounded(v, NORM_MAX as int),
    ensures
        bounded(v3_normalize(v), 3 * SCALE),
{
    let s = SCALE as int;
    let d = v3_dot(v, v);
    let sum = v.x * v.x + v.y * v.y + v.z * v.z;
    lemma_dot_bound(v, v, NORM_MAX as int, NORM_MAX as int);
    assert(0 <= v.x * v.x + v.y * v.y + v.z * v.z) by (nonlinear_arith);
    vstd::arithmetic::div_mod::lemma_fundamental_div_mod(sum, s);
    assert(d >= 0);
    assert(d * s >= 0) by (nonlinear_arith)
        requires
            d >= 0,
            s > 0;
    let ds = d * s;
    lemma_isqrt_exists(ds);
    let len = v3_len(v);
    assert(is_isqrt(ds, len)) by {
        assert(len == isqrt_spec(ds));
        let w = choose|r: int| is_isqrt(ds, r);
        assert(is_isqrt(ds, w));
        lemma_isqrt_is(ds, w);
    }
    if len <= 0 {
        // The vector is too short to normalize: its squared components
        // are below one fixed-point unit.
        assert(d * s < (len + 1) * (len + 1));
        assert(d * s < 1) by (nonlinear_arith)
            requires
                d * s < (len + 1) * (len + 1),
                0 <= len,
                len <= 0;
        assert(d == 0) by (nonlinear_arith)
            requires
                d * s < 1,
                d >= 0,
                s > 1;
        assert(sum < s) by {
            if sum >= s {
                lemma_div_is_ordered(s, sum, s);
                lemma_div_multiples_vanish(1, s);
            }
        }
        lemma_component_small(v.x, sum, v.y, v.z);
        lemma_component_small(v.y, sum, v.x, v.z);
        lemma_component_small(v.z, sum, v.x, v.y);
    } else {
        lemma_normalize_component(v.x, sum, v.y, v.z, d, len);
        lemma_normalize_component(v.y, sum, v.x, v.z, d, len);
        lemma_normalize_component(v.z, sum, v.x, v.y, d, len);
    }
}

/// If the squared component sum is below `SCALE`, each component is
/// below `3 * SCALE` in magnitude.
proof fn lemma_component_small(c: int, sum: int, o1: int, o2: int)
    requires
        sum == c * c + o1 * o1 + o2 * o2 || sum == o1 * o1 + c * c + o2 * o2 || sum == o1 * o1
            + o2 * o2 + c * c,
        sum < SCALE as int,
    ensures
        -(3 * SCALE) <= c <= 3 * SCALE,
{
    assert(-(3 * SCALE) <= c <= 3 * SCALE) by (nonlinear_arith)
        requires
            sum == c * c + o1 * o1 + o2 * o2 || sum == o1 * o1 + c * c + o2 * o2 || sum == o1
                * o1 + o2 * o2 + c * c,
            sum < SCALE as int,
            SCALE == 65536;
}

/// Each normalized component `(c * SCALE) / len` has magnitude at most
/// `3 * SCALE` when `len` is the fixed-point length.
proof fn lemma_normalize_component(c: int, sum: int, o1: int, o2: int, d: int, len: int)
    requires
        sum == c * c + o1 * o1 + o2 * o2 || sum == o1 * o1 + c * c + o2 * o2 || sum == o1 * o1
            + o2 * o2 + c * c,
        d == sum / (SCALE as int),
        is_isqrt(d * SCALE, len),
        len >= 1,
    ensures
        -(3 * SCALE) <= (c * SCALE) / len <= 3 * SCALE,
{
    let s = SCALE as int;
    vstd::arithmetic::div_mod::lemma_fundamental_div_mod(sum, s);
    assert(sum < (d + 1) * s) by (nonlinear_arith)
        requires
            sum == s * d + sum % s,
            sum % s < s,
            s > 0;
    assert(c * c <= sum) by (nonlinear_arith)
        requires
            sum == c * c + o1 * o1 + o2 * o2 || sum == o1 * o1 + c * c + o2 * o2 || sum == o1
                * o1 + o2 * o2 + c * c;
    assert(len * len <= d * s);
    assert(d * s < (len + 1) * (len + 1));
    assert(d >= 1) by (nonlinear_arith)
        requires
            len * len <= d * s,
            len >= 1,
            s == 65536;
    assert(c * c <= 8 * (len * len)) by (nonlinear_arith)
        requires
            c * c <= sum,
            sum < (d + 1) * s,
            d >= 1,
            d * s < (len + 1) * (len + 1),
            len >= 1,
            s > 0;
    assert(-(3 * len) <= c <= 3 * len) by (nonlinear_arith)
        requires
            c * c <= 8 * (len * len),
            len >= 1;
    assert(c * s <= (3 * len) * s) by (nonlinear_arith)
        requires
            c <= 3 * len,
            s > 0;
    assert((-(3 * len)) * s <= c * s) by (nonlinear_arith)
        requires
            -(3 * len) <= c,
            s > 0;
    lemma_div_is_ordered(c * s, (3 * len) * s, len);
    lemma_div_is_ordered((-(3 * len)) * s, c * s, len);
    assert((3 * len) * s == len * (3 * s)) by (nonlinear_arith);
    assert((-(3 * len)) * s == len * (-(3 * s))) by (nonlinear_arith);
    lemma_div_multiples_vanish(3 * s, len);
    lemma_div_multiples_vanish(-(3 * s), len);
}

/// A point, direction, or color: three fixed-point components.
#[derive(Clone, Copy, PartialEq, Eq, Structural, Debug)]
pub struct Vec3 {
    pub x: i128,
    pub y: i128,
    pub z: i128,
}

impl View for Vec3 {
    type V = V3;

    open spec fn view(&self) -> V3 {
        V3 { x: self.x as int, y: self.y as int, z: self.z as int }
    }
}

impl Vec3 {
    pub fn new(x: i128, y: i128, z: i128) -> (r: Vec3)
        ensures
            r@ == (V3 { x: x as int, y: y as int, z: z as int }),
    {
        Vec3 { x, y, z }
    }

    pub fn add(&self, o: &Vec3) -> (r: Vec3)
        requires
            -RAW_MAX <= self@.x + o@.x <= RAW_MAX,
            -RAW_MAX <= self@.y + o@.y <= RAW_MAX,
            -RAW_MAX <= self@.z + o@.z <= RAW_MAX,
        ensures
            r@ == v3_add(self@, o@),
    {
        Vec3 { x: self.x + o.x, y: self.y + o.y, z: self.z + o.z }
    }

    pub fn sub(&self, o: &Vec3) -> (r: Vec3)
        requires
            -RAW_MAX <= self@.x - o@.x <= RAW_MAX,
            -RAW_MAX <= self@.y - o@.y <= RAW_MAX,
            -RAW_MAX <= self@.z - o@.z <= RAW_MAX,
        ensures
            r@ == v3_sub(self@, o@),
    {
        Vec3 { x: self.x - o.x, y: self.y - o.y, z: self.z - o.z }
    }

    pub fn neg(&self) -> (r: Vec3)
        requires
            -RAW_MAX <= self@.x <= RAW_MAX,
            -RAW_MAX <= self@.y <= RAW_MAX,
            -RAW_MAX <= self@.z <= RAW_MAX,
        ensures
            r@ == v3_neg(self@),
    {
        Vec3 { x: -self.x, y: -self.y, z: -self.z }
    }

    pub fn scale(&self, s: i128) -> (r: Vec3)
        requires
            -RAW_MAX <= self@.x * s <= RAW_MAX,
            -RAW_MAX <= self@.y * s <= RAW_MAX,
            -RAW_MAX <= self@.z * s <= RAW_MAX,
        ensures
            r@ == v3_scale(self@, s as int),
    {
        Vec3 { x: mul_fx(self.x, s), y: mul_fx(self.y, s), z: mul_fx(self.z, s) }
    }

    pub fn dot(&self, o: &Vec3) -> (r: i128)
        requires
            -RAW_MAX <= 3 * (self@.x * o@.x) <= RAW_MAX,
            -RAW_MAX <= 3 * (self@.y * o@.y) <= RAW_MAX,
            -RAW_MAX <= 3 * (self@.z * o@.z) <= RAW_MAX,
        ensures
            r == v3_dot(self@, o@),
    {
        let px: i128 = self.x * o.x;
        let py: i128 = self.y * o.y;
        let pz: i128 = self.z * o.z;
        div_floor(px + py + pz, SCALE)
    }

    pub fn cross(&self, o: &Vec3) -> (r: Vec3)
        requires
            -RAW_MAX <= self@.x * o@.y <= RAW_MAX,
            -RAW_MAX <= self@.x * o@.z <= RAW_MAX,
            -RAW_MAX <= self@.y * o@.x <= RAW_MAX,
            -RAW_MAX <= self@.y * o@.z <= RAW_MAX,
            -RAW_MAX <= self@.z * o@.x <= RAW_MAX,
            -RAW_MAX <= self@.z * o@.y <= RAW_MAX,
        ensures
            r@ == v3_cross(self@, o@),
    {
        proof {
            lemma_div_abs_bound(self@.y * o@.z, SCALE as int, RAW_MAX as int);
            lemma_div_abs_bound(self@.z * o@.y, SCALE as int, RAW_MAX as int);
            lemma_div_abs_bound(self@.z * o@.x, SCALE as int, RAW_MAX as int);
            lemma_div_abs_bound(self@.x * o@.z, SCALE as int, RAW_MAX as int);
            lemma_div_abs_bound(self@.x * o@.y, SCALE as int, RAW_MAX as int);
            lemma_div_abs_bound(self@.y * o@.x, SCALE as int, RAW_MAX as int);
        }
        let x: i128 = mul_fx(self.y, o.z) - mul_fx(self.z, o.y);
        let y: i128 = mul_fx(self.z, o.x) - mul_fx(self.x, o.z);
        let z: i128 = mul_fx(self.x, o.y) - mul_fx(self.y, o.x);
        Vec3 { x, y, z }
    }

    /// Normalize to (approximately) unit length; the exact components
    /// are `(c * SCALE) / len` with `len` the fixed-point length.
    pub fn normalize(&self) -> (r: Vec3)
        requires
            bounded(self@, NORM_MAX as int),
        ensures
            r@ == v3_normalize(self@),
            bounded(r@, 3 * SCALE),
    {
        proof {
            lemma_dot_bound(self@, self@, NORM_MAX as int, NORM_MAX as int);
            lemma_normalize_bound(self@);
        }
        let d: i128 = self.dot(self);
        proof {
            let sum = self@.x * self@.x + self@.y * self@.y + self@.z * self@.z;
            assert(self@.x * self@.x + self@.y * self@.y + self@.z * self@.z >= 0)
                by (nonlinear_arith);
            vstd::arithmetic::div_mod::lemma_div_pos_is_pos(sum, SCALE as int);
        }
        let len: i128 = sqrt_fx(d);
        proof {
            lemma_isqrt_is(d as int * SCALE as int, len as int);
        }
        if len <= 0 {
            *self
        } else {
            let x: i128 = div_floor(self.x * SCALE, len);
            let y: i128 = div_floor(self.y * SCALE, len);
            let z: i128 = div_floor(self.z * SCALE, len);
            Vec3 { x, y, z }
        }
    }
}

/// Blend two colors with a fixed-point weight `alpha` in `[0, SCALE]`:
/// `0` keeps `a`, `SCALE` takes `b`.
pub fn mix(a: &Vec3, b: &Vec3, alpha: i128) -> (r: Vec3)
    requires
        0 <= alpha <= SCALE,
        bounded(a@, MIX_MAX as int),
        bounded(b@, MIX_MAX as int),
    ensures
        r@ == v3_mix(a@, b@, alpha as int),
{
    proof {
        lemma_mul_abs_bound(SCALE - alpha, a@.x, SCALE as int, MIX_MAX as int);
        lemma_mul_abs_bound(SCALE - alpha, a@.y, SCALE as int, MIX_MAX as int);
        lemma_mul_abs_bound(SCALE - alpha, a@.z, SCALE as int, MIX_MAX as int);
        lemma_mul_abs_bound(alpha as int, b@.x, SCALE as int, MIX_MAX as int);
        lemma_mul_abs_bound(alpha as int, b@.y, SCALE as int, MIX_MAX as int);
        lemma_mul_abs_bound(alpha as int, b@.z, SCALE as int, MIX_MAX as int);
    }
    let ia: i128 = SCALE - alpha;
    let x: i128 = div_floor(ia * a.x + alpha * b.x, SCALE);
    let y: i128 = div_floor(ia * a.y + alpha * b.y, SCALE);
    let z: i128 = div_floor(ia * a.z + alpha * b.z, SCALE);
    Vec3 { x, y, z }
}

} // verus!
