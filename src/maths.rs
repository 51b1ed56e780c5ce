//! Fixed-point scalars and 3-vectors.
//!
//! A scalar `Real` is an `i64` that counts millionths of a world unit. Every
//! operation saturates at `REAL_MAX` in magnitude, so it is total, and its
//! meaning is an `int` formula over the exact operands.
use vstd::prelude::*;
use vstd::arithmetic::div_mod::{
    lemma_fundamental_div_mod, lemma_fundamental_div_mod_converse, lemma_mod_bound,
    lemma_mod_pos_bound,
};

verus! {

/// A fixed-point real: the value `x` stands for `x / SCALE`.
pub type Real = i64;

/// The number of fixed-point units in one world unit.
pub const SCALE: i64 = 1_000_000;

/// The largest magnitude any operation returns.
pub const REAL_MAX: i64 = 4_611_686_018_427_387_904;

/// Clamps an exact value into the range of a `Real`.
pub open spec fn sat(x: int) -> int {
    if x > REAL_MAX {
        REAL_MAX as int
    } else if x < -REAL_MAX {
        -REAL_MAX
    } else {
        x
    }
}

pub open spec fn min(a: int, b: int) -> int {
    if a <= b { a } else { b }
}

pub open spec fn max(a: int, b: int) -> int {
    if a >= b { a } else { b }
}

pub open spec fn clamp(x: int, lo: int, hi: int) -> int {
    max(lo, min(x, hi))
}

/// Product of two fixed-point values, rounded down.
pub open spec fn fmul(a: int, b: int) -> int {
    sat((a * b) / (SCALE as int))
}

/// Quotient of two fixed-point values, rounded down (divisor positive).
pub open spec fn fdiv(a: int, b: int) -> int {
    sat((a * SCALE) / b)
}

/// Floor-based modulo, defined for a divisor of either sign: `x - y * floor(x / y)`.
pub open spec fn floor_mod(x: int, y: int) -> int {
    if y > 0 {
        x % y
    } else {
        -((-x) % (-y))
    }
}

/// `r` is the floor of the square root of `n`.
pub open spec fn brackets_root(n: nat, r: nat) -> bool {
    r * r <= n && n < (r + 1) * (r + 1)
}

/// The floor of the square root of `n`.
pub open spec fn sqrt_floor(n: nat) -> nat {
    choose|r: nat| #[trigger] brackets_root(n, r)
}

pub open spec fn is_real(x: int) -> bool {
    -REAL_MAX <= x <= REAL_MAX
}

proof fn lemma_square_mono(a: nat, b: nat)
    requires
        a <= b,
    ensures
        a * a <= b * b,
{
    assert(a * a <= b * b) by (nonlinear_arith)
        requires
            a <= b,
    ;
}

/// The floor square root is the one root that brackets `n`.
pub proof fn lemma_sqrt_floor_unique(n: nat, r: nat)
    requires
        r * r <= n,
        n < (r + 1) * (r + 1),
    ensures
        sqrt_floor(n) == r,
{
    assert(brackets_root(n, r));
    let s = sqrt_floor(n);
    assert(s * s <= n && n < (s + 1) * (s + 1));
    if s < r {
        lemma_square_mono((s + 1) as nat, r);
    } else if r < s {
        lemma_square_mono((r + 1) as nat, s);
    }
}

/// Every natural number has a floor square root.
pub proof fn lemma_sqrt_floor_exists(n: nat)
    ensures
        brackets_root(n, sqrt_floor(n)),
    decreases n,
{
    if n == 0 {
        assert(0nat * 0nat == 0 && 1nat * 1nat == 1) by (nonlinear_arith);
        assert(brackets_root(0, 0));
    } else {
        lemma_sqrt_floor_exists((n - 1) as nat);
        let r = sqrt_floor((n - 1) as nat);
        if n < (r + 1) * (r + 1) {
            assert(brackets_root(n, r));
        } else {
            assert(n == (r + 1) * (r + 1));
            assert(n < (r + 2) * (r + 2)) by (nonlinear_arith)
                requires
                    n == (r + 1) * (r + 1),
                    r >= 0,
            ;
            assert(brackets_root(n, (r + 1) as nat));
        }
    }
}

/// The floor square root lies between any two bounds whose squares bracket `n`.
pub proof fn lemma_sqrt_floor_between(n: nat, a: nat, b: nat)
    requires
        a * a <= n,
        n < b * b,
    ensures
        a <= sqrt_floor(n) < b,
{
    lemma_sqrt_floor_exists(n);
    let r = sqrt_floor(n);
    if r < a {
        lemma_square_mono((r + 1) as nat, a);
    }
    if b <= r {
        lemma_square_mono(b, r);
    }
}

/// Saturates an exact value into a `Real`.
pub fn sat_real(x: i128) -> (r: Real)
    ensures
        r == sat(x as int),
{
    if x > REAL_MAX as i128 {
        REAL_MAX
    } else if x < -(REAL_MAX as i128) {
        -REAL_MAX
    } else {
        x as i64
    }
}

/// Division rounded towards negative infinity, by a positive divisor.
pub fn floor_div(a: i128, b: i128) -> (r: i128)
    requires
        b > 0,
    ensures
        r == a as int / b as int,
{
    if a >= 0 {
        a / b
    } else {
        let n: i128 = -(a + 1);
        let q: i128 = n / b;
        let m: i128 = n % b;
        proof {
            lemma_fundamental_div_mod(n as int, b as int);
            lemma_mod_pos_bound(n as int, b as int);
            assert(a == (-q - 1) * b + (b - 1 - m)) by (nonlinear_arith)
                requires
                    n == b * q + m,
                    n == -a - 1,
            ;
            lemma_fundamental_div_mod_converse(a as int, b as int, -q - 1, b - 1 - m);
        }
        -q - 1
    }
}

pub fn real_add(a: Real, b: Real) -> (r: Real)
    ensures
        r == sat(a + b),
{
    sat_real(a as i128 + b as i128)
}

pub fn real_sub(a: Real, b: Real) -> (r: Real)
    ensures
        r == sat(a - b),
{
    sat_real(a as i128 - b as i128)
}

pub fn real_mul(a: Real, b: Real) -> (r: Real)
    ensures
        r == fmul(a as int, b as int),
{
    let p: i128 = wide_mul(a, b);
    sat_real(floor_div(p, SCALE as i128))
}

fn wide_mul(a: i64, b: i64) -> (r: i128)
    ensures
        r == a * b,
{
    assert(-0x4000_0000_0000_0000_0000_0000_0000_0000 <= (a as int) * (b as int)
        <= 0x4000_0000_0000_0000_0000_0000_0000_0000) by (nonlinear_arith)
        requires
            -0x8000_0000_0000_0000 <= a <= 0x7fff_ffff_ffff_ffff,
            -0x8000_0000_0000_0000 <= b <= 0x7fff_ffff_ffff_ffff,
    ;
    a as i128 * b as i128
}

/// Quotient `a / b` of two reals, for a positive divisor.
pub fn real_div(a: Real, b: Real) -> (r: Real)
    requires
        b > 0,
    ensures
        r == fdiv(a as int, b as int),
{
    let p: i128 = wide_mul(a, SCALE);
    sat_real(floor_div(p, b as i128))
}

pub fn real_min(a: Real, b: Real) -> (r: Real)
    ensures
        r == min(a as int, b as int),
{
    if a <= b { a } else { b }
}

pub fn real_max(a: Real, b: Real) -> (r: Real)
    ensures
        r == max(a as int, b as int),
{
    if a >= b { a } else { b }
}

/// `x - y * floor(x / y)` for a nonzero `y`.
pub fn real_mod(x: Real, y: Real) -> (r: Real)
    requires
        y != 0,
    ensures
        r == floor_mod(x as int, y as int),
{
    if y > 0 {
        let q: i128 = floor_div(x as i128, y as i128);
        proof {
            lemma_fundamental_div_mod(x as int, y as int);
            lemma_mod_bound(x as int, y as int);
            assert(q * y == y * q) by (nonlinear_arith);
        }
        (x as i128 - q * y as i128) as i64
    } else {
        let m: i128 = -(y as i128);
        let q: i128 = floor_div(-(x as i128), m);
        proof {
            lemma_fundamental_div_mod(-x, m as int);
            lemma_mod_bound(-x, m as int);
            assert(q * m == m * q) by (nonlinear_arith);
        }
        (-(-(x as i128) - q * m)) as i64
    }
}

/// Floor square root of an unsigned 128-bit integer, by bisection.
pub fn sqrt_u128(n: u128) -> (r: u128)
    ensures
        r * r <= n < (r + 1) * (r + 1),
        r == sqrt_floor(n as nat),
        r < 0x1_0000_0000_0000_0000,
{
    let mut lo: u128 = 0;
    let mut hi: u128 = 0x1_0000_0000_0000_0000;
    assert(n < hi * hi) by (nonlinear_arith)
        requires
            hi == 0x1_0000_0000_0000_0000u128,
            n <= 0xffff_ffff_ffff_ffff_ffff_ffff_ffff_ffffu128,
    ;
    while hi - lo > 1
        invariant
            lo < hi <= 0x1_0000_0000_0000_0000,
            lo * lo <= n,
            n < hi * hi,
        decreases hi - lo,
    {
        let mid: u128 = lo + (hi - lo) / 2;
        assert(mid * mid < 0x1_0000_0000_0000_0000_0000_0000_0000_0000) by (nonlinear_arith)
            requires
                mid < 0x1_0000_0000_0000_0000,
        ;
        if mid * mid <= n {
            lo = mid;
        } else {
            hi = mid;
        }
    }
    proof {
        lemma_sqrt_floor_unique(n as nat, lo as nat);
    }
    lo
}

/// Exactly one world unit.
pub fn real_one() -> (r: Real)
    ensures
        r == SCALE,
{
    SCALE
}

/// Two reals lie within a ten-thousandth of a unit of each other.
pub fn real_approx_eq(a: Real, b: Real) -> (r: bool)
    ensures
        r == (-APPROX_TOLERANCE < a - b < APPROX_TOLERANCE),
{
    let d: i128 = a as i128 - b as i128;
    -(APPROX_TOLERANCE as i128) < d && d < APPROX_TOLERANCE as i128
}

/// The tolerance of approximate comparisons: a ten-thousandth of a unit.
pub const APPROX_TOLERANCE: i64 = 100;

/// The mathematical value of a vector.
pub struct V3 {
    pub x: int,
    pub y: int,
    pub z: int,
}

/// A vector or point with fixed-point components.
#[derive(Clone, Copy, PartialEq, Eq, Debug)]
pub struct Vec3 {
    pub x: Real,
    pub y: Real,
    pub z: Real,
}

impl View for Vec3 {
    type V = V3;

    open spec fn view(&self) -> V3 {
        V3 { x: self.x as int, y: self.y as int, z: self.z as int }
    }
}

pub open spec fn v3(x: int, y: int, z: int) -> V3 {
    V3 { x, y, z }
}

pub open spec fn vadd(a: V3, b: V3) -> V3 {
    v3(sat(a.x + b.x), sat(a.y + b.y), sat(a.z + b.z))
}

pub open spec fn vsub(a: V3, b: V3) -> V3 {
    v3(sat(a.x - b.x), sat(a.y - b.y), sat(a.z - b.z))
}

pub open spec fn vneg(a: V3) -> V3 {
    v3(sat(-a.x), sat(-a.y), sat(-a.z))
}

pub open spec fn vscale(a: V3, k: int) -> V3 {
    v3(fmul(a.x, k), fmul(a.y, k), fmul(a.z, k))
}

pub open spec fn vdot(a: V3, b: V3) -> int {
    sat(fmul(a.x, b.x) + fmul(a.y, b.y) + fmul(a.z, b.z))
}

pub open spec fn vcross(a: V3, b: V3) -> V3 {
    v3(
        sat(fmul(a.y, b.z) - fmul(a.z, b.y)),
        sat(fmul(a.z, b.x) - fmul(a.x, b.z)),
        sat(fmul(a.x, b.y) - fmul(a.y, b.x)),
    )
}

/// The sum of the squared components, in squared fixed-point units.
pub open spec fn norm_sq(a: V3) -> int {
    a.x * a.x + a.y * a.y + a.z * a.z
}

/// Euclidean length, rounded down.
pub open spec fn vlen(a: V3) -> int {
    sat(sqrt_floor(norm_sq(a) as nat) as int)
}

/// A vector whose components are all at most `2^40` units is scaled up by
/// `SCALE` before normalisation, so that its length is found to a millionth
/// of its own units; a longer vector is already long enough for that.
pub open spec fn is_small(a: V3) -> bool {
    small_component(a.x) && small_component(a.y) && small_component(a.z)
}

pub open spec fn normalize_input(a: V3) -> V3 {
    if is_small(a) {
        v3(a.x * SCALE, a.y * SCALE, a.z * SCALE)
    } else {
        a
    }
}

/// Each component of `w` divided by the length `l`, in fixed point, rounded down.
pub open spec fn divide_by_length(w: V3, l: int) -> V3 {
    v3(sat((w.x * SCALE) / l), sat((w.y * SCALE) / l), sat((w.z * SCALE) / l))
}

/// The vector scaled to unit length; the zero vector stays zero.
pub open spec fn vnormalize(a: V3) -> V3 {
    let w = normalize_input(a);
    let l = sqrt_floor(norm_sq(w) as nat) as int;
    if l <= 0 {
        v3(0, 0, 0)
    } else {
        divide_by_length(w, l)
    }
}

pub open spec fn abs(x: int) -> int {
    if x < 0 { -x } else { x }
}

pub open spec fn vabs(a: V3) -> V3 {
    v3(sat(abs(a.x)), sat(abs(a.y)), sat(abs(a.z)))
}

pub open spec fn vmax(a: V3, k: int) -> V3 {
    v3(max(a.x, k), max(a.y, k), max(a.z, k))
}

pub open spec fn max_component(a: V3) -> int {
    max(a.x, max(a.y, a.z))
}

pub open spec fn vmod(a: V3, b: V3) -> V3 {
    v3(floor_mod(a.x, b.x), floor_mod(a.y, b.y), floor_mod(a.z, b.z))
}

pub open spec fn vreflect(i: V3, n: V3) -> V3 {
    vsub(i, vscale(n, fmul(2 * SCALE, vdot(n, i))))
}

/// A floor quotient `q` of `u` by `l`, squared and scaled back, stays within
/// `2 l |u| + l^2` of `u^2` above and `2 l |u|` below.
proof fn lemma_floor_quotient_square(u: int, l: int, q: int)
    requires
        l > 0,
        l * q <= u < l * q + l,
    ensures
        (l * q) * (l * q) <= u * u + 2 * l * abs(u) + l * l,
        (l * q) * (l * q) >= u * u - 2 * l * abs(u),
{
    let lq = l * q;
    if u >= 0 {
        assert(lq > u - l);
        assert(lq >= 0) by (nonlinear_arith)
            requires
                l > 0,
                lq == l * q,
                lq > -l,
        ;
        assert(lq * lq <= u * u) by (nonlinear_arith)
            requires
                0 <= lq <= u,
        ;
        if u >= l {
            assert(lq * lq >= (u - l) * (u - l)) by (nonlinear_arith)
                requires
                    u - l <= lq,
                    0 <= u - l,
            ;
            assert((u - l) * (u - l) >= u * u - 2 * l * u) by (nonlinear_arith);
        } else {
            assert(u * u - 2 * l * u <= 0) by (nonlinear_arith)
                requires
                    0 <= u < l,
            ;
            assert(lq * lq >= 0) by (nonlinear_arith);
        }
        assert(l * l >= 0) by (nonlinear_arith);
        assert(l * u >= 0) by (nonlinear_arith)
            requires
                l > 0,
                u >= 0,
        ;
    } else {
        assert(lq * lq >= u * u) by (nonlinear_arith)
            requires
                lq <= u < 0,
        ;
        assert(lq * lq <= (-u + l) * (-u + l)) by (nonlinear_arith)
            requires
                u - l < lq <= u < 0,
                l > 0,
        ;
        assert((-u + l) * (-u + l) == u * u + 2 * l * (-u) + l * l) by (nonlinear_arith);
        assert(l * (-u) >= 0) by (nonlinear_arith)
            requires
                l > 0,
                u < 0,
        ;
    }
}

/// A component of at most `2^40` units, which normalisation scales up first.
pub open spec fn small_component(x: int) -> bool {
    -0x100_0000_0000 <= x <= 0x100_0000_0000
}

/// Dividing a vector by its floor length, once that length is at least one
/// unit, gives a vector one unit long to within a ten-thousandth of a unit.
proof fn lemma_divide_by_length_unit(v: V3)
    requires
        sqrt_floor(norm_sq(v) as nat) >= SCALE,
    ensures
        ({
            let l = sqrt_floor(norm_sq(v) as nat) as int;
            SCALE - SCALE / 10_000 <= vlen(divide_by_length(v, l)) < SCALE + SCALE / 10_000
        }),
{
    let n = norm_sq(v);
    assert(v.x * v.x >= 0 && v.y * v.y >= 0 && v.z * v.z >= 0) by (nonlinear_arith);
    let l = sqrt_floor(n as nat) as int;
    lemma_sqrt_floor_exists(n as nat);
    let s = SCALE as int;
    let ux = v.x * s;
    let uy = v.y * s;
    let uz = v.z * s;
    let qx = ux / l;
    let qy = uy / l;
    let qz = uz / l;
    lemma_fundamental_div_mod(ux, l);
    lemma_fundamental_div_mod(uy, l);
    lemma_fundamental_div_mod(uz, l);
    lemma_mod_bound(ux, l);
    lemma_mod_bound(uy, l);
    lemma_mod_bound(uz, l);
    assert(l * qx <= ux < l * qx + l);
    assert(l * qy <= uy < l * qy + l);
    assert(l * qz <= uz < l * qz + l);
    lemma_floor_quotient_square(ux, l, qx);
    lemma_floor_quotient_square(uy, l, qy);
    lemma_floor_quotient_square(uz, l, qz);
    // Each component is shorter than the whole vector.
    assert(abs(v.x) < l + 1 && abs(v.y) < l + 1 && abs(v.z) < l + 1) by {
        assert(abs(v.x) * abs(v.x) == v.x * v.x) by (nonlinear_arith);
        assert(abs(v.y) * abs(v.y) == v.y * v.y) by (nonlinear_arith);
        assert(abs(v.z) * abs(v.z) == v.z * v.z) by (nonlinear_arith);
        if abs(v.x) >= l + 1 {
            lemma_square_mono((l + 1) as nat, abs(v.x) as nat);
        }
        if abs(v.y) >= l + 1 {
            lemma_square_mono((l + 1) as nat, abs(v.y) as nat);
        }
        if abs(v.z) >= l + 1 {
            lemma_square_mono((l + 1) as nat, abs(v.z) as nat);
        }
    }
    assert(abs(ux) == abs(v.x) * s && abs(uy) == abs(v.y) * s && abs(uz) == abs(v.z) * s) by (
    nonlinear_arith)
        requires
            ux == v.x * s,
            uy == v.y * s,
            uz == v.z * s,
            s > 0,
    ;
    let su = abs(ux) + abs(uy) + abs(uz);
    assert(su <= 3 * s * (l + 1)) by (nonlinear_arith)
        requires
            su == abs(v.x) * s + abs(v.y) * s + abs(v.z) * s,
            abs(v.x) < l + 1,
            abs(v.y) < l + 1,
            abs(v.z) < l + 1,
            s > 0,
    ;
    let sq = ux * ux + uy * uy + uz * uz;
    assert(ux * ux == (v.x * v.x) * (s * s)) by (nonlinear_arith)
        requires
            ux == v.x * s,
    ;
    assert(uy * uy == (v.y * v.y) * (s * s)) by (nonlinear_arith)
        requires
            uy == v.y * s,
    ;
    assert(uz * uz == (v.z * v.z) * (s * s)) by (nonlinear_arith)
        requires
            uz == v.z * s,
    ;
    assert(sq == s * s * n) by (nonlinear_arith)
        requires
            sq == (v.x * v.x) * (s * s) + (v.y * v.y) * (s * s) + (v.z * v.z) * (s * s),
            n == v.x * v.x + v.y * v.y + v.z * v.z,
    ;
    assert(s * s * l * l <= sq < s * s * (l + 1) * (l + 1)) by (nonlinear_arith)
        requires
            sq == s * s * n,
            l * l <= n < (l + 1) * (l + 1),
            s > 0,
    ;
    let t = qx * qx + qy * qy + qz * qz;
    let big = (l * qx) * (l * qx) + (l * qy) * (l * qy) + (l * qz) * (l * qz);
    assert(big == l * l * t) by (nonlinear_arith)
        requires
            big == (l * qx) * (l * qx) + (l * qy) * (l * qy) + (l * qz) * (l * qz),
            t == qx * qx + qy * qy + qz * qz,
    ;
    assert(big <= sq + 2 * l * su + 3 * l * l && big >= sq - 2 * l * su) by (nonlinear_arith)
        requires
            big == (l * qx) * (l * qx) + (l * qy) * (l * qy) + (l * qz) * (l * qz),
            sq == ux * ux + uy * uy + uz * uz,
            su == abs(ux) + abs(uy) + abs(uz),
            (l * qx) * (l * qx) <= ux * ux + 2 * l * abs(ux) + l * l,
            (l * qx) * (l * qx) >= ux * ux - 2 * l * abs(ux),
            (l * qy) * (l * qy) <= uy * uy + 2 * l * abs(uy) + l * l,
            (l * qy) * (l * qy) >= uy * uy - 2 * l * abs(uy),
            (l * qz) * (l * qz) <= uz * uz + 2 * l * abs(uz) + l * l,
            (l * qz) * (l * qz) >= uz * uz - 2 * l * abs(uz),
    ;
    let lo = 999_900int;
    let hi = 1_000_100int;
    assert(l * l * (lo * lo) <= l * l * t) by (nonlinear_arith)
        requires
            l >= 1_000_000,
            big == l * l * t,
            big >= sq - 2 * l * su,
            sq >= s * s * l * l,
            su <= 3 * s * (l + 1),
            s == 1_000_000,
            lo == 999_900,
    ;
    assert(l * l * t < l * l * (hi * hi)) by (nonlinear_arith)
        requires
            l >= 1_000_000,
            big == l * l * t,
            big <= sq + 2 * l * su + 3 * l * l,
            sq < s * s * (l + 1) * (l + 1),
            su <= 3 * s * (l + 1),
            s == 1_000_000,
            hi == 1_000_100,
    ;
    assert(lo * lo <= t < hi * hi) by (nonlinear_arith)
        requires
            l * l * (lo * lo) <= l * l * t,
            l * l * t < l * l * (hi * hi),
            l >= 1_000_000,
    ;
    // The quotients are the normalised components, unclipped.
    assert(-2 * s - 1 <= qx <= 2 * s) by (nonlinear_arith)
        requires
            l * qx <= ux < l * qx + l,
            l >= s,
            s > 0,
            abs(ux) == abs(v.x) * s,
            abs(v.x) < l + 1,
    ;
    assert(-2 * s - 1 <= qy <= 2 * s) by (nonlinear_arith)
        requires
            l * qy <= uy < l * qy + l,
            l >= s,
            s > 0,
            abs(uy) == abs(v.y) * s,
            abs(v.y) < l + 1,
    ;
    assert(-2 * s - 1 <= qz <= 2 * s) by (nonlinear_arith)
        requires
            l * qz <= uz < l * qz + l,
            l >= s,
            s > 0,
            abs(uz) == abs(v.z) * s,
            abs(v.z) < l + 1,
    ;
    assert(divide_by_length(v, l) == v3(qx, qy, qz));
    assert(norm_sq(divide_by_length(v, l)) == t);
    lemma_sqrt_floor_between(t as nat, lo as nat, hi as nat);
}

/// Normalising any vector that is not zero gives a vector one unit long, to
/// within a ten-thousandth of a unit.
pub proof fn lemma_normalize_unit(v: V3)
    requires
        is_real(v.x) && is_real(v.y) && is_real(v.z),
        v != v3(0, 0, 0),
    ensures
        SCALE - SCALE / 10_000 <= vlen(vnormalize(v)) <= SCALE + SCALE / 10_000,
{
    let s = SCALE as int;
    let w = normalize_input(v);
    assert(norm_sq(v) >= 1) by (nonlinear_arith)
        requires
            v.x != 0 || v.y != 0 || v.z != 0,
            norm_sq(v) == v.x * v.x + v.y * v.y + v.z * v.z,
    ;
    assert(norm_sq(v) <= 3 * 0x4000_0000_0000_0000 * 0x4000_0000_0000_0000) by (nonlinear_arith)
        requires
            is_real(v.x) && is_real(v.y) && is_real(v.z),
            REAL_MAX == 0x4000_0000_0000_0000,
            norm_sq(v) == v.x * v.x + v.y * v.y + v.z * v.z,
    ;
    if is_small(v) {
        assert(norm_sq(w) == s * s * norm_sq(v)) by (nonlinear_arith)
            requires
                w == v3(v.x * s, v.y * s, v.z * s),
                norm_sq(w) == w.x * w.x + w.y * w.y + w.z * w.z,
                norm_sq(v) == v.x * v.x + v.y * v.y + v.z * v.z,
        ;
        assert(norm_sq(v) <= 3 * 0x100_0000_0000 * 0x100_0000_0000) by (nonlinear_arith)
            requires
                is_small(v),
                norm_sq(v) == v.x * v.x + v.y * v.y + v.z * v.z,
        ;
        assert(s * s <= norm_sq(w) < 0x4000_0000_0000_0000 * 0x4000_0000_0000_0000) by (nonlinear_arith)
            requires
                norm_sq(w) == s * s * norm_sq(v),
                1 <= norm_sq(v) <= 3 * 0x100_0000_0000 * 0x100_0000_0000,
                s == 1_000_000,
        ;
        lemma_sqrt_floor_between(norm_sq(w) as nat, s as nat, 0x4000_0000_0000_0000);
    } else {
        assert(norm_sq(v) > 0x100_0000_0000 * 0x100_0000_0000) by (nonlinear_arith)
            requires
                !is_small(v),
                norm_sq(v) == v.x * v.x + v.y * v.y + v.z * v.z,
        ;
        lemma_sqrt_floor_between(norm_sq(v) as nat, s as nat, 0x1_0000_0000_0000_0000);
    }
    lemma_divide_by_length_unit(w);
}

impl Vec3 {
    pub fn new(x: Real, y: Real, z: Real) -> (r: Vec3)
        ensures
            r@ == v3(x as int, y as int, z as int),
    {
        Vec3 { x, y, z }
    }

    pub fn zero() -> (r: Vec3)
        ensures
            r@ == v3(0, 0, 0),
    {
        Vec3 { x: 0, y: 0, z: 0 }
    }

    pub fn add(&self, o: &Vec3) -> (r: Vec3)
        ensures
            r@ == vadd(self@, o@),
    {
        Vec3 { x: real_add(self.x, o.x), y: real_add(self.y, o.y), z: real_add(self.z, o.z) }
    }

    pub fn sub(&self, o: &Vec3) -> (r: Vec3)
        ensures
            r@ == vsub(self@, o@),
    {
        Vec3 { x: real_sub(self.x, o.x), y: real_sub(self.y, o.y), z: real_sub(self.z, o.z) }
    }

    pub fn neg(&self) -> (r: Vec3)
        ensures
            r@ == vneg(self@),
    {
        Vec3 { x: real_sub(0, self.x), y: real_sub(0, self.y), z: real_sub(0, self.z) }
    }

    pub fn scale(&self, k: Real) -> (r: Vec3)
        ensures
            r@ == vscale(self@, k as int),
    {
        Vec3 { x: real_mul(self.x, k), y: real_mul(self.y, k), z: real_mul(self.z, k) }
    }

    pub fn dot(&self, o: &Vec3) -> (r: Real)
        ensures
            r == vdot(self@, o@),
    {
        let a: i64 = real_mul(self.x, o.x);
        let b: i64 = real_mul(self.y, o.y);
        let c: i64 = real_mul(self.z, o.z);
        sat_real(a as i128 + b as i128 + c as i128)
    }

    pub fn cross(&self, o: &Vec3) -> (r: Vec3)
        ensures
            r@ == vcross(self@, o@),
    {
        Vec3 {
            x: real_sub(real_mul(self.y, o.z), real_mul(self.z, o.y)),
            y: real_sub(real_mul(self.z, o.x), real_mul(self.x, o.z)),
            z: real_sub(real_mul(self.x, o.y), real_mul(self.y, o.x)),
        }
    }

    pub fn magnitude(&self) -> (r: Real)
        ensures
            r == vlen(self@),
            r >= 0,
    {
        let sx: u128 = square(self.x);
        let sy: u128 = square(self.y);
        let sz: u128 = square(self.z);
        let root: u128 = sqrt_u128(sx + sy + sz);
        if root > REAL_MAX as u128 {
            REAL_MAX
        } else {
            root as i64
        }
    }

    pub fn normalize(&self) -> (r: Vec3)
        ensures
            r@ == vnormalize(self@),
    {
        let small: bool = is_small_real(self.x) && is_small_real(self.y) && is_small_real(self.z);
        let k: i128 = if small { SCALE as i128 } else { 1 };
        let wx: i128 = scale_up(self.x, small, k);
        let wy: i128 = scale_up(self.y, small, k);
        let wz: i128 = scale_up(self.z, small, k);
        let n: u128 = square_wide(wx) + square_wide(wy) + square_wide(wz);
        let l: u128 = sqrt_u128(n);
        proof {
            assert(normalize_input(self@) == v3(wx as int, wy as int, wz as int)) by (nonlinear_arith)
                requires
                    wx == self.x * k,
                    wy == self.y * k,
                    wz == self.z * k,
                    small ==> k == SCALE,
                    !small ==> k == 1,
                    small == is_small(self@),
            ;
        }
        if l == 0 {
            Vec3::zero()
        } else {
            Vec3 {
                x: sat_real(floor_div(times_scale(wx), l as i128)),
                y: sat_real(floor_div(times_scale(wy), l as i128)),
                z: sat_real(floor_div(times_scale(wz), l as i128)),
            }
        }
    }
}

/// `x * k`, where `k` is `SCALE` for a small `x` and one otherwise.
fn scale_up(x: Real, small: bool, k: i128) -> (r: i128)
    requires
        small ==> small_component(x as int) && k == SCALE,
        !small ==> k == 1,
    ensures
        r == x * k,
        -0x8000_0000_0000_0000 <= r <= 0x8000_0000_0000_0000,
{
    if small {
        assert(-0x8000_0000_0000_0000 <= x * SCALE <= 0x8000_0000_0000_0000) by (nonlinear_arith)
            requires
                small_component(x as int),
        ;
        x as i128 * SCALE as i128
    } else {
        x as i128
    }
}

fn times_scale(w: i128) -> (r: i128)
    requires
        -0x8000_0000_0000_0000 <= w <= 0x8000_0000_0000_0000,
    ensures
        r == w * SCALE,
{
    assert(-0x100_0000_0000_0000_0000_0000 <= w * SCALE <= 0x100_0000_0000_0000_0000_0000) by (
    nonlinear_arith)
        requires
            -0x8000_0000_0000_0000 <= w <= 0x8000_0000_0000_0000,
    ;
    w * SCALE as i128
}

fn is_small_real(x: Real) -> (r: bool)
    ensures
        r == small_component(x as int),
{
    -0x100_0000_0000 <= x && x <= 0x100_0000_0000
}

fn square_wide(w: i128) -> (r: u128)
    requires
        -0x8000_0000_0000_0000 <= w <= 0x8000_0000_0000_0000,
    ensures
        r == w * w,
        r <= 0x4000_0000_0000_0000_0000_0000_0000_0000,
{
    assert(0 <= w * w <= 0x4000_0000_0000_0000_0000_0000_0000_0000) by (nonlinear_arith)
        requires
            -0x8000_0000_0000_0000 <= w <= 0x8000_0000_0000_0000,
    ;
    (w * w) as u128
}

fn square(x: i64) -> (r: u128)
    ensures
        r == x * x,
        r <= 0x4000_0000_0000_0000_0000_0000_0000_0000,
{
    let p: i128 = wide_mul(x, x);
    assert(0 <= (x as int) * (x as int) <= 0x4000_0000_0000_0000_0000_0000_0000_0000)
        by (nonlinear_arith)
        requires
            -0x8000_0000_0000_0000 <= x <= 0x7fff_ffff_ffff_ffff,
    ;
    p as u128
}

/// Componentwise absolute value.
pub fn vec3_abs(v: Vec3) -> (r: Vec3)
    ensures
        r@ == vabs(v@),
{
    Vec3 { x: real_abs(v.x), y: real_abs(v.y), z: real_abs(v.z) }
}

fn real_abs(x: Real) -> (r: Real)
    ensures
        r == sat(abs(x as int)),
{
    if x < 0 { real_sub(0, x) } else { sat_real(x as i128) }
}

/// Componentwise maximum with a scalar.
pub fn vec3_max(v: Vec3, k: Real) -> (r: Vec3)
    ensures
        r@ == vmax(v@, k as int),
{
    Vec3 { x: real_max(v.x, k), y: real_max(v.y, k), z: real_max(v.z, k) }
}

/// Componentwise floor-based modulo.
pub fn vec3_mod(a: Vec3, b: Vec3) -> (r: Vec3)
    requires
        b.x != 0 && b.y != 0 && b.z != 0,
    ensures
        r@ == vmod(a@, b@),
{
    Vec3 { x: real_mod(a.x, b.x), y: real_mod(a.y, b.y), z: real_mod(a.z, b.z) }
}

/// Reflection of `i` about the plane with normal `n`: `i - 2 (n . i) n`.
pub fn vec3_reflect(i: Vec3, n: Vec3) -> (r: Vec3)
    ensures
        r@ == vreflect(i@, n@),
{
    let k: i64 = real_mul(2 * SCALE, n.dot(&i));
    i.sub(&n.scale(k))
}

/// The vector with every component one unit.
pub fn vec3_ones() -> (r: Vec3)
    ensures
        r@ == v3(SCALE as int, SCALE as int, SCALE as int),
{
    Vec3 { x: SCALE, y: SCALE, z: SCALE }
}

/// Two vectors are componentwise within the comparison tolerance.
pub fn vec3_approx_eq(a: Vec3, b: Vec3) -> (r: bool)
    ensures
        r == (-APPROX_TOLERANCE < a.x - b.x < APPROX_TOLERANCE
            && -APPROX_TOLERANCE < a.y - b.y < APPROX_TOLERANCE
            && -APPROX_TOLERANCE < a.z - b.z < APPROX_TOLERANCE),
{
    real_approx_eq(a.x, b.x) && real_approx_eq(a.y, b.y) && real_approx_eq(a.z, b.z)
}

/// An RGB colour; each channel is a fixed-point real, one unit being full intensity.
#[derive(Clone, Copy, PartialEq, Eq, Debug)]
pub struct Colour {
    pub r: Real,
    pub g: Real,
    pub b: Real,
}

impl View for Colour {
    /// The channels red, green and blue as `x`, `y` and `z`.
    type V = V3;

    open spec fn view(&self) -> V3 {
        V3 { x: self.r as int, y: self.g as int, z: self.b as int }
    }
}

impl Colour {
    pub fn rgb(r: Real, g: Real, b: Real) -> (c: Colour)
        ensures
            c@ == v3(r as int, g as int, b as int),
    {
        Colour { r, g, b }
    }

    /// Every channel multiplied by `x`.
    pub fn mul(self, x: Real) -> (c: Colour)
        ensures
            c@ == vscale(self@, x as int),
    {
        Colour::rgb(real_mul(self.r, x), real_mul(self.g, x), real_mul(self.b, x))
    }
}

} // verus!
