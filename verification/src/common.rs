use vstd::prelude::*;

verus! {

/// Fixed-point fraction steps per world unit.  Every length, color channel and
/// ray parameter in this crate is an `i64` count of these steps, so all
/// geometric decisions are exact integer computations.
pub const SCALE: i64 = 1024;

/// Bound on the raw fixed-point value of any scene coordinate, direction
/// component or radius.  Keeping coordinates below this bound lets every
/// intermediate product of the intersection formulas fit in `i128`.
pub const VMAX: i64 = 0x800_0000;

/// Bound on the raw fixed-point ray parameter; stands in for an unbounded
/// search interval.
pub const TMAX: i64 = 0x100_0000_0000;

/// Bound on the raw coordinates of a ray origin handed to an intersection
/// routine; wider than `VMAX` so that decorators can shift rays inward.
pub const OMAX: i64 = 0x8000_0000;

/// Bound on the raw coordinates of a reported hit point.
pub const PMAX: i64 = 0x4000_0000;

/// Clamps `x` into `[min, max]`.
pub fn clamp(x: i64, min: i64, max: i64) -> (r: i64)
    requires
        min <= max,
    ensures
        r == clamp_spec(x as int, min as int, max as int),
        min <= r <= max,
{
    if x < min {
        min
    } else if x > max {
        max
    } else {
        x
    }
}

pub open spec fn clamp_spec(x: int, min: int, max: int) -> int {
    if x < min {
        min
    } else if x > max {
        max
    } else {
        x
    }
}

/// Clamps `x` into `[0, SCALE]`, the fixed-point image of the real interval [0, 1].
pub fn saturate(x: i64) -> (r: i64)
    ensures
        r == clamp_spec(x as int, 0, SCALE as int),
        0 <= r <= SCALE,
{
    clamp(x, 0, SCALE)
}

/// Floor division for a positive divisor, the rounding every fixed-point
/// quotient in this crate uses.  In specifications it is the Euclidean `/`.
pub fn div_fl(n: i128, d: i128) -> (r: i128)
    requires
        d > 0,
        n > i128::MIN,
    ensures
        r == (n as int) / (d as int),
        d * r <= n < d * (r + 1),
{
    let q = n / d;
    proof {
        broadcast use vstd::arithmetic::div_mod::lemma_fundamental_div_mod;
        broadcast use vstd::arithmetic::div_mod::lemma_remainder_lower;
        broadcast use vstd::arithmetic::div_mod::lemma_remainder_upper;

        if n >= 0 {
            assert(q == (n as int) / (d as int));
            assert(d * q <= n < d * (q + 1)) by (nonlinear_arith)
                requires
                    d > 0,
                    n == d * ((n as int) / (d as int)) + (n as int) % (d as int),
                    0 <= (n as int) % (d as int) < d,
                    q == (n as int) / (d as int),
            ;
        } else {
            let m = -(n as int);
            assert(q == -(m / (d as int)));
            assert(d * q - d <= n <= d * q) by (nonlinear_arith)
                requires
                    d > 0,
                    m == d * (m / (d as int)) + m % (d as int),
                    0 <= m % (d as int) < d,
                    q == -(m / (d as int)),
                    m == -n,
            ;
        }
    }
    if n >= 0 {
        q
    } else if q * d == n {
        proof {
            assert(d * q <= n < d * (q + 1)) by (nonlinear_arith)
                requires
                    d > 0,
                    q * d == n,
            ;
            assert(q == (n as int) / (d as int)) by {
                vstd::arithmetic::div_mod::lemma_fundamental_div_mod_converse(
                    n as int, d as int, q as int, 0);
            }
        }
        q
    } else {
        proof {
            let m = -(n as int);
            assert(d * (q - 1) <= n < d * q) by (nonlinear_arith)
                requires
                    d > 0,
                    m == d * (m / (d as int)) + m % (d as int),
                    0 <= m % (d as int) < d,
                    q == -(m / (d as int)),
                    m == -n,
                    q * d != n,
            ;
            assert((q - 1) * d == d * (q - 1) && d * q - d * (q - 1) == d) by (nonlinear_arith);
            assert(q - 1 == (n as int) / (d as int)) by {
                vstd::arithmetic::div_mod::lemma_fundamental_div_mod_converse(
                    n as int, d as int, q as int - 1, n - d * (q - 1));
            }
        }
        q - 1
    }
}

/// Magnitude bound for a product of bounded factors.
pub proof fn lemma_abs_mul_le(x: int, y: int, bx: int, by: int) by (nonlinear_arith)
    requires
        -bx <= x <= bx,
        -by <= y <= by,
        0 <= bx,
        0 <= by,
    ensures
        -(bx * by) <= x * y <= bx * by,
{
}

/// For a positive divisor, the quotient of `a` is at most `b` once `a <= b * d`.
pub proof fn lemma_div_le_of(a: int, b: int, d: int)
    requires
        d > 0,
        a <= b * d,
    ensures
        a / d <= b,
{
    vstd::arithmetic::div_mod::lemma_fundamental_div_mod(a, d);
    assert(a / d <= b) by (nonlinear_arith)
        requires
            d > 0,
            a == d * (a / d) + a % d,
            0 <= a % d < d,
            a <= b * d,
    ;
}

/// For a positive divisor, the quotient of `a` is at least `b` once `a >= b * d`.
pub proof fn lemma_div_ge_of(a: int, b: int, d: int)
    requires
        d > 0,
        a >= b * d,
    ensures
        a / d >= b,
{
    vstd::arithmetic::div_mod::lemma_fundamental_div_mod(a, d);
    assert(a / d >= b) by (nonlinear_arith)
        requires
            d > 0,
            a == d * (a / d) + a % d,
            0 <= a % d < d,
            a >= b * d,
    ;
}

/// Fixed-point product: the raw value standing for the product of the two
/// quantities that `a` and `b` stand for.
pub fn fxmul(a: i64, b: i64) -> (r: i64)
    requires
        -0x10_0000_0000 <= a <= 0x10_0000_0000,
        -0x10_0000_0000 <= b <= 0x10_0000_0000,
    ensures
        r == (a * b) / (SCALE as int),
        SCALE * r <= a * b < SCALE * (r + 1),
{
    proof {
        lemma_abs_mul_le(a as int, b as int, 0x10_0000_0000, 0x10_0000_0000);
        lemma_div_le_of((a as int) * (b as int), 0x4000_0000_0000_0000, SCALE as int);
        lemma_div_ge_of((a as int) * (b as int), -0x4000_0000_0000_0000, SCALE as int);
    }
    let n = (a as i128) * (b as i128);
    let q = div_fl(n, SCALE as i128);
    q as i64
}

/// Fixed-point quotient by a positive raw value: the raw value standing for
/// the ratio of the two quantities that `a` and `b` stand for.
pub fn fxdiv(a: i64, b: i64) -> (r: i64)
    requires
        b >= 1,
        -0x1_0000_0000_0000 <= a <= 0x1_0000_0000_0000,
    ensures
        r == (a * SCALE) / (b as int),
        b * r <= a * SCALE < b * (r + 1),
{
    proof {
        lemma_abs_mul_le(a as int, SCALE as int, 0x1_0000_0000_0000, SCALE as int);
        assert((a as int) * SCALE <= 0x4000_0000_0000_0000 * b
            && (a as int) * SCALE >= (-0x4000_0000_0000_0000) * b) by (nonlinear_arith)
            requires
                b >= 1,
                -0x400_0000_0000_0000 <= (a as int) * SCALE <= 0x400_0000_0000_0000,
        ;
        lemma_div_le_of((a as int) * SCALE, 0x4000_0000_0000_0000, b as int);
        lemma_div_ge_of((a as int) * SCALE, -0x4000_0000_0000_0000, b as int);
    }
    let n = (a as i128) * (SCALE as i128);
    let q = div_fl(n, b as i128);
    q as i64
}

/// The nonnegative integer square root, rounded down.
pub open spec fn sqrt_floor(n: int) -> int {
    choose|r: int| 0 <= r && #[trigger] (r * r) <= n && n < (r + 1) * (r + 1)
}

/// Every nonnegative integer has a floor square root.
pub proof fn lemma_sqrt_floor_exists(n: int) -> (r: int)
    requires
        0 <= n,
    ensures
        0 <= r && r * r <= n < (r + 1) * (r + 1),
    decreases n,
{
    if n == 0 {
        0
    } else {
        let p = lemma_sqrt_floor_exists(n - 1);
        if (p + 1) * (p + 1) <= n {
            assert(n < (p + 2) * (p + 2)) by (nonlinear_arith)
                requires
                    0 <= p,
                    n - 1 < (p + 1) * (p + 1),
            ;
            p + 1
        } else {
            p
        }
    }
}

/// The floor square root is pinned by its defining window.
pub proof fn lemma_sqrt_floor_unique(n: int, r: int)
    requires
        0 <= r,
        r * r <= n < (r + 1) * (r + 1),
    ensures
        sqrt_floor(n) == r,
{
    let s = lemma_sqrt_floor_exists(n);
    assert(sqrt_floor(n) * sqrt_floor(n) <= n < (sqrt_floor(n) + 1) * (sqrt_floor(n) + 1)
        && 0 <= sqrt_floor(n));
    assert(sqrt_floor(n) == r) by (nonlinear_arith)
        requires
            0 <= r,
            0 <= sqrt_floor(n),
            r * r <= n < (r + 1) * (r + 1),
            sqrt_floor(n) * sqrt_floor(n) <= n < (sqrt_floor(n) + 1) * (sqrt_floor(n) + 1),
    ;
}

/// Binary-search integer square root.
pub fn isqrt(n: i128) -> (r: i128)
    requires
        0 <= n < 0x10000000000000000000000000000000,  // 1 << 124
    ensures
        0 <= r < 0x4000000000000000,
        r * r <= n < (r + 1) * (r + 1),
        r == sqrt_floor(n as int),
{
    let mut lo: i128 = 0;
    let mut hi: i128 = 0x4000000000000000;  // 1 << 62
    proof {
        assert(hi * hi > n) by (nonlinear_arith)
            requires
                hi == 0x4000000000000000,
                n < 0x10000000000000000000000000000000,
        ;
    }
    while hi - lo > 1
        invariant
            0 <= lo < hi <= 0x4000000000000000,
            lo * lo <= n,
            hi * hi > n,
        decreases hi - lo,
    {
        let mid = lo + (hi - lo) / 2;
        proof {
            assert(0 < mid < 0x4000000000000000);
            assert(mid * mid < 0x10000000000000000000000000000000i128) by (nonlinear_arith)
                requires
                    0 < mid < 0x4000000000000000,
            ;
        }
        if mid * mid <= n {
            lo = mid;
        } else {
            hi = mid;
        }
    }
    proof {
        assert(hi == lo + 1);
        lemma_sqrt_floor_unique(n as int, lo as int);
    }
    lo
}

/// `p1/q1 <= p2/q2` as a cross-multiplied integer comparison; meaningful when
/// both denominators are positive.
pub open spec fn rat_le(p1: int, q1: int, p2: int, q2: int) -> bool {
    p1 * q2 <= p2 * q1
}

/// Transitivity of the rational order for positive denominators.
pub proof fn lemma_rat_le_trans(p1: int, q1: int, p2: int, q2: int, p3: int, q3: int)
    requires
        q1 > 0,
        q2 > 0,
        q3 > 0,
        rat_le(p1, q1, p2, q2),
        rat_le(p2, q2, p3, q3),
    ensures
        rat_le(p1, q1, p3, q3),
{
    assert(p1 * q3 <= p3 * q1) by (nonlinear_arith)
        requires
            q1 > 0,
            q2 > 0,
            q3 > 0,
            p1 * q2 <= p2 * q1,
            p2 * q3 <= p3 * q2,
    ;
}

/// Decides the cross-multiplied rational comparison.
pub fn rat_le_exec(p1: i128, q1: i128, p2: i128, q2: i128) -> (r: bool)
    requires
        0 < q1 <= 0x4000_0000_0000_0000,
        0 < q2 <= 0x4000_0000_0000_0000,
        -0x4000_0000_0000_0000 <= p1 <= 0x4000_0000_0000_0000,
        -0x4000_0000_0000_0000 <= p2 <= 0x4000_0000_0000_0000,
    ensures
        r == rat_le(p1 as int, q1 as int, p2 as int, q2 as int),
{
    proof {
        lemma_abs_mul_le(p1 as int, q2 as int, 0x4000_0000_0000_0000, 0x4000_0000_0000_0000);
        lemma_abs_mul_le(p2 as int, q1 as int, 0x4000_0000_0000_0000, 0x4000_0000_0000_0000);
    }
    p1 * q2 <= p2 * q1
}

/// Product of two moderately sized values, with the overflow obligation
/// discharged once for every call site.
pub fn mul_wide(a: i128, b: i128) -> (r: i128)
    requires
        -0x1000_0000_0000_0000 <= a <= 0x1000_0000_0000_0000,
        -0x1000_0000_0000_0000 <= b <= 0x1000_0000_0000_0000,
    ensures
        r == a * b,
        -0x1000000000000000000000000000000 <= r <= 0x1000000000000000000000000000000,
{
    proof {
        lemma_abs_mul_le(a as int, b as int, 0x1000_0000_0000_0000, 0x1000_0000_0000_0000);
    }
    a * b
}

} // verus!
