//! Fixed-point vectors and the integer arithmetic the solver is built on.
use vstd::prelude::*;
use vstd::arithmetic::div_mod::{lemma_fundamental_div_mod, lemma_mod_bound};

verus! {

/// Largest magnitude of a position coordinate; positions saturate here.
pub const WORLD_LIMIT: i64 = 1099511627776;

/// Largest magnitude of an acceleration coordinate; accelerations saturate here.
pub const ACCEL_LIMIT: i64 = 1099511627776;

/// Largest radius a body or the arena may have.
pub const RADIUS_LIMIT: i64 = 1099511627776;

/// A 2D vector of fixed-point units.
#[derive(Clone, Copy, Debug, PartialEq, Eq, Structural)]
pub struct Vec2 {
    pub x: i64,
    pub y: i64,
}

impl Vec2 {
    pub fn new(x: i64, y: i64) -> (r: Vec2)
        ensures
            r.x == x,
            r.y == y,
    {
        Vec2 { x, y }
    }

    /// Each coordinate lies within `[-limit, limit]`.
    pub open spec fn within(self, limit: int) -> bool {
        -limit <= self.x <= limit && -limit <= self.y <= limit
    }
}

/// Squared length of a vector given by its coordinates.
pub open spec fn norm2(x: int, y: int) -> int {
    x * x + y * y
}

/// Squared distance between two points.
pub open spec fn dist2(a: Vec2, b: Vec2) -> int {
    norm2(a.x - b.x, a.y - b.y)
}

/// `s` is the least non-negative integer whose square is at least `n`.
pub open spec fn is_ceil_sqrt(n: int, s: int) -> bool {
    &&& s >= 0
    &&& n <= s * s
    &&& (s == 0 || (s - 1) * (s - 1) < n)
}

/// The integer square root of `n`, rounded up.
pub open spec fn ceil_sqrt(n: int) -> int {
    choose|s: int| is_ceil_sqrt(n, s)
}

/// `v * num / den` with the quotient truncated toward zero.
pub open spec fn scale(v: int, num: int, den: int) -> int {
    if v >= 0 {
        (v * num) / den
    } else {
        -(((-v) * num) / den)
    }
}

/// `v` limited to `[-limit, limit]`.
pub open spec fn clamp(v: int, limit: int) -> int {
    if v > limit {
        limit
    } else if v < -limit {
        -limit
    } else {
        v
    }
}

pub proof fn lemma_ceil_sqrt_unique(n: int, a: int, b: int)
    requires
        is_ceil_sqrt(n, a),
        is_ceil_sqrt(n, b),
    ensures
        a == b,
{
    if a < b {
        assert(a * a <= (b - 1) * (b - 1)) by (nonlinear_arith)
            requires 0 <= a <= b - 1;
    } else if b < a {
        assert(b * b <= (a - 1) * (a - 1)) by (nonlinear_arith)
            requires 0 <= b <= a - 1;
    }
}

/// A witness fixes `ceil_sqrt`.
pub proof fn lemma_ceil_sqrt_is(n: int, s: int)
    requires
        is_ceil_sqrt(n, s),
    ensures
        ceil_sqrt(n) == s,
{
    let c = ceil_sqrt(n);
    assert(is_ceil_sqrt(n, c));
    lemma_ceil_sqrt_unique(n, s, c);
}

/// Every non-negative integer has a rounded-up square root.
pub proof fn lemma_ceil_sqrt_exists(n: int)
    requires
        n >= 0,
    ensures
        is_ceil_sqrt(n, ceil_sqrt(n)),
    decreases n,
{
    if n == 0 {
        lemma_ceil_sqrt_is(0, 0);
    } else {
        lemma_ceil_sqrt_exists(n - 1);
        let s = ceil_sqrt(n - 1);
        if n <= s * s {
            assert(is_ceil_sqrt(n, s));
            lemma_ceil_sqrt_is(n, s);
        } else {
            assert((s + 1) * (s + 1) >= n && s * s < n) by (nonlinear_arith)
                requires s * s == n - 1, s >= 0;
            assert(is_ceil_sqrt(n, s + 1));
            lemma_ceil_sqrt_is(n, s + 1);
        }
    }
}

/// Integer square root rounded up, by bisection.
pub fn ceil_sqrt_u128(n: u128) -> (s: u128)
    requires
        n <= 0x1000000000000000000000,
    ensures
        is_ceil_sqrt(n as int, s as int),
        s == ceil_sqrt(n as int),
        s <= 0x40000000000,
{
    if n == 0 {
        proof {
            lemma_ceil_sqrt_is(0, 0);
        }
        return 0;
    }
    let mut lo: u128 = 0;
    let mut hi: u128 = 0x40000000000;
    assert(0x40000000000u128 as int * 0x40000000000u128 as int == 0x1000000000000000000000int)
        by (nonlinear_arith);
    while hi - lo > 1
        invariant
            lo < hi <= 0x40000000000,
            lo * lo < n,
            n <= hi * hi,
            n <= 0x1000000000000000000000,
        decreases hi - lo,
    {
        let mid: u128 = lo + (hi - lo) / 2;
        proof {
            lemma_square_le(mid as int, 0x40000000000);
        }
        if mid * mid >= n {
            hi = mid;
        } else {
            lo = mid;
        }
    }
    proof {
        lemma_ceil_sqrt_is(n as int, hi as int);
    }
    hi
}

pub proof fn lemma_square_le(a: int, b: int)
    requires
        0 <= a <= b,
    ensures
        a * a <= b * b,
{
    assert(a * a <= b * b) by (nonlinear_arith)
        requires 0 <= a <= b;
}

/// Truncation toward zero never makes the scaled value larger than the exact one:
/// `scale(x, l, s)² s² <= x² l²`.
pub proof fn lemma_scale_square(x: int, l: int, s: int)
    requires
        s > 0,
        l >= 0,
    ensures
        scale(x, l, s) * scale(x, l, s) * (s * s) <= x * x * (l * l),
        x >= 0 ==> scale(x, l, s) >= 0,
        x <= 0 ==> scale(x, l, s) <= 0,
{
    let w = if x >= 0 { x } else { -x };
    assert(w * l >= 0) by (nonlinear_arith)
        requires w >= 0, l >= 0;
    let q = (w * l) / s;
    lemma_fundamental_div_mod(w * l, s);
    lemma_mod_bound(w * l, s);
    assert(0 <= q * s <= w * l) by (nonlinear_arith)
        requires w * l == s * q + (w * l) % s, 0 <= (w * l) % s < s, w * l >= 0, s > 0;
    assert(q >= 0) by (nonlinear_arith)
        requires q * s >= 0, s > 0;
    lemma_square_le(q * s, w * l);
    assert(w * w == x * x) by (nonlinear_arith)
        requires w == x || w == -x;
    assert(q * q * (s * s) <= x * x * (l * l)) by (nonlinear_arith)
        requires (q * s) * (q * s) <= (w * l) * (w * l), w * w == x * x;
    if x == 0 {
        assert(q == 0) by (nonlinear_arith)
            requires 0 <= q * s <= w * l, w == 0, q >= 0, s > 0;
    }
    if x >= 0 {
        assert(scale(x, l, s) == q);
    } else {
        assert(scale(x, l, s) == -q);
    }
    assert(scale(x, l, s) * scale(x, l, s) == q * q) by (nonlinear_arith)
        requires scale(x, l, s) == q || scale(x, l, s) == -q;
}

/// Scaling a vector of length at most `s` by `l / s` gives one of length at most `l`.
pub proof fn lemma_scaled_norm(x: int, y: int, l: int, s: int)
    requires
        s > 0,
        l >= 0,
        norm2(x, y) <= s * s,
    ensures
        norm2(scale(x, l, s), scale(y, l, s)) <= l * l,
{
    let qx = scale(x, l, s);
    let qy = scale(y, l, s);
    lemma_scale_square(x, l, s);
    lemma_scale_square(y, l, s);
    let ss = s * s;
    let ll = l * l;
    let xx = x * x;
    let yy = y * y;
    let n = qx * qx + qy * qy;
    assert(ll >= 0 && ss > 0) by (nonlinear_arith)
        requires ll == l * l, ss == s * s, s > 0;
    assert(n * ss == qx * qx * ss + qy * qy * ss) by (nonlinear_arith)
        requires n == qx * qx + qy * qy;
    assert(xx * ll + yy * ll == (xx + yy) * ll) by (nonlinear_arith);
    assert((xx + yy) * ll <= ss * ll) by (nonlinear_arith)
        requires xx + yy <= ss, ll >= 0;
    assert(n * ss <= ss * ll);
    assert(n <= ll) by (nonlinear_arith)
        requires n * ss <= ss * ll, ss > 0;
}

/// A coordinate of a vector no longer than `l` is at most `l` in magnitude.
pub proof fn lemma_coord_within(x: int, y: int, l: int)
    requires
        l >= 0,
        norm2(x, y) <= l * l,
    ensures
        -l <= x <= l,
{
    assert(y * y >= 0) by (nonlinear_arith);
    assert(-l <= x <= l) by (nonlinear_arith)
        requires x * x <= l * l, l >= 0;
}

proof fn lemma_div_le(a: int, d: int)
    requires
        a >= 0,
        d > 0,
    ensures
        0 <= a / d <= a,
{
    assert(0 <= a / d <= a) by (nonlinear_arith)
        requires a >= 0, d > 0;
}

/// `v * num / den`, truncated toward zero.
pub fn scale_i128(v: i128, num: i128, den: i128) -> (r: i128)
    requires
        -0x4000000000000000 <= v <= 0x4000000000000000,
        0 <= num <= 0x4000000000000000,
        den > 0,
    ensures
        r == scale(v as int, num as int, den as int),
        -0x40000000000000000000000000000000 <= r <= 0x40000000000000000000000000000000,
{
    if v >= 0 {
        assert(0 <= v * num <= 0x40000000000000000000000000000000) by (nonlinear_arith)
            requires 0 <= v <= 0x4000000000000000, 0 <= num <= 0x4000000000000000;
        proof { lemma_div_le(v * num, den as int); }
        (v * num) / den
    } else {
        let w: i128 = -v;
        assert(0 <= w * num <= 0x40000000000000000000000000000000) by (nonlinear_arith)
            requires 0 <= w <= 0x4000000000000000, 0 <= num <= 0x4000000000000000;
        proof { lemma_div_le(w * num, den as int); }
        -((w * num) / den)
    }
}

/// `v` limited to `[-limit, limit]`.
pub fn clamp_i128(v: i128, limit: i64) -> (r: i64)
    requires
        limit >= 0,
    ensures
        r == clamp(v as int, limit as int),
{
    if v > limit as i128 {
        limit
    } else if v < -(limit as i128) {
        -limit
    } else {
        v as i64
    }
}

} // verus!
