//! Fixed-point plane geometry.
//!
//! Lengths are integers in milli-units (a thousandth of a canvas pixel); scalar factors are
//! written as a numerator over a denominator and applied with rounding toward zero.
use vstd::prelude::*;

verus! {

/// Milli-units in one canvas pixel.
pub const SCALE: i64 = 1000;

/// Largest magnitude a coordinate may take (about a billion pixels).
pub const COORD_LIMIT: i64 = 0x100_0000_0000;

/// Whether `r` is the least natural number whose square is at least `n`.
pub open spec fn is_ceil_sqrt(r: int, n: int) -> bool {
    r >= 0 && n <= r * r && (r == 0 || (r - 1) * (r - 1) < n)
}

/// The least natural number whose square is at least `n`.
pub open spec fn ceil_sqrt(n: int) -> int {
    choose|r: int| is_ceil_sqrt(r, n)
}

pub open spec fn norm_sq(x: int, y: int) -> int {
    x * x + y * y
}

pub open spec fn abs(v: int) -> int {
    if v >= 0 {
        v
    } else {
        -v
    }
}

/// `v * num / den`, rounded toward zero.
pub open spec fn scale(v: int, num: int, den: int) -> int {
    if v >= 0 {
        v * num / den
    } else {
        -((-v) * num / den)
    }
}

/// `v` limited to `[lo, hi]`.
pub open spec fn clamp(v: int, lo: int, hi: int) -> int {
    if v < lo {
        lo
    } else if v > hi {
        hi
    } else {
        v
    }
}

/// A velocity whose magnitude exceeds `max` rescaled to magnitude at most `max`, keeping
/// its direction; a slower one unchanged.
pub open spec fn limit_speed(vx: int, vy: int, max: int) -> (int, int) {
    if norm_sq(vx, vy) <= max * max {
        (vx, vy)
    } else {
        let s = ceil_sqrt(norm_sq(vx, vy));
        (scale(vx, max, s), scale(vy, max, s))
    }
}

/// The ceiling square root is unique.
pub proof fn lemma_ceil_sqrt_unique(r: int, q: int, n: int)
    requires
        is_ceil_sqrt(r, n),
        is_ceil_sqrt(q, n),
    ensures
        r == q,
{
    if r < q {
        assert(r * r <= (q - 1) * (q - 1)) by (nonlinear_arith)
            requires
                0 <= r <= q - 1,
        ;
    } else if q < r {
        assert(q * q <= (r - 1) * (r - 1)) by (nonlinear_arith)
            requires
                0 <= q <= r - 1,
        ;
    }
}

/// The smallest `r` with `r * r >= n`.
pub fn isqrt_ceil(n: u128) -> (r: u128)
    requires
        n <= 0x1_0000_0000_0000_0000_0000_0000,
    ensures
        r == ceil_sqrt(n as int),
        is_ceil_sqrt(r as int, n as int),
        r <= 0x4_0000_0000_0000,
{
    proof {
        lemma_ceil_sqrt_exists(n as int);
    }
    if n == 0 {
        assert(is_ceil_sqrt(0, 0));
        proof {
            lemma_ceil_sqrt_unique(0, ceil_sqrt(0), 0);
        }
        return 0;
    }
    let mut lo: u128 = 0;
    let mut hi: u128 = 0x4_0000_0000_0000;
    assert(hi * hi == 0x10_0000_0000_0000_0000_0000_0000);
    while lo + 1 < hi
        invariant
            lo < hi <= 0x4_0000_0000_0000,
            lo * lo < n,
            n <= hi * hi,
        decreases hi - lo,
    {
        let mid = lo + (hi - lo) / 2;
        assert(mid * mid <= 0x10_0000_0000_0000_0000_0000_0000) by (nonlinear_arith)
            requires
                mid <= 0x4_0000_0000_0000,
        ;
        if mid * mid >= n {
            hi = mid;
        } else {
            lo = mid;
        }
    }
    assert(is_ceil_sqrt(hi as int, n as int));
    proof {
        lemma_ceil_sqrt_unique(hi as int, ceil_sqrt(n as int), n as int);
    }
    hi
}

proof fn lemma_scale_bound(v: int, num: int, den: int)
    requires
        num >= 0,
        den > 0,
    ensures
        abs(scale(v, num, den)) * den <= abs(v) * num,
        abs(scale(v, num, den)) <= abs(v) * num / den,
        scale(v, num, den) >= 0 <==> v >= 0 || abs(v) * num / den == 0,
{
    let a = abs(v);
    assert(a * num >= 0) by (nonlinear_arith)
        requires
            a >= 0,
            num >= 0,
    ;
    let q = a * num / den;
    assert(q * den <= a * num) by (nonlinear_arith)
        requires
            den > 0,
            q == a * num / den,
    ;
}

/// A velocity rescaled so that its squared magnitude drops to at most `max * max`.
pub proof fn lemma_limit_speed(vx: int, vy: int, max: int)
    requires
        max >= 0,
    ensures
        norm_sq(limit_speed(vx, vy, max).0, limit_speed(vx, vy, max).1) <= max * max,
        abs(limit_speed(vx, vy, max).0) <= abs(vx),
        abs(limit_speed(vx, vy, max).1) <= abs(vy),
{
    let n = norm_sq(vx, vy);
    if n > max * max {
        let s = ceil_sqrt(n);
        assert(n >= 0) by (nonlinear_arith)
            requires
                n == vx * vx + vy * vy,
        ;
        lemma_ceil_sqrt_exists(n);
        let a = abs(vx);
        let b = abs(vy);
        assert(a * a == vx * vx && b * b == vy * vy) by (nonlinear_arith)
            requires
                a == abs(vx),
                b == abs(vy),
        ;
        assert(s > 0) by (nonlinear_arith)
            requires
                n <= s * s,
                n > max * max,
                max >= 0,
                s >= 0,
        ;
        lemma_scale_bound(vx, max, s);
        lemma_scale_bound(vy, max, s);
        let p = abs(scale(vx, max, s));
        let q = abs(scale(vy, max, s));
        assert(max <= s) by (nonlinear_arith)
            requires
                n > max * max,
                n <= s * s,
                s > 0,
                max >= 0,
        ;
        assert(p * s <= a * max && q * s <= b * max && p >= 0 && q >= 0);
        assert((p * p + q * q) * (s * s) <= (a * a + b * b) * (max * max)) by (nonlinear_arith)
            requires
                p * s <= a * max,
                q * s <= b * max,
                p >= 0,
                q >= 0,
                s > 0,
                max >= 0,
        ;
        assert((a * a + b * b) * (max * max) <= (s * s) * (max * max)) by (nonlinear_arith)
            requires
                a * a + b * b <= s * s,
        ;
        assert(p * p + q * q <= max * max) by (nonlinear_arith)
            requires
                (p * p + q * q) * (s * s) <= (s * s) * (max * max),
                s > 0,
        ;
        assert(p <= a) by (nonlinear_arith)
            requires
                p * s <= a * max,
                max <= s,
                s > 0,
                a >= 0,
                p >= 0,
        ;
        assert(q <= b) by (nonlinear_arith)
            requires
                q * s <= b * max,
                max <= s,
                s > 0,
                b >= 0,
                q >= 0,
        ;
        assert(p * p == scale(vx, max, s) * scale(vx, max, s)) by (nonlinear_arith)
            requires
                p == abs(scale(vx, max, s)),
        ;
        assert(q * q == scale(vy, max, s) * scale(vy, max, s)) by (nonlinear_arith)
            requires
                q == abs(scale(vy, max, s)),
        ;
    }
}

/// Every natural number has a ceiling square root.
pub proof fn lemma_ceil_sqrt_exists(n: int)
    requires
        n >= 0,
    ensures
        is_ceil_sqrt(ceil_sqrt(n), n),
    decreases n,
{
    if n == 0 {
        assert(is_ceil_sqrt(0, 0));
    } else {
        lemma_ceil_sqrt_exists(n - 1);
        let r = ceil_sqrt(n - 1);
        if n <= r * r {
            assert(is_ceil_sqrt(r, n));
        } else {
            assert(r * r == n - 1);
            assert(is_ceil_sqrt(r + 1, n)) by (nonlinear_arith)
                requires
                    r * r == n - 1,
                    r >= 0,
                    n >= 1,
            ;
        }
    }
}

/// `v * num / den` rounded toward zero.
pub fn scale_i64(v: i64, num: i64, den: i64) -> (r: i64)
    requires
        -COORD_LIMIT * 4 <= v <= COORD_LIMIT * 4,
        0 <= num <= den,
        den > 0,
    ensures
        r == scale(v as int, num as int, den as int),
        abs(r as int) <= abs(v as int),
{
    proof {
        lemma_scale_bound(v as int, num as int, den as int);
        assert(abs(v as int) * (num as int) / (den as int) <= abs(v as int)) by (nonlinear_arith)
            requires
                0 <= num <= den,
                den > 0,
                abs(v as int) >= 0,
        ;
    }
    let w = v as i128;
    if v >= 0 {
        assert(0 <= w * (num as i128) <= 0x200_0000_0000_0000_0000_0000_0000) by (nonlinear_arith)
            requires
                0 <= w <= 0x400_0000_0000,
                0 <= num <= den <= 0x7fff_ffff_ffff_ffff,
        ;
        let q = w * (num as i128) / (den as i128);
        assert(q <= w * (num as i128));
        q as i64
    } else {
        assert(0 <= (-w) * (num as i128) <= 0x200_0000_0000_0000_0000_0000_0000) by (nonlinear_arith)
            requires
                0 <= -w <= 0x400_0000_0000,
                0 <= num <= den <= 0x7fff_ffff_ffff_ffff,
        ;
        let q = (-w) * (num as i128) / (den as i128);
        assert(q <= (-w) * (num as i128));
        (-q) as i64
    }
}

/// `v` limited to `[lo, hi]`.
pub fn clamp_i64(v: i64, lo: i64, hi: i64) -> (r: i64)
    requires
        lo <= hi,
    ensures
        r == clamp(v as int, lo as int, hi as int),
        lo <= r <= hi,
{
    if v < lo {
        lo
    } else if v > hi {
        hi
    } else {
        v
    }
}

/// The squared distance between two points.
pub fn dist_sq(x1: i64, y1: i64, x2: i64, y2: i64) -> (r: u128)
    requires
        -COORD_LIMIT <= x1 <= COORD_LIMIT,
        -COORD_LIMIT <= y1 <= COORD_LIMIT,
        -COORD_LIMIT <= x2 <= COORD_LIMIT,
        -COORD_LIMIT <= y2 <= COORD_LIMIT,
    ensures
        r == norm_sq(x2 - x1, y2 - y1),
        r <= 0x1_0000_0000_0000_0000_0000_0000,
{
    let dx = (x2 as i128) - (x1 as i128);
    let dy = (y2 as i128) - (y1 as i128);
    assert(0 <= dx * dx <= 0x40_0000_0000_0000_0000_0000) by (nonlinear_arith)
        requires
            -0x200_0000_0000 <= dx <= 0x200_0000_0000,
    ;
    assert(0 <= dy * dy <= 0x40_0000_0000_0000_0000_0000) by (nonlinear_arith)
        requires
            -0x200_0000_0000 <= dy <= 0x200_0000_0000,
    ;
    (dx * dx + dy * dy) as u128
}

/// A velocity limited to magnitude `max`, keeping its direction.
pub fn limit_speed_i64(vx: i64, vy: i64, max: i64) -> (r: (i64, i64))
    requires
        -COORD_LIMIT <= vx <= COORD_LIMIT,
        -COORD_LIMIT <= vy <= COORD_LIMIT,
        0 <= max <= 0x100_0000,
    ensures
        r.0 == limit_speed(vx as int, vy as int, max as int).0,
        r.1 == limit_speed(vx as int, vy as int, max as int).1,
        norm_sq(r.0 as int, r.1 as int) <= max * max,
        abs(r.0 as int) <= abs(vx as int),
        abs(r.1 as int) <= abs(vy as int),
{
    proof {
        lemma_limit_speed(vx as int, vy as int, max as int);
    }
    let n = dist_sq(0, 0, vx, vy);
    assert(n == norm_sq(vx as int, vy as int));
    assert(0 <= (max as i128) * (max as i128) <= 0x1_0000_0000_0000) by (nonlinear_arith)
        requires
            0 <= max <= 0x100_0000,
    ;
    let m = ((max as i128) * (max as i128)) as u128;
    if n <= m {
        (vx, vy)
    } else {
        let s = isqrt_ceil(n);
        assert(s > 0) by (nonlinear_arith)
            requires
                n <= s * s,
                n > m,
        ;
        assert(max <= s) by (nonlinear_arith)
            requires
                n > m,
                m == max * max,
                n <= s * s,
                s > 0,
                max >= 0,
        ;
        let rx = scale_i64(vx, max, s as i64);
        let ry = scale_i64(vy, max, s as i64);
        (rx, ry)
    }
}

/// Rescaling by a factor of at most one does not grow a magnitude.
pub proof fn lemma_scale_shrinks(v: int, num: int, den: int)
    requires
        0 <= num <= den,
        den > 0,
    ensures
        abs(scale(v, num, den)) <= abs(v),
        scale(v, num, den) == 0 || (scale(v, num, den) > 0) == (v > 0),
{
    lemma_scale_bound(v, num, den);
    assert(abs(v) * num / den <= abs(v)) by (nonlinear_arith)
        requires
            0 <= num <= den,
            den > 0,
            abs(v) >= 0,
    ;
}

/// Components no larger in magnitude give a squared magnitude no larger.
pub proof fn lemma_norm_sq_monotone(a: int, b: int, c: int, d: int)
    requires
        abs(a) <= abs(c),
        abs(b) <= abs(d),
    ensures
        norm_sq(a, b) <= norm_sq(c, d),
{
    assert(a * a <= c * c) by (nonlinear_arith)
        requires
            abs(a) <= abs(c),
    ;
    assert(b * b <= d * d) by (nonlinear_arith)
        requires
            abs(b) <= abs(d),
    ;
}

/// The component along `dx` of a pull of strength `k` over the squared distance `d2`:
/// `dx * k / d2`, rounded toward zero.
pub fn pull(dx: i64, k: i64, d2: u128) -> (r: i64)
    requires
        -2 * COORD_LIMIT <= dx <= 2 * COORD_LIMIT,
        0 <= k <= 0x100_0000,
        d2 > 0,
        dx * dx <= d2,
    ensures
        r == scale(dx as int, k as int, d2 as int),
        abs(r as int) <= k,
{
    let a: i128 = if dx >= 0 {
        dx as i128
    } else {
        -(dx as i128)
    };
    assert(a <= a * a) by (nonlinear_arith)
        requires
            a >= 0,
    ;
    assert(a * a == dx * dx) by (nonlinear_arith)
        requires
            a == abs(dx as int),
    ;
    assert(0 <= a * (k as i128) <= 0x200_0000_0000 * 0x100_0000) by (nonlinear_arith)
        requires
            0 <= a <= 0x200_0000_0000,
            0 <= k <= 0x100_0000,
    ;
    let q = (a * (k as i128)) as u128 / d2;
    assert(q <= k) by (nonlinear_arith)
        requires
            q == (a * k) / (d2 as int),
            0 <= a <= d2,
            d2 > 0,
            k >= 0,
    ;
    if dx >= 0 {
        q as i64
    } else {
        -(q as i64)
    }
}

/// The component along `dx` of an inverse-square pull of strength `k`, the distance being
/// `d` and its square `d2`: `dx * k / (d2 * d)`, rounded toward zero.
pub fn pull_cubed(dx: i64, k: i64, d2: u128, d: u128) -> (r: i64)
    requires
        -2 * COORD_LIMIT <= dx <= 2 * COORD_LIMIT,
        0 <= k <= 0x200_0000,
        0 < d2 < 0x1_0000_0000_0000_0000_0000,
        0 < d <= 0x100_0000_0000,
        d2 <= d * d,
        dx * dx <= d2,
    ensures
        r == scale(dx as int, k as int, d2 * d),
        abs(r as int) <= k,
{
    let a: i128 = if dx >= 0 {
        dx as i128
    } else {
        -(dx as i128)
    };
    assert(a * a == dx * dx) by (nonlinear_arith)
        requires
            a == abs(dx as int),
    ;
    assert(a <= d) by (nonlinear_arith)
        requires
            a * a <= d * d,
            a >= 0,
            d > 0,
    ;
    assert(d <= d2 * d) by (nonlinear_arith)
        requires
            d2 >= 1,
            d > 0,
    ;
    assert(0 < d2 * d <= 0x1_0000_0000_0000_0000_0000 * 0x100_0000_0000) by (nonlinear_arith)
        requires
            0 < d2 < 0x1_0000_0000_0000_0000_0000,
            0 < d <= 0x100_0000_0000,
    ;
    assert(0 <= a * (k as i128) <= 0x200_0000_0000 * 0x200_0000) by (nonlinear_arith)
        requires
            0 <= a <= 0x200_0000_0000,
            0 <= k <= 0x200_0000,
    ;
    let den = d2 * d;
    let q = (a * (k as i128)) as u128 / den;
    assert(q <= k) by (nonlinear_arith)
        requires
            q == (a * k) / (den as int),
            0 <= a <= den,
            den > 0,
            k >= 0,
    ;
    if dx >= 0 {
        q as i64
    } else {
        -(q as i64)
    }
}

} // verus!
