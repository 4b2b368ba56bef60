//! Fixed-point vectors and the integer square root that the kernels need.
use vstd::prelude::*;

verus! {

/// Raw units per pixel: every length, speed and force in this crate is an
/// integer multiple of `1 / UNIT` of its pixel-based quantity.
pub const UNIT: i64 = 1024;

/// Bound on the magnitude of each coordinate of a position that a particle
/// may hold.
pub const COORD_LIMIT: i64 = 0x8000_0000;

/// Bound on the magnitude of each component of a velocity that a particle may
/// hold, also while contributions of neighbours are being summed up.
pub const VELOCITY_LIMIT: i64 = 0x8000_0000;

/// Largest value that `isqrt` accepts.
pub const ISQRT_LIMIT: u128 = 0x1_0000_0000_0000_0000_0000_0000;

/// A two-dimensional vector of raw fixed-point units.
#[derive(Clone, Copy, Debug, PartialEq, Eq, Structural)]
pub struct Vector2 {
    pub x: i64,
    pub y: i64,
}

/// The dot product of two vectors given by their components.
pub open spec fn dot(ax: int, ay: int, bx: int, by: int) -> int {
    ax * bx + ay * by
}

/// The squared Euclidean length of a vector given by its components.
pub open spec fn len_sq(x: int, y: int) -> int {
    x * x + y * y
}

/// `r` is the integer square root of `n`: the largest integer whose square is
/// at most `n`.
pub open spec fn is_isqrt(n: int, r: int) -> bool {
    0 <= r && r * r <= n && n < (r + 1) * (r + 1)
}

/// The integer square root of a nonnegative `n`.
pub open spec fn isqrt_spec(n: int) -> int {
    choose|r: int| is_isqrt(n, r)
}

/// The integer square root is unique, so `isqrt_spec` names the one found.
pub proof fn lemma_isqrt_spec(n: int, r: int)
    requires
        is_isqrt(n, r),
    ensures
        isqrt_spec(n) == r,
{
    let s = isqrt_spec(n);
    assert(is_isqrt(n, s));
    if s < r {
        assert((s + 1) * (s + 1) <= r * r) by (nonlinear_arith)
            requires
                0 <= s < r,
        ;
    } else if r < s {
        assert((r + 1) * (r + 1) <= s * s) by (nonlinear_arith)
            requires
                0 <= r < s,
        ;
    }
}

/// `r` is the least integer whose square is at least `n`.
pub open spec fn is_ceil_sqrt(n: int, r: int) -> bool {
    0 <= r && n <= r * r && (r == 0 || (r - 1) * (r - 1) < n)
}

/// Division that rounds toward zero, as integer division of Rust does.
pub open spec fn div_trunc(a: int, b: int) -> int
    recommends
        b > 0,
{
    if a >= 0 {
        a / b
    } else {
        -((-a) / b)
    }
}

/// The magnitude of `a`.
pub open spec fn abs(a: int) -> int {
    if a < 0 {
        -a
    } else {
        a
    }
}

impl Vector2 {
    /// The vector with the given components.
    pub fn new(x: i64, y: i64) -> (r: Vector2)
        ensures
            r.x == x,
            r.y == y,
    {
        Vector2 { x, y }
    }

    /// The zero vector.
    pub fn zero() -> (r: Vector2)
        ensures
            r.x == 0,
            r.y == 0,
    {
        Vector2 { x: 0, y: 0 }
    }

    /// The squared length of this vector.
    pub open spec fn len_sq_spec(self) -> int {
        len_sq(self.x as int, self.y as int)
    }

    /// The squared length of this vector, computed without overflow.
    pub fn length_squared(&self) -> (r: u128)
        ensures
            r == self.len_sq_spec(),
    {
        let x = self.x as i128;
        let y = self.y as i128;
        assert(x * x <= 0x4000_0000_0000_0000_0000_0000_0000_0000) by (nonlinear_arith)
            requires
                -0x8000_0000_0000_0000 <= x <= 0x7fff_ffff_ffff_ffff,
        ;
        assert(y * y <= 0x4000_0000_0000_0000_0000_0000_0000_0000) by (nonlinear_arith)
            requires
                -0x8000_0000_0000_0000 <= y <= 0x7fff_ffff_ffff_ffff,
        ;
        assert(0 <= x * x && 0 <= y * y) by (nonlinear_arith);
        let xx = (x * x) as u128;
        let yy = (y * y) as u128;
        xx + yy
    }
}

/// The least integer whose square is at least a nonnegative `n`.
pub open spec fn ceil_sqrt_spec(n: int) -> int {
    choose|c: int| is_ceil_sqrt(n, c)
}

/// That least integer is unique, so `ceil_sqrt_spec` names the one found.
pub proof fn lemma_ceil_sqrt_spec(n: int, c: int)
    requires
        is_ceil_sqrt(n, c),
    ensures
        ceil_sqrt_spec(n) == c,
{
    let a = ceil_sqrt_spec(n);
    assert(is_ceil_sqrt(n, a));
    if a < c {
        assert(a * a <= (c - 1) * (c - 1)) by (nonlinear_arith)
            requires
                0 <= a <= c - 1,
        ;
    } else if c < a {
        assert(c * c <= (a - 1) * (a - 1)) by (nonlinear_arith)
            requires
                0 <= c <= a - 1,
        ;
    }
}

/// `|div_trunc(a, b)| * b <= |a|` for a positive `b`.
pub proof fn lemma_div_trunc_bound(a: int, b: int)
    requires
        b > 0,
    ensures
        abs(div_trunc(a, b)) * b <= abs(a),
        abs(div_trunc(a, b)) <= abs(a),
        abs(a) < (abs(div_trunc(a, b)) + 1) * b,
{
    if a >= 0 {
        assert((a / b) * b <= a && a / b >= 0 && a / b <= a && a < (a / b + 1) * b)
            by (nonlinear_arith)
            requires
                a >= 0,
                b > 0,
        ;
    } else {
        let m = -a;
        assert((m / b) * b <= m && m / b >= 0 && m / b <= m && m < (m / b + 1) * b)
            by (nonlinear_arith)
            requires
                m >= 0,
                b > 0,
        ;
    }
}

/// The length of `f` is at most `num / den`.
pub open spec fn magnitude_at_most(f: Vector2, num: int, den: int) -> bool {
    len_sq(f.x as int, f.y as int) * (den * den) <= num * num
}

/// `f` is, component by component, less than one unit nearer to zero than a
/// vector of length at least `num / den`; so the length of `f` is at least
/// `num / den - sqrt(2)`.
pub open spec fn magnitude_at_least(f: Vector2, num: int, den: int) -> bool {
    let ax = abs(f.x as int) + 1;
    let ay = abs(f.y as int) + 1;
    (ax * ax + ay * ay) * (den * den) >= num * num
}

/// The square of a magnitude is the square of the number.
pub proof fn lemma_abs_sq(a: int)
    ensures
        abs(a) * abs(a) == a * a,
{
    if a < 0 {
        assert((-a) * (-a) == a * a) by (nonlinear_arith);
    }
}

/// Rounding each component of `(ax, ay) * g / q` toward zero, giving
/// `(fx, fy)`, scales the squared length by `(g / q)^2` up to the rounding.
pub proof fn lemma_rounded_pair(fx: int, fy: int, ax: int, ay: int, q: int, g: int)
    requires
        q > 0,
        g >= 0,
        abs(fx) * q <= abs(ax) * g,
        abs(fy) * q <= abs(ay) * g,
        abs(ax) * g < (abs(fx) + 1) * q,
        abs(ay) * g < (abs(fy) + 1) * q,
    ensures
        len_sq(fx, fy) * (q * q) <= len_sq(ax, ay) * (g * g),
        ((abs(fx) + 1) * (abs(fx) + 1) + (abs(fy) + 1) * (abs(fy) + 1)) * (q * q) >= len_sq(ax, ay) * (g * g),
{
    lemma_abs_sq(fx);
    lemma_abs_sq(fy);
    lemma_abs_sq(ax);
    lemma_abs_sq(ay);
    let (u, v, s, t) = (abs(fx), abs(fy), abs(ax), abs(ay));
    assert(u * u * (q * q) <= s * s * (g * g)) by (nonlinear_arith)
        requires
            0 <= u * q <= s * g,
            u >= 0,
            q > 0,
    ;
    assert(v * v * (q * q) <= t * t * (g * g)) by (nonlinear_arith)
        requires
            0 <= v * q <= t * g,
            v >= 0,
            q > 0,
    ;
    assert((u + 1) * (u + 1) * (q * q) >= s * s * (g * g)) by (nonlinear_arith)
        requires
            0 <= s * g < (u + 1) * q,
            s >= 0,
            g >= 0,
    ;
    assert((v + 1) * (v + 1) * (q * q) >= t * t * (g * g)) by (nonlinear_arith)
        requires
            0 <= t * g < (v + 1) * q,
            t >= 0,
            g >= 0,
    ;
    assert(len_sq(fx, fy) * (q * q) == u * u * (q * q) + v * v * (q * q)) by (nonlinear_arith)
        requires
            u * u == fx * fx,
            v * v == fy * fy,
    ;
    assert(len_sq(ax, ay) * (g * g) == s * s * (g * g) + t * t * (g * g)) by (nonlinear_arith)
        requires
            s * s == ax * ax,
            t * t == ay * ay,
    ;
    assert(((u + 1) * (u + 1) + (v + 1) * (v + 1)) * (q * q) == (u + 1) * (u + 1) * (q * q) + (v
        + 1) * (v + 1) * (q * q)) by (nonlinear_arith);
}

/// Two nonnegative components, each less than one below those of a vector of
/// length about `u`, make a vector of length at least `u - 2`.
pub proof fn lemma_length_from_rounding(a: int, b: int, u: int)
    requires
        a >= 0,
        b >= 0,
        u >= 2,
        (a + 1) * (a + 1) + (b + 1) * (b + 1) >= u * u - 3,
    ensures
        a * a + b * b >= (u - 2) * (u - 2),
{
    if a * a + b * b < (u - 2) * (u - 2) {
        assert((a + b) * (a + b) <= 2 * (a * a + b * b)) by (nonlinear_arith);
        assert(a + b < 2 * (u - 2)) by (nonlinear_arith)
            requires
                (a + b) * (a + b) < 4 * ((u - 2) * (u - 2)),
                a + b >= 0,
                u >= 2,
        ;
        assert((a + 1) * (a + 1) + (b + 1) * (b + 1) == a * a + b * b + 2 * (a + b) + 2)
            by (nonlinear_arith);
        assert((u - 2) * (u - 2) == u * u - 4 * u + 4) by (nonlinear_arith);
    }
}

/// Division rounding toward zero, for a positive divisor.
pub fn div_toward_zero(a: i128, b: i128) -> (r: i128)
    requires
        b > 0,
        a > i128::MIN,
    ensures
        r == div_trunc(a as int, b as int),
        abs(r as int) <= abs(a as int),
{
    if a >= 0 {
        assert(a / b <= a) by (nonlinear_arith)
            requires
                a >= 0,
                b > 0,
        ;
        a / b
    } else {
        let m = -a;
        assert(m / b <= m) by (nonlinear_arith)
            requires
                m >= 0,
                b > 0,
        ;
        -(m / b)
    }
}

/// The integer square root of `n`, found by bisection.
pub fn isqrt(n: u128) -> (r: u64)
    requires
        n < ISQRT_LIMIT,
    ensures
        is_isqrt(n as int, r as int),
{
    let mut lo: u128 = 0;
    let mut hi: u128 = 0x1_0000_0000_0000;
    assert(hi * hi == ISQRT_LIMIT);
    while hi - lo > 1
        invariant
            lo < hi <= 0x1_0000_0000_0000,
            lo * lo <= n,
            n < hi * hi,
        decreases hi - lo,
    {
        let mid = lo + (hi - lo) / 2;
        assert(lo < mid < hi);
        assert(mid * mid <= 0x1_0000_0000_0000_0000_0000_0000) by (nonlinear_arith)
            requires
                mid < 0x1_0000_0000_0000,
        ;
        if mid * mid <= n {
            lo = mid;
        } else {
            hi = mid;
        }
    }
    assert(hi == lo + 1);
    lo as u64
}

/// The least integer whose square is at least `n`.
pub fn ceil_sqrt(n: u128) -> (r: u64)
    requires
        n < ISQRT_LIMIT,
    ensures
        is_ceil_sqrt(n as int, r as int),
        r == ceil_sqrt_spec(n as int),
        r as int * r as int <= n + 2 * (r as int),
{
    let s = isqrt(n);
    let s2 = s as u128 * s as u128;
    let r = ceil_from(n, s, s2);
    proof {
        lemma_ceil_sqrt_spec(n as int, r as int);
    }
    r
}

/// The least integer whose square is at least `n`, given its integer square
/// root `s` and `s * s`.
fn ceil_from(n: u128, s: u64, s2: u128) -> (r: u64)
    requires
        is_isqrt(n as int, s as int),
        s2 == s * s,
        n < ISQRT_LIMIT,
    ensures
        is_ceil_sqrt(n as int, r as int),
        r as int * r as int <= n + 2 * (r as int),
{
    if s2 == n {
        assert(s == 0 || (s - 1) * (s - 1) < s * s) by (nonlinear_arith)
            requires
                s >= 0,
        ;
        s
    } else {
        assert(s < 0x1_0000_0000_0000) by (nonlinear_arith)
            requires
                s as int * s as int <= n,
                n < 0x1_0000_0000_0000_0000_0000_0000,
        ;
        let c = s + 1;
        assert(c as int * c as int == s as int * s as int + 2 * s as int + 1) by (nonlinear_arith)
            requires
                c == s + 1,
        ;
        c
    }
}

} // verus!
