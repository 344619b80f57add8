//! Shared plane geometry: world bounds, squared distances, an integer square
//! root, fixed-point scaling of movement steps, and the strict axis-aligned
//! bounding-box overlap test that every collision pass uses.
//!
//! Positions are whole world units; a step of `v` units per second over `dt`
//! milliseconds moves `v * dt / 1000` units, truncated toward zero.

use vstd::prelude::*;
use vstd::arithmetic::div_mod::lemma_basic_div;
use vstd::arithmetic::div_mod::lemma_div_is_ordered;
use vstd::arithmetic::div_mod::lemma_div_multiples_vanish;
use vstd::arithmetic::mul::lemma_mul_inequality;
use vstd::arithmetic::mul::lemma_mul_nonnegative;

verus! {

/// Coordinates the update passes accept, so that every product and sum in
/// the movement and collision arithmetic fits the machine integers.
pub const MAX_COORD: i64 = 1_000_000_000;

/// Largest entity speed, in world units per second.
pub const MAX_SPEED: u64 = 1_000_000;

/// Largest entity extent (width or height), in world units.
pub const MAX_SIZE: u64 = 1_000_000;

/// Largest squared distance between two in-world points:
/// `(2 * MAX_COORD)^2 + (2 * MAX_COORD)^2`.
pub const MAX_DIST_SQ: u64 = 8_000_000_000_000_000_000;

/// Both coordinates within the world bounds.
pub open spec fn in_world(x: int, y: int) -> bool {
    &&& -(MAX_COORD as int) <= x <= MAX_COORD as int
    &&& -(MAX_COORD as int) <= y <= MAX_COORD as int
}

/// Squared Euclidean distance between two points.
pub open spec fn dist_sq(x1: int, y1: int, x2: int, y2: int) -> int {
    (x2 - x1) * (x2 - x1) + (y2 - y1) * (y2 - y1)
}

/// The integer square root: the largest `r` with `r * r <= n`.
pub open spec fn isqrt_spec(n: nat) -> nat
    decreases n,
{
    if n == 0 {
        0
    } else {
        let r = isqrt_spec((n - 1) as nat);
        if (r + 1) * (r + 1) <= n {
            r + 1
        } else {
            r
        }
    }
}

/// The integer square root of `n` is sandwiched by consecutive squares.
pub proof fn lemma_isqrt_bounds(n: nat)
    ensures
        isqrt_spec(n) * isqrt_spec(n) <= n,
        n < (isqrt_spec(n) + 1) * (isqrt_spec(n) + 1),
    decreases n,
{
    let s = isqrt_spec(n);
    if n == 0 {
        assert((s + 1) * (s + 1) == 1) by (nonlinear_arith)
            requires
                s == 0,
        ;
    } else {
        lemma_isqrt_bounds((n - 1) as nat);
        let r = isqrt_spec((n - 1) as nat);
        assert(s == if (r + 1) * (r + 1) <= n {
            r + 1
        } else {
            r
        });
        if (r + 1) * (r + 1) <= n {
            assert(n < ((r + 1) + 1) * ((r + 1) + 1)) by (nonlinear_arith)
                requires
                    n <= (r + 1) * (r + 1),
            ;
        }
    }
}

/// Any `r` sandwiched by consecutive squares around `n` is the integer
/// square root of `n`.
pub proof fn lemma_isqrt_unique(n: nat, r: nat)
    requires
        r * r <= n,
        n < (r + 1) * (r + 1),
    ensures
        r == isqrt_spec(n),
{
    let s = isqrt_spec(n);
    lemma_isqrt_bounds(n);
    if r < s {
        assert((r + 1) * (r + 1) <= s * s) by (nonlinear_arith)
            requires
                r + 1 <= s,
        ;
    }
    if s < r {
        assert((s + 1) * (s + 1) <= r * r) by (nonlinear_arith)
            requires
                s + 1 <= r,
        ;
    }
}

/// Neither component of a vector exceeds the integer square root of the
/// vector's squared length.
pub proof fn lemma_component_within_isqrt(dx: int, dy: int)
    ensures
        dx * dx + dy * dy >= 0,
        -(isqrt_spec((dx * dx + dy * dy) as nat) as int) <= dx
            <= isqrt_spec((dx * dx + dy * dy) as nat) as int,
        -(isqrt_spec((dx * dx + dy * dy) as nat) as int) <= dy
            <= isqrt_spec((dx * dx + dy * dy) as nat) as int,
{
    assert(dx * dx >= 0) by (nonlinear_arith);
    assert(dy * dy >= 0) by (nonlinear_arith);
    let n = (dx * dx + dy * dy) as nat;
    let s = isqrt_spec(n);
    lemma_isqrt_bounds(n);
    let a = if dx >= 0 { dx } else { -dx };
    let b = if dy >= 0 { dy } else { -dy };
    assert(a * a == dx * dx) by (nonlinear_arith)
        requires
            a == dx || a == -dx,
    ;
    assert(b * b == dy * dy) by (nonlinear_arith)
        requires
            b == dy || b == -dy,
    ;
    if a > s {
        assert((s + 1) * (s + 1) <= a * a) by (nonlinear_arith)
            requires
                s + 1 <= a,
        ;
    }
    if b > s {
        assert((s + 1) * (s + 1) <= b * b) by (nonlinear_arith)
            requires
                s + 1 <= b,
        ;
    }
}

/// Integer square root, by binary search over the sandwich invariant.
pub fn isqrt(n: u64) -> (r: u64)
    requires
        n <= MAX_DIST_SQ,
    ensures
        r == isqrt_spec(n as nat),
        r * r <= n,
        n < (r + 1) * (r + 1),
        n >= 1 ==> r >= 1,
        r <= 3_000_000_000,
{
    let mut lo: u64 = 0;
    let mut hi: u64 = 3_000_000_000;
    assert(3_000_000_000int * 3_000_000_000 == 9_000_000_000_000_000_000) by (nonlinear_arith);
    while lo + 1 < hi
        invariant
            lo < hi <= 3_000_000_000,
            lo * lo <= n,
            n < hi * hi,
        decreases hi - lo,
    {
        let mid = lo + (hi - lo) / 2;
        assert(mid * mid <= u64::MAX) by (nonlinear_arith)
            requires
                mid <= 3_000_000_000,
        ;
        let sq = mid * mid;
        if sq <= n {
            lo = mid;
        } else {
            hi = mid;
        }
    }
    proof {
        assert(n < (lo + 1) * (lo + 1));
        lemma_isqrt_unique(n as nat, lo as nat);
        if lo == 0 {
            assert((lo + 1) * (lo + 1) == 1) by (nonlinear_arith)
                requires
                    lo == 0,
            ;
        }
    }
    lo
}

/// A `d`-directed step: `|d| * num / den`, carrying the sign of `d`.
/// Truncation happens on the magnitude, so the result is symmetric in `d`.
pub open spec fn scaled(d: int, num: int, den: int) -> int {
    if d >= 0 {
        d * num / den
    } else {
        -((-d) * num / den)
    }
}

/// A step scaled by `q / den` never exceeds `q` in magnitude when the
/// component is no longer than the denominator.
pub proof fn lemma_scaled_bounded(d: int, q: int, den: int)
    requires
        den >= 1,
        q >= 0,
        -den <= d <= den,
    ensures
        -q <= scaled(d, q, den) <= q,
{
    let m = if d >= 0 {
        d
    } else {
        -d
    };
    lemma_mul_nonnegative(m, q);
    lemma_div_is_ordered(0, m * q, den);
    lemma_basic_div(0, den);
    lemma_mul_inequality(m, den, q);
    lemma_div_is_ordered(m * q, den * q, den);
    lemma_div_multiples_vanish(q, den);
}

/// One component of a movement step toward a target: `d * q / len` with the
/// magnitude never exceeding `q` (because `|d| <= len`).
pub fn scale_toward(d: i64, q: u64, len: u64) -> (r: i64)
    requires
        1 <= len <= 3_000_000_000,
        q <= 1_000_000_000,
        -(len as int) <= d <= len as int,
    ensures
        r == scaled(d as int, q as int, len as int),
        -(q as int) <= r <= q as int,
{
    let m: u64 = if d >= 0 { d as u64 } else { (-d) as u64 };
    proof {
        lemma_mul_inequality(m as int, len as int, q as int);
        assert((len as int) * (q as int) <= u64::MAX) by (nonlinear_arith)
            requires
                len <= 3_000_000_000 && q <= 1_000_000_000,
        ;
    }
    let prod = m * q;
    proof {
        lemma_div_is_ordered(prod as int, (len as int) * (q as int), len as int);
        lemma_div_multiples_vanish(q as int, len as int);
    }
    let mag = prod / len;
    if d >= 0 {
        mag as i64
    } else {
        -(mag as i64)
    }
}

/// Advance one coordinate by a fixed velocity over `dt` milliseconds.
pub fn step_coord(x: i64, v: i64, dt: u64) -> (r: i64)
    requires
        -(MAX_COORD as int) <= x <= MAX_COORD as int,
        -(MAX_SPEED as int) <= v <= MAX_SPEED as int,
        dt <= crate::timer::MAX_DELTA_MS,
    ensures
        r == x + scaled(v as int, dt as int, 1000),
        x - (MAX_SPEED as int) * (crate::timer::MAX_DELTA_MS as int) <= r
            <= x + (MAX_SPEED as int) * (crate::timer::MAX_DELTA_MS as int),
{
    let m: u64 = if v >= 0 { v as u64 } else { (-v) as u64 };
    proof {
        assert((m as int) * (dt as int) <= 1_000_000_000_000) by (nonlinear_arith)
            requires
                m <= 1_000_000 && dt <= 1_000_000,
        ;
    }
    let prod = m * dt;
    let mag = prod / 1000;
    if v >= 0 {
        x + mag as i64
    } else {
        x - mag as i64
    }
}

/// Strict overlap of two axis-aligned boxes given by center and half-extent:
/// both axis intervals must properly intersect, so boxes that exactly touch
/// on a bound do not overlap.
pub open spec fn boxes_overlap_spec(
    x1: int,
    y1: int,
    hx1: int,
    hy1: int,
    x2: int,
    y2: int,
    hx2: int,
    hy2: int,
) -> bool {
    &&& x1 - hx1 < x2 + hx2
    &&& x1 + hx1 > x2 - hx2
    &&& y1 - hy1 < y2 + hy2
    &&& y1 + hy1 > y2 - hy2
}

/// The strict axis-aligned bounding-box overlap test.
pub fn boxes_overlap(
    x1: i64,
    y1: i64,
    hx1: i64,
    hy1: i64,
    x2: i64,
    y2: i64,
    hx2: i64,
    hy2: i64,
) -> (r: bool)
    requires
        in_world(x1 as int, y1 as int),
        in_world(x2 as int, y2 as int),
        0 <= hx1 <= MAX_SIZE as int,
        0 <= hy1 <= MAX_SIZE as int,
        0 <= hx2 <= MAX_SIZE as int,
        0 <= hy2 <= MAX_SIZE as int,
    ensures
        r == boxes_overlap_spec(
            x1 as int,
            y1 as int,
            hx1 as int,
            hy1 as int,
            x2 as int,
            y2 as int,
            hx2 as int,
            hy2 as int,
        ),
{
    x1 - hx1 < x2 + hx2 && x1 + hx1 > x2 - hx2 && y1 - hy1 < y2 + hy2 && y1 + hy1 > y2 - hy2
}

/// Squared distance between two in-world points, computed in magnitudes.
pub fn dist_sq_exec(x1: i64, y1: i64, x2: i64, y2: i64) -> (r: u64)
    requires
        in_world(x1 as int, y1 as int),
        in_world(x2 as int, y2 as int),
    ensures
        r == dist_sq(x1 as int, y1 as int, x2 as int, y2 as int),
        r <= MAX_DIST_SQ,
{
    let ax = if x2 >= x1 { (x2 - x1) as u64 } else { (x1 - x2) as u64 };
    let ay = if y2 >= y1 { (y2 - y1) as u64 } else { (y1 - y2) as u64 };
    proof {
        assert(ax * ax == (x2 - x1) * (x2 - x1)) by (nonlinear_arith)
            requires
                ax == x2 - x1 || ax == x1 - x2,
        ;
        assert(ay * ay == (y2 - y1) * (y2 - y1)) by (nonlinear_arith)
            requires
                ay == y2 - y1 || ay == y1 - y2,
        ;
        assert(ax * ax <= 4_000_000_000_000_000_000) by (nonlinear_arith)
            requires
                ax <= 2_000_000_000,
        ;
        assert(ay * ay <= 4_000_000_000_000_000_000) by (nonlinear_arith)
            requires
                ay <= 2_000_000_000,
        ;
    }
    ax * ax + ay * ay
}

} // verus!
