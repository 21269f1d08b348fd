//! Integer plane geometry: map cells, sub-pixel points, distances and movement.
use vstd::prelude::*;

verus! {

/// Number of sub-pixel units in one pixel; every [`Point`] is measured in these units.
pub const UNITS_PER_PIXEL: i32 = 10;

/// A cell of the rectangular map grid (column `x`, row `y`).
#[derive(Debug, Clone, Copy, PartialEq, Eq, Hash, Structural)]
pub struct Position {
    pub x: usize,
    pub y: usize,
}

impl Position {
    pub fn new(x: usize, y: usize) -> (r: Self)
        ensures
            r.x == x,
            r.y == y,
    {
        Self { x, y }
    }
}

/// A point of the plane in sub-pixel units.
#[derive(Debug, Clone, Copy, PartialEq, Eq, Hash, Structural)]
pub struct Point {
    pub x: i32,
    pub y: i32,
}

impl Point {
    pub fn new(x: i32, y: i32) -> (r: Self)
        ensures
            r.x == x,
            r.y == y,
    {
        Self { x, y }
    }
}

/// Squared Euclidean distance between two points.
pub open spec fn dist2(a: Point, b: Point) -> int {
    (a.x - b.x) * (a.x - b.x) + (a.y - b.y) * (a.y - b.y)
}

/// `r` is the integer square root of `n`.
pub open spec fn is_isqrt(n: int, r: int) -> bool {
    0 <= r && r * r <= n < (r + 1) * (r + 1)
}

/// Whether `b` lies within Euclidean distance `range` of `a`.
pub open spec fn within(a: Point, b: Point, range: u64) -> bool {
    dist2(a, b) <= range * range
}

proof fn lemma_square_bound(d: int)
    requires
        -0x1_0000_0000 < d < 0x1_0000_0000,
    ensures
        0 <= d * d < 0x1_0000_0000_0000_0000,
{
    assert(0 <= d * d) by (nonlinear_arith);
    if d >= 0 {
        assert(d * d < 0x1_0000_0000 * 0x1_0000_0000) by (nonlinear_arith)
            requires 0 <= d < 0x1_0000_0000;
    } else {
        assert(d * d < 0x1_0000_0000 * 0x1_0000_0000) by (nonlinear_arith)
            requires -0x1_0000_0000 < d < 0;
    }
}

/// Squared distance between two points, exactly.
pub fn distance_squared(a: Point, b: Point) -> (r: u128)
    ensures
        r == dist2(a, b),
{
    let dx: i64 = a.x as i64 - b.x as i64;
    let dy: i64 = a.y as i64 - b.y as i64;
    let ax: u128 = if dx < 0 { (-dx) as u128 } else { dx as u128 };
    let ay: u128 = if dy < 0 { (-dy) as u128 } else { dy as u128 };
    proof {
        lemma_square_bound(ax as int);
        lemma_square_bound(ay as int);
        assert(ax * ax == dx * dx) by (nonlinear_arith)
            requires ax == dx || ax == -dx;
        assert(ay * ay == dy * dy) by (nonlinear_arith)
            requires ay == dy || ay == -dy;
    }
    ax * ax + ay * ay
}

/// Whether `b` lies within Euclidean distance `range` of `a`.
pub fn in_range(a: Point, b: Point, range: u64) -> (r: bool)
    ensures
        r == within(a, b, range),
{
    let d = distance_squared(a, b);
    let r = range as u128;
    proof {
        assert(r * r < 0x1_0000_0000_0000_0000_0000_0000_0000_0000) by (nonlinear_arith)
            requires 0 <= r < 0x1_0000_0000_0000_0000;
    }
    d <= r * r
}

/// Integer square root by bisection.
pub fn isqrt(n: u128) -> (r: u128)
    ensures
        is_isqrt(n as int, r as int),
{
    let mut lo: u128 = 0;
    let mut hi: u128 = 0x1_0000_0000_0000_0000;
    assert(hi * hi > n) by (nonlinear_arith)
        requires hi == 0x1_0000_0000_0000_0000, n < 0x1_0000_0000_0000_0000_0000_0000_0000_0000;
    while hi - lo > 1
        invariant
            lo < hi <= 0x1_0000_0000_0000_0000,
            lo * lo <= n,
            n < hi * hi,
        decreases hi - lo,
    {
        let mid: u128 = lo + (hi - lo) / 2;
        assert(mid * mid < 0x1_0000_0000_0000_0000_0000_0000_0000_0000) by (nonlinear_arith)
            requires mid < 0x1_0000_0000_0000_0000;
        if mid * mid <= n {
            lo = mid;
        } else {
            hi = mid;
        }
    }
    lo
}

/// One coordinate of a step of length `speed` along a direction whose
/// component is `d` and whose (rounded) length is `len`, truncated toward zero.
pub open spec fn step_coord(d: int, speed: int, len: int) -> int {
    if d >= 0 {
        d * speed / len
    } else {
        -((-d) * speed / len)
    }
}

/// The point reached from `pos` after a step of length `speed` toward `target`,
/// when the direction's length rounds down to `len`.
pub open spec fn advanced(pos: Point, target: Point, speed: int, len: int) -> Point {
    Point {
        x: (pos.x + step_coord(target.x - pos.x, speed, len)) as i32,
        y: (pos.y + step_coord(target.y - pos.y, speed, len)) as i32,
    }
}

proof fn lemma_step_bounded(d: int, speed: int, len: int, d2: int)
    requires
        0 <= speed <= len,
        0 < len,
        d * d <= d2,
        is_isqrt(d2, len),
    ensures
        d >= 0 ==> 0 <= step_coord(d, speed, len) <= d,
        d < 0 ==> d <= step_coord(d, speed, len) <= 0,
{
    let a = if d >= 0 { d } else { -d };
    assert(a * a <= d2) by (nonlinear_arith)
        requires a == d || a == -d, d * d <= d2;
    assert(a <= len) by (nonlinear_arith)
        requires a >= 0, a * a <= d2, d2 < (len + 1) * (len + 1), len >= 0;
    assert(a * speed <= a * len) by (nonlinear_arith)
        requires a >= 0, speed <= len;
    assert(0 <= a * speed / len <= a) by (nonlinear_arith)
        requires a >= 0, speed >= 0, len > 0, a * speed <= a * len;
}

/// `r` is the outcome of moving from `pos` by `speed` toward `target`: the
/// flag tells whether the target was within reach, in which case the point is
/// the target itself.
pub open spec fn moved(pos: Point, target: Point, speed: int, r: (Point, bool)) -> bool {
    &&& r.1 <==> dist2(pos, target) <= speed * speed
    &&& r.1 ==> r.0 == target
    &&& !r.1 ==> exists|len: int|
        is_isqrt(dist2(pos, target), len) && #[trigger] advanced(pos, target, speed, len) == r.0
}

/// Moves `pos` by `speed` toward `target`. When the target is no farther than
/// `speed`, the target itself is reached and the flag is set.
pub fn move_to(pos: Point, target: Point, speed: u64) -> (r: (Point, bool))
    ensures
        moved(pos, target, speed as int, r),
{
    let d2 = distance_squared(pos, target);
    let s = speed as u128;
    assert(s * s < 0x1_0000_0000_0000_0000_0000_0000_0000_0000) by (nonlinear_arith)
        requires 0 <= s < 0x1_0000_0000_0000_0000;
    if d2 <= s * s {
        return (target, true);
    }
    let len = isqrt(d2);
    assert(s <= len) by (nonlinear_arith)
        requires s * s < d2, d2 < (len + 1) * (len + 1), s >= 0, len >= 0;
    assert(0 < len) by (nonlinear_arith)
        requires s * s < d2, d2 < (len + 1) * (len + 1), s >= 0, len >= 0;
    let dx: i64 = target.x as i64 - pos.x as i64;
    let dy: i64 = target.y as i64 - pos.y as i64;
    proof {
        assert(0 <= dx * dx && 0 <= dy * dy) by (nonlinear_arith);
        assert((pos.x - target.x) * (pos.x - target.x) == dx * dx) by (nonlinear_arith)
            requires dx == target.x - pos.x;
        assert((pos.y - target.y) * (pos.y - target.y) == dy * dy) by (nonlinear_arith)
            requires dy == target.y - pos.y;
        lemma_step_bounded(dx as int, s as int, len as int, d2 as int);
        lemma_step_bounded(dy as int, s as int, len as int, d2 as int);
    }
    let sx = step_part(dx, s, len);
    let sy = step_part(dy, s, len);
    let p = Point { x: (pos.x as i64 + sx) as i32, y: (pos.y as i64 + sy) as i32 };
    assert(advanced(pos, target, speed as int, len as int) == p);
    (p, false)
}

fn step_part(d: i64, speed: u128, len: u128) -> (r: i64)
    requires
        0 <= speed <= len,
        0 < len,
        speed < 0x1_0000_0000_0000_0000,
        d >= 0 ==> 0 <= step_coord(d as int, speed as int, len as int) <= d,
        d < 0 ==> d <= step_coord(d as int, speed as int, len as int) <= 0,
        -0x1_0000_0000 < d < 0x1_0000_0000,
    ensures
        r == step_coord(d as int, speed as int, len as int),
{
    let a: u128 = if d < 0 { (-d) as u128 } else { d as u128 };
    assert(a * speed <= 0x1_0000_0000 * 0x1_0000_0000_0000_0000) by (nonlinear_arith)
        requires a < 0x1_0000_0000, speed < 0x1_0000_0000_0000_0000;
    let q = a * speed / len;
    if d < 0 {
        -(q as i64)
    } else {
        q as i64
    }
}

} // verus!
