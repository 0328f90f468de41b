//! Toroidal (wrap-around) geometry over integer coordinates.
//!
//! Distances are Euclidean lengths rounded down to an integer; a point on
//! the map is identified with its canonical representative in
//! `[-half_width, half_width] x [-half_height, half_height]`, and every
//! operation may pick, per axis, either the direct delta or the delta
//! through the map edge, whichever is shorter.

use vstd::arithmetic::div_mod::{
    lemma_div_is_ordered,
    lemma_div_multiples_vanish,
    lemma_div_pos_is_pos,
};
use vstd::prelude::*;

verus! {

/// Largest coordinate magnitude the geometry accepts; keeps every squared
/// distance below `2^63` so 64-bit arithmetic never overflows.
pub const COORD_LIMIT: i64 = 1_000_000_000;

/// A point (or delta) on the 2-D map.
#[derive(Clone, Copy, PartialEq, Eq, Structural, Debug)]
pub struct Vec2 {
    pub x: i64,
    pub y: i64,
}

/// Half extents of the wrap-around map: world x spans
/// `[-half_width, half_width]`, world y spans `[-half_height, half_height]`.
#[derive(Clone, Copy, PartialEq, Eq, Structural, Debug)]
pub struct MapBounds {
    pub half_width: i64,
    pub half_height: i64,
}

impl MapBounds {
    pub open spec fn wf(self) -> bool {
        &&& 1 <= self.half_width <= COORD_LIMIT
        &&& 1 <= self.half_height <= COORD_LIMIT
    }
}

impl Vec2 {
    /// The coordinate magnitudes are small enough for overflow-free squares.
    pub open spec fn in_limit(self) -> bool {
        &&& -COORD_LIMIT <= self.x <= COORD_LIMIT
        &&& -COORD_LIMIT <= self.y <= COORD_LIMIT
    }

    /// The point lies in the canonical range of the map.
    pub open spec fn in_bounds(self, bounds: MapBounds) -> bool {
        &&& -bounds.half_width <= self.x <= bounds.half_width
        &&& -bounds.half_height <= self.y <= bounds.half_height
    }
}

pub open spec fn sq(x: int) -> int {
    x * x
}

pub open spec fn abs_i(x: int) -> int {
    if x < 0 {
        -x
    } else {
        x
    }
}

pub open spec fn min_i(a: int, b: int) -> int {
    if a <= b {
        a
    } else {
        b
    }
}

/// Squared Euclidean distance, ignoring wrap-around.
pub open spec fn dist2(a: Vec2, b: Vec2) -> int {
    sq(b.x - a.x) + sq(b.y - a.y)
}

/// Per-axis effective delta: the shorter of the direct delta and the delta
/// through the map edge (the axis spans `2 * half` units).
pub open spec fn wrapped_axis_delta(d: int, half: int) -> int {
    min_i(abs_i(d), 2 * half - abs_i(d))
}

/// Squared wrap-aware distance: the direct squared distance or the squared
/// sum of the per-axis effective deltas, whichever is smaller.
pub open spec fn wrapped_dist2(a: Vec2, b: Vec2, bounds: MapBounds) -> int {
    min_i(
        dist2(a, b),
        sq(wrapped_axis_delta(b.x - a.x, bounds.half_width as int)) + sq(
            wrapped_axis_delta(b.y - a.y, bounds.half_height as int),
        ),
    )
}

/// Largest integer whose square does not exceed `n` (0 for negative `n`).
pub open spec fn sqrt_floor(n: int) -> int
    decreases n,
{
    if n < 1 {
        0
    } else {
        let p = sqrt_floor(n - 1);
        if (p + 1) * (p + 1) <= n {
            p + 1
        } else {
            p
        }
    }
}

/// Euclidean distance rounded down to an integer.
pub open spec fn spec_euclidean_distance(a: Vec2, b: Vec2) -> int {
    sqrt_floor(dist2(a, b))
}

/// Wrap-aware distance rounded down to an integer.
pub open spec fn spec_wrapped_distance(a: Vec2, b: Vec2, bounds: MapBounds) -> int {
    sqrt_floor(wrapped_dist2(a, b, bounds))
}

/// `sqrt_floor(n)` really is the floor of the square root of `n`.
pub proof fn lemma_sqrt_floor_props(n: int)
    requires
        n >= 0,
    ensures
        sqrt_floor(n) >= 0,
        sq(sqrt_floor(n)) <= n,
        sq(sqrt_floor(n) + 1) > n,
    decreases n,
{
    if n == 0 {
        assert(sqrt_floor(0) == 0);
    } else {
        lemma_sqrt_floor_props(n - 1);
        let p = sqrt_floor(n - 1);
        if (p + 1) * (p + 1) <= n {
            assert(sqrt_floor(n) == p + 1);
            assert(sq(p + 2) == sq(p + 1) + 2 * (p + 1) + 1) by (nonlinear_arith);
            assert(sq(p + 2) > n);
        } else {
            assert(sqrt_floor(n) == p);
        }
    }
}

/// Any `r` with `r^2 <= n < (r+1)^2` equals `sqrt_floor(n)`.
pub proof fn lemma_sqrt_floor_unique(n: int, r: int)
    requires
        n >= 0,
        r >= 0,
        sq(r) <= n,
        sq(r + 1) > n,
    ensures
        r == sqrt_floor(n),
{
    lemma_sqrt_floor_props(n);
    let s = sqrt_floor(n);
    if r < s {
        assert(sq(r + 1) <= sq(s)) by (nonlinear_arith)
            requires
                0 <= r + 1 <= s,
        ;
        assert(false);
    }
    if s < r {
        assert(sq(s + 1) <= sq(r)) by (nonlinear_arith)
            requires
                0 <= s + 1 <= r,
        ;
        assert(false);
    }
}

/// `sqrt_floor` is monotone.
pub proof fn lemma_sqrt_floor_monotone(m: int, n: int)
    requires
        0 <= m <= n,
    ensures
        sqrt_floor(m) <= sqrt_floor(n),
{
    lemma_sqrt_floor_props(m);
    lemma_sqrt_floor_props(n);
    let sm = sqrt_floor(m);
    let sn = sqrt_floor(n);
    if sn < sm {
        assert(sq(sn + 1) <= sq(sm)) by (nonlinear_arith)
            requires
                0 <= sn + 1 <= sm,
        ;
        assert(false);
    }
}

/// Integer square root: the floor of the square root of `n`.
pub fn isqrt(n: u64) -> (r: u64)
    requires
        n < 0x8000_0000_0000_0000,
    ensures
        r == sqrt_floor(n as int),
        sq(r as int) <= n as int,
        sq(r as int + 1) > n as int,
        r <= 3_037_000_499,
{
    let mut lo: u64 = 0;
    let mut hi: u64 = 3_037_000_499;
    proof {
        assert(sq(3_037_000_500int) == 9223372037000250000int) by (nonlinear_arith);
    }
    while lo < hi
        invariant
            lo <= hi <= 3_037_000_499,
            n < 0x8000_0000_0000_0000,
            sq(lo as int) <= n as int,
            sq(hi as int + 1) > n as int,
        decreases hi - lo,
    {
        let mid = lo + (hi - lo + 1) / 2;
        proof {
            assert(mid * mid <= 3_037_000_499 * 3_037_000_499) by (nonlinear_arith)
                requires
                    0 <= mid <= 3_037_000_499,
            ;
        }
        if mid * mid <= n {
            lo = mid;
        } else {
            hi = mid - 1;
        }
    }
    proof {
        lemma_sqrt_floor_unique(n as int, lo as int);
    }
    lo
}

/// Euclidean distance between two points, rounded down to an integer.
pub fn euclidean_distance(a: Vec2, b: Vec2) -> (r: i64)
    requires
        a.in_limit(),
        b.in_limit(),
    ensures
        r == spec_euclidean_distance(a, b),
        0 <= r <= 3_037_000_499,
{
    let dx = b.x - a.x;
    let dy = b.y - a.y;
    proof {
        assert(dx * dx <= 4_000_000_000_000_000_000 && dx * dx >= 0) by (nonlinear_arith)
            requires
                -2_000_000_000 <= dx <= 2_000_000_000,
        ;
        assert(dy * dy <= 4_000_000_000_000_000_000 && dy * dy >= 0) by (nonlinear_arith)
            requires
                -2_000_000_000 <= dy <= 2_000_000_000,
        ;
    }
    let d2 = dx * dx + dy * dy;
    isqrt(d2 as u64) as i64
}

/// Wrap-aware distance between two points: the minimum of the direct
/// Euclidean distance and the distance using per-axis wrapped deltas,
/// rounded down to an integer.
pub fn calculate_wraparound_distance(a: Vec2, b: Vec2, bounds: MapBounds) -> (r: i64)
    requires
        a.in_limit(),
        b.in_limit(),
        bounds.wf(),
    ensures
        r == spec_wrapped_distance(a, b, bounds),
        0 <= r <= 3_037_000_499,
        r <= spec_euclidean_distance(a, b),
{
    let dx = b.x - a.x;
    let dy = b.y - a.y;
    let adx = if dx >= 0 { dx } else { -dx };
    let ady = if dy >= 0 { dy } else { -dy };
    let wdx = 2 * bounds.half_width - adx;
    let wdy = 2 * bounds.half_height - ady;
    let edx = if adx <= wdx { adx } else { wdx };
    let edy = if ady <= wdy { ady } else { wdy };
    proof {
        assert(dx * dx <= 4_000_000_000_000_000_000 && dx * dx >= 0) by (nonlinear_arith)
            requires
                -2_000_000_000 <= dx <= 2_000_000_000,
        ;
        assert(dy * dy <= 4_000_000_000_000_000_000 && dy * dy >= 0) by (nonlinear_arith)
            requires
                -2_000_000_000 <= dy <= 2_000_000_000,
        ;
        assert(edx * edx <= 4_000_000_000_000_000_000 && edx * edx >= 0) by (nonlinear_arith)
            requires
                -2_000_000_000 <= edx <= 2_000_000_000,
        ;
        assert(edy * edy <= 4_000_000_000_000_000_000 && edy * edy >= 0) by (nonlinear_arith)
            requires
                -2_000_000_000 <= edy <= 2_000_000_000,
        ;
    }
    let d2 = dx * dx + dy * dy;
    let e2 = edx * edx + edy * edy;
    let m = if e2 <= d2 { e2 } else { d2 };
    let r = isqrt(m as u64) as i64;
    proof {
        lemma_sqrt_floor_monotone(m as int, dist2(a, b));
    }
    r
}

/// Symmetry and the Euclidean bound of the wrap-aware distance: for all
/// points and bounds, the distance from `a` to `b` equals the distance from
/// `b` to `a`, and never exceeds the direct Euclidean distance.
pub proof fn lemma_wrapped_distance_symmetric(a: Vec2, b: Vec2, bounds: MapBounds)
    ensures
        spec_wrapped_distance(a, b, bounds) == spec_wrapped_distance(b, a, bounds),
        spec_wrapped_distance(a, b, bounds) <= spec_euclidean_distance(a, b),
{
    assert(sq(b.x - a.x) == sq(a.x - b.x)) by (nonlinear_arith);
    assert(sq(b.y - a.y) == sq(a.y - b.y)) by (nonlinear_arith);
    assert(abs_i(b.x - a.x) == abs_i(a.x - b.x));
    assert(abs_i(b.y - a.y) == abs_i(a.y - b.y));
    assert(wrapped_dist2(a, b, bounds) == wrapped_dist2(b, a, bounds));
    let w = wrapped_dist2(a, b, bounds);
    let d = dist2(a, b);
    assert(w <= d);
    if w >= 0 {
        lemma_sqrt_floor_monotone(w, d);
    } else {
        assert(sqrt_floor(w) == 0);
        assert(d >= 0) by {
            assert(sq(b.x - a.x) >= 0) by (nonlinear_arith);
            assert(sq(b.y - a.y) >= 0) by (nonlinear_arith);
        }
        lemma_sqrt_floor_props(d);
    }
}

/// Moves `a` by the fraction `num / den` of the delta `d`, rounding the
/// travelled magnitude down (toward `a`).
pub open spec fn lerp_toward(a: int, d: int, num: int, den: int) -> int {
    if d >= 0 {
        a + (d * num) / den
    } else {
        a - ((-d) * num) / den
    }
}

/// Re-wraps a coordinate into the canonical `[-half, half]` range after a
/// step of at most one map span beyond it.
pub open spec fn wrap_coord(v: int, half: int) -> int {
    if v > half {
        v - 2 * half
    } else if v < -half {
        v + 2 * half
    } else {
        v
    }
}

/// One axis of wrap-aware interpolation: walk along the direct delta or the
/// delta through the map edge, whichever is shorter, then re-wrap.
pub open spec fn interp_axis(a: int, b: int, num: int, den: int, half: int) -> int {
    let d = b - a;
    if abs_i(d) <= 2 * half - abs_i(d) {
        lerp_toward(a, d, num, den)
    } else {
        let wd = if d > 0 {
            d - 2 * half
        } else {
            d + 2 * half
        };
        wrap_coord(lerp_toward(a, wd, num, den), half)
    }
}

/// The wrap-shifted copy of a smoothing target: when the direct delta spans
/// more than half the map on an axis, the target is shifted one full span
/// toward the current point.
pub open spec fn wrap_shift_target(c: int, t: int, half: int) -> int {
    let d = t - c;
    if d > half {
        t - 2 * half
    } else if d < -half {
        t + 2 * half
    } else {
        t
    }
}

/// The wrap-aware smoothing step: the direct partial step toward the target,
/// or the partial step toward the wrap-shifted target re-wrapped into range,
/// whichever lands closer to the current point.
pub open spec fn spec_shortest_move(c: Vec2, t: Vec2, num: int, den: int, bounds: MapBounds) -> (
    int,
    int,
) {
    let hw = bounds.half_width as int;
    let hh = bounds.half_height as int;
    let dirx = lerp_toward(c.x as int, t.x - c.x, num, den);
    let diry = lerp_toward(c.y as int, t.y - c.y, num, den);
    let wtx = wrap_shift_target(c.x as int, t.x as int, hw);
    let wty = wrap_shift_target(c.y as int, t.y as int, hh);
    let wx = lerp_toward(c.x as int, wtx - c.x, num, den);
    let wy = lerp_toward(c.y as int, wty - c.y, num, den);
    if sq(dirx - c.x) + sq(diry - c.y) <= sq(wx - c.x) + sq(wy - c.y) {
        (dirx, diry)
    } else {
        (wrap_coord(wx, hw), wrap_coord(wy, hh))
    }
}

/// Fraction of a magnitude: `mag * num / den`, rounded down.
fn lerp_part(mag: u64, num: u64, den: u64) -> (r: u64)
    requires
        den > 0,
        num <= den,
    ensures
        r == (mag as int * num as int) / den as int,
        r <= mag,
{
    proof {
        assert(mag as int * num as int <= 0xffff_ffff_ffff_ffff * 0xffff_ffff_ffff_ffff)
            by (nonlinear_arith)
            requires
                0 <= mag as int <= 0xffff_ffff_ffff_ffff,
                0 <= num as int <= 0xffff_ffff_ffff_ffff,
        ;
    }
    let p: u128 = (mag as u128) * (num as u128) / (den as u128);
    proof {
        let m = mag as int;
        let nu = num as int;
        let de = den as int;
        assert(m * nu <= de * m && m * nu >= 0) by (nonlinear_arith)
            requires
                0 <= nu <= de,
                m >= 0,
        ;
        lemma_div_is_ordered(m * nu, de * m, de);
        lemma_div_multiples_vanish(m, de);
        lemma_div_pos_is_pos(m * nu, de);
    }
    p as u64
}

/// Moves `a` by the fraction `num / den` of the delta `d`.
fn lerp_coord(a: i64, d: i64, num: u64, den: u64) -> (r: i64)
    requires
        den > 0,
        num <= den,
        -4_000_000_000 <= a <= 4_000_000_000,
        -4_000_000_000 <= d <= 4_000_000_000,
    ensures
        r == lerp_toward(a as int, d as int, num as int, den as int),
        d >= 0 ==> a <= r <= a + d,
        d < 0 ==> a + d <= r <= a,
{
    if d >= 0 {
        let part = lerp_part(d as u64, num, den);
        a + part as i64
    } else {
        let part = lerp_part((-d) as u64, num, den);
        a - part as i64
    }
}

/// Plain linear interpolation of one coordinate from `a` toward `b` by the
/// fraction `num / den`, with no wrap-around.
pub fn lerp_point_coord(a: i64, b: i64, num: u64, den: u64) -> (r: i64)
    requires
        den > 0,
        num <= den,
        -2_000_000_000 <= a <= 2_000_000_000,
        -2_000_000_000 <= b <= 2_000_000_000,
    ensures
        r == lerp_toward(a as int, b - a, num as int, den as int),
        a <= b ==> a <= r <= b,
        b <= a ==> b <= r <= a,
{
    lerp_coord(a, b - a, num, den)
}

/// Re-wraps a coordinate into the canonical `[-half, half]` range.
pub fn wrap_coordinate(v: i64, half: i64) -> (r: i64)
    requires
        1 <= half <= COORD_LIMIT,
        -4 * COORD_LIMIT <= v <= 4 * COORD_LIMIT,
    ensures
        r == wrap_coord(v as int, half as int),
        -3 * half <= v <= 3 * half ==> -half <= r <= half,
{
    if v > half {
        v - 2 * half
    } else if v < -half {
        v + 2 * half
    } else {
        v
    }
}

/// Wrap-aware interpolation: per axis, walks the fraction `num / den` of the
/// shorter of the direct delta and the delta through the map edge, then
/// re-wraps the coordinate into the canonical range.
pub fn interpolate_with_wraparound(a: Vec2, b: Vec2, num: u64, den: u64, bounds: MapBounds) -> (r:
    Vec2)
    requires
        a.in_limit(),
        b.in_limit(),
        bounds.wf(),
        den > 0,
        num <= den,
    ensures
        r.x == interp_axis(a.x as int, b.x as int, num as int, den as int, bounds.half_width as int),
        r.y == interp_axis(
            a.y as int,
            b.y as int,
            num as int,
            den as int,
            bounds.half_height as int,
        ),
        a.in_bounds(bounds) && b.in_bounds(bounds) ==> r.in_bounds(bounds),
{
    let x = interp_axis_exec(a.x, b.x, num, den, bounds.half_width);
    let y = interp_axis_exec(a.y, b.y, num, den, bounds.half_height);
    Vec2 { x, y }
}

/// One axis of wrap-aware interpolation.
fn interp_axis_exec(a: i64, b: i64, num: u64, den: u64, half: i64) -> (r: i64)
    requires
        -COORD_LIMIT <= a <= COORD_LIMIT,
        -COORD_LIMIT <= b <= COORD_LIMIT,
        1 <= half <= COORD_LIMIT,
        den > 0,
        num <= den,
    ensures
        r == interp_axis(a as int, b as int, num as int, den as int, half as int),
        -half <= a <= half && -half <= b <= half ==> -half <= r <= half,
{
    let d = b - a;
    let ad = if d >= 0 { d } else { -d };
    if ad <= 2 * half - ad {
        lerp_coord(a, d, num, den)
    } else {
        let wd = if d > 0 { d - 2 * half } else { d + 2 * half };
        let stepped = lerp_coord(a, wd, num, den);
        wrap_coordinate(stepped, half)
    }
}

/// Wrap-aware smoothing: moves `current` the fraction `num / den` of the way
/// toward `target`, cutting across the map edge when the wrapped path ends
/// closer to `current` than the direct one.
pub fn calculate_shortest_movement(
    current: Vec2,
    target: Vec2,
    num: u64,
    den: u64,
    bounds: MapBounds,
) -> (r: Vec2)
    requires
        current.in_limit(),
        target.in_limit(),
        bounds.wf(),
        den > 0,
        num <= den,
    ensures
        (r.x as int, r.y as int) == spec_shortest_move(
            current,
            target,
            num as int,
            den as int,
            bounds,
        ),
        current.in_bounds(bounds) && target.in_bounds(bounds) ==> r.in_bounds(bounds),
{
    let hw = bounds.half_width;
    let hh = bounds.half_height;
    let dirx = lerp_coord(current.x, target.x - current.x, num, den);
    let diry = lerp_coord(current.y, target.y - current.y, num, den);
    let dx = target.x - current.x;
    let dy = target.y - current.y;
    let wtx = if dx > hw { target.x - 2 * hw } else if dx < -hw { target.x + 2 * hw } else {
        target.x
    };
    let wty = if dy > hh { target.y - 2 * hh } else if dy < -hh { target.y + 2 * hh } else {
        target.y
    };
    let wx = lerp_coord(current.x, wtx - current.x, num, den);
    let wy = lerp_coord(current.y, wty - current.y, num, den);
    let ddx = (dirx - current.x) as i128;
    let ddy = (diry - current.y) as i128;
    let wdx = (wx - current.x) as i128;
    let wdy = (wy - current.y) as i128;
    proof {
        assert(ddx * ddx >= 0 && ddy * ddy >= 0 && wdx * wdx >= 0 && wdy * wdy >= 0)
            by (nonlinear_arith);
        assert(ddx * ddx <= 0x100_0000_0000_0000_0000 && ddy * ddy <= 0x100_0000_0000_0000_0000
            && wdx * wdx <= 0x100_0000_0000_0000_0000 && wdy * wdy <= 0x100_0000_0000_0000_0000)
            by (nonlinear_arith)
            requires
                -16_000_000_000 <= ddx <= 16_000_000_000,
                -16_000_000_000 <= ddy <= 16_000_000_000,
                -16_000_000_000 <= wdx <= 16_000_000_000,
                -16_000_000_000 <= wdy <= 16_000_000_000,
        ;
    }
    if ddx * ddx + ddy * ddy <= wdx * wdx + wdy * wdy {
        Vec2 { x: dirx, y: diry }
    } else {
        let x = wrap_coordinate(wx, hw);
        let y = wrap_coordinate(wy, hh);
        Vec2 { x, y }
    }
}


/// Wraps a position that stepped off the map back into the canonical
/// range, one span at most per axis: how the player re-enters on the
/// opposite edge.
pub fn handle_map_wraparound(position: Vec2, bounds: MapBounds) -> (r: Vec2)
    requires
        bounds.wf(),
        position.in_limit(),
        -3 * bounds.half_width <= position.x <= 3 * bounds.half_width,
        -3 * bounds.half_height <= position.y <= 3 * bounds.half_height,
    ensures
        r.x == wrap_coord(position.x as int, bounds.half_width as int),
        r.y == wrap_coord(position.y as int, bounds.half_height as int),
        r.in_bounds(bounds),
{
    let x = wrap_coordinate(position.x, bounds.half_width);
    let y = wrap_coordinate(position.y, bounds.half_height);
    Vec2 { x, y }
}

} // verus!
