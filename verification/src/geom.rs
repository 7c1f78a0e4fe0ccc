//! Geometric primitives on the integer document grid.
//!
//! Every coordinate in the workspace is an `i64` number of document or screen
//! units.  The zoom factor is measured in thousandths (`ZOOM_UNIT`), so all
//! screen/document conversions are exact integer arithmetic with floor
//! (Euclidean) division.
use vstd::prelude::*;

verus! {

/// Largest magnitude a stored coordinate may have; mutations clamp to it, so
/// the canvas is a very large but finite square.
pub const DOC_LIMIT: i64 = 10_000_000_000;

/// Largest pointer/screen coordinate magnitude the engine accepts as input.
pub const SCREEN_LIMIT: i64 = 1_000_000_000;

/// Zoom is stored in thousandths: `ZOOM_UNIT` means scale factor one.
pub const ZOOM_UNIT: i64 = 1000;

/// Smallest zoom, in thousandths (scale 0.4).
pub const ZOOM_MIN: i64 = 400;

/// Largest zoom, in thousandths (scale 4.0).
pub const ZOOM_MAX: i64 = 4000;

/// A point or vector, in document or screen units depending on context.
#[derive(Clone, Copy, PartialEq, Eq, Structural, Debug)]
pub struct Point {
    pub x: i64,
    pub y: i64,
}

/// Clamping an integer into `[lo, hi]`.
pub open spec fn clamp_spec(v: int, lo: int, hi: int) -> int {
    if v < lo {
        lo
    } else if v > hi {
        hi
    } else {
        v
    }
}

/// Clamps `v` into `[lo, hi]`.
pub fn clamp_i64(v: i64, lo: i64, hi: i64) -> (r: i64)
    requires
        lo <= hi,
    ensures
        r == clamp_spec(v as int, lo as int, hi as int),
{
    if v < lo {
        lo
    } else if v > hi {
        hi
    } else {
        v
    }
}

/// The edge of a node's rectangle where a connection attaches.
#[derive(Clone, Copy, PartialEq, Eq, Structural, Debug)]
pub enum Side {
    Top,
    Bottom,
    Left,
    Right,
}

/// The unit outward normal of a side.
pub open spec fn side_normal_spec(side: Side) -> Point {
    match side {
        Side::Top => Point { x: 0i64, y: -1i64 },
        Side::Bottom => Point { x: 0i64, y: 1i64 },
        Side::Left => Point { x: -1i64, y: 0i64 },
        Side::Right => Point { x: 1i64, y: 0i64 },
    }
}

/// Returns the unit outward normal of a side.
pub fn side_normal(side: Side) -> (r: Point)
    ensures
        r == side_normal_spec(side),
{
    match side {
        Side::Top => Point { x: 0, y: -1 },
        Side::Bottom => Point { x: 0, y: 1 },
        Side::Left => Point { x: -1, y: 0 },
        Side::Right => Point { x: 1, y: 0 },
    }
}

/// Absolute value of an integer.
pub open spec fn abs_spec(v: int) -> int {
    if v < 0 {
        -v
    } else {
        v
    }
}

/// Returns the absolute value of `v`.
pub fn abs_i64(v: i64) -> (r: i64)
    requires
        i64::MIN < v,
    ensures
        r == abs_spec(v as int),
{
    if v < 0 {
        -v
    } else {
        v
    }
}

/// Where the `index + 1`-th of `total + 1` equal subdivisions of a side of
/// length `size` starting at `pos` falls: `total` connections that share the
/// side are spread evenly, with a margin at both corners.
pub open spec fn anchor_offset_spec(size: int, index: int, total: int) -> int {
    (size * (index + 1)) / (total + 1)
}

/// The attachment point for the connection of rank `index` among `total`
/// connections that share `side` of the rectangle at `pos` with extent `size`.
pub open spec fn anchor_point_spec(pos: Point, size: Point, side: Side, index: int, total: int) -> Point {
    match side {
        Side::Top => Point { x: (pos.x + anchor_offset_spec(size.x as int, index, total)) as i64, y: pos.y },
        Side::Bottom => Point {
            x: (pos.x + anchor_offset_spec(size.x as int, index, total)) as i64,
            y: (pos.y + size.y) as i64,
        },
        Side::Left => Point { x: pos.x, y: (pos.y + anchor_offset_spec(size.y as int, index, total)) as i64 },
        Side::Right => Point {
            x: (pos.x + size.x) as i64,
            y: (pos.y + anchor_offset_spec(size.y as int, index, total)) as i64,
        },
    }
}

/// Computes the attachment point for a connection on a node side.
pub fn anchor_point(pos: Point, size: Point, side: Side, index: usize, total: usize) -> (r: Point)
    requires
        index <= total,
        total <= 1_000_000,
        abs_spec(pos.x as int) <= 100 * DOC_LIMIT,
        abs_spec(pos.y as int) <= 100 * DOC_LIMIT,
        0 <= size.x <= 1_000_000,
        0 <= size.y <= 1_000_000,
    ensures
        r == anchor_point_spec(pos, size, side, index as int, total as int),
        abs_spec(r.x as int) <= abs_spec(pos.x as int) + size.x,
        abs_spec(r.y as int) <= abs_spec(pos.y as int) + size.y,
{
    let rank = (index + 1) as i64;
    let parts = (total + 1) as i64;
    proof {
        lemma_mul_le(size.x as int, 1_000_000, rank as int, 1_000_002);
        lemma_mul_le(size.y as int, 1_000_000, rank as int, 1_000_002);
        assert((size.x as int) * (rank as int) <= (size.x as int) * (parts as int) && (size.y
            as int) * (rank as int) <= (size.y as int) * (parts as int)) by (nonlinear_arith)
            requires
                0 <= size.x,
                0 <= size.y,
                0 < rank as int <= parts as int,
        ;
        lemma_div_le_bound(size.x as int * rank as int, parts as int, size.x as int);
        lemma_div_le_bound(size.y as int * rank as int, parts as int, size.y as int);
        vstd::arithmetic::div_mod::lemma_div_pos_is_pos(size.x as int * rank as int, parts as int);
        vstd::arithmetic::div_mod::lemma_div_pos_is_pos(size.y as int * rank as int, parts as int);
    }
    let off_x = div_floor(size.x * rank, parts);
    let off_y = div_floor(size.y * rank, parts);
    match side {
        Side::Top => Point { x: pos.x + off_x, y: pos.y },
        Side::Bottom => Point { x: pos.x + off_x, y: pos.y + size.y },
        Side::Left => Point { x: pos.x, y: pos.y + off_y },
        Side::Right => Point { x: pos.x + size.x, y: pos.y + off_y },
    }
}

/// Bounds a product of two bounded non-negative factors.
pub proof fn lemma_mul_le(a: int, amax: int, b: int, bmax: int)
    requires
        0 <= a <= amax,
        0 <= b <= bmax,
    ensures
        0 <= a * b <= amax * bmax,
{
    assert(0 <= a * b <= amax * bmax) by (nonlinear_arith)
        requires
            0 <= a <= amax,
            0 <= b <= bmax,
    ;
}

/// The side of the rectangle at `pos` with extent `size` whose edge line is
/// nearest to `point`, preferring `Top`, then `Bottom`, then `Left` on ties.
pub open spec fn closest_side_spec(pos: Point, size: Point, point: Point) -> Side {
    let dist_top = abs_spec(point.y - pos.y);
    let dist_bottom = abs_spec(point.y - (pos.y + size.y));
    let dist_left = abs_spec(point.x - pos.x);
    let dist_right = abs_spec(point.x - (pos.x + size.x));
    if dist_top <= dist_bottom && dist_top <= dist_left && dist_top <= dist_right {
        Side::Top
    } else if dist_bottom <= dist_top && dist_bottom <= dist_left && dist_bottom <= dist_right {
        Side::Bottom
    } else if dist_left <= dist_top && dist_left <= dist_bottom && dist_left <= dist_right {
        Side::Left
    } else {
        Side::Right
    }
}

/// Determines which side of a node's rectangle a click point is closest to.
pub fn closest_side(pos: Point, size: Point, point: Point) -> (r: Side)
    requires
        abs_spec(pos.x as int) <= 100 * DOC_LIMIT,
        abs_spec(pos.y as int) <= 100 * DOC_LIMIT,
        0 <= size.x <= 1_000_000,
        0 <= size.y <= 1_000_000,
        abs_spec(point.x as int) <= 100 * DOC_LIMIT,
        abs_spec(point.y as int) <= 100 * DOC_LIMIT,
    ensures
        r == closest_side_spec(pos, size, point),
{
    let dist_top = abs_i64(point.y - pos.y);
    let dist_bottom = abs_i64(point.y - (pos.y + size.y));
    let dist_left = abs_i64(point.x - pos.x);
    let dist_right = abs_i64(point.x - (pos.x + size.x));
    if dist_top <= dist_bottom && dist_top <= dist_left && dist_top <= dist_right {
        Side::Top
    } else if dist_bottom <= dist_top && dist_bottom <= dist_left && dist_bottom <= dist_right {
        Side::Bottom
    } else if dist_left <= dist_top && dist_left <= dist_bottom && dist_left <= dist_right {
        Side::Left
    } else {
        Side::Right
    }
}

/// Floor division of `a` by a positive divisor `b`; agrees with the
/// mathematical (Euclidean) `/` of specifications.
pub fn div_floor(a: i64, b: i64) -> (r: i64)
    requires
        0 < b,
        -0x4000_0000_0000_0000 <= a <= 0x4000_0000_0000_0000,
    ensures
        r == a as int / b as int,
{
    if a >= 0 {
        ((a as u64) / (b as u64)) as i64
    } else {
        let m = (-a) as u64;
        let bu = b as u64;
        let d = m / bu;
        let rm = m % bu;
        proof {
            let bi = b as int;
            let mi = m as int;
            vstd::arithmetic::div_mod::lemma_fundamental_div_mod(mi, bi);
            assert(d as int <= mi) by (nonlinear_arith)
                requires
                    (d as int) * bi + rm as int == mi,
                    0 <= rm as int,
                    1 <= bi,
                    0 <= d as int,
            ;
        }
        let q = if rm == 0 {
            d
        } else {
            d + 1
        };
        let r = -(q as i64);
        proof {
            let bi = b as int;
            let rem = a as int - (r as int) * bi;
            assert(a as int == -(m as int));
            assert(r as int == -(q as int));
            assert((r as int) * bi == -((q as int) * bi)) by (nonlinear_arith)
                requires
                    r as int == -(q as int),
            ;
            assert(m as int == (d as int) * bi + rm as int);
            if rm == 0 {
                assert((q as int) * bi == (d as int) * bi);
            } else {
                assert((q as int) * bi == (d as int) * bi + bi) by (nonlinear_arith)
                    requires
                        q as int == d as int + 1,
                ;
            }
            assert(0 <= rem < bi);
            vstd::arithmetic::div_mod::lemma_fundamental_div_mod_converse(
                a as int,
                b as int,
                r as int,
                rem,
            );
        }
        r
    }
}


/// Coordinate limit under which bezier weights cannot overflow.
pub const CURVE_LIMIT: i64 = 200_000_000_000;

/// One coordinate of the point at parameter `i / s` on the cubic bezier curve
/// with control coordinates `a`, `b`, `c`, `d`, by the Bernstein basis, on the
/// integer grid (exact rational value, floor-divided by `s^3`).
pub open spec fn bezier_coord_spec(a: int, b: int, c: int, d: int, i: int, s: int) -> int {
    let u = s - i;
    (u * u * u * a + 3 * u * u * i * b + 3 * u * i * i * c + i * i * i * d) / (s * s * s)
}

/// The full tessellation of a cubic bezier curve into `s + 1` points.
pub open spec fn bezier_point_spec(p0: Point, p1: Point, p2: Point, p3: Point, i: int, s: int) -> Point {
    Point {
        x: bezier_coord_spec(p0.x as int, p1.x as int, p2.x as int, p3.x as int, i, s) as i64,
        y: bezier_coord_spec(p0.y as int, p1.y as int, p2.y as int, p3.y as int, i, s) as i64,
    }
}

/// Whether every coordinate of `p` is at most `lim` in magnitude.
pub open spec fn point_within(p: Point, lim: int) -> bool {
    abs_spec(p.x as int) <= lim && abs_spec(p.y as int) <= lim
}

/// One tessellated coordinate; `u == s - i`.
fn bezier_coord(a: i64, b: i64, c: i64, d: i64, i: i64, s: i64) -> (r: i64)
    requires
        0 <= i <= s,
        1 <= s <= 64,
        abs_spec(a as int) <= CURVE_LIMIT,
        abs_spec(b as int) <= CURVE_LIMIT,
        abs_spec(c as int) <= CURVE_LIMIT,
        abs_spec(d as int) <= CURVE_LIMIT,
    ensures
        r == bezier_coord_spec(a as int, b as int, c as int, d as int, i as int, s as int),
{
    let u = s - i;
    proof {
        lemma_weight_bound(u as int, i as int, s as int);
        lemma_mul_abs_le(u as int * u as int * u as int, 262_144, a as int, CURVE_LIMIT as int);
        lemma_mul_abs_le(3 * (u as int * u as int) * i as int, 786_432, b as int, CURVE_LIMIT as int);
        lemma_mul_abs_le(3 * u as int * (i as int * i as int), 786_432, c as int, CURVE_LIMIT as int);
        lemma_mul_abs_le(i as int * i as int * i as int, 262_144, d as int, CURVE_LIMIT as int);
        lemma_mul_le(s as int, 64, s as int, 64);
        lemma_mul_le(s as int * s as int, 4096, s as int, 64);
        lemma_weight_bound(s as int, 0, s as int);
    }
    let wa = u * u * u;
    let wb = 3 * (u * u) * i;
    let wc = 3 * u * (i * i);
    let wd = i * i * i;
    let num = wa * a + wb * b + wc * c + wd * d;
    let den = s * s * s;
    div_floor(num, den)
}

/// Bounds on the Bernstein weights for parameters up to 64.
proof fn lemma_weight_bound(u: int, i: int, s: int)
    requires
        0 <= u <= s,
        0 <= i <= s,
        1 <= s <= 64,
    ensures
        0 <= u * u <= 4096,
        0 <= i * i <= 4096,
        0 <= u * u * u <= 262_144,
        0 <= 3 * (u * u) <= 12_288,
        0 <= 3 * (u * u) * i <= 786_432,
        0 <= 3 * u * (i * i) <= 786_432,
        0 <= i * i * i <= 262_144,
        3 * (u * u) * i == 3 * u * u * i,
        3 * u * (i * i) == 3 * u * i * i,
        1 <= s * s * s <= 262_144,
        1 <= s * s <= 4096,
{
    assert(0 <= u * u <= 4096 && 0 <= i * i <= 4096 && 0 <= u * u * u <= 262_144 && 0 <= 3 * (u
        * u) <= 12_288 && 0 <= 3 * (u * u) * i <= 786_432 && 0 <= 3 * u * (i * i) <= 786_432 && 0
        <= i * i * i <= 262_144 && 3 * (u * u) * i == 3 * u * u * i && 3 * u * (i * i) == 3 * u
        * i * i && 1 <= s * s * s <= 262_144 && 1 <= s * s <= 4096) by (nonlinear_arith)
        requires
            0 <= u <= s,
            0 <= i <= s,
            1 <= s <= 64,
    ;
}

/// Bounds a product whose factors are bounded in magnitude.
proof fn lemma_mul_abs_le(a: int, amax: int, b: int, bmax: int)
    requires
        0 <= a <= amax,
        abs_spec(b) <= bmax,
    ensures
        abs_spec(a * b) <= amax * bmax,
{
    assert(abs_spec(a * b) <= amax * bmax) by (nonlinear_arith)
        requires
            0 <= a <= amax,
            abs_spec(b) <= bmax,
    ;
}

/// Tessellates the cubic bezier curve with the given control points into
/// `segments + 1` polyline points, the standard Bernstein interpolation
/// evaluated at the parameters `i / segments`.
pub fn compute_cubic_bezier_points(p0: Point, p1: Point, p2: Point, p3: Point, segments: usize) -> (r: Vec<Point>)
    requires
        1 <= segments <= 64,
        point_within(p0, CURVE_LIMIT as int),
        point_within(p1, CURVE_LIMIT as int),
        point_within(p2, CURVE_LIMIT as int),
        point_within(p3, CURVE_LIMIT as int),
    ensures
        r@.len() == segments + 1,
        forall|i: int|
            0 <= i <= segments ==> r@[i] == bezier_point_spec(p0, p1, p2, p3, i, segments as int),
{
    let mut points: Vec<Point> = Vec::new();
    let s = segments as i64;
    let mut i: i64 = 0;
    while i <= s
        invariant
            0 <= i <= s + 1,
            s == segments,
            1 <= s <= 64,
            point_within(p0, CURVE_LIMIT as int),
            point_within(p1, CURVE_LIMIT as int),
            point_within(p2, CURVE_LIMIT as int),
            point_within(p3, CURVE_LIMIT as int),
            points@.len() == i,
            forall|j: int|
                0 <= j < i ==> points@[j] == bezier_point_spec(p0, p1, p2, p3, j, s as int),
        decreases s + 1 - i,
    {
        let x = bezier_coord(p0.x, p1.x, p2.x, p3.x, i, s);
        let y = bezier_coord(p0.y, p1.y, p2.y, p3.y, i, s);
        points.push(Point { x, y });
        i = i + 1;
    }
    points
}

/// Whether `p` lies strictly within distance `t` of `c` (squared-distance
/// comparison, exact).
pub open spec fn point_near_spec(p: Point, c: Point, t: int) -> bool {
    let dx = p.x - c.x;
    let dy = p.y - c.y;
    dx * dx + dy * dy < t * t
}

/// Decides whether `p` is strictly nearer than `t` to `c`.
pub fn point_near(p: Point, c: Point, t: i64) -> (r: bool)
    requires
        0 <= t <= 1000,
        point_within(p, 100 * DOC_LIMIT as int),
        point_within(c, 100 * DOC_LIMIT as int),
    ensures
        r == point_near_spec(p, c, t as int),
{
    let dx = p.x - c.x;
    let dy = p.y - c.y;
    let adx = abs_i64(dx);
    let ady = abs_i64(dy);
    if adx >= t || ady >= t {
        proof {
            lemma_far_axis(dx as int, dy as int, t as int);
        }
        false
    } else {
        proof {
            lemma_mul_le(adx as int, 1000, adx as int, 1000);
            lemma_mul_le(ady as int, 1000, ady as int, 1000);
            lemma_mul_le(t as int, 1000, t as int, 1000);
            assert(adx as int * adx as int == dx as int * dx as int && ady as int * ady as int
                == dy as int * dy as int) by (nonlinear_arith)
                requires
                    adx as int == abs_spec(dx as int),
                    ady as int == abs_spec(dy as int),
            ;
        }
        adx * adx + ady * ady < t * t
    }
}

/// If either axis distance reaches `t`, the squared distance reaches `t^2`.
proof fn lemma_far_axis(dx: int, dy: int, t: int)
    requires
        0 <= t,
        abs_spec(dx) >= t || abs_spec(dy) >= t,
    ensures
        !(dx * dx + dy * dy < t * t),
{
    assert(dx * dx + dy * dy >= t * t) by (nonlinear_arith)
        requires
            0 <= t,
            abs_spec(dx) >= t || abs_spec(dy) >= t,
    ;
}

/// `r` is the integer square root of `n`.
pub open spec fn is_isqrt(n: int, r: int) -> bool {
    0 <= r && r * r <= n < (r + 1) * (r + 1)
}

/// The integer square root is unique.
pub proof fn lemma_isqrt_unique(n: int, r1: int, r2: int)
    requires
        is_isqrt(n, r1),
        is_isqrt(n, r2),
    ensures
        r1 == r2,
{
    assert(r1 == r2) by (nonlinear_arith)
        requires
            0 <= r1 && r1 * r1 <= n < (r1 + 1) * (r1 + 1),
            0 <= r2 && r2 * r2 <= n < (r2 + 1) * (r2 + 1),
    ;
}

/// Computes the integer square root of `n` by bisection.
pub fn isqrt_u128(n: u128) -> (r: u64)
    requires
        n < 1u128 << 126,
    ensures
        is_isqrt(n as int, r as int),
{
    if n == 0 {
        return 0;
    }
    let mut lo: u64 = 0;
    let mut hi: u64 = 1u64 << 63;
    proof {
        assert(1u64 << 63 == 0x8000_0000_0000_0000) by (bit_vector);
        assert(1u128 << 126 == 0x4000_0000_0000_0000_0000_0000_0000_0000) by (bit_vector);
        assert((hi as int) * (hi as int) > n) by (nonlinear_arith)
            requires
                hi as int == 0x8000_0000_0000_0000,
                n < 0x4000_0000_0000_0000_0000_0000_0000_0000,
        ;
    }
    while lo + 1 < hi
        invariant
            lo < hi,
            hi <= 0x8000_0000_0000_0000,
            (lo as int) * (lo as int) <= n as int,
            (hi as int) * (hi as int) > n as int,
        decreases hi - lo,
    {
        let mid = lo + (hi - lo) / 2;
        proof {
            assert((mid as int) * (mid as int) < 0x4000_0000_0000_0000_0000_0000_0000_0001)
                by (nonlinear_arith)
                requires
                    0 <= mid as int <= 0x8000_0000_0000_0000,
            ;
        }
        if (mid as u128) * (mid as u128) <= n {
            lo = mid;
        } else {
            hi = mid;
        }
    }
    proof {
        assert((lo as int + 1) * (lo as int + 1) == (hi as int) * (hi as int));
    }
    lo
}


/// A quotient's magnitude, bounded through a bound on the dividend.
pub proof fn lemma_div_scaled_bound(x: int, d: int, m: int)
    requires
        1 <= d,
        0 <= m,
        abs_spec(x) <= m * d,
    ensures
        abs_spec(x / d) <= m + 1,
{
    vstd::arithmetic::div_mod::lemma_fundamental_div_mod(x, d);
    let q = x / d;
    let r = x % d;
    assert(abs_spec(q) <= m + 1) by (nonlinear_arith)
        requires
            x == d * q + r,
            0 <= r < d,
            1 <= d,
            0 <= m,
            abs_spec(x) <= m * d,
    ;
}

/// Multiplying a document coordinate by a zoom factor stays far inside the
/// `i64` range, and the scaled-down value close to the canvas.
pub proof fn lemma_scale_bound(v: int, zoom: int)
    requires
        abs_spec(v) <= DOC_LIMIT,
        ZOOM_MIN <= zoom <= ZOOM_MAX,
    ensures
        abs_spec(v * zoom) <= 0x4000_0000_0000_0000,
        abs_spec(v * zoom / ZOOM_UNIT as int) <= 4 * DOC_LIMIT + 1,
{
    assert(abs_spec(v * zoom) <= 4 * DOC_LIMIT as int * 1000) by (nonlinear_arith)
        requires
            abs_spec(v) <= DOC_LIMIT,
            ZOOM_MIN <= zoom <= ZOOM_MAX,
    ;
    lemma_div_scaled_bound(v * zoom, ZOOM_UNIT as int, 4 * DOC_LIMIT as int);
}

/// Dividing a bounded screen offset by a zoom factor stays on a bounded
/// document range.
pub proof fn lemma_unscale_bound(v: int, zoom: int)
    requires
        abs_spec(v) <= 7 * DOC_LIMIT,
        ZOOM_MIN <= zoom <= ZOOM_MAX,
    ensures
        abs_spec(v * ZOOM_UNIT as int) <= 0x4000_0000_0000_0000,
        abs_spec(v * ZOOM_UNIT as int / zoom) <= 18 * DOC_LIMIT,
{
    assert(abs_spec(v * ZOOM_UNIT as int) <= 7 * DOC_LIMIT as int * 1000 && 7 * DOC_LIMIT as int
        * 1000 <= (18 * DOC_LIMIT as int - 1) * zoom) by (nonlinear_arith)
        requires
            abs_spec(v) <= 7 * DOC_LIMIT,
            ZOOM_MIN <= zoom <= ZOOM_MAX,
    ;
    lemma_div_scaled_bound(v * ZOOM_UNIT as int, zoom, 18 * DOC_LIMIT as int - 1);
}


/// An upper bound on a quotient from an upper bound on the dividend.
pub proof fn lemma_div_le_bound(x: int, d: int, m: int)
    requires
        0 <= x,
        0 < d,
        x <= m * d,
    ensures
        x / d <= m,
{
    vstd::arithmetic::div_mod::lemma_fundamental_div_mod(x, d);
    let q = x / d;
    let r = x % d;
    assert(q <= m) by (nonlinear_arith)
        requires
            x == d * q + r,
            0 <= r < d,
            0 < d,
            x <= m * d,
    ;
}


/// A clamped value always lies within the clamping range.
pub proof fn lemma_clamp_in_range(v: int, lo: int, hi: int)
    requires
        lo <= hi,
    ensures
        lo <= clamp_spec(v, lo, hi) <= hi,
{
}

/// Even distribution of anchors along one side.  For `total` connections on
/// a side of positive length, the exact subdivision points — written over
/// the common denominator `total + 1`, so the point of rank `i` has
/// numerator `size * (i + 1)` — are strictly increasing along the side, and
/// the points of ranks `i` and `total - 1 - i` mirror each other about the
/// side's midpoint: their numerators sum to the full side's, twice the
/// midpoint's.  In particular a single connection anchors exactly at the
/// midpoint.  The executable anchor additionally rounds each exact point
/// down to the integer grid, which keeps the order, though not always
/// strictly.
pub proof fn lemma_anchor_distribution(size: int, total: int, i: int, j: int)
    requires
        0 < size,
        0 <= i < j < total,
    ensures
        size * (i + 1) < size * (j + 1),
        size * (i + 1) + size * ((total - 1 - i) + 1) == size * (total + 1),
        anchor_offset_spec(size, i, total) <= anchor_offset_spec(size, j, total),
{
    assert(size * (i + 1) < size * (j + 1)) by (nonlinear_arith)
        requires
            0 < size,
            i < j,
    ;
    assert(size * (i + 1) + size * (total - i) == size * (total + 1)) by (nonlinear_arith);
    vstd::arithmetic::div_mod::lemma_div_is_ordered(
        size * (i + 1),
        size * (j + 1),
        total + 1,
    );
}


/// On the integer grid, one anchor of a sufficiently long side lies
/// strictly inside it.
proof fn lemma_anchor_grid_inside(size: int, total: int, k: int)
    requires
        0 <= k < total,
        total + 1 <= size,
    ensures
        0 < anchor_offset_spec(size, k, total) < size,
{
    let d = total + 1;
    let num = size * (k + 1);
    assert(size <= num && num <= (size - 1) * d) by (nonlinear_arith)
        requires
            num == size * (k + 1),
            0 <= k,
            k + 1 <= total,
            d == total + 1,
            d <= size,
            0 < size,
    ;
    vstd::arithmetic::div_mod::lemma_fundamental_div_mod_converse(d, d, 1, 0);
    vstd::arithmetic::div_mod::lemma_div_is_ordered(d, num, d);
    lemma_div_le_bound(num, d, size - 1);
}

/// Even distribution of anchors on the integer grid.  Whenever the side is
/// at least `total + 1` document units long, the floored anchor offsets
/// keep the exact points' guarantees: every offset lies strictly inside the
/// side, with a margin at both corners, and a higher rank yields a strictly
/// larger offset.  On shorter sides the floor to whole units can merge
/// neighbouring anchors and push them onto a corner; there the exact
/// statement of `lemma_anchor_distribution` still holds.
pub proof fn lemma_anchor_grid_margin(size: int, total: int, i: int, j: int)
    requires
        0 <= i < j < total,
        total + 1 <= size,
    ensures
        0 < anchor_offset_spec(size, i, total) < size,
        0 < anchor_offset_spec(size, j, total) < size,
        anchor_offset_spec(size, i, total) < anchor_offset_spec(size, j, total),
{
    lemma_anchor_grid_inside(size, total, i);
    lemma_anchor_grid_inside(size, total, j);
    let d = total + 1;
    let q = anchor_offset_spec(size, i, total);
    vstd::arithmetic::div_mod::lemma_fundamental_div_mod(size * (i + 1), d);
    let r = (size * (i + 1)) % d;
    assert(d * (q + 1) <= size * (j + 1)) by (nonlinear_arith)
        requires
            size * (i + 1) == d * q + r,
            0 <= r < d,
            i + 1 < j + 1,
            d <= size,
            0 < d,
    ;
    vstd::arithmetic::div_mod::lemma_fundamental_div_mod_converse(d * (q + 1), d, q + 1, 0);
    vstd::arithmetic::div_mod::lemma_div_is_ordered(d * (q + 1), size * (j + 1), d);
}

} // verus!
