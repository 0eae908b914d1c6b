//! Exact 2-D geometry over fixed-point coordinates.
//!
//! Every coordinate is an integer number of thousandths of a metre, bounded
//! by `CMAX` in magnitude.  All predicates (segment intersection, point in
//! polygon) are decided exactly with integer arithmetic; lengths and areas
//! come out in the same fixed-point scale via an integer square root.

use vstd::prelude::*;
use crate::isqrt;
use vstd::arithmetic::div_mod::lemma_div_is_ordered;
use vstd::arithmetic::div_mod::lemma_div_multiples_vanish;

verus! {

/// Largest coordinate magnitude, in thousandths of a metre (ten kilometres).
pub const CMAX: i64 = 10_000_000;

/// Largest number of points a polygon ring may carry.
pub const MAX_POLYGON_POINTS: usize = 1000;

#[derive(Clone, Copy, PartialEq, Eq, Structural, Debug)]
pub struct Point {
    pub x: i64,
    pub y: i64,
}

#[derive(Clone, Copy, PartialEq, Eq, Structural, Debug)]
pub struct Line {
    pub p1: Point,
    pub p2: Point,
}

#[derive(Debug)]
pub struct Polygon {
    pub points: Vec<Point>,
}

/// Where a point lies relative to a polygon ring.
#[derive(Clone, Copy, PartialEq, Eq, Structural, Debug)]
pub enum PointPosition {
    Inside,
    OnBoundary,
    Outside,
}

pub open spec fn in_range(p: Point) -> bool {
    &&& -CMAX <= p.x <= CMAX
    &&& -CMAX <= p.y <= CMAX
}

pub open spec fn line_in_range(l: Line) -> bool {
    in_range(l.p1) && in_range(l.p2)
}

/// A polygon ring is valid when it is closed (the first point repeats as the
/// last), has at least three distinct corners' worth of entries, and all of
/// its points are in coordinate range.
pub open spec fn valid_polygon(pts: Seq<Point>) -> bool {
    &&& 4 <= pts.len() <= MAX_POLYGON_POINTS
    &&& pts[0] == pts[pts.len() - 1]
    &&& forall|i: int| 0 <= i < pts.len() ==> in_range(#[trigger] pts[i])
}

/// Cross product of the vectors `o -> a` and `o -> b`.
pub open spec fn cross(o: Point, a: Point, b: Point) -> int {
    (a.x - o.x) * (b.y - o.y) - (a.y - o.y) * (b.x - o.x)
}

pub open spec fn between(a: int, v: int, b: int) -> bool {
    (a <= v && v <= b) || (b <= v && v <= a)
}

/// `p` lies on the closed segment from `a` to `b`.
pub open spec fn on_segment(p: Point, a: Point, b: Point) -> bool {
    &&& cross(a, b, p) == 0
    &&& between(a.x as int, p.x as int, b.x as int)
    &&& between(a.y as int, p.y as int, b.y as int)
}

/// Two closed segments meet: either they cross properly, or an endpoint of
/// one lies on the other (which also covers collinear overlap).
pub open spec fn segments_intersect(l1: Line, l2: Line) -> bool {
    let d1 = cross(l2.p1, l2.p2, l1.p1);
    let d2 = cross(l2.p1, l2.p2, l1.p2);
    let d3 = cross(l1.p1, l1.p2, l2.p1);
    let d4 = cross(l1.p1, l1.p2, l2.p2);
    ||| (((d1 > 0 && d2 < 0) || (d1 < 0 && d2 > 0)) && ((d3 > 0 && d4 < 0) || (d3 < 0 && d4 > 0)))
    ||| on_segment(l1.p1, l2.p1, l2.p2)
    ||| on_segment(l1.p2, l2.p1, l2.p2)
    ||| on_segment(l2.p1, l1.p1, l1.p2)
    ||| on_segment(l2.p2, l1.p1, l1.p2)
}

pub proof fn lemma_mul_bound(x: int, y: int, m: int, n: int)
    requires
        -m <= x <= m,
        -n <= y <= n,
        0 <= m,
        0 <= n,
    ensures
        -(m * n) <= x * y <= m * n,
{
    assert(-(m * n) <= x * y <= m * n) by (nonlinear_arith)
        requires
            -m <= x <= m,
            -n <= y <= n,
            0 <= m,
            0 <= n,
    ;
}

/// Exact orientation test, `cross(o, a, b)` as a machine integer.
pub fn orientation(o: &Point, a: &Point, b: &Point) -> (r: i64)
    requires
        in_range(*o),
        in_range(*a),
        in_range(*b),
    ensures
        r == cross(*o, *a, *b),
{
    let ax = a.x - o.x;
    let by = b.y - o.y;
    let ay = a.y - o.y;
    let bx = b.x - o.x;
    proof {
        lemma_mul_bound(ax as int, by as int, 20_000_000, 20_000_000);
        lemma_mul_bound(ay as int, bx as int, 20_000_000, 20_000_000);
    }
    ax * by - ay * bx
}

pub fn is_on_segment(p: &Point, a: &Point, b: &Point) -> (r: bool)
    requires
        in_range(*p),
        in_range(*a),
        in_range(*b),
    ensures
        r == on_segment(*p, *a, *b),
{
    let c = orientation(a, b, p);
    c == 0 && ((a.x <= p.x && p.x <= b.x) || (b.x <= p.x && p.x <= a.x)) && ((a.y <= p.y && p.y
        <= b.y) || (b.y <= p.y && p.y <= a.y))
}

/// Decides whether two segments intersect; proper and improper intersections
/// both count, and collinear overlap counts as intersection.
pub fn is_intersect_line(l1: &Line, l2: &Line) -> (r: bool)
    requires
        line_in_range(*l1),
        line_in_range(*l2),
    ensures
        r == segments_intersect(*l1, *l2),
{
    let d1 = orientation(&l2.p1, &l2.p2, &l1.p1);
    let d2 = orientation(&l2.p1, &l2.p2, &l1.p2);
    let d3 = orientation(&l1.p1, &l1.p2, &l2.p1);
    let d4 = orientation(&l1.p1, &l1.p2, &l2.p2);
    if ((d1 > 0 && d2 < 0) || (d1 < 0 && d2 > 0)) && ((d3 > 0 && d4 < 0) || (d3 < 0 && d4 > 0)) {
        true
    } else if is_on_segment(&l1.p1, &l2.p1, &l2.p2) {
        true
    } else if is_on_segment(&l1.p2, &l2.p1, &l2.p2) {
        true
    } else if is_on_segment(&l2.p1, &l1.p1, &l1.p2) {
        true
    } else {
        is_on_segment(&l2.p2, &l1.p1, &l1.p2)
    }
}

pub open spec fn sq(x: int) -> int {
    x * x
}

/// Squared Euclidean distance between two points.
pub open spec fn dist2(a: Point, b: Point) -> int {
    sq(b.x - a.x) + sq(b.y - a.y)
}

/// Fixed-point Euclidean distance: the integer square root of the squared
/// distance, in thousandths of a metre.
pub open spec fn distance_spec(a: Point, b: Point) -> int {
    isqrt_spec(dist2(a, b) as nat) as int
}

pub open spec fn is_isqrt(r: nat, n: nat) -> bool {
    sq(r as int) <= n < sq(r as int + 1)
}

/// The unique `r` with `r * r <= n < (r + 1) * (r + 1)`.
pub open spec fn isqrt_spec(n: nat) -> nat {
    choose|r: nat| is_isqrt(r, n)
}

pub proof fn lemma_isqrt_exists(r: nat, n: nat)
    requires
        r * r <= n,
        n < (r + 1) * (r + 1),
    ensures
        isqrt_spec(n) == r,
{
    assert(is_isqrt(r, n));
    let w = choose|w: nat| is_isqrt(w, n);
    assert(is_isqrt(w, n));
    if w < r {
        assert(sq(w as int + 1) <= sq(r as int)) by (nonlinear_arith)
            requires
                0 <= w < r,
        ;
    }
    if w > r {
        assert(sq(r as int + 1) <= sq(w as int)) by (nonlinear_arith)
            requires
                0 <= r < w,
        ;
    }
}

impl Point {
    /// Fixed-point distance to another point.
    pub fn distance_to(&self, other: &Point) -> (r: u64)
        requires
            in_range(*self),
            in_range(*other),
        ensures
            r == distance_spec(*self, *other),
            r <= 30_000_000,
    {
        let dx = other.x - self.x;
        let dy = other.y - self.y;
        proof {
            lemma_mul_bound(dx as int, dx as int, 20_000_000, 20_000_000);
            lemma_mul_bound(dy as int, dy as int, 20_000_000, 20_000_000);
            assert(dx as int * dx as int >= 0) by (nonlinear_arith);
            assert(dy as int * dy as int >= 0) by (nonlinear_arith);
        }
        let d2 = (dx * dx + dy * dy) as u64;
        let r = isqrt(d2);
        proof {
            lemma_isqrt_exists(r as nat, d2 as nat);
            if r > 30_000_000 {
                assert(sq(30_000_000) <= sq(r as int)) by (nonlinear_arith)
                    requires
                        30_000_000 <= r,
                ;
            }
        }
        r
    }

    /// The foot of the perpendicular from `self` onto the line of `l`,
    /// clamped to the segment; coordinates are rounded toward `l.p1`.
    pub fn nearest_point_on_line(&self, l: &Line) -> (r: Point)
        requires
            in_range(*self),
            line_in_range(*l),
        ensures
            r == nearest_point_spec(*self, *l),
            in_range(r),
    {
        let dx = l.p2.x - l.p1.x;
        let dy = l.p2.y - l.p1.y;
        let ex = self.x - l.p1.x;
        let ey = self.y - l.p1.y;
        proof {
            lemma_mul_bound(dx as int, dx as int, 20_000_000, 20_000_000);
            lemma_mul_bound(dy as int, dy as int, 20_000_000, 20_000_000);
            lemma_mul_bound(ex as int, dx as int, 20_000_000, 20_000_000);
            lemma_mul_bound(ey as int, dy as int, 20_000_000, 20_000_000);
            assert(dx as int * dx as int >= 0) by (nonlinear_arith);
            assert(dy as int * dy as int >= 0) by (nonlinear_arith);
        }
        let len2 = dx * dx + dy * dy;
        if len2 == 0 {
            l.p1
        } else {
            let dot = ex * dx + ey * dy;
            let t = if dot < 0 {
                0
            } else if dot > len2 {
                len2
            } else {
                dot
            };
            let x = scale_toward(l.p1.x, dx, t, len2);
            let y = scale_toward(l.p1.y, dy, t, len2);
            Point { x, y }
        }
    }
}

/// `base` moved toward `base + delta` by the ratio `t / len2`, rounded
/// toward `base`.
pub open spec fn scale_toward_spec(base: int, delta: int, t: int, len2: int) -> int {
    if delta >= 0 {
        base + (delta * t) / len2
    } else {
        base - ((-delta) * t) / len2
    }
}

fn scale_toward(base: i64, delta: i64, t: i64, len2: i64) -> (r: i64)
    requires
        -CMAX <= base <= CMAX,
        -2 * CMAX <= delta <= 2 * CMAX,
        -CMAX <= base + delta <= CMAX,
        0 < len2,
        0 <= t <= len2,
    ensures
        r == scale_toward_spec(base as int, delta as int, t as int, len2 as int),
        -CMAX <= r <= CMAX,
{
    let mag: u64 = if delta >= 0 {
        delta as u64
    } else {
        (-delta) as u64
    };
    proof {
        lemma_mul_bound(mag as int, t as int, 20_000_000, t as int);
    }
    let num: u128 = (mag as u128) * (t as u128);
    let q: u128 = num / (len2 as u128);
    proof {
        assert(mag as int * t as int <= mag as int * len2 as int) by (nonlinear_arith)
            requires
                0 <= mag,
                0 <= t <= len2,
        ;
        lemma_div_is_ordered(mag as int * t as int, mag as int * len2 as int, len2 as int);
        lemma_div_multiples_vanish(mag as int, len2 as int);
        assert(mag as int * len2 as int == len2 as int * mag as int) by (nonlinear_arith);
        assert(0 <= (mag as int * t as int) / (len2 as int)) by {
            lemma_div_is_ordered(0, mag as int * t as int, len2 as int);
            assert(mag as int * t as int >= 0) by (nonlinear_arith)
                requires
                    0 <= mag,
                    0 <= t,
            ;
        }
    }
    if delta >= 0 {
        base + (q as i64)
    } else {
        base - (q as i64)
    }
}

/// The nearest point of segment `l` to `p`, in rounded fixed-point
/// coordinates.
pub open spec fn nearest_point_spec(p: Point, l: Line) -> Point {
    let dx = l.p2.x - l.p1.x;
    let dy = l.p2.y - l.p1.y;
    let len2 = sq(dx) + sq(dy);
    if len2 == 0 {
        l.p1
    } else {
        let dot = (p.x - l.p1.x) * dx + (p.y - l.p1.y) * dy;
        let t = if dot < 0 {
            0
        } else if dot > len2 {
            len2
        } else {
            dot
        };
        Point {
            x: scale_toward_spec(l.p1.x as int, dx, t, len2) as i64,
            y: scale_toward_spec(l.p1.y as int, dy, t, len2) as i64,
        }
    }
}

pub open spec fn abs_int(x: int) -> int {
    if x < 0 {
        -x
    } else {
        x
    }
}

/// Twice the signed shoelace area of the first `k` edges, in squared
/// thousandths of a metre.
pub open spec fn shoelace_upto(pts: Seq<Point>, k: int) -> int
    decreases k,
{
    if k <= 0 {
        0
    } else {
        shoelace_upto(pts, k - 1) + (pts[k - 1].x * pts[k].y - pts[k].x * pts[k - 1].y)
    }
}

/// Polygon area by the shoelace formula, in thousandths of a square metre.
pub open spec fn polygon_area_spec(pts: Seq<Point>) -> int {
    abs_int(shoelace_upto(pts, pts.len() - 1)) / 2000
}

/// One ray crossing of the edge `a -> b` by the horizontal ray from `p`
/// toward increasing x, counted with the usual half-open convention.
pub open spec fn edge_ray_crossing(a: Point, b: Point, p: Point) -> bool {
    &&& (a.y > p.y) != (b.y > p.y)
    &&& if b.y - a.y > 0 {
        cross(a, b, p) > 0
    } else {
        cross(a, b, p) < 0
    }
}

/// Number of edges among the first `k` that the ray from `p` crosses.
pub open spec fn crossings_upto(pts: Seq<Point>, p: Point, k: int) -> nat
    decreases k,
{
    if k <= 0 {
        0
    } else {
        crossings_upto(pts, p, k - 1) + (if edge_ray_crossing(pts[k - 1], pts[k], p) {
            1nat
        } else {
            0nat
        })
    }
}

pub open spec fn on_polygon_boundary(pts: Seq<Point>, p: Point) -> bool {
    exists|k: int| 1 <= k < pts.len() && #[trigger] on_segment(p, pts[k - 1], pts[k])
}

/// Ray-casting point-in-polygon: on an edge it is `OnBoundary`; otherwise an
/// odd number of ray crossings means `Inside`.
pub open spec fn point_position_spec(pts: Seq<Point>, p: Point) -> PointPosition {
    if on_polygon_boundary(pts, p) {
        PointPosition::OnBoundary
    } else if crossings_upto(pts, p, pts.len() - 1) % 2 == 1 {
        PointPosition::Inside
    } else {
        PointPosition::Outside
    }
}

impl Polygon {
    pub open spec fn wf(&self) -> bool {
        valid_polygon(self.points@)
    }

    /// Tri-valued point-in-polygon test by exact ray casting.
    pub fn point_position(&self, p: &Point) -> (r: PointPosition)
        requires
            self.wf(),
            in_range(*p),
        ensures
            r == point_position_spec(self.points@, *p),
    {
        let n = self.points.len();
        let mut boundary = false;
        let mut count: u64 = 0;
        let mut k: usize = 1;
        while k < n
            invariant
                1 <= k <= n,
                self.wf(),
                in_range(*p),
                n == self.points@.len(),
                boundary == exists|j: int|
                    1 <= j < k && #[trigger] on_segment(*p, self.points@[j - 1], self.points@[j]),
                count == crossings_upto(self.points@, *p, k - 1),
                count <= k,
            decreases n - k,
        {
            let a = self.points[k - 1];
            let b = self.points[k];
            if is_on_segment(p, &a, &b) {
                boundary = true;
            }
            let d1 = a.y > p.y;
            let d2 = b.y > p.y;
            if d1 != d2 {
                let c = orientation(&a, &b, p);
                if b.y - a.y > 0 {
                    if c > 0 {
                        count = count + 1;
                    }
                } else {
                    if c < 0 {
                        count = count + 1;
                    }
                }
            }
            k = k + 1;
        }
        if boundary {
            PointPosition::OnBoundary
        } else if count % 2 == 1 {
            PointPosition::Inside
        } else {
            PointPosition::Outside
        }
    }

    /// Point containment as the building model uses it: a boundary point
    /// counts as inside.
    pub fn is_point_inside(&self, p: &Point) -> (r: bool)
        requires
            self.wf(),
            in_range(*p),
        ensures
            r == (point_position_spec(self.points@, *p) != PointPosition::Outside),
    {
        let pos = self.point_position(p);
        match pos {
            PointPosition::Outside => false,
            _ => true,
        }
    }

    /// Shoelace area of the ring, in thousandths of a square metre.
    pub fn area(&self) -> (r: u64)
        requires
            self.wf(),
        ensures
            r == polygon_area_spec(self.points@),
            r <= 200_000_000_000_000,
    {
        let n = self.points.len();
        let mut acc: i64 = 0;
        let mut k: usize = 1;
        while k < n
            invariant
                1 <= k <= n,
                self.wf(),
                n == self.points@.len(),
                acc == shoelace_upto(self.points@, k - 1),
                -(2 * (k - 1) * CMAX * CMAX) <= acc <= 2 * (k - 1) * CMAX * CMAX,
            decreases n - k,
        {
            let a = self.points[k - 1];
            let b = self.points[k];
            proof {
                lemma_mul_bound(a.x as int, b.y as int, CMAX as int, CMAX as int);
                lemma_mul_bound(b.x as int, a.y as int, CMAX as int, CMAX as int);
            }
            acc = acc + (a.x * b.y - b.x * a.y);
            k = k + 1;
        }
        let total: u64 = if acc < 0 {
            (-acc) as u64
        } else {
            acc as u64
        };
        total / 2000
    }
}

} // verus!
