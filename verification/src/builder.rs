//! Construction of a `Bim` from a raw JSON building description:
//! classification of elements, the synthetic outside zone, id-sorting of the
//! flat lists, and the geometric derivation of doorway widths.

use vstd::prelude::*;
use crate::geometry::Point;
use crate::geometry::Line;
use crate::geometry::Polygon;
use crate::geometry::PointPosition;
use crate::geometry::line_in_range;
use crate::geometry::in_range;
use crate::geometry::valid_polygon;
use crate::geometry::segments_intersect;
use crate::geometry::point_position_spec;
use crate::geometry::distance_spec;
use crate::geometry::nearest_point_spec;
use crate::geometry::is_intersect_line;
use crate::model::BimError;
use crate::model::BimZone;
use crate::model::BimTransit;
use crate::model::BimElementSign;
use crate::model::find_zone_rec;
use crate::model::zone_wf;
use crate::model::transit_wf;
use crate::model::total_pop;
use crate::model::zones_sorted;
use crate::model::transits_sorted;
use crate::model::WIDTH_MAX;
use crate::model::BimJsonElement;
use crate::model::BimJsonLevel;
use crate::model::BimJsonObject;
use crate::model::ELEMENT_POP_MAX;
use crate::model::AREA_OUTSIDE;
use crate::model::POTENTIAL_INF;
use crate::model::TOTAL_POP_MAX;
use crate::model::MAX_LEVELS;
use crate::model::MAX_ELEMENTS_PER_LEVEL;
use crate::model::EVACUATION_MODELING_STEP;
use crate::model::EVACUATION_MODELING_MAX_SPEED;
use crate::model::Bim;
use crate::model::BimLevel;
use crate::geometry::MAX_POLYGON_POINTS;
use crate::geometry::polygon_area_spec;
use crate::geometry::isqrt_spec;
use crate::geometry::lemma_isqrt_exists;
use crate::geometry::sq;
use crate::isqrt;

verus! {

/// The `k`-th edge of a closed ring, joining points `k - 1` and `k`.
pub open spec fn edge_at(pts: Seq<Point>, k: int) -> Line {
    Line { p1: pts[k - 1], p2: pts[k] }
}

/// How many of the first `k` edges of the ring the segment `l` intersects.
pub open spec fn hit_count(pts: Seq<Point>, l: Line, k: int) -> nat
    decreases k,
{
    if k <= 0 {
        0
    } else {
        hit_count(pts, l, k - 1) + (if segments_intersect(l, edge_at(pts, k)) {
            1nat
        } else {
            0nat
        })
    }
}

/// The last edge among the first `k` that `l` intersects (the only one, when
/// exactly one is intersected).
pub open spec fn hit_edge(pts: Seq<Point>, l: Line, k: int) -> Line
    decreases k,
{
    if k <= 0 {
        Line { p1: Point { x: 0, y: 0 }, p2: Point { x: 0, y: 0 } }
    } else if segments_intersect(l, edge_at(pts, k)) {
        edge_at(pts, k)
    } else {
        hit_edge(pts, l, k - 1)
    }
}

/// Finds the unique polygon edge that `line` intersects.  Zero or several
/// intersected edges are a geometry error, as is an invalid polygon ring.
pub fn intersected_edge(polygon_element: &Polygon, line: &Line) -> (r: Result<Line, BimError>)
    requires
        line_in_range(*line),
    ensures
        r is Ok <==> valid_polygon(polygon_element.points@) && hit_count(
            polygon_element.points@,
            *line,
            polygon_element.points@.len() - 1,
        ) == 1,
        r is Ok ==> r == Ok::<Line, BimError>(
            hit_edge(polygon_element.points@, *line, polygon_element.points@.len() - 1),
        ) && line_in_range(r->Ok_0),
        r is Err ==> r == Err::<Line, BimError>(BimError::GeometryError),
{
    if !check_polygon(polygon_element) {
        return Err(BimError::GeometryError);
    }
    let pts = &polygon_element.points;
    let n = pts.len();
    let mut found = Line { p1: Point { x: 0, y: 0 }, p2: Point { x: 0, y: 0 } };
    let mut num: u64 = 0;
    let mut k: usize = 1;
    while k < n
        invariant
            1 <= k <= n,
            polygon_element.wf(),
            line_in_range(*line),
            n == polygon_element.points@.len(),
            pts == &polygon_element.points,
            num == hit_count(pts@, *line, k - 1),
            num <= k,
            num > 0 ==> found == hit_edge(pts@, *line, k - 1) && line_in_range(found),
            num == 0 ==> hit_edge(pts@, *line, k - 1) == hit_edge(pts@, *line, 0),
        decreases n - k,
    {
        let a = pts[k - 1];
        let b = pts[k];
        let edge = Line { p1: a, p2: b };
        if is_intersect_line(line, &edge) {
            found = edge;
            num = num + 1;
        }
        k = k + 1;
    }
    if num != 1 {
        Err(BimError::GeometryError)
    } else {
        Ok(found)
    }
}

/// The doorway width between two rooms: project the intersected wall edges
/// onto one another and average the two projected lengths.
///
/// The candidate diagonals are the two crossing ones, one endpoint from each
/// doorway edge; on a tie of their lengths the second is taken.
pub open spec fn door_way_width_spec(z1: Seq<Point>, z2: Seq<Point>, e1: Line, e2: Line) -> Option<
    int,
> {
    let c1 = Line { p1: e1.p1, p2: e2.p2 };
    let c2 = Line { p1: e1.p2, p2: e2.p1 };
    let len1 = distance_spec(c1.p1, c1.p2);
    let len2 = distance_spec(c2.p1, c2.p2);
    let d = if len1 < len2 {
        c1
    } else {
        c2
    };
    if hit_count(z1, d, z1.len() - 1) == 1 && hit_count(z2, d, z2.len() - 1) == 1 {
        let ea = hit_edge(z1, d, z1.len() - 1);
        let eb = hit_edge(z2, d, z2.len() - 1);
        let q1 = nearest_point_spec(ea.p1, eb);
        let q2 = nearest_point_spec(ea.p2, eb);
        let q3 = nearest_point_spec(eb.p1, ea);
        let q4 = nearest_point_spec(eb.p2, ea);
        Some((distance_spec(q1, q2) + distance_spec(q3, q4)) / 2)
    } else {
        None
    }
}

/// Computes the width of a doorway between the rooms `zone1` and `zone2`,
/// whose polygon edges `edge1` and `edge2` lie inside the respective rooms.
/// An invalid room ring is a geometry error.
pub fn door_way_width(zone1: &Polygon, zone2: &Polygon, edge1: &Line, edge2: &Line) -> (r: Result<
    u64,
    BimError,
>)
    requires
        line_in_range(*edge1),
        line_in_range(*edge2),
    ensures
        r is Ok <==> valid_polygon(zone1.points@) && valid_polygon(zone2.points@)
            && door_way_width_spec(zone1.points@, zone2.points@, *edge1, *edge2) is Some,
        r is Ok ==> Some(r->Ok_0 as int) == door_way_width_spec(
            zone1.points@,
            zone2.points@,
            *edge1,
            *edge2,
        ) && r->Ok_0 <= 30_000_000,
        r is Err ==> r == Err::<u64, BimError>(BimError::GeometryError),
{
    if !check_polygon(zone1) || !check_polygon(zone2) {
        return Err(BimError::GeometryError);
    }
    let c1 = Line { p1: edge1.p1, p2: edge2.p2 };
    let c2 = Line { p1: edge1.p2, p2: edge2.p1 };
    let len1 = c1.p1.distance_to(&c1.p2);
    let len2 = c2.p1.distance_to(&c2.p2);
    let d_line = if len1 < len2 {
        c1
    } else {
        c2
    };
    let edge_element_a = match intersected_edge(zone1, &d_line) {
        Ok(e) => e,
        Err(e) => {
            return Err(e);
        },
    };
    let edge_element_b = match intersected_edge(zone2, &d_line) {
        Ok(e) => e,
        Err(e) => {
            return Err(e);
        },
    };
    let point1 = edge_element_a.p1.nearest_point_on_line(&edge_element_b);
    let point2 = edge_element_a.p2.nearest_point_on_line(&edge_element_b);
    let distance12 = point1.distance_to(&point2);
    let point3 = edge_element_b.p1.nearest_point_on_line(&edge_element_a);
    let point4 = edge_element_b.p2.nearest_point_on_line(&edge_element_a);
    let distance34 = point3.distance_to(&point4);
    Ok((distance12 + distance34) / 2)
}

/// The points of `pts` (closing duplicate excluded) among the first `k` that
/// lie inside or on the boundary of the ring `zpts`, in order.
pub open spec fn split_in(pts: Seq<Point>, zpts: Seq<Point>, k: int) -> Seq<Point>
    decreases k,
{
    if k <= 0 {
        Seq::empty()
    } else if point_position_spec(zpts, pts[k - 1]) != PointPosition::Outside {
        split_in(pts, zpts, k - 1).push(pts[k - 1])
    } else {
        split_in(pts, zpts, k - 1)
    }
}

/// The points among the first `k` that lie strictly outside the ring `zpts`.
pub open spec fn split_out(pts: Seq<Point>, zpts: Seq<Point>, k: int) -> Seq<Point>
    decreases k,
{
    if k <= 0 {
        Seq::empty()
    } else if point_position_spec(zpts, pts[k - 1]) == PointPosition::Outside {
        split_out(pts, zpts, k - 1).push(pts[k - 1])
    } else {
        split_out(pts, zpts, k - 1)
    }
}

/// Checks the polygon ring invariant at run time.
pub fn check_polygon(p: &Polygon) -> (r: bool)
    ensures
        r == valid_polygon(p.points@),
{
    let n = p.points.len();
    if n < 4 || n > 1000 {
        return false;
    }
    let first = p.points[0];
    let last = p.points[n - 1];
    if !(first.x == last.x && first.y == last.y) {
        return false;
    }
    let mut i: usize = 0;
    while i < n
        invariant
            0 <= i <= n,
            n == p.points@.len(),
            forall|j: int| 0 <= j < i ==> in_range(#[trigger] p.points@[j]),
        decreases n - i,
    {
        let q = p.points[i];
        if q.x < -10_000_000 || q.x > 10_000_000 || q.y < -10_000_000 || q.y > 10_000_000 {
            return false;
        }
        i = i + 1;
    }
    true
}

pub proof fn lemma_find_zone_from(zones: Seq<BimZone>, uuid: u128, i: int)
    requires
        0 <= i <= zones.len(),
        forall|j: int| 0 <= j < i ==> zones[j].uuid != uuid,
    ensures
        find_zone_rec(zones, uuid, 0) == find_zone_rec(zones, uuid, i),
    decreases i,
{
    if i > 0 {
        lemma_find_zone_from(zones, uuid, i - 1);
    }
}

/// Linear search for the zone that carries `uuid`.
pub fn find_zone(zones: &Vec<BimZone>, uuid: u128) -> (r: Option<usize>)
    ensures
        r is Some ==> r->Some_0 == find_zone_rec(zones@, uuid, 0) && r->Some_0 < zones@.len()
            && zones@[r->Some_0 as int].uuid == uuid,
        r is None <==> find_zone_rec(zones@, uuid, 0) == -1,
{
    let n = zones.len();
    let mut i: usize = 0;
    while i < n
        invariant
            0 <= i <= n,
            n == zones@.len(),
            forall|j: int| 0 <= j < i ==> zones@[j].uuid != uuid,
        decreases n - i,
    {
        if zones[i].uuid == uuid {
            proof {
                lemma_find_zone_from(zones@, uuid, i as int);
            }
            return Some(i);
        }
        i = i + 1;
    }
    proof {
        lemma_find_zone_from(zones@, uuid, n as int);
    }
    None
}

/// Width of an inter-floor transit between two staircases, from their areas:
/// the square root of the mean area.
pub open spec fn stair_width_spec(a0: int, a1: int) -> int {
    isqrt_spec((((a0 + a1) / 2) * 1000) as nat) as int
}

/// The width a transit gets, or the error that its geometry or topology
/// yields.  Resolution of the endpoint zones is by UUID over `zones`.
pub open spec fn transit_width_spec(zones: Seq<BimZone>, t: BimTransit) -> Result<int, BimError> {
    if t.outputs@.len() < 1 || t.outputs@.len() > 2 {
        Err(BimError::BadTopology)
    } else {
        let i0 = find_zone_rec(zones, t.outputs@[0], 0);
        let i1 = if t.outputs@.len() == 2 {
            find_zone_rec(zones, t.outputs@[1], 0)
        } else {
            -1
        };
        if i0 < 0 || (t.outputs@.len() == 2 && i1 < 0) {
            Err(BimError::DanglingTransit)
        } else if t.outputs@.len() == 2 && zones[i0].sign == BimElementSign::Staircase
            && zones[i1].sign == BimElementSign::Staircase {
            check_positive(stair_width_spec(zones[i0].area as int, zones[i1].area as int))
        } else if !valid_polygon(zones[i0].polygon.points@) || !valid_polygon(t.polygon.points@) {
            Err(BimError::GeometryError)
        } else {
            let zpts = zones[i0].polygon.points@;
            let tn = t.polygon.points@.len() - 1;
            let ins = split_in(t.polygon.points@, zpts, tn);
            let outs = split_out(t.polygon.points@, zpts, tn);
            if ins.len() < 2 || outs.len() < 2 {
                Err(BimError::GeometryError)
            } else {
                let e1 = Line { p1: ins[0], p2: ins[1] };
                let e2 = Line { p1: outs[0], p2: outs[1] };
                if t.sign == BimElementSign::DoorWayIn || t.sign == BimElementSign::DoorWayOut {
                    check_positive(
                        (distance_spec(e1.p1, e1.p2) + distance_spec(e2.p1, e2.p2)) / 2,
                    )
                } else if t.sign == BimElementSign::DoorWay {
                    if t.outputs@.len() != 2 || !valid_polygon(zones[i1].polygon.points@) {
                        Err(BimError::GeometryError)
                    } else {
                        match door_way_width_spec(
                            zones[i0].polygon.points@,
                            zones[i1].polygon.points@,
                            e1,
                            e2,
                        ) {
                            Some(w) => check_positive(w),
                            None => Err(BimError::GeometryError),
                        }
                    }
                } else {
                    Err(BimError::GeometryError)
                }
            }
        }
    }
}

/// A width must come out positive; zero would stall the flow model.
pub open spec fn check_positive(w: int) -> Result<int, BimError> {
    if w >= 1 {
        Ok(w)
    } else {
        Err(BimError::GeometryError)
    }
}

/// Derives the width of one transit, as `transit_width_spec` states it.
fn width_for_transit(zones: &Vec<BimZone>, t: &BimTransit) -> (r: Result<u64, BimError>)
    requires
        forall|i: int| 0 <= i < zones@.len() ==> zone_wf(#[trigger] zones@[i]),
    ensures
        r is Ok ==> transit_width_spec(zones@, *t) == Ok::<int, BimError>(r->Ok_0 as int) && 1
            <= r->Ok_0 <= WIDTH_MAX,
        r is Err ==> transit_width_spec(zones@, *t) == Err::<int, BimError>(r->Err_0),
{
    let m = t.outputs.len();
    if m < 1 || m > 2 {
        return Err(BimError::BadTopology);
    }
    let i0 = match find_zone(zones, t.outputs[0]) {
        Some(i) => i,
        None => {
            return Err(BimError::DanglingTransit);
        },
    };
    let i1opt = if m == 2 {
        match find_zone(zones, t.outputs[1]) {
            Some(i) => Some(i),
            None => {
                return Err(BimError::DanglingTransit);
            },
        }
    } else {
        None
    };
    if m == 2 {
        let i1 = match i1opt {
            Some(i) => i,
            None => {
                return Err(BimError::DanglingTransit);
            },
        };
        if zones[i0].sign == BimElementSign::Staircase && zones[i1].sign
            == BimElementSign::Staircase {
            let a0 = zones[i0].area;
            let a1 = zones[i1].area;
            let v = ((a0 + a1) / 2) * 1000;
            let w = isqrt(v);
            proof {
                lemma_isqrt_exists(w as nat, v as nat);
                if w > 1_000_000_000 {
                    assert(sq(1_000_000_001) <= sq(w as int)) by (nonlinear_arith)
                        requires
                            1_000_000_001 <= w,
                    ;
                    assert(sq(w as int) <= v);
                }
            }
            if w < 1 {
                return Err(BimError::GeometryError);
            }
            return Ok(w);
        }
    }
    let z0 = &zones[i0];
    if !check_polygon(&z0.polygon) || !check_polygon(&t.polygon) {
        return Err(BimError::GeometryError);
    }
    let pts = &t.polygon.points;
    let tn = pts.len() - 1;
    let ghost zpts = z0.polygon.points@;
    let mut e1p1 = Point { x: 0, y: 0 };
    let mut e1p2 = Point { x: 0, y: 0 };
    let mut e2p1 = Point { x: 0, y: 0 };
    let mut e2p2 = Point { x: 0, y: 0 };
    let mut c1: usize = 0;
    let mut c2: usize = 0;
    let mut k: usize = 0;
    while k < tn
        invariant
            0 <= k <= tn,
            tn == pts@.len() - 1,
            pts == &t.polygon.points,
            z0.polygon.points@ == zpts,
            valid_polygon(zpts),
            valid_polygon(pts@),
            z0 == &zones@[i0 as int],
            i0 < zones@.len(),
            c1 == split_in(pts@, zpts, k as int).len(),
            c2 == split_out(pts@, zpts, k as int).len(),
            c1 <= k,
            c2 <= k,
            c1 >= 1 ==> e1p1 == split_in(pts@, zpts, k as int)[0] && in_range(e1p1),
            c1 >= 2 ==> e1p2 == split_in(pts@, zpts, k as int)[1] && in_range(e1p2),
            c2 >= 1 ==> e2p1 == split_out(pts@, zpts, k as int)[0] && in_range(e2p1),
            c2 >= 2 ==> e2p2 == split_out(pts@, zpts, k as int)[1] && in_range(e2p2),
        decreases tn - k,
    {
        let pt = pts[k];
        if z0.polygon.is_point_inside(&pt) {
            if c1 == 0 {
                e1p1 = pt;
            } else if c1 == 1 {
                e1p2 = pt;
            }
            c1 = c1 + 1;
        } else {
            if c2 == 0 {
                e2p1 = pt;
            } else if c2 == 1 {
                e2p2 = pt;
            }
            c2 = c2 + 1;
        }
        k = k + 1;
    }
    if c1 < 2 || c2 < 2 {
        return Err(BimError::GeometryError);
    }
    let edge1 = Line { p1: e1p1, p2: e1p2 };
    let edge2 = Line { p1: e2p1, p2: e2p2 };
    if t.sign == BimElementSign::DoorWayIn || t.sign == BimElementSign::DoorWayOut {
        let w1 = edge1.p1.distance_to(&edge1.p2);
        let w2 = edge2.p1.distance_to(&edge2.p2);
        let w = (w1 + w2) / 2;
        if w < 1 {
            return Err(BimError::GeometryError);
        }
        Ok(w)
    } else if t.sign == BimElementSign::DoorWay {
        if m != 2 {
            return Err(BimError::GeometryError);
        }
        let i1 = match i1opt {
            Some(i) => i,
            None => {
                return Err(BimError::GeometryError);
            },
        };
        let z1 = &zones[i1];
        if !check_polygon(&z1.polygon) {
            return Err(BimError::GeometryError);
        }
        match door_way_width(&z0.polygon, &z1.polygon, &edge1, &edge2) {
            Ok(w) => {
                if w < 1 {
                    Err(BimError::GeometryError)
                } else {
                    Ok(w)
                }
            },
            Err(e) => Err(e),
        }
    } else {
        Err(BimError::GeometryError)
    }
}

/// The outcome of deriving widths for the first `k` transits: `Ok` when all
/// succeed, else the error of the first transit that fails.
pub open spec fn widths_result(zones: Seq<BimZone>, ts: Seq<BimTransit>, k: int) -> Result<
    (),
    BimError,
>
    decreases k,
{
    if k <= 0 {
        Ok(())
    } else {
        match widths_result(zones, ts, k - 1) {
            Ok(()) => match transit_width_spec(zones, ts[k - 1]) {
                Ok(w) => Ok(()),
                Err(e) => Err(e),
            },
            Err(e) => Err(e),
        }
    }
}

pub proof fn lemma_widths_error(zones: Seq<BimZone>, ts: Seq<BimTransit>, j: int, m: int)
    requires
        0 <= j < m <= ts.len(),
        widths_result(zones, ts, j) is Ok,
        transit_width_spec(zones, ts[j]) is Err,
    ensures
        widths_result(zones, ts, m) == Err::<(), BimError>(transit_width_spec(zones, ts[j])->Err_0),
    decreases m - j,
{
    if m == j + 1 {
    } else {
        lemma_widths_error(zones, ts, j, m - 1);
    }
}

/// The transit `t` with its width replaced.
pub open spec fn with_width(t: BimTransit, w: u64) -> BimTransit {
    BimTransit { width: w, ..t }
}

/// Derives every transit's width from the zone geometry, in transit order.
/// On success every transit holds its width and nothing else has changed;
/// on failure the transits are left untouched and the error is the first
/// transit's failure.
pub fn calculate_transits_width(zones: &Vec<BimZone>, transits: &mut Vec<BimTransit>) -> (r: Result<
    (),
    BimError,
>)
    requires
        forall|i: int| 0 <= i < zones@.len() ==> zone_wf(#[trigger] zones@[i]),
    ensures
        r is Ok <==> widths_result(zones@, old(transits)@, old(transits)@.len() as int) is Ok,
        r is Err ==> r == Err::<(), BimError>(
            widths_result(zones@, old(transits)@, old(transits)@.len() as int)->Err_0,
        ) && final(transits)@ == old(transits)@,
        r is Ok ==> final(transits)@.len() == old(transits)@.len() && forall|j: int|
            0 <= j < old(transits)@.len() ==> (#[trigger] final(transits)@[j]) == with_width(
                old(transits)@[j],
                final(transits)@[j].width,
            ) && transit_width_spec(zones@, old(transits)@[j]) == Ok::<int, BimError>(
                final(transits)@[j].width as int,
            ) && 1 <= final(transits)@[j].width <= WIDTH_MAX,
{
    let n = transits.len();
    let mut ws: Vec<u64> = Vec::new();
    let mut j: usize = 0;
    while j < n
        invariant
            0 <= j <= n,
            n == transits@.len(),
            forall|i: int| 0 <= i < zones@.len() ==> zone_wf(#[trigger] zones@[i]),
            widths_result(zones@, transits@, j as int) is Ok,
            ws@.len() == j,
            forall|k: int|
                0 <= k < j ==> transit_width_spec(zones@, transits@[k]) == Ok::<int, BimError>(
                    #[trigger] ws@[k] as int,
                ) && 1 <= ws@[k] <= WIDTH_MAX,
        decreases n - j,
    {
        let t = &transits[j];
        match width_for_transit(zones, t) {
            Ok(w) => {
                ws.push(w);
            },
            Err(e) => {
                proof {
                    lemma_widths_error(zones@, transits@, j as int, n as int);
                }
                return Err(e);
            },
        }
        j = j + 1;
    }
    let mut jj: usize = 0;
    while jj < n
        invariant
            0 <= jj <= n,
            n == transits@.len(),
            ws@.len() == n,
            forall|k: int|
                0 <= k < n ==> transit_width_spec(zones@, old(transits)@[k]) == Ok::<
                    int,
                    BimError,
                >(#[trigger] ws@[k] as int) && 1 <= ws@[k] <= WIDTH_MAX,
            forall|k: int|
                0 <= k < jj ==> (#[trigger] transits@[k]) == with_width(old(transits)@[k], ws@[k]),
            forall|k: int| jj <= k < n ==> (#[trigger] transits@[k]) == old(transits)@[k],
        decreases n - jj,
    {
        transits[jj].width = ws[jj];
        jj = jj + 1;
    }
    Ok(())
}

/// Each zone's population is added by an insertion at any position.
pub proof fn lemma_total_pop_insert(s: Seq<BimZone>, p: int, z: BimZone)
    requires
        0 <= p <= s.len(),
    ensures
        total_pop(s.insert(p, z)) == total_pop(s) + z.number_of_people,
    decreases s.len(),
{
    let t = s.insert(p, z);
    if p == s.len() {
        assert(t =~= s.push(z));
        assert(t.drop_last() =~= s);
    } else {
        lemma_total_pop_insert(s.drop_last(), p, z);
        assert(t.drop_last() =~= s.drop_last().insert(p, z));
        assert(t.last() == s.last());
    }
}

/// Sorts zones by ascending id.  Ids must be pairwise distinct, so the order
/// is strict and the result is the unique id-sorted permutation.
#[verifier::rlimit(80)]
/// Sorts zones by ascending id.  Ids must be pairwise distinct, so the order
/// is strict.  A caller's per-zone predicate `p` is carried through, and the
/// total population is unchanged.
fn sort_zones_by_id(v: Vec<BimZone>, Ghost(p): Ghost<spec_fn(BimZone) -> bool>) -> (r: Vec<
    BimZone,
>)
    requires
        forall|i: int, j: int| 0 <= i < j < v@.len() ==> v@[i].id != v@[j].id,
        forall|j: int| 0 <= j < v@.len() ==> p(#[trigger] v@[j]),
    ensures
        r@.len() == v@.len(),
        zones_sorted(r@),
        forall|i: int| 0 <= i < r@.len() ==> p(#[trigger] r@[i]),
        total_pop(r@) == total_pop(v@),
{
    let ghost orig = v@;
    let mut src = v;
    let mut out: Vec<BimZone> = Vec::new();
    while src.len() > 0
        invariant
            src@ == orig.take(src@.len() as int),
            out@.len() + src@.len() == orig.len(),
            forall|i: int, j: int| 0 <= i < j < orig.len() ==> orig[i].id != orig[j].id,
            forall|j: int| 0 <= j < orig.len() ==> p(#[trigger] orig[j]),
            zones_sorted(out@),
            forall|i: int| 0 <= i < out@.len() ==> p(#[trigger] out@[i]),
            forall|i: int, k: int|
                0 <= i < out@.len() && 0 <= k <= src@.len() - 1 ==> (#[trigger] out@[i].id) != (
                #[trigger] orig[k].id),
            total_pop(out@) + total_pop(src@) == total_pop(orig),
        decreases src@.len(),
    {
        let ghost pre = src@;
        let z = src.pop().unwrap();
        proof {
            assert(pre.drop_last() =~= orig.take(src@.len() as int));
            assert(total_pop(pre) == total_pop(pre.drop_last()) + z.number_of_people);
            assert(z == orig[src@.len() as int]);
        }
        let mut q: usize = out.len();
        while q > 0 && out[q - 1].id > z.id
            invariant
                0 <= q <= out@.len(),
                forall|k: int| q <= k < out@.len() ==> (#[trigger] out@[k].id) > z.id,
                zones_sorted(out@),
            decreases q,
        {
            q = q - 1;
        }
        let ghost outpre = out@;
        proof {
            outpre.insert_ensures(q as int, z);
            lemma_total_pop_insert(outpre, q as int, z);
            assert(forall|i: int| 0 <= i < outpre.len() ==> (#[trigger] outpre[i].id) != z.id);
            assert forall|a: int, b: int|
                0 <= a < b < outpre.insert(q as int, z).len() implies outpre.insert(
                q as int,
                z,
            )[a].id < outpre.insert(q as int, z)[b].id by {
                let nout = outpre.insert(q as int, z);
                if a == q {
                    assert(nout[b] == outpre[b - 1] && b - 1 >= q);
                } else if b == q {
                    assert(nout[a] == outpre[a] && a < q);
                    assert(outpre[a].id <= outpre[q - 1].id);
                } else {
                    let aa: int = if a < q {
                        a
                    } else {
                        a - 1
                    };
                    let bb: int = if b < q {
                        b
                    } else {
                        b - 1
                    };
                    assert(nout[a] == outpre[aa] && nout[b] == outpre[bb] && aa < bb);
                }
            }
        }
        out.insert(q, z);
    }
    proof {
        assert(src@.len() == 0);
        assert(total_pop(src@) == 0);
    }
    out
}

/// Sorts transits by ascending id, carrying a caller's predicate through.
fn sort_transits_by_id(v: Vec<BimTransit>, Ghost(p): Ghost<spec_fn(BimTransit) -> bool>) -> (r: Vec<
    BimTransit,
>)
    requires
        forall|i: int, j: int| 0 <= i < j < v@.len() ==> v@[i].id != v@[j].id,
        forall|j: int| 0 <= j < v@.len() ==> p(#[trigger] v@[j]),
    ensures
        r@.len() == v@.len(),
        transits_sorted(r@),
        forall|i: int| 0 <= i < r@.len() ==> p(#[trigger] r@[i]),
{
    let ghost orig = v@;
    let mut src = v;
    let mut out: Vec<BimTransit> = Vec::new();
    while src.len() > 0
        invariant
            src@ == orig.take(src@.len() as int),
            out@.len() + src@.len() == orig.len(),
            forall|i: int, j: int| 0 <= i < j < orig.len() ==> orig[i].id != orig[j].id,
            forall|j: int| 0 <= j < orig.len() ==> p(#[trigger] orig[j]),
            transits_sorted(out@),
            forall|i: int| 0 <= i < out@.len() ==> p(#[trigger] out@[i]),
            forall|i: int, k: int|
                0 <= i < out@.len() && 0 <= k <= src@.len() - 1 ==> (#[trigger] out@[i].id) != (
                #[trigger] orig[k].id),
        decreases src@.len(),
    {
        let ghost pre = src@;
        let z = src.pop().unwrap();
        proof {
            assert(pre.drop_last() =~= orig.take(src@.len() as int));
            assert(z == orig[src@.len() as int]);
        }
        let mut q: usize = out.len();
        while q > 0 && out[q - 1].id > z.id
            invariant
                0 <= q <= out@.len(),
                forall|k: int| q <= k < out@.len() ==> (#[trigger] out@[k].id) > z.id,
                transits_sorted(out@),
            decreases q,
        {
            q = q - 1;
        }
        let ghost outpre = out@;
        proof {
            outpre.insert_ensures(q as int, z);
            assert(forall|i: int| 0 <= i < outpre.len() ==> (#[trigger] outpre[i].id) != z.id);
            assert forall|a: int, b: int|
                0 <= a < b < outpre.insert(q as int, z).len() implies outpre.insert(
                q as int,
                z,
            )[a].id < outpre.insert(q as int, z)[b].id by {
                let nout = outpre.insert(q as int, z);
                if a == q {
                    assert(nout[b] == outpre[b - 1] && b - 1 >= q);
                } else if b == q {
                    assert(nout[a] == outpre[a] && a < q);
                    assert(outpre[a].id <= outpre[q - 1].id);
                } else {
                    let aa: int = if a < q {
                        a
                    } else {
                        a - 1
                    };
                    let bb: int = if b < q {
                        b
                    } else {
                        b - 1
                    };
                    assert(nout[a] == outpre[aa] && nout[b] == outpre[bb] && aa < bb);
                }
            }
        }
        out.insert(q, z);
    }
    out
}

pub open spec fn is_zone_sign(s: BimElementSign) -> bool {
    s == BimElementSign::Room || s == BimElementSign::Staircase
}

pub open spec fn is_transit_sign(s: BimElementSign) -> bool {
    s == BimElementSign::DoorWay || s == BimElementSign::DoorWayIn || s
        == BimElementSign::DoorWayOut
}

/// UUIDs of the `DoorWayOut` elements of a level prefix, in element order.
pub open spec fn exit_uuids_elems(es: Seq<BimJsonElement>) -> Seq<u128>
    decreases es.len(),
{
    if es.len() == 0 {
        Seq::empty()
    } else {
        exit_uuids_elems(es.drop_last()) + (if es.last().sign == BimElementSign::DoorWayOut {
            seq![es.last().uuid]
        } else {
            Seq::empty()
        })
    }
}

/// UUIDs of all `DoorWayOut` elements of the building, in level order.
pub open spec fn exit_uuids(ls: Seq<BimJsonLevel>) -> Seq<u128>
    decreases ls.len(),
{
    if ls.len() == 0 {
        Seq::empty()
    } else {
        exit_uuids(ls.drop_last()) + exit_uuids_elems(ls.last().build_elements@)
    }
}

/// Largest id of a Room or Staircase element, `-1` when there is none.
pub open spec fn max_zone_id_elems(es: Seq<BimJsonElement>) -> int
    decreases es.len(),
{
    if es.len() == 0 {
        -1
    } else {
        let m = max_zone_id_elems(es.drop_last());
        if is_zone_sign(es.last().sign) && es.last().id > m {
            es.last().id as int
        } else {
            m
        }
    }
}

pub open spec fn max_zone_id(ls: Seq<BimJsonLevel>) -> int
    decreases ls.len(),
{
    if ls.len() == 0 {
        -1
    } else {
        let m = max_zone_id(ls.drop_last());
        let ml = max_zone_id_elems(ls.last().build_elements@);
        if ml > m {
            ml
        } else {
            m
        }
    }
}

/// Total number of people over the Room and Staircase elements, in persons.
pub open spec fn people_elems(es: Seq<BimJsonElement>) -> int
    decreases es.len(),
{
    if es.len() == 0 {
        0
    } else {
        people_elems(es.drop_last()) + (if is_zone_sign(es.last().sign) {
            es.last().number_of_people as int
        } else {
            0
        })
    }
}

pub open spec fn people_total(ls: Seq<BimJsonLevel>) -> int
    decreases ls.len(),
{
    if ls.len() == 0 {
        0
    } else {
        people_total(ls.drop_last()) + people_elems(ls.last().build_elements@)
    }
}

/// Machine limits on the raw description: bounded counts, bounded ids and
/// populations, coordinates in range.
pub open spec fn elem_wf(e: BimJsonElement) -> bool {
    &&& e.number_of_people <= ELEMENT_POP_MAX
    &&& e.id <= 1_000_000_000_000_000_000
    &&& e.polygon.points@.len() <= MAX_POLYGON_POINTS
    &&& forall|k: int| 0 <= k < e.polygon.points@.len() ==> in_range(#[trigger] e.polygon.points@[k])
}

pub open spec fn level_wf(l: BimJsonLevel) -> bool {
    &&& l.build_elements@.len() <= MAX_ELEMENTS_PER_LEVEL
    &&& forall|k: int| 0 <= k < l.build_elements@.len() ==> elem_wf(#[trigger] l.build_elements@[k])
}

pub open spec fn json_wf(j: BimJsonObject) -> bool {
    &&& j.levels@.len() <= MAX_LEVELS
    &&& forall|k: int| 0 <= k < j.levels@.len() ==> level_wf(#[trigger] j.levels@[k])
}

/// Builds the synthetic outside zone: a safe, infinitely large sink whose
/// inputs are all the `DoorWayOut` doorways of the building, with an id one
/// greater than the largest real zone id.  With no `DoorWayOut` at all the
/// building has no exit.
///
/// The outside zone has no geometry: its polygon is empty, its area is the
/// `AREA_OUTSIDE` sentinel, and its height and level (dead fields of an
/// unbounded region) are zero rather than a floating-point infinity.
pub fn outside_init_rust(bim_json: &BimJsonObject) -> (r: Result<BimZone, BimError>)
    requires
        json_wf(*bim_json),
    ensures
        r is Ok <==> exit_uuids(bim_json.levels@).len() > 0,
        r is Err ==> r == Err::<BimZone, BimError>(BimError::NoExit),
        r is Ok ==> (r->Ok_0.outputs@ == exit_uuids(bim_json.levels@) && r->Ok_0.id as int
            == max_zone_id(bim_json.levels@) + 1 && r->Ok_0.sign == BimElementSign::Outside
            && r->Ok_0.is_safe && !r->Ok_0.is_visited && !r->Ok_0.is_blocked && r->Ok_0.area
            == AREA_OUTSIDE && r->Ok_0.potential == 0 && r->Ok_0.number_of_people == 0
            && r->Ok_0.uuid == 0 && r->Ok_0.hazard_level == 0 && r->Ok_0.polygon.points@.len() == 0
            && r->Ok_0.size_z == 0 && r->Ok_0.z_level == 0 && r->Ok_0.name@ == "Outside"@),
{
    let mut outputs: Vec<u128> = Vec::new();
    let mut id_bound: u64 = 0;
    let levels = &bim_json.levels;
    let nl = levels.len();
    let mut li: usize = 0;
    while li < nl
        invariant
            0 <= li <= nl,
            nl == bim_json.levels@.len(),
            levels == &bim_json.levels,
            json_wf(*bim_json),
            outputs@ == exit_uuids(bim_json.levels@.take(li as int)),
            id_bound as int == max_zone_id(bim_json.levels@.take(li as int)) + 1,
            id_bound <= 1_000_000_000_000_000_001,
        decreases nl - li,
    {
        let level = &levels[li];
        let elems = &level.build_elements;
        let ne = elems.len();
        let mut ei: usize = 0;
        while ei < ne
            invariant
                0 <= ei <= ne,
                li < nl,
                nl == bim_json.levels@.len(),
                levels == &bim_json.levels,
                level == &bim_json.levels@[li as int],
                elems == &level.build_elements,
                ne == level.build_elements@.len(),
                json_wf(*bim_json),
                outputs@ == exit_uuids(bim_json.levels@.take(li as int)) + exit_uuids_elems(
                    level.build_elements@.take(ei as int),
                ),
                id_bound as int == if max_zone_id_elems(level.build_elements@.take(ei as int))
                    > max_zone_id(bim_json.levels@.take(li as int)) {
                    max_zone_id_elems(level.build_elements@.take(ei as int)) + 1
                } else {
                    max_zone_id(bim_json.levels@.take(li as int)) + 1
                },
                id_bound <= 1_000_000_000_000_000_001,
            decreases ne - ei,
        {
            let e = &elems[ei];
            proof {
                assert(level.build_elements@.take(ei as int + 1).drop_last() =~= level
                    .build_elements@.take(ei as int));
                assert(level.build_elements@.take(ei as int + 1).last() == level.build_elements@[ei
                    as int]);
                assert(elem_wf(level.build_elements@[ei as int]));
            }
            match e.sign {
                BimElementSign::DoorWayOut => {
                    outputs.push(e.uuid);
                },
                BimElementSign::Room | BimElementSign::Staircase => {
                    if e.id + 1 > id_bound {
                        id_bound = e.id + 1;
                    }
                },
                _ => {},
            }
            ei = ei + 1;
        }
        proof {
            assert(bim_json.levels@.take(li as int + 1).drop_last() =~= bim_json.levels@.take(
                li as int,
            ));
            assert(bim_json.levels@.take(li as int + 1).last() == bim_json.levels@[li as int]);
            assert(level.build_elements@.take(ne as int) =~= level.build_elements@);
        }
        li = li + 1;
    }
    proof {
        assert(bim_json.levels@.take(nl as int) =~= bim_json.levels@);
    }
    if outputs.len() == 0 {
        return Err(BimError::NoExit);
    }
    Ok(
        BimZone {
            uuid: 0,
            id: id_bound,
            name: String::from_str("Outside"),
            polygon: Polygon { points: Vec::new() },
            outputs,
            size_z: 0,
            z_level: 0,
            number_of_people: 0,
            potential: 0,
            area: AREA_OUTSIDE,
            hazard_level: 0,
            sign: BimElementSign::Outside,
            is_visited: false,
            is_blocked: false,
            is_safe: true,
        },
    )
}

fn clone_u128s(v: &Vec<u128>) -> (r: Vec<u128>)
    ensures
        r@ == v@,
{
    let mut r: Vec<u128> = Vec::new();
    let n = v.len();
    let mut i: usize = 0;
    while i < n
        invariant
            0 <= i <= n,
            n == v@.len(),
            r@ == v@.take(i as int),
        decreases n - i,
    {
        r.push(v[i]);
        proof {
            assert(r@ =~= v@.take(i as int + 1));
        }
        i = i + 1;
    }
    proof {
        assert(v@.take(n as int) =~= v@);
    }
    r
}

fn clone_points(v: &Vec<Point>) -> (r: Vec<Point>)
    ensures
        r@ == v@,
{
    let mut r: Vec<Point> = Vec::new();
    let n = v.len();
    let mut i: usize = 0;
    while i < n
        invariant
            0 <= i <= n,
            n == v@.len(),
            r@ == v@.take(i as int),
        decreases n - i,
    {
        r.push(v[i]);
        proof {
            assert(r@ =~= v@.take(i as int + 1));
        }
        i = i + 1;
    }
    proof {
        assert(v@.take(n as int) =~= v@);
    }
    r
}

/// The built zone carries the element's identity, geometry and people,
/// its potential at the unreached sentinel and all flags clear.
pub open spec fn zone_corresponds(z: BimZone, e: BimJsonElement) -> bool {
    &&& z.uuid == e.uuid
    &&& z.id == e.id
    &&& z.name@ == e.name@
    &&& z.sign == e.sign
    &&& z.polygon.points@ == e.polygon.points@
    &&& z.outputs@ == e.outputs@
    &&& z.size_z == e.size_z
    &&& z.z_level == e.z_level
    &&& z.number_of_people as int == e.number_of_people * 1000
    &&& z.area == polygon_area_spec(e.polygon.points@)
    &&& z.potential == POTENTIAL_INF
    &&& z.hazard_level == 0
    &&& !z.is_visited
    &&& !z.is_blocked
    &&& !z.is_safe
}

/// The built transit carries the element's identity and geometry, no
/// throughput yet, and a width still to be derived.
pub open spec fn transit_corresponds(t: BimTransit, e: BimJsonElement) -> bool {
    &&& t.uuid == e.uuid
    &&& t.id == e.id
    &&& t.name@ == e.name@
    &&& t.sign == e.sign
    &&& t.polygon.points@ == e.polygon.points@
    &&& t.outputs@ == e.outputs@
    &&& t.size_z == e.size_z
    &&& t.z_level == e.z_level
    &&& t.no_proceeding == 0
    &&& !t.is_visited
    &&& !t.is_blocked
}

/// Every Room or Staircase element has a valid polygon with positive area.
pub open spec fn zone_geo_ok(ls: Seq<BimJsonLevel>) -> bool {
    forall|li: int, ei: int|
        0 <= li < ls.len() && 0 <= ei < ls[li].build_elements@.len() && is_zone_sign(
            (#[trigger] ls[li].build_elements@[ei]).sign,
        ) ==> valid_polygon(ls[li].build_elements@[ei].polygon.points@) && polygon_area_spec(
            ls[li].build_elements@[ei].polygon.points@,
        ) >= 1
}

/// A built zone is sound: it comes from some Room or Staircase element of
/// the description, is well formed, and its id is within the real-zone ids.
pub open spec fn built_zone_ok(z: BimZone, ls: Seq<BimJsonLevel>) -> bool {
    &&& exists|li: int, ei: int|
        0 <= li < ls.len() && 0 <= ei < ls[li].build_elements@.len() && is_zone_sign(
            (#[trigger] ls[li].build_elements@[ei]).sign,
        ) && zone_corresponds(z, ls[li].build_elements@[ei])
    &&& zone_wf(z)
    &&& z.id <= max_zone_id(ls)
    &&& z.sign != BimElementSign::Outside
}

pub open spec fn built_transit_ok(t: BimTransit, ls: Seq<BimJsonLevel>) -> bool {
    &&& exists|li: int, ei: int|
        0 <= li < ls.len() && 0 <= ei < ls[li].build_elements@.len() && is_transit_sign(
            (#[trigger] ls[li].build_elements@[ei]).sign,
        ) && transit_corresponds(t, ls[li].build_elements@[ei])
    &&& is_transit_sign(t.sign)
}

fn make_zone(e: &BimJsonElement) -> (r: Result<BimZone, BimError>)
    requires
        elem_wf(*e),
        is_zone_sign(e.sign),
    ensures
        r is Ok <==> valid_polygon(e.polygon.points@) && polygon_area_spec(e.polygon.points@) >= 1,
        r is Ok ==> zone_corresponds(r->Ok_0, *e) && zone_wf(r->Ok_0),
        r is Err ==> r == Err::<BimZone, BimError>(BimError::GeometryError),
{
    let polygon = Polygon { points: clone_points(&e.polygon.points) };
    if !check_polygon(&polygon) {
        return Err(BimError::GeometryError);
    }
    let area = polygon.area();
    if area < 1 {
        return Err(BimError::GeometryError);
    }
    Ok(
        BimZone {
            uuid: e.uuid,
            id: e.id,
            name: e.name.clone(),
            polygon,
            outputs: clone_u128s(&e.outputs),
            size_z: e.size_z,
            z_level: e.z_level,
            number_of_people: e.number_of_people * 1000,
            potential: POTENTIAL_INF,
            area,
            hazard_level: 0,
            sign: e.sign,
            is_visited: false,
            is_blocked: false,
            is_safe: false,
        },
    )
}

fn make_transit(e: &BimJsonElement) -> (t: BimTransit)
    requires
        elem_wf(*e),
        is_transit_sign(e.sign),
    ensures
        transit_corresponds(t, *e),
        t.sign == e.sign,
        t.width == 0,
{
    BimTransit {
        uuid: e.uuid,
        id: e.id,
        name: e.name.clone(),
        outputs: clone_u128s(&e.outputs),
        polygon: Polygon { points: clone_points(&e.polygon.points) },
        size_z: e.size_z,
        z_level: e.z_level,
        width: 0,
        no_proceeding: 0,
        sign: e.sign,
        is_visited: false,
        is_blocked: false,
    }
}

fn zones_have_dup_key(zs: &Vec<BimZone>) -> (r: bool)
    ensures
        r == exists|i: int, j: int|
            0 <= i < j < zs@.len() && ((#[trigger] zs@[i]).uuid == (#[trigger] zs@[j]).uuid
                || zs@[i].id == zs@[j].id),
{
    let n = zs.len();
    let mut i: usize = 0;
    while i < n
        invariant
            0 <= i <= n,
            n == zs@.len(),
            forall|a: int, b: int|
                0 <= a < b < n && a < i ==> (#[trigger] zs@[a]).uuid != (#[trigger] zs@[b]).uuid
                    && zs@[a].id != zs@[b].id,
        decreases n - i,
    {
        let mut j: usize = i + 1;
        while j < n
            invariant
                0 <= i < j <= n,
                n == zs@.len(),
                forall|b: int|
                    i < b < j ==> (#[trigger] zs@[b]).uuid != zs@[i as int].uuid && zs@[b].id
                        != zs@[i as int].id,
            decreases n - j,
        {
            if zs[j].uuid == zs[i].uuid || zs[j].id == zs[i].id {
                return true;
            }
            j = j + 1;
        }
        i = i + 1;
    }
    false
}

fn transits_have_dup_key(ts: &Vec<BimTransit>) -> (r: bool)
    ensures
        r == exists|i: int, j: int|
            0 <= i < j < ts@.len() && ((#[trigger] ts@[i]).uuid == (#[trigger] ts@[j]).uuid
                || ts@[i].id == ts@[j].id),
{
    let n = ts.len();
    let mut i: usize = 0;
    while i < n
        invariant
            0 <= i <= n,
            n == ts@.len(),
            forall|a: int, b: int|
                0 <= a < b < n && a < i ==> (#[trigger] ts@[a]).uuid != (#[trigger] ts@[b]).uuid
                    && ts@[a].id != ts@[b].id,
        decreases n - i,
    {
        let mut j: usize = i + 1;
        while j < n
            invariant
                0 <= i < j <= n,
                n == ts@.len(),
                forall|b: int|
                    i < b < j ==> (#[trigger] ts@[b]).uuid != ts@[i as int].uuid && ts@[b].id
                        != ts@[i as int].id,
            decreases n - j,
        {
            if ts[j].uuid == ts[i].uuid || ts[j].id == ts[i].id {
                return true;
            }
            j = j + 1;
        }
        i = i + 1;
    }
    false
}

fn cross_uuid_dup(zs: &Vec<BimZone>, ts: &Vec<BimTransit>) -> (r: bool)
    ensures
        r == exists|i: int, j: int|
            0 <= i < zs@.len() && 0 <= j < ts@.len() && (#[trigger] zs@[i]).uuid == (
            #[trigger] ts@[j]).uuid,
{
    let n = zs.len();
    let m = ts.len();
    let mut i: usize = 0;
    while i < n
        invariant
            0 <= i <= n,
            n == zs@.len(),
            m == ts@.len(),
            forall|a: int, b: int|
                0 <= a < i && 0 <= b < m ==> (#[trigger] zs@[a]).uuid != (#[trigger] ts@[b]).uuid,
        decreases n - i,
    {
        let mut j: usize = 0;
        while j < m
            invariant
                0 <= i < n,
                0 <= j <= m,
                n == zs@.len(),
                m == ts@.len(),
                forall|b: int| 0 <= b < j ==> zs@[i as int].uuid != (#[trigger] ts@[b]).uuid,
            decreases m - j,
        {
            if zs[i].uuid == ts[j].uuid {
                return true;
            }
            j = j + 1;
        }
        i = i + 1;
    }
    false
}

/// Number of Room and Staircase elements among the first of a level's list.
pub open spec fn zone_count_elems(es: Seq<BimJsonElement>) -> int
    decreases es.len(),
{
    if es.len() == 0 {
        0
    } else {
        zone_count_elems(es.drop_last()) + (if is_zone_sign(es.last().sign) {
            1int
        } else {
            0int
        })
    }
}

pub open spec fn zone_count(ls: Seq<BimJsonLevel>) -> int
    decreases ls.len(),
{
    if ls.len() == 0 {
        0
    } else {
        zone_count(ls.drop_last()) + zone_count_elems(ls.last().build_elements@)
    }
}

pub open spec fn transit_count_elems(es: Seq<BimJsonElement>) -> int
    decreases es.len(),
{
    if es.len() == 0 {
        0
    } else {
        transit_count_elems(es.drop_last()) + (if is_transit_sign(es.last().sign) {
            1int
        } else {
            0int
        })
    }
}

pub open spec fn transit_count(ls: Seq<BimJsonLevel>) -> int
    decreases ls.len(),
{
    if ls.len() == 0 {
        0
    } else {
        transit_count(ls.drop_last()) + transit_count_elems(ls.last().build_elements@)
    }
}

/// What the classification stage hands to the width stage: one zone per Room
/// or Staircase element plus the outside zone last, sorted by id, and one
/// transit (width still zero) per doorway element, sorted by id.
pub open spec fn classified_witness(
    ls: Seq<BimJsonLevel>,
    zs: Seq<BimZone>,
    ts: Seq<BimTransit>,
) -> bool {
    &&& zs.len() == zone_count(ls) + 1
    &&& ts.len() == transit_count(ls)
    &&& zones_sorted(zs)
    &&& transits_sorted(ts)
    &&& forall|i: int| 0 <= i < zs.len() - 1 ==> built_zone_ok(#[trigger] zs[i], ls)
    &&& zs.last().sign == BimElementSign::Outside
    &&& zs.last().is_safe
    &&& zs.last().area == AREA_OUTSIDE
    &&& zs.last().outputs@ == exit_uuids(ls)
    &&& zs.last().id as int == max_zone_id(ls) + 1
    &&& forall|j: int| 0 <= j < ts.len() ==> built_transit_ok(#[trigger] ts[j], ls) && ts[j].width
        == 0
}

proof fn lemma_max_elems_ge(es: Seq<BimJsonElement>, ei: int)
    requires
        0 <= ei < es.len(),
        is_zone_sign(es[ei].sign),
    ensures
        es[ei].id <= max_zone_id_elems(es),
    decreases es.len(),
{
    if ei == es.len() - 1 {
    } else {
        lemma_max_elems_ge(es.drop_last(), ei);
        assert(es.drop_last()[ei] == es[ei]);
    }
}

proof fn lemma_max_levels_ge(ls: Seq<BimJsonLevel>, li: int, ei: int)
    requires
        0 <= li < ls.len(),
        0 <= ei < ls[li].build_elements@.len(),
        is_zone_sign(ls[li].build_elements@[ei].sign),
    ensures
        ls[li].build_elements@[ei].id <= max_zone_id(ls),
    decreases ls.len(),
{
    if li == ls.len() - 1 {
        lemma_max_elems_ge(ls[li].build_elements@, ei);
    } else {
        lemma_max_levels_ge(ls.drop_last(), li, ei);
        assert(ls.drop_last()[li] == ls[li]);
    }
}

/// Builds the full building model from the raw description: classifies the
/// elements of every level, synthesizes the outside zone, sorts the flat
/// lists by id, and derives every doorway width.
///
/// Success pins the whole structure: each real zone carries the data of one
/// Room or Staircase element of the description, the outside zone collects
/// all exits, and every transit's width satisfies `transit_width_spec`.  The
/// total population is the described population, in thousandths.
pub fn bim_tools_new_rust(bim_json: &BimJsonObject) -> (r: Result<Bim, BimError>)
    requires
        json_wf(*bim_json),
    ensures
        r == Err::<Bim, BimError>(BimError::NoExit) <==> zone_geo_ok(bim_json.levels@)
            && exit_uuids(bim_json.levels@).len() == 0,
        !zone_geo_ok(bim_json.levels@) ==> r == Err::<Bim, BimError>(BimError::GeometryError),
        r == Err::<Bim, BimError>(BimError::DuplicateId) ==> zone_geo_ok(bim_json.levels@)
            && exit_uuids(bim_json.levels@).len() > 0,
        (r is Err && r != Err::<Bim, BimError>(BimError::NoExit) && r != Err::<Bim, BimError>(
            BimError::DuplicateId,
        ) && zone_geo_ok(bim_json.levels@)) ==> (exists|zs: Seq<BimZone>, ts: Seq<BimTransit>|
            #[trigger] classified_witness(bim_json.levels@, zs, ts) && widths_result(
                zs,
                ts,
                ts.len() as int,
            ) == Err::<(), BimError>(r->Err_0)),
        r is Ok ==> {
            let b = r->Ok_0;
            &&& b.wf()
            &&& total_pop(b.zones@) == people_total(bim_json.levels@) * 1000
            &&& b.zones@.len() >= 1
            &&& b.zones@.last().sign == BimElementSign::Outside
            &&& b.zones@.last().is_safe
            &&& b.zones@.last().area == AREA_OUTSIDE
            &&& b.zones@.last().number_of_people == 0
            &&& b.zones@.last().outputs@ == exit_uuids(bim_json.levels@)
            &&& b.zones@.last().id as int == max_zone_id(bim_json.levels@) + 1
            &&& b.zones@.last().potential == 0
            &&& b.zones@.last().polygon.points@.len() == 0
            &&& b.zones@.last().uuid == 0
            &&& b.zones@.last().name@ == "Outside"@
            &&& !b.zones@.last().is_visited
            &&& forall|i: int|
                0 <= i < b.zones@.len() - 1 ==> built_zone_ok(#[trigger] b.zones@[i], bim_json.levels@)
            &&& forall|j: int|
                0 <= j < b.transits@.len() ==> built_transit_ok(
                    with_width(#[trigger] b.transits@[j], 0),
                    bim_json.levels@,
                )
            &&& forall|j: int|
                0 <= j < b.transits@.len() ==> transit_width_spec(b.zones@, #[trigger] b.transits@[j])
                    == Ok::<int, BimError>(b.transits@[j].width as int)
            &&& b.zones@.len() == zone_count(bim_json.levels@) + 1
            &&& b.transits@.len() == transit_count(bim_json.levels@)
            &&& classified_witness(
                bim_json.levels@,
                b.zones@,
                b.transits@.map_values(|t: BimTransit| with_width(t, 0)),
            )
            &&& b.evacuation_modeling_step == EVACUATION_MODELING_STEP
            &&& b.evacuation_modeling_max_speed == EVACUATION_MODELING_MAX_SPEED
            &&& b.evacuation_time_in_minutes == 0
            &&& b.levels@.len() == bim_json.levels@.len()
            &&& forall|li: int|
                0 <= li < b.levels@.len() ==> {
                    let lv = #[trigger] b.levels@[li];
                    &&& lv.name@ == bim_json.levels@[li].name@
                    &&& lv.z_level == bim_json.levels@[li].z_level
                    &&& lv.zones@.len() == zone_count_elems(bim_json.levels@[li].build_elements@)
                    &&& lv.transits@.len() == transit_count_elems(
                        bim_json.levels@[li].build_elements@,
                    )
                    &&& forall|k: int|
                        0 <= k < lv.zones@.len() ==> built_zone_ok(#[trigger] lv.zones@[k], bim_json.levels@)
                }
            &&& b.name@ == bim_json.building_name@
        },
{
    let ghost ls = bim_json.levels@;
    let mut zones_list: Vec<BimZone> = Vec::new();
    let mut transits_list: Vec<BimTransit> = Vec::new();
    let mut levels_list: Vec<BimLevel> = Vec::new();
    let nl = bim_json.levels.len();
    let mut li: usize = 0;
    while li < nl
        invariant
            0 <= li <= nl,
            nl == ls.len(),
            ls == bim_json.levels@,
            json_wf(*bim_json),
            forall|k: int| 0 <= k < zones_list@.len() ==> built_zone_ok(#[trigger] zones_list@[k], ls),
            forall|k: int|
                0 <= k < transits_list@.len() ==> built_transit_ok(
                    #[trigger] transits_list@[k],
                    ls,
                ) && transits_list@[k].width == 0,
            total_pop(zones_list@) == people_total(ls.take(li as int)) * 1000,
            zones_list@.len() == zone_count(ls.take(li as int)),
            transits_list@.len() == transit_count(ls.take(li as int)),
            zones_list@.len() + transits_list@.len() <= li * MAX_ELEMENTS_PER_LEVEL,
            total_pop(zones_list@) <= zones_list@.len() * 1000 * ELEMENT_POP_MAX,
            levels_list@.len() == li,
            forall|li2: int|
                0 <= li2 < li ==> {
                    let lv = #[trigger] levels_list@[li2];
                    &&& lv.name@ == ls[li2].name@
                    &&& lv.z_level == ls[li2].z_level
                    &&& lv.zones@.len() == zone_count_elems(ls[li2].build_elements@)
                    &&& lv.transits@.len() == transit_count_elems(ls[li2].build_elements@)
                    &&& forall|k: int|
                        0 <= k < lv.zones@.len() ==> built_zone_ok(#[trigger] lv.zones@[k], ls)
                },
            forall|li2: int, ei2: int|
                0 <= li2 < li && 0 <= ei2 < ls[li2].build_elements@.len() && is_zone_sign(
                    (#[trigger] ls[li2].build_elements@[ei2]).sign,
                ) ==> valid_polygon(ls[li2].build_elements@[ei2].polygon.points@)
                    && polygon_area_spec(ls[li2].build_elements@[ei2].polygon.points@) >= 1,
        decreases nl - li,
    {
        let level = &bim_json.levels[li];
        let ne = level.build_elements.len();
        let mut level_zones: Vec<BimZone> = Vec::new();
        let mut level_transits: Vec<BimTransit> = Vec::new();
        let mut ei: usize = 0;
        while ei < ne
            invariant
                0 <= ei <= ne,
                0 <= li < nl,
                nl == ls.len(),
                ls == bim_json.levels@,
                level == &bim_json.levels@[li as int],
                ne == level.build_elements@.len(),
                json_wf(*bim_json),
                forall|k: int|
                    0 <= k < zones_list@.len() ==> built_zone_ok(#[trigger] zones_list@[k], ls),
                forall|k: int|
                    0 <= k < transits_list@.len() ==> built_transit_ok(
                        #[trigger] transits_list@[k],
                        ls,
                    ) && transits_list@[k].width == 0,
                total_pop(zones_list@) == (people_total(ls.take(li as int)) + people_elems(
                    level.build_elements@.take(ei as int),
                )) * 1000,
                zones_list@.len() == zone_count(ls.take(li as int)) + zone_count_elems(
                    level.build_elements@.take(ei as int),
                ),
                transits_list@.len() == transit_count(ls.take(li as int)) + transit_count_elems(
                    level.build_elements@.take(ei as int),
                ),
                level_zones@.len() == zone_count_elems(level.build_elements@.take(ei as int)),
                level_transits@.len() == transit_count_elems(
                    level.build_elements@.take(ei as int),
                ),
                forall|k: int|
                    0 <= k < level_zones@.len() ==> built_zone_ok(#[trigger] level_zones@[k], ls),
                zones_list@.len() + transits_list@.len() <= li * MAX_ELEMENTS_PER_LEVEL + ei,
                total_pop(zones_list@) <= zones_list@.len() * 1000 * ELEMENT_POP_MAX,
                forall|li2: int, ei2: int|
                    0 <= li2 < li && 0 <= ei2 < ls[li2].build_elements@.len() && is_zone_sign(
                        (#[trigger] ls[li2].build_elements@[ei2]).sign,
                    ) ==> valid_polygon(ls[li2].build_elements@[ei2].polygon.points@)
                        && polygon_area_spec(ls[li2].build_elements@[ei2].polygon.points@) >= 1,
                forall|ei2: int|
                    0 <= ei2 < ei && is_zone_sign((#[trigger] ls[li as int].build_elements@[ei2]).sign)
                        ==> valid_polygon(ls[li as int].build_elements@[ei2].polygon.points@)
                        && polygon_area_spec(ls[li as int].build_elements@[ei2].polygon.points@) >= 1,
            decreases ne - ei,
        {
            let e = &level.build_elements[ei];
            proof {
                assert(elem_wf(*e));
                assert(level.build_elements@.take(ei as int + 1).drop_last() =~= level
                    .build_elements@.take(ei as int));
                assert(level.build_elements@.take(ei as int + 1).last() == level.build_elements@[ei
                    as int]);
            }
            match e.sign {
                BimElementSign::Room | BimElementSign::Staircase => {
                    let zone = match make_zone(e) {
                        Ok(z) => z,
                        Err(err) => {
                            return Err(err);
                        },
                    };
                    let zone2 = match make_zone(e) {
                        Ok(z) => z,
                        Err(err) => {
                            return Err(err);
                        },
                    };
                    proof {
                        lemma_max_levels_ge(ls, li as int, ei as int);
                        assert(total_pop(zones_list@.push(zone)) == total_pop(zones_list@)
                            + zone.number_of_people) by {
                            assert(zones_list@.push(zone).drop_last() =~= zones_list@);
                        }
                    }
                    zones_list.push(zone);
                    level_zones.push(zone2);
                },
                BimElementSign::DoorWay | BimElementSign::DoorWayOut | BimElementSign::DoorWayIn => {
                    let transit = make_transit(e);
                    let transit2 = make_transit(e);
                    transits_list.push(transit);
                    level_transits.push(transit2);
                },
                _ => {},
            }
            ei = ei + 1;
        }
        proof {
            assert(ls.take(li as int + 1).drop_last() =~= ls.take(li as int));
            assert(ls.take(li as int + 1).last() == ls[li as int]);
            assert(level.build_elements@.take(ne as int) =~= level.build_elements@);
        }
        let bim_level = BimLevel {
            name: level.name.clone(),
            z_level: level.z_level,
            zones: level_zones,
            transits: level_transits,
        };
        levels_list.push(bim_level);
        li = li + 1;
    }
    proof {
        assert(ls.take(nl as int) =~= ls);
        assert(zone_geo_ok(ls));
    }
    let outside = outside_init_rust(bim_json)?;
    if zones_have_dup_key(&zones_list) || transits_have_dup_key(&transits_list) || cross_uuid_dup(
        &zones_list,
        &transits_list,
    ) {
        return Err(BimError::DuplicateId);
    }
    let mut zones_sorted_list = sort_zones_by_id(
        zones_list,
        Ghost(|z: BimZone| built_zone_ok(z, ls)),
    );
    proof {
        assert(zone_wf(outside));
        assert(total_pop(zones_sorted_list@.push(outside)) == total_pop(zones_sorted_list@)) by {
            assert(zones_sorted_list@.push(outside).drop_last() =~= zones_sorted_list@);
        }
    }
    zones_sorted_list.push(outside);
    let zones_final = zones_sorted_list;
    let transits_sorted_list = sort_transits_by_id(
        transits_list,
        Ghost(|t: BimTransit| built_transit_ok(t, ls) && t.width == 0),
    );
    let mut transits_final = transits_sorted_list;
    match calculate_transits_width(&zones_final, &mut transits_final) {
        Ok(()) => {},
        Err(e) => {
            proof {
                lemma_widths_error_kind(
                    zones_final@,
                    transits_final@,
                    transits_final@.len() as int,
                );
                assert forall|a: int, b: int|
                    0 <= a < b < zones_final@.len() implies zones_final@[a].id < zones_final@[b].id by {
                    if b == zones_final@.len() - 1 {
                        assert(built_zone_ok(zones_final@[a], ls));
                    }
                }
                assert(zones_final@.len() == zone_count(ls) + 1);
                assert(transits_final@.len() == transit_count(ls));
                assert(zones_sorted(zones_final@));
                assert(transits_sorted(transits_final@));
                assert(forall|i: int|
                    0 <= i < zones_final@.len() - 1 ==> built_zone_ok(
                        #[trigger] zones_final@[i],
                        ls,
                    ));
                assert(zones_final@.last().outputs@ == exit_uuids(ls));
                assert(forall|j: int|
                    0 <= j < transits_final@.len() ==> built_transit_ok(
                        #[trigger] transits_final@[j],
                        ls,
                    ) && transits_final@[j].width == 0);
                assert(classified_witness(ls, zones_final@, transits_final@));
                assert(widths_result(zones_final@, transits_final@, transits_final@.len() as int)
                    == Err::<(), BimError>(e));
            }
            return Err(e);
        },
    }
    let bim = Bim {
        levels: levels_list,
        name: bim_json.building_name.clone(),
        zones: zones_final,
        transits: transits_final,
        evacuation_modeling_step: EVACUATION_MODELING_STEP,
        evacuation_modeling_max_speed: EVACUATION_MODELING_MAX_SPEED,
        evacuation_time_in_minutes: 0,
    };
    proof {
        assert forall|j: int| 0 <= j < bim.transits@.len() implies transit_wf(
            bim.zones@,
            #[trigger] bim.transits@[j],
        ) by {
            let t = bim.transits@[j];
            assert(transit_width_spec(bim.zones@, t) == Ok::<int, BimError>(t.width as int));
            assert(1 <= t.outputs@.len() <= 2);
            assert forall|k: int| 0 <= k < t.outputs@.len() implies 0 <= #[trigger] find_zone_rec(
                bim.zones@,
                t.outputs@[k],
                0,
            ) < bim.zones@.len() by {
                lemma_find_zone_bounds(bim.zones@, t.outputs@[k], 0);
            }
        }
    }
    Ok(bim)
}

proof fn lemma_find_zone_bounds(zones: Seq<BimZone>, uuid: u128, i: int)
    requires
        0 <= i,
    ensures
        find_zone_rec(zones, uuid, i) == -1 || i <= find_zone_rec(zones, uuid, i) < zones.len(),
    decreases zones.len() - i,
{
    if i < zones.len() && zones[i].uuid != uuid {
        lemma_find_zone_bounds(zones, uuid, i + 1);
    }
}

/// Width derivation only fails with a topology or geometry error.
proof fn lemma_widths_error_kind(zones: Seq<BimZone>, ts: Seq<BimTransit>, k: int)
    requires
        widths_result(zones, ts, k) is Err,
    ensures
        widths_result(zones, ts, k)->Err_0 != BimError::NoExit,
        widths_result(zones, ts, k)->Err_0 != BimError::DuplicateId,
    decreases k,
{
    if k > 0 {
        if widths_result(zones, ts, k - 1) is Err {
            lemma_widths_error_kind(zones, ts, k - 1);
        }
    }
}

} // verus!
