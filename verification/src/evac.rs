//! The evacuation solver: a transport graph over the zones, a potential
//! field oriented toward the outside, and a discrete-time flow redistribution
//! that conserves people and only ever moves them down the potential.

use vstd::prelude::*;
use crate::model::Bim;
use crate::model::BimZone;
use crate::model::BimTransit;
use crate::model::BimElementSign;
use crate::model::DistributionState;
use crate::model::DistributionByTimeSteps;
use crate::model::ItemTimeStepData;
use crate::model::RoomTimeStepData;
use crate::model::EvacuationModelingResult;
use crate::model::total_pop;
use crate::model::inside_pop;
use crate::model::visited_inside_pop;
use crate::model::find_zone_rec;
use crate::model::zone_wf;
use crate::model::transit_wf;
use crate::model::zones_sorted;
use crate::model::transits_sorted;
use crate::model::lemma_pop_le_total;
use crate::model::lemma_total_pop_update;
use crate::model::lemma_total_pop_nonneg;
use crate::model::POTENTIAL_INF;
use crate::model::TOTAL_POP_MAX;
use crate::model::AREA_OUTSIDE;
use crate::model::WIDTH_MAX;
use crate::model::SPEED_MAX;
use crate::model::STEP_MAX;
use crate::builder::find_zone;
use crate::geometry::lemma_mul_bound;
use crate::isqrt;
use crate::geometry::isqrt_spec;
use crate::geometry::lemma_isqrt_exists;

verus! {

/// Density at which a zone is considered full, in thousandths of a person
/// per square metre.
pub const MAX_DENSITY: u64 = 5_000;

/// Upper bound on a zone-crossing time estimate, in thousandths of a minute.
pub const DELTA_CAP: u64 = 1_000_000_000_000_000;

/// One edge of the transport graph: a transit and its two endpoint zones,
/// as indices into the flat id-sorted lists.
pub struct BimGraphEdge {
    pub transit: usize,
    pub a: usize,
    pub b: usize,
}

/// The transport graph: one edge per transit, in transit order.
pub struct BimGraph {
    pub edges: Vec<BimGraphEdge>,
}

pub open spec fn graph_wf(g: BimGraph, nz: int, nt: int) -> bool {
    &&& g.edges@.len() == nt
    &&& forall|k: int|
        0 <= k < nt ==> (#[trigger] g.edges@[k]).transit == k && g.edges@[k].a < nz && g.edges@[k].b
            < nz
}

/// The zone index a transit output resolves to: the first zone that carries
/// the UUID, or the outside zone (last in the list) when none does.
pub open spec fn resolve_zone(zones: Seq<BimZone>, uuid: u128) -> int {
    if find_zone_rec(zones, uuid, 0) >= 0 {
        find_zone_rec(zones, uuid, 0)
    } else {
        zones.len() - 1
    }
}

/// Every graph edge joins transit `k` to the zones its outputs resolve to;
/// a single-output transit's other side is the outside zone.
pub open spec fn graph_resolved(g: BimGraph, zones: Seq<BimZone>, ts: Seq<BimTransit>) -> bool {
    forall|k: int|
        0 <= k < ts.len() ==> (#[trigger] g.edges@[k]).a == resolve_zone(zones, ts[k].outputs@[0])
            && g.edges@[k].b == (if ts[k].outputs@.len() == 2 {
            resolve_zone(zones, ts[k].outputs@[1])
        } else {
            zones.len() - 1
        })
}

/// Builds the transport graph: each transit's outputs are resolved to zone
/// indices once; a transit with a single output leads to the outside zone,
/// which is last in the flat list.
pub fn bim_graph_new(bim: &Bim) -> (g: BimGraph)
    requires
        bim.wf(),
    ensures
        graph_wf(g, bim.zones@.len() as int, bim.transits@.len() as int),
        graph_resolved(g, bim.zones@, bim.transits@),
{
    let nt = bim.transits.len();
    let outside_idx = bim.zones.len() - 1;
    let mut edges: Vec<BimGraphEdge> = Vec::new();
    let mut k: usize = 0;
    while k < nt
        invariant
            0 <= k <= nt,
            bim.wf(),
            nt == bim.transits@.len(),
            outside_idx == bim.zones@.len() - 1,
            edges@.len() == k,
            forall|j: int|
                0 <= j < k ==> (#[trigger] edges@[j]).transit == j && edges@[j].a
                    < bim.zones@.len() && edges@[j].b < bim.zones@.len(),
            forall|j: int|
                0 <= j < k ==> (#[trigger] edges@[j]).a == resolve_zone(
                    bim.zones@,
                    bim.transits@[j].outputs@[0],
                ) && edges@[j].b == (if bim.transits@[j].outputs@.len() == 2 {
                    resolve_zone(bim.zones@, bim.transits@[j].outputs@[1])
                } else {
                    bim.zones@.len() - 1
                }),
        decreases nt - k,
    {
        let t = &bim.transits[k];
        let a = match find_zone(&bim.zones, t.outputs[0]) {
            Some(i) => i,
            None => outside_idx,
        };
        let b = if t.outputs.len() == 2 {
            match find_zone(&bim.zones, t.outputs[1]) {
                Some(i) => i,
                None => outside_idx,
            }
        } else {
            outside_idx
        };
        edges.push(BimGraphEdge { transit: k, a, b });
        k = k + 1;
    }
    BimGraph { edges }
}

/// The zone is unchanged apart from its population, potential and visited
/// flag.
pub open spec fn zone_moved(a: BimZone, b: BimZone) -> bool {
    b == BimZone {
        number_of_people: b.number_of_people,
        potential: b.potential,
        is_visited: b.is_visited,
        ..a
    }
}

/// The transit is unchanged apart from its throughput and visited flag.
pub open spec fn transit_flowed(a: BimTransit, b: BimTransit) -> bool {
    b == BimTransit { no_proceeding: b.no_proceeding, is_visited: b.is_visited, ..a }
}

/// The state a flow pass starts from: the populations and flags of `z0`
/// under the freshly relaxed potentials of `zf`.
pub open spec fn with_potentials(z0: Seq<BimZone>, zf: Seq<BimZone>) -> Seq<BimZone> {
    Seq::new(z0.len(), |i: int| BimZone { potential: zf[i].potential, ..z0[i] })
}

/// The donor endpoint of an edge: the one with the strictly higher
/// potential (callers treat a level edge as carrying no flow).
pub open spec fn edge_donor(zones: Seq<BimZone>, e: BimGraphEdge) -> int {
    if zones[e.a as int].potential > zones[e.b as int].potential {
        e.a as int
    } else {
        e.b as int
    }
}

pub open spec fn edge_receiver(zones: Seq<BimZone>, e: BimGraphEdge) -> int {
    if zones[e.a as int].potential > zones[e.b as int].potential {
        e.b as int
    } else {
        e.a as int
    }
}

/// The people moved across one transit in one step: the least of the
/// donor's population, the receiver's remaining capacity
/// `(max density - density) * area`, and the doorway's carrying capacity
/// `width * speed * step`, throttled linearly as the donor grows denser.
/// Nothing moves across a blocked or level edge.
pub open spec fn edge_flow(
    zones: Seq<BimZone>,
    ts: Seq<BimTransit>,
    e: BimGraphEdge,
    step: u64,
    v: u64,
) -> int {
    let pa = zones[e.a as int].potential;
    let pb = zones[e.b as int].potential;
    if pa == pb || zones[e.a as int].is_blocked || zones[e.b as int].is_blocked || ts[e.transit
        as int].is_blocked {
        0
    } else {
        let di = edge_donor(zones, e);
        let ri = edge_receiver(zones, e);
        let dpop = zones[di].number_of_people as int;
        let rpop = zones[ri].number_of_people as int;
        let darea = zones[di].area as int;
        let rarea = zones[ri].area as int;
        let w = ts[e.transit as int].width as int;
        let d_dens = dpop * 1000 / darea;
        let r_dens = rpop * 1000 / rarea;
        let r_dens_c = if r_dens > MAX_DENSITY as int {
            MAX_DENSITY as int
        } else {
            r_dens
        };
        let d_dens_c = if d_dens > MAX_DENSITY as int {
            MAX_DENSITY as int
        } else {
            d_dens
        };
        let rcap = (MAX_DENSITY as int - r_dens_c) * rarea / 1000;
        let capc = w * (v as int) * (step as int) * (2 * MAX_DENSITY as int - d_dens_c) / (2
            * MAX_DENSITY as int * 1_000_000);
        let f1 = if rcap < capc {
            rcap
        } else {
            capc
        };
        if dpop < f1 {
            dpop
        } else {
            f1
        }
    }
}

/// One edge's effect on the state: the flow leaves the donor, enters the
/// receiver, accrues on the transit, and marks all three visited when it is
/// positive; the throughput counter stops at an unreachably large cap so
/// that it cannot overflow.
pub open spec fn flow_applied(
    zones: Seq<BimZone>,
    ts: Seq<BimTransit>,
    e: BimGraphEdge,
    step: u64,
    v: u64,
) -> (Seq<BimZone>, Seq<BimTransit>) {
    let f = edge_flow(zones, ts, e, step, v);
    if f <= 0 {
        (zones, ts)
    } else {
        let di = edge_donor(zones, e);
        let ri = edge_receiver(zones, e);
        let ti = e.transit as int;
        let z1 = zones.update(
            di,
            BimZone {
                number_of_people: (zones[di].number_of_people - f) as u64,
                is_visited: true,
                ..zones[di]
            },
        );
        let z2 = z1.update(
            ri,
            BimZone {
                number_of_people: (zones[ri].number_of_people + f) as u64,
                is_visited: true,
                ..zones[ri]
            },
        );
        let t1 = ts.update(
            ti,
            BimTransit {
                no_proceeding: if ts[ti].no_proceeding
                    <= 100_000_000_000_000_000_000_000_000_000 {
                    (ts[ti].no_proceeding + f) as u128
                } else {
                    ts[ti].no_proceeding
                },
                is_visited: true,
                ..ts[ti]
            },
        );
        (z2, t1)
    }
}

/// The state after the first `k` edges have carried their flow, in edge
/// (that is, transit id) order: each edge sees the populations the ones
/// before it left behind.
pub open spec fn flows_upto(
    zones: Seq<BimZone>,
    ts: Seq<BimTransit>,
    edges: Seq<BimGraphEdge>,
    k: int,
    step: u64,
    v: u64,
) -> (Seq<BimZone>, Seq<BimTransit>)
    decreases k,
{
    if k <= 0 {
        (zones, ts)
    } else {
        let s = flows_upto(zones, ts, edges, k - 1, step, v);
        flow_applied(s.0, s.1, edges[k - 1], step, v)
    }
}

/// Estimated time to cross a zone toward a doorway, in thousandths of a
/// minute: walking the zone's diameter plus draining its area through the
/// doorway, at the top speed `v`.
fn crossing_delta(area: u64, width: u64, v: u64) -> (r: u64)
    requires
        1 <= width,
        1 <= v,
        area <= AREA_OUTSIDE,
    ensures
        1 <= r <= DELTA_CAP,
{
    let side = isqrt(if area > 200_000_000_000_000_000 {
        200_000_000_000_000_000
    } else {
        area.checked_mul(1000).unwrap_or(200_000_000_000_000_000)
    });
    let drain: u128 = (area as u128) * 1000 / (width as u128);
    let num: u128 = ((side as u128) + drain) * 1000 / (v as u128);
    let capped: u64 = if num > (DELTA_CAP as u128) {
        DELTA_CAP
    } else {
        num as u64
    };
    if capped < 1 {
        1
    } else {
        capped
    }
}

/// Recomputes the potential field: safe zones sit at zero, and every other
/// zone relaxes toward the smallest neighbouring potential plus its own
/// crossing time, over as many rounds as there are zones.
fn compute_potentials(
    graph: &BimGraph,
    zones: &mut Vec<BimZone>,
    transits: &Vec<BimTransit>,
    v: u64,
)
    requires
        graph_wf(*graph, old(zones)@.len() as int, transits@.len() as int),
        forall|i: int| 0 <= i < old(zones)@.len() ==> zone_wf(#[trigger] old(zones)@[i]),
        forall|j: int| 0 <= j < transits@.len() ==> 1 <= (#[trigger] transits@[j].width),
        1 <= v,
    ensures
        final(zones)@.len() == old(zones)@.len(),
        forall|i: int|
            0 <= i < old(zones)@.len() ==> zone_potential_set(
                old(zones)@[i],
                #[trigger] final(zones)@[i],
            ),
{
    let nz = zones.len();
    let mut i: usize = 0;
    while i < nz
        invariant
            0 <= i <= nz,
            nz == zones@.len(),
            forall|k: int| 0 <= k < nz ==> zone_wf(#[trigger] old(zones)@[k]),
            forall|k: int|
                i <= k < nz ==> (#[trigger] zones@[k]) == old(zones)@[k],
            forall|k: int|
                0 <= k < i ==> zone_potential_set(old(zones)@[k], #[trigger] zones@[k]),
        decreases nz - i,
    {
        if zones[i].is_safe {
            zones[i].potential = 0;
        } else {
            zones[i].potential = POTENTIAL_INF;
        }
        i = i + 1;
    }
    let ne = graph.edges.len();
    let mut round: usize = 0;
    while round < nz
        invariant
            0 <= round <= nz,
            nz == zones@.len(),
            ne == graph.edges@.len(),
            graph_wf(*graph, nz as int, transits@.len() as int),
            forall|k: int| 0 <= k < nz ==> zone_wf(#[trigger] old(zones)@[k]),
            forall|j: int| 0 <= j < transits@.len() ==> 1 <= (#[trigger] transits@[j].width),
            1 <= v,
            forall|k: int|
                0 <= k < nz ==> zone_potential_set(old(zones)@[k], #[trigger] zones@[k]),
        decreases nz - round,
    {
        let mut k: usize = 0;
        while k < ne
            invariant
                0 <= k <= ne,
                nz == zones@.len(),
                ne == graph.edges@.len(),
                graph_wf(*graph, nz as int, transits@.len() as int),
                forall|q: int| 0 <= q < nz ==> zone_wf(#[trigger] old(zones)@[q]),
                forall|j: int| 0 <= j < transits@.len() ==> 1 <= (#[trigger] transits@[j].width),
                1 <= v,
                forall|q: int|
                    0 <= q < nz ==> zone_potential_set(old(zones)@[q], #[trigger] zones@[q]),
            decreases ne - k,
        {
            let e = &graph.edges[k];
            let w = transits[e.transit].width;
            let ai = e.a;
            let bi = e.b;
            if !zones[ai].is_blocked && !zones[bi].is_blocked && !transits[e.transit].is_blocked {
                let da = crossing_delta(zones[ai].area, w, v);
                if zones[bi].potential <= POTENTIAL_INF - da {
                    let cand = zones[bi].potential + da;
                    if cand < zones[ai].potential && !zones[ai].is_safe {
                        zones[ai].potential = cand;
                    }
                }
                let db = crossing_delta(zones[bi].area, w, v);
                if zones[ai].potential <= POTENTIAL_INF - db {
                    let cand = zones[ai].potential + db;
                    if cand < zones[bi].potential && !zones[bi].is_safe {
                        zones[bi].potential = cand;
                    }
                }
            }
            k = k + 1;
        }
        round = round + 1;
    }
}

/// The zone is unchanged apart from its potential, which is zero exactly on
/// safe zones and positive elsewhere.
pub open spec fn zone_potential_set(a: BimZone, b: BimZone) -> bool {
    &&& b == BimZone { potential: b.potential, ..a }
    &&& b.is_safe ==> b.potential == 0
    &&& !b.is_safe ==> 1 <= b.potential
    &&& b.potential <= POTENTIAL_INF
}

proof fn lemma_two_pops_le_total(zones: Seq<BimZone>, i: int, j: int)
    requires
        0 <= i < zones.len(),
        0 <= j < zones.len(),
        i != j,
    ensures
        zones[i].number_of_people + zones[j].number_of_people <= total_pop(zones),
    decreases zones.len(),
{
    lemma_total_pop_nonneg(zones);
    if i == zones.len() - 1 {
        lemma_pop_le_total(zones.drop_last(), j);
        assert(zones.drop_last()[j] == zones[j]);
    } else if j == zones.len() - 1 {
        lemma_pop_le_total(zones.drop_last(), i);
        assert(zones.drop_last()[i] == zones[i]);
    } else {
        lemma_two_pops_le_total(zones.drop_last(), i, j);
        assert(zones.drop_last()[i] == zones[i] && zones.drop_last()[j] == zones[j]);
    }
}

proof fn lemma_total_pop_pointwise(a: Seq<BimZone>, b: Seq<BimZone>)
    requires
        a.len() == b.len(),
        forall|i: int| 0 <= i < a.len() ==> (#[trigger] a[i]).number_of_people == b[i].number_of_people,
    ensures
        total_pop(a) == total_pop(b),
    decreases a.len(),
{
    if a.len() > 0 {
        lemma_total_pop_pointwise(a.drop_last(), b.drop_last());
        assert(forall|i: int|
            0 <= i < a.len() - 1 ==> (#[trigger] a.drop_last()[i]).number_of_people
                == a[i].number_of_people);
    }
}

/// One modeling step: recompute the potential field, then move people across
/// every transit from its higher-potential endpoint to the lower one.  The
/// flow is bounded by the donor's population, the receiver's remaining
/// capacity, and the doorway's carrying capacity, which falls as the donor
/// grows denser.  People are conserved exactly, and safe zones never lose
/// any.
#[verifier::rlimit(100)]
#[verifier::spinoff_prover]
pub fn evac_moving_step(
    graph: &BimGraph,
    zones: &mut Vec<BimZone>,
    transits: &mut Vec<BimTransit>,
    step: u64,
    v: u64,
)
    requires
        graph_wf(*graph, old(zones)@.len() as int, old(transits)@.len() as int),
        forall|i: int| 0 <= i < old(zones)@.len() ==> zone_wf(#[trigger] old(zones)@[i]),
        total_pop(old(zones)@) <= TOTAL_POP_MAX,
        forall|j: int|
            0 <= j < old(transits)@.len() ==> 1 <= (#[trigger] old(transits)@[j]).width
                <= WIDTH_MAX && old(transits)@[j].no_proceeding
                <= 100_000_000_000_000_000_000_000_000_000,
        step <= STEP_MAX,
        1 <= v <= SPEED_MAX,
    ensures
        final(zones)@.len() == old(zones)@.len(),
        final(transits)@.len() == old(transits)@.len(),
        total_pop(final(zones)@) == total_pop(old(zones)@),
        forall|i: int|
            0 <= i < old(zones)@.len() ==> zone_moved(old(zones)@[i], #[trigger] final(zones)@[i])
                && zone_wf(final(zones)@[i]),
        forall|i: int|
            0 <= i < old(zones)@.len() && old(zones)@[i].is_safe
                ==> (#[trigger] final(zones)@[i]).number_of_people
                >= old(zones)@[i].number_of_people,
        forall|j: int|
            0 <= j < old(transits)@.len() ==> transit_flowed(
                old(transits)@[j],
                #[trigger] final(transits)@[j],
            ) && final(transits)@[j].no_proceeding >= old(transits)@[j].no_proceeding
                && final(transits)@[j].no_proceeding
                <= old(transits)@[j].no_proceeding + TOTAL_POP_MAX,
        (forall|i: int|
            0 <= i < old(zones)@.len() && (#[trigger] old(zones)@[i]).sign
                != BimElementSign::Outside ==> old(zones)@[i].number_of_people == 0)
            ==> (forall|i: int|
                0 <= i < old(zones)@.len()
                    ==> (#[trigger] final(zones)@[i]).number_of_people
                    == old(zones)@[i].number_of_people
                    && final(zones)@[i].is_visited == old(zones)@[i].is_visited)
            && (forall|j: int|
                0 <= j < old(transits)@.len()
                    ==> (#[trigger] final(transits)@[j]) == old(transits)@[j]),
        ({
            let s = flows_upto(
                with_potentials(old(zones)@, final(zones)@),
                old(transits)@,
                graph.edges@,
                graph.edges@.len() as int,
                step,
                v,
            );
            final(zones)@ == s.0 && final(transits)@ == s.1
        }),
        forall|i: int|
            0 <= i < old(zones)@.len() && (#[trigger] final(zones)@[i]).is_safe
                ==> final(zones)@[i].potential == 0,
{
    compute_potentials(graph, zones, transits, v);
    let ghost z0 = old(zones)@;
    let ghost t0 = old(transits)@;
    let ghost zp = zones@;
    proof {
        lemma_total_pop_pointwise(z0, zones@);
    }
    let ne = graph.edges.len();
    let nz = zones.len();
    let mut k: usize = 0;
    while k < ne
        invariant
            0 <= k <= ne,
            nz == zones@.len() == z0.len(),
            transits@.len() == t0.len(),
            ne == graph.edges@.len(),
            graph_wf(*graph, nz as int, t0.len() as int),
            forall|i: int| 0 <= i < nz ==> zone_wf(#[trigger] z0[i]),
            total_pop(z0) <= TOTAL_POP_MAX,
            forall|j: int|
                0 <= j < t0.len() ==> 1 <= (#[trigger] t0[j]).width <= WIDTH_MAX
                    && t0[j].no_proceeding <= 100_000_000_000_000_000_000_000_000_000,
            step <= STEP_MAX,
            1 <= v <= SPEED_MAX,
            total_pop(zones@) == total_pop(z0),
            zones@ == flows_upto(zp, t0, graph.edges@, k as int, step, v).0,
            transits@ == flows_upto(zp, t0, graph.edges@, k as int, step, v).1,
            forall|i: int|
                0 <= i < nz ==> zone_potential_set(z0[i], #[trigger] zp[i]),
            forall|i: int|
                0 <= i < nz ==> zone_moved(z0[i], #[trigger] zones@[i]) && zone_wf(zones@[i]),
            forall|i: int|
                0 <= i < nz ==> (#[trigger] zones@[i]).potential == zp[i].potential && (
                zones@[i].is_safe ==> zones@[i].potential == 0) && (!zones@[i].is_safe ==> 1
                    <= zones@[i].potential),
            forall|i: int|
                0 <= i < nz && z0[i].is_safe ==> (#[trigger] zones@[i]).number_of_people
                    >= z0[i].number_of_people,
            forall|j: int|
                0 <= j < t0.len() ==> transit_flowed(t0[j], #[trigger] transits@[j])
                    && transits@[j].no_proceeding >= t0[j].no_proceeding
                    && transits@[j].no_proceeding <= t0[j].no_proceeding + TOTAL_POP_MAX,
            forall|j: int| k <= j < t0.len() ==> (#[trigger] transits@[j]) == t0[j],
            (forall|i: int|
                0 <= i < nz && (#[trigger] z0[i]).sign != BimElementSign::Outside
                    ==> z0[i].number_of_people == 0) ==> (forall|i: int|
                0 <= i < nz ==> (#[trigger] zones@[i]).number_of_people == z0[i].number_of_people
                    && zones@[i].is_visited == z0[i].is_visited) && (forall|j: int|
                0 <= j < t0.len() ==> (#[trigger] transits@[j]) == t0[j]),
        decreases ne - k,
    {
        let e = &graph.edges[k];
        let ghost zs = zones@;
        let ghost tsnap = transits@;
        let ai = e.a;
        let bi = e.b;
        let ti = e.transit;
        let pa = zones[ai].potential;
        let pb = zones[bi].potential;
        if pa != pb && !zones[ai].is_blocked && !zones[bi].is_blocked && !transits[ti].is_blocked {
            let di = if pa > pb {
                ai
            } else {
                bi
            };
            let ri = if pa > pb {
                bi
            } else {
                ai
            };
            let dpop = zones[di].number_of_people;
            let rpop = zones[ri].number_of_people;
            let darea = zones[di].area;
            let rarea = zones[ri].area;
            let w = transits[ti].width;
            let d_dens: u128 = (dpop as u128) * 1000 / (darea as u128);
            let r_dens: u128 = (rpop as u128) * 1000 / (rarea as u128);
            let r_dens_c: u128 = if r_dens > (MAX_DENSITY as u128) {
                MAX_DENSITY as u128
            } else {
                r_dens
            };
            let d_dens_c: u128 = if d_dens > (MAX_DENSITY as u128) {
                MAX_DENSITY as u128
            } else {
                d_dens
            };
            proof {
                lemma_mul_bound(MAX_DENSITY - r_dens_c as int, rarea as int, 5000, AREA_OUTSIDE as int);
                lemma_mul_bound(w as int, v as int, WIDTH_MAX as int, SPEED_MAX as int);
                lemma_mul_bound(
                    w as int * v as int,
                    step as int,
                    WIDTH_MAX as int * SPEED_MAX as int,
                    STEP_MAX as int,
                );
                lemma_mul_bound(
                    w as int * v as int * step as int,
                    2 * MAX_DENSITY - d_dens_c as int,
                    WIDTH_MAX as int * SPEED_MAX as int * STEP_MAX as int,
                    2 * MAX_DENSITY,
                );
            }
            let rcap: u128 = ((MAX_DENSITY as u128) - r_dens_c) * (rarea as u128) / 1000;
            let factor: u128 = 2 * (MAX_DENSITY as u128) - d_dens_c;
            let capc: u128 = (w as u128) * (v as u128) * (step as u128) * factor / (2
                * (MAX_DENSITY as u128) * 1_000_000);
            let f1: u128 = if rcap < capc {
                rcap
            } else {
                capc
            };
            let f2: u128 = if (dpop as u128) < f1 {
                dpop as u128
            } else {
                f1
            };
            let flow: u64 = f2 as u64;
            if flow > 0 {
                proof {
                    assert(di != ri);
                    lemma_two_pops_le_total(zones@, di as int, ri as int);
                    lemma_total_pop_update(
                        zones@,
                        di as int,
                        BimZone { number_of_people: (dpop - flow) as u64, ..zones@[di as int] },
                    );
                }
                let ghost za = zones@;
                zones[di].number_of_people = dpop - flow;
                proof {
                    lemma_total_pop_update(
                        zones@,
                        ri as int,
                        BimZone { number_of_people: (rpop + flow) as u64, ..zones@[ri as int] },
                    );
                    lemma_pop_le_total(zones@, ri as int);
                }
                zones[ri].number_of_people = rpop + flow;
                proof {
                    lemma_total_pop_update(
                        zones@,
                        di as int,
                        BimZone { is_visited: true, ..zones@[di as int] },
                    );
                }
                zones[di].is_visited = true;
                proof {
                    lemma_total_pop_update(
                        zones@,
                        ri as int,
                        BimZone { is_visited: true, ..zones@[ri as int] },
                    );
                }
                zones[ri].is_visited = true;
                let npre = transits[ti].no_proceeding;
                if npre <= 100_000_000_000_000_000_000_000_000_000 {
                    transits[ti].no_proceeding = npre + (flow as u128);
                }
                transits[ti].is_visited = true;
            }
        }
        proof {
            let ghost ee = graph.edges@[k as int];
            assert(flows_upto(zp, t0, graph.edges@, k as int + 1, step, v) == flow_applied(
                zs,
                tsnap,
                ee,
                step,
                v,
            ));
            if pa != pb && !zs[ai as int].is_blocked && !zs[bi as int].is_blocked && !tsnap[ti
                as int].is_blocked {
                let f = edge_flow(zs, tsnap, ee, step, v);
                assert(edge_donor(zs, ee) == (if pa > pb {
                    ai as int
                } else {
                    bi as int
                }));
                if f > 0 {
                    let di2 = edge_donor(zs, ee);
                    let ri2 = edge_receiver(zs, ee);
                    assert(zones@ =~= flow_applied(zs, tsnap, ee, step, v).0);
                    assert(transits@ =~= flow_applied(zs, tsnap, ee, step, v).1);
                } else {
                    assert(zones@ == flow_applied(zs, tsnap, ee, step, v).0);
                    assert(transits@ == flow_applied(zs, tsnap, ee, step, v).1);
                }
            } else {
                assert(edge_flow(zs, tsnap, ee, step, v) == 0);
            }
        }
        k = k + 1;
    }
    proof {
        assert(with_potentials(z0, zones@) =~= zp);
    }
}

/// Total area of the Room and Staircase zones, in thousandths of a square
/// metre.
pub open spec fn area_sum(zones: Seq<BimZone>) -> int
    decreases zones.len(),
{
    if zones.len() == 0 {
        0
    } else {
        area_sum(zones.drop_last()) + (if zones.last().sign == BimElementSign::Room
            || zones.last().sign == BimElementSign::Staircase {
            zones.last().area as int
        } else {
            0
        })
    }
}

proof fn lemma_area_sum_bound(zones: Seq<BimZone>)
    requires
        forall|i: int| 0 <= i < zones.len() ==> zone_wf(#[trigger] zones[i]),
    ensures
        0 <= area_sum(zones) <= zones.len() * 200_000_000_000_000,
    decreases zones.len(),
{
    if zones.len() > 0 {
        lemma_area_sum_bound(zones.drop_last());
    }
}

proof fn lemma_inside_le_total(zones: Seq<BimZone>)
    ensures
        0 <= inside_pop(zones) <= total_pop(zones),
    decreases zones.len(),
{
    if zones.len() > 0 {
        lemma_inside_le_total(zones.drop_last());
    }
}

proof fn lemma_visited_le_total(zones: Seq<BimZone>)
    ensures
        0 <= visited_inside_pop(zones) <= total_pop(zones),
    decreases zones.len(),
{
    if zones.len() > 0 {
        lemma_visited_le_total(zones.drop_last());
    }
}

proof fn lemma_total_take_le(zones: Seq<BimZone>, i: int)
    requires
        0 <= i <= zones.len(),
    ensures
        0 <= total_pop(zones.take(i)) <= total_pop(zones),
    decreases zones.len(),
{
    lemma_total_pop_nonneg(zones.take(i));
    if i < zones.len() {
        lemma_total_take_le(zones.drop_last(), i);
        assert(zones.drop_last().take(i) =~= zones.take(i));
        lemma_total_pop_nonneg(zones.drop_last());
    } else {
        assert(zones.take(i) =~= zones);
    }
}

/// With no one anywhere outside the outside zone, the inside population is
/// zero exactly when every real zone is empty.
proof fn lemma_inside_zero_pointwise(zones: Seq<BimZone>)
    requires
        inside_pop(zones) == 0,
    ensures
        forall|i: int|
            0 <= i < zones.len() && (#[trigger] zones[i]).sign != BimElementSign::Outside
                ==> zones[i].number_of_people == 0,
    decreases zones.len(),
{
    if zones.len() > 0 {
        lemma_inside_le_total(zones.drop_last());
        lemma_inside_zero_pointwise(zones.drop_last());
        assert(forall|i: int| 0 <= i < zones.len() - 1 ==> zones.drop_last()[i] == #[trigger] zones[i]);
    }
}

proof fn lemma_visited_zero(zones: Seq<BimZone>)
    requires
        forall|i: int|
            0 <= i < zones.len() && (#[trigger] zones[i]).sign != BimElementSign::Outside
                ==> zones[i].number_of_people == 0,
    ensures
        visited_inside_pop(zones) == 0,
    decreases zones.len(),
{
    if zones.len() > 0 {
        lemma_visited_zero(zones.drop_last());
        assert(forall|i: int| 0 <= i < zones.len() - 1 ==> zones.drop_last()[i] == #[trigger] zones[i]);
    }
}

/// The whole population splits into the inside population and the last
/// zone's, when only the last zone is the outside.
proof fn lemma_total_split(zones: Seq<BimZone>)
    requires
        zones.len() >= 1,
        zones.last().sign == BimElementSign::Outside,
        forall|i: int|
            0 <= i < zones.len() - 1 ==> (#[trigger] zones[i]).sign != BimElementSign::Outside,
    ensures
        total_pop(zones) == inside_pop(zones) + zones.last().number_of_people,
    decreases zones.len(),
{
    lemma_all_inside(zones.drop_last());
}

proof fn lemma_all_inside(zones: Seq<BimZone>)
    requires
        forall|i: int|
            0 <= i < zones.len() ==> (#[trigger] zones[i]).sign != BimElementSign::Outside,
    ensures
        total_pop(zones) == inside_pop(zones),
    decreases zones.len(),
{
    if zones.len() > 0 {
        lemma_all_inside(zones.drop_last());
        assert(forall|i: int| 0 <= i < zones.len() - 1 ==> zones.drop_last()[i] == #[trigger] zones[i]);
    }
}

fn total_exec(zones: &Vec<BimZone>) -> (r: u64)
    requires
        forall|i: int| 0 <= i < zones@.len() ==> zone_wf(#[trigger] zones@[i]),
        total_pop(zones@) <= TOTAL_POP_MAX,
    ensures
        r as int == total_pop(zones@),
{
    let n = zones.len();
    let mut acc: u64 = 0;
    let mut i: usize = 0;
    while i < n
        invariant
            0 <= i <= n,
            n == zones@.len(),
            total_pop(zones@) <= TOTAL_POP_MAX,
            acc as int == total_pop(zones@.take(i as int)),
            acc <= TOTAL_POP_MAX,
        decreases n - i,
    {
        proof {
            assert(zones@.take(i as int + 1).drop_last() =~= zones@.take(i as int));
            assert(zones@.take(i as int + 1).last() == zones@[i as int]);
            lemma_total_take_le(zones@, i as int + 1);
        }
        acc = acc + zones[i].number_of_people;
        i = i + 1;
    }
    proof {
        assert(zones@.take(n as int) =~= zones@);
    }
    acc
}

fn visited_inside_exec(zones: &Vec<BimZone>) -> (r: u64)
    requires
        total_pop(zones@) <= TOTAL_POP_MAX,
    ensures
        r as int == visited_inside_pop(zones@),
{
    let n = zones.len();
    let mut acc: u64 = 0;
    let mut i: usize = 0;
    while i < n
        invariant
            0 <= i <= n,
            n == zones@.len(),
            total_pop(zones@) <= TOTAL_POP_MAX,
            acc as int == visited_inside_pop(zones@.take(i as int)),
            acc <= TOTAL_POP_MAX,
        decreases n - i,
    {
        proof {
            assert(zones@.take(i as int + 1).drop_last() =~= zones@.take(i as int));
            assert(zones@.take(i as int + 1).last() == zones@[i as int]);
            lemma_visited_le_total(zones@.take(i as int + 1));
            lemma_total_take_le(zones@, i as int + 1);
        }
        let z = &zones[i];
        if z.is_visited && !matches!(z.sign, BimElementSign::Outside) {
            acc = acc + z.number_of_people;
        }
        i = i + 1;
    }
    proof {
        assert(zones@.take(n as int) =~= zones@);
    }
    acc
}

/// The default modeling step, in thousandths of a minute: the integer square
/// root of the mean zone area (scaled to squared thousandths of a metre),
/// times one hundred, divided by the top speed.
pub open spec fn derived_step_spec(zones: Seq<BimZone>, v: u64) -> int {
    let mean = area_sum(zones) / zones.len() as int;
    (isqrt_spec((mean * 1000) as nat) * 100) as int / (v as int)
}

impl Bim {
    /// Total area of the building's rooms and staircases, in thousandths of
    /// a square metre.
    pub fn area(&self) -> (r: u128)
        requires
            self.wf(),
        ensures
            r as int == area_sum(self.zones@),
    {
        let n = self.zones.len();
        let mut acc: u128 = 0;
        let mut i: usize = 0;
        while i < n
            invariant
                0 <= i <= n,
                self.wf(),
                n == self.zones@.len(),
                acc as int == area_sum(self.zones@.take(i as int)),
                acc <= i * 200_000_000_000_000,
            decreases n - i,
        {
            proof {
                assert(self.zones@.take(i as int + 1).drop_last() =~= self.zones@.take(i as int));
                assert(self.zones@.take(i as int + 1).last() == self.zones@[i as int]);
            }
            let z = &self.zones[i];
            match z.sign {
                BimElementSign::Room | BimElementSign::Staircase => {
                    acc = acc + (z.area as u128);
                },
                _ => {},
            }
            i = i + 1;
        }
        proof {
            assert(self.zones@.take(n as int) =~= self.zones@);
        }
        acc
    }

    /// Number of people in the building, the outside zone excluded, in
    /// thousandths of a person.
    pub fn number_of_people(&self) -> (r: u64)
        requires
            self.wf(),
        ensures
            r as int == inside_pop(self.zones@),
    {
        let n = self.zones.len();
        let mut acc: u64 = 0;
        let mut i: usize = 0;
        while i < n
            invariant
                0 <= i <= n,
                self.wf(),
                n == self.zones@.len(),
                acc as int == inside_pop(self.zones@.take(i as int)),
                acc <= TOTAL_POP_MAX,
            decreases n - i,
        {
            proof {
                assert(self.zones@.take(i as int + 1).drop_last() =~= self.zones@.take(i as int));
                assert(self.zones@.take(i as int + 1).last() == self.zones@[i as int]);
                lemma_inside_le_total(self.zones@.take(i as int + 1));
                lemma_total_take_le(self.zones@, i as int + 1);
            }
            let z = &self.zones[i];
            if !matches!(z.sign, BimElementSign::Outside) {
                acc = acc + z.number_of_people;
            }
            i = i + 1;
        }
        proof {
            assert(self.zones@.take(n as int) =~= self.zones@);
        }
        acc
    }

    /// One row of the distribution time series: zone populations then
    /// transit throughputs, in id-sorted order.
    fn distributions_statistics(&self) -> (r: DistributionState)
        ensures
            r.time_in_minutes == self.evacuation_time_in_minutes,
            r.distribution@.len() == self.zones@.len() + self.transits@.len(),
            forall|i: int|
                0 <= i < self.zones@.len() ==> (#[trigger] r.distribution@[i])
                    == self.zones@[i].number_of_people as u128,
            forall|j: int|
                0 <= j < self.transits@.len() ==> (#[trigger] r.distribution@[self.zones@.len()
                    + j]) == self.transits@[j].no_proceeding,
    {
        let nz = self.zones.len();
        let nt = self.transits.len();
        let mut d: Vec<u128> = Vec::new();
        let mut i: usize = 0;
        while i < nz
            invariant
                0 <= i <= nz,
                nz == self.zones@.len(),
                d@.len() == i,
                forall|k: int|
                    0 <= k < i ==> (#[trigger] d@[k]) == self.zones@[k].number_of_people as u128,
            decreases nz - i,
        {
            d.push(self.zones[i].number_of_people as u128);
            i = i + 1;
        }
        let mut j: usize = 0;
        while j < nt
            invariant
                0 <= j <= nt,
                nz == self.zones@.len(),
                nt == self.transits@.len(),
                d@.len() == nz + j,
                forall|k: int|
                    0 <= k < nz ==> (#[trigger] d@[k]) == self.zones@[k].number_of_people as u128,
                forall|k: int|
                    0 <= k < j ==> (#[trigger] d@[nz + k]) == self.transits@[k].no_proceeding,
            decreases nt - j,
        {
            d.push(self.transits[j].no_proceeding);
            j = j + 1;
        }
        DistributionState { time_in_minutes: self.evacuation_time_in_minutes, distribution: d }
    }

    /// One row of the per-zone series: each zone's UUID with its current
    /// population, stamped with the time in thousandths of a second.
    fn items_statistics(&self) -> (r: ItemTimeStepData)
        ensures
            r.time == (self.evacuation_time_in_minutes as u128) * 60,
            r.rooms@.len() == self.zones@.len(),
            forall|i: int|
                0 <= i < self.zones@.len() ==> (#[trigger] r.rooms@[i]).uuid == self.zones@[i].uuid
                    && r.rooms@[i].density == self.zones@[i].number_of_people,
    {
        let nz = self.zones.len();
        let mut rooms: Vec<RoomTimeStepData> = Vec::new();
        let mut i: usize = 0;
        while i < nz
            invariant
                0 <= i <= nz,
                nz == self.zones@.len(),
                rooms@.len() == i,
                forall|k: int|
                    0 <= k < i ==> (#[trigger] rooms@[k]).uuid == self.zones@[k].uuid
                        && rooms@[k].density == self.zones@[k].number_of_people,
            decreases nz - i,
        {
            rooms.push(
                RoomTimeStepData {
                    uuid: self.zones[i].uuid,
                    density: self.zones[i].number_of_people,
                },
            );
            i = i + 1;
        }
        ItemTimeStepData { rooms, time: (self.evacuation_time_in_minutes as u128) * 60 }
    }

    /// When the caller gave no modeling step, derive one from the mean zone
    /// size and the top speed; otherwise keep the caller's.
    ///
    /// The derived step walks a tenth of the mean zone's side at top speed:
    /// the fixed-point rendering of sqrt(total area / zone count) / speed / 10.
    fn define_modeling_step(&mut self)
        requires
            old(self).wf(),
        ensures
            final(self).wf(),
            *final(self) == (Bim {
                evacuation_modeling_step: final(self).evacuation_modeling_step,
                ..*old(self)
            }),
            old(self).evacuation_modeling_step != 0 ==> final(self).evacuation_modeling_step == old(
                self,
            ).evacuation_modeling_step,
            old(self).evacuation_modeling_step == 0 ==> final(self).evacuation_modeling_step as int
                == derived_step_spec(old(self).zones@, old(self).evacuation_modeling_max_speed),
            final(self).evacuation_modeling_step <= STEP_MAX,
    {
        if self.evacuation_modeling_step != 0 {
            return ;
        }
        let total_area = self.area();
        let n = self.zones.len();
        proof {
            lemma_area_sum_bound(self.zones@);
        }
        proof {
            vstd::arithmetic::div_mod::lemma_div_is_ordered(
                area_sum(self.zones@),
                (self.zones@.len() * 200_000_000_000_000) as int,
                self.zones@.len() as int,
            );
            vstd::arithmetic::div_mod::lemma_div_multiples_vanish(
                200_000_000_000_000,
                self.zones@.len() as int,
            );
        }
        let mean: u128 = total_area / (n as u128);
        let hxy = isqrt((mean as u64) * 1000);
        proof {
            lemma_isqrt_exists(hxy as nat, ((mean as u64) * 1000) as nat);
            assert(mean as int == area_sum(self.zones@) / self.zones@.len() as int);
            if hxy > 450_000_000 {
                assert(crate::geometry::sq(450_000_000) <= crate::geometry::sq(hxy as int))
                    by (nonlinear_arith)
                    requires
                        450_000_000 <= hxy,
                ;
            }
        }
        let step = (hxy * 100) / self.evacuation_modeling_max_speed;
        self.evacuation_modeling_step = step;
    }
}

/// Sum of the first `k` entries of a distribution row.
pub open spec fn row_zone_sum(d: Seq<u128>, k: int) -> int
    decreases k,
{
    if k <= 0 {
        0
    } else {
        row_zone_sum(d, k - 1) + d[k - 1]
    }
}

proof fn lemma_row_sum(d: Seq<u128>, zones: Seq<BimZone>, k: int)
    requires
        0 <= k <= zones.len(),
        k <= d.len(),
        forall|i: int| 0 <= i < k ==> (#[trigger] d[i]) == zones[i].number_of_people as u128,
    ensures
        row_zone_sum(d, k) == total_pop(zones.take(k)),
    decreases k,
{
    if k > 0 {
        lemma_row_sum(d, zones, k - 1);
        assert(zones.take(k).drop_last() =~= zones.take(k - 1));
        assert(zones.take(k).last() == zones[k - 1]);
    }
}

proof fn lemma_total_zero_pointwise(zones: Seq<BimZone>)
    requires
        total_pop(zones) == 0,
    ensures
        forall|i: int| 0 <= i < zones.len() ==> (#[trigger] zones[i]).number_of_people == 0,
{
    assert forall|i: int| 0 <= i < zones.len() implies (#[trigger] zones[i]).number_of_people
        == 0 by {
        lemma_pop_le_total(zones, i);
    }
}

proof fn lemma_find_pointwise(a: Seq<BimZone>, b: Seq<BimZone>, uuid: u128, i: int)
    requires
        a.len() == b.len(),
        forall|k: int| 0 <= k < a.len() ==> (#[trigger] a[k]).uuid == b[k].uuid,
        0 <= i,
    ensures
        find_zone_rec(a, uuid, i) == find_zone_rec(b, uuid, i),
    decreases a.len() - i,
{
    if i < a.len() {
        lemma_find_pointwise(a, b, uuid, i + 1);
    }
}

impl Bim {
    /// Runs the evacuation to completion: recompute potentials and move
    /// people each step until no visited zone inside the building holds
    /// anyone, recording both time series along the way.  People are
    /// conserved at every step and the outside population never falls.  A
    /// building that starts empty records its initial snapshot and stops at
    /// time zero; one whose people already all stand outside performs
    /// exactly one step.  A step budget bounds the loop; when it runs out
    /// the partial series is returned.
    pub fn run_modeling(&mut self) -> (r: EvacuationModelingResult)
        requires
            old(self).wf(),
        ensures
            final(self).wf(),
            final(self).zones@.len() == old(self).zones@.len(),
            total_pop(final(self).zones@) == total_pop(old(self).zones@),
            final(self).zones@.last().number_of_people >= old(self).zones@.last().number_of_people,
            r.number_of_people_inside_building as int == total_pop(old(self).zones@),
            r.number_of_evacuated_people == final(self).zones@.last().number_of_people,
            r.time_in_seconds == (final(self).evacuation_time_in_minutes as u128) * 60,
            r.people_distribution_stats@.len() == r.distribution_by_time_steps.items@.len(),
            r.people_distribution_stats@.len() >= 1,
            total_pop(old(self).zones@) == 0 ==> r.people_distribution_stats@.len() == 1
                && r.time_in_seconds == 0,
            inside_pop(old(self).zones@) == 0 && total_pop(old(self).zones@) > 0
                ==> r.people_distribution_stats@.len() == 2 && r.number_of_evacuated_people as int
                == total_pop(old(self).zones@),
            r.people_distribution_stats@.len() <= 10_000_000 ==> visited_inside_pop(
                final(self).zones@,
            ) == 0,
            forall|k: int|
                0 <= k < r.people_distribution_stats@.len() ==> {
                    let row = #[trigger] r.people_distribution_stats@[k];
                    &&& row.distribution@.len() == old(self).zones@.len() + old(
                        self,
                    ).transits@.len()
                    &&& row_zone_sum(row.distribution@, old(self).zones@.len() as int) == total_pop(
                        old(self).zones@,
                    )
                    &&& row.time_in_minutes as int == k * (
                    final(self).evacuation_modeling_step as int)
                },
            forall|k: int|
                0 <= k < r.people_distribution_stats@.len() - 1
                    ==> (#[trigger] r.people_distribution_stats@[k].distribution@[old(
                    self,
                ).zones@.len() - 1]) <= r.people_distribution_stats@[k + 1].distribution@[old(
                    self,
                ).zones@.len() - 1],
            forall|k: int|
                0 <= k < r.distribution_by_time_steps.items@.len() ==> {
                    let it = #[trigger] r.distribution_by_time_steps.items@[k];
                    &&& it.time == (r.people_distribution_stats@[k].time_in_minutes as u128) * 60
                    &&& it.rooms@.len() == old(self).zones@.len()
                    &&& forall|i: int|
                        0 <= i < it.rooms@.len() ==> (#[trigger] it.rooms@[i]).uuid
                            == final(self).zones@[i].uuid
                },
            forall|i: int|
                0 <= i < old(self).zones@.len() ==> (
                #[trigger] r.people_distribution_stats@[0].distribution@[i]) == old(
                    self,
                ).zones@[i].number_of_people as u128,
            forall|j: int|
                0 <= j < old(self).transits@.len() ==> (
                #[trigger] r.people_distribution_stats@[0].distribution@[old(self).zones@.len()
                    + j]) == 0,
            forall|i: int|
                0 <= i < old(self).zones@.len() ==> (
                #[trigger] r.people_distribution_stats@.last().distribution@[i])
                    == final(self).zones@[i].number_of_people as u128,
            forall|j: int|
                0 <= j < old(self).transits@.len() ==> (
                #[trigger] r.people_distribution_stats@.last().distribution@[old(
                    self,
                ).zones@.len() + j]) == final(self).transits@[j].no_proceeding,
    {
        let graph = bim_graph_new(self);
        self.define_modeling_step();
        self.evacuation_time_in_minutes = 0;
        let step_len = self.evacuation_modeling_step;
        let speed = self.evacuation_modeling_max_speed;
        let nt = self.transits.len();
        let mut j: usize = 0;
        while j < nt
            invariant
                0 <= j <= nt,
                nt == self.transits@.len(),
                forall|k: int|
                    0 <= k < nt ==> transit_flowed(old(self).transits@[k], #[trigger] self.transits@[k])
                        && (#[trigger] self.transits@[k]).is_visited == old(self).transits@[k].is_visited,
                forall|k: int|
                    0 <= k < j ==> (#[trigger] self.transits@[k]).no_proceeding == 0,
                forall|k: int|
                    j <= k < nt ==> (#[trigger] self.transits@[k]) == old(self).transits@[k],
                self.zones@ == old(self).zones@,
                self.levels@ == old(self).levels@,
                self.name@ == old(self).name@,
                self.evacuation_time_in_minutes == 0,
                self.evacuation_modeling_step == step_len,
                self.evacuation_modeling_max_speed == speed,
                step_len <= STEP_MAX,
                1 <= speed <= SPEED_MAX,
                old(self).wf(),
            decreases nt - j,
        {
            self.transits[j].no_proceeding = 0;
            j = j + 1;
        }
        proof {
            assert forall|k: int| 0 <= k < nt implies transit_wf(
                self.zones@,
                #[trigger] self.transits@[k],
            ) by {
                assert(transit_wf(old(self).zones@, old(self).transits@[k]));
            }
        }
        let ghost z_begin = self.zones@;
        let mut stats: Vec<DistributionState> = Vec::new();
        stats.push(self.distributions_statistics());
        let mut items: Vec<ItemTimeStepData> = Vec::new();
        items.push(self.items_statistics());
        let total = total_exec(&self.zones);
        proof {
            lemma_inside_le_total(z_begin);
            if inside_pop(z_begin) == 0 {
                lemma_inside_zero_pointwise(z_begin);
            }
        }
        proof {
            lemma_row_sum(stats@[0].distribution@, self.zones@, self.zones@.len() as int);
            assert(self.zones@.take(self.zones@.len() as int) =~= self.zones@);
            if total == 0 {
                lemma_total_zero_pointwise(self.zones@);
                lemma_visited_zero(self.zones@);
            }
        }
        let mut steps: u64 = 0;
        let mut done = total == 0;
        while !done && steps < 10_000_000
            invariant
                graph_wf(graph, z_begin.len() as int, self.transits@.len() as int),
                self.zones@.len() == z_begin.len(),
                self.transits@.len() == nt,
                forall|i: int| 0 <= i < z_begin.len() ==> zone_wf(#[trigger] z_begin[i]),
                forall|i: int|
                    0 <= i < z_begin.len() ==> zone_moved(z_begin[i], #[trigger] self.zones@[i])
                        && zone_wf(self.zones@[i]),
                total_pop(self.zones@) == total_pop(z_begin),
                total_pop(z_begin) <= TOTAL_POP_MAX,
                total as int == total_pop(z_begin),
                forall|i: int|
                    0 <= i < z_begin.len() && z_begin[i].is_safe
                        ==> (#[trigger] self.zones@[i]).number_of_people
                        >= z_begin[i].number_of_people,
                zones_sorted(self.zones@),
                transits_sorted(self.transits@),
                z_begin.len() >= 1,
                self.zones@.last().sign == BimElementSign::Outside,
                z_begin.last().sign == BimElementSign::Outside,
                z_begin.last().is_safe,
                forall|i: int|
                    0 <= i < z_begin.len() - 1 ==> (#[trigger] self.zones@[i].sign)
                        != BimElementSign::Outside,
                forall|k: int|
                    0 <= k < nt ==> transit_wf(self.zones@, #[trigger] self.transits@[k]),
                forall|k: int|
                    0 <= k < nt ==> (#[trigger] self.transits@[k]).no_proceeding <= (
                    steps as int) * (TOTAL_POP_MAX as int),
                steps <= 10_000_000,
                self.evacuation_modeling_step == step_len,
                self.evacuation_modeling_max_speed == speed,
                step_len <= STEP_MAX,
                1 <= speed <= SPEED_MAX,
                self.evacuation_time_in_minutes as int == (steps as int) * (step_len as int),
                self.evacuation_time_in_minutes <= 1_000_000_000_000_000_000,
                stats@.len() == steps + 1,
                items@.len() == steps + 1,
                self.levels@ == old(self).levels@,
                self.name@ == old(self).name@,
                total == 0 ==> steps == 0 && done,
                total > 0 && done ==> steps >= 1,
                inside_pop(z_begin) == 0 && total > 0 ==> steps <= 1 && (steps == 1 ==> done)
                    && (forall|i: int|
                    0 <= i < z_begin.len() ==> (#[trigger] self.zones@[i]).number_of_people
                        == z_begin[i].number_of_people),
                done ==> visited_inside_pop(self.zones@) == 0,
                forall|i: int|
                    0 <= i < z_begin.len() ==> (#[trigger] self.zones@[i]).uuid == z_begin[i].uuid,
                forall|k: int|
                    0 <= k < stats@.len() ==> {
                        let row = #[trigger] stats@[k];
                        &&& row.distribution@.len() == z_begin.len() + nt
                        &&& row_zone_sum(row.distribution@, z_begin.len() as int) == total_pop(
                            z_begin,
                        )
                        &&& row.time_in_minutes as int == k * (step_len as int)
                    },
                forall|k: int|
                    0 <= k < stats@.len() - 1 ==> (#[trigger] stats@[k].distribution@[z_begin.len()
                        - 1]) <= stats@[k + 1].distribution@[z_begin.len() - 1],
                forall|k: int|
                    0 <= k < items@.len() ==> {
                        let it = #[trigger] items@[k];
                        &&& it.time == (stats@[k].time_in_minutes as u128) * 60
                        &&& it.rooms@.len() == z_begin.len()
                        &&& forall|i: int|
                            0 <= i < it.rooms@.len() ==> (#[trigger] it.rooms@[i]).uuid
                                == z_begin[i].uuid
                    },
                forall|i: int|
                    0 <= i < z_begin.len() ==> (#[trigger] stats@[0].distribution@[i])
                        == z_begin[i].number_of_people as u128,
                forall|j: int|
                    0 <= j < nt ==> (#[trigger] stats@[0].distribution@[z_begin.len() + j]) == 0,
                forall|i: int|
                    0 <= i < z_begin.len() ==> (#[trigger] stats@.last().distribution@[i])
                        == self.zones@[i].number_of_people as u128,
                forall|j: int|
                    0 <= j < nt ==> (#[trigger] stats@.last().distribution@[z_begin.len() + j])
                        == self.transits@[j].no_proceeding,
            decreases 10_000_000 - steps,
        {
            proof {
                if inside_pop(z_begin) == 0 {
                    lemma_inside_zero_pointwise(z_begin);
                }
            }
            let ghost zs_pre = self.zones@;
            let ghost ts_pre = self.transits@;
            let ghost st_pre = stats@;
            evac_moving_step(&graph, &mut self.zones, &mut self.transits, step_len, speed);
            proof {
                lemma_mul_bound(steps as int + 1, step_len as int, 10_000_000, STEP_MAX as int);
                assert((steps as int + 1) * (step_len as int) == (steps as int) * (step_len as int)
                    + step_len as int) by (nonlinear_arith);
                assert forall|k: int| 0 <= k < nt implies transit_wf(
                    self.zones@,
                    #[trigger] self.transits@[k],
                ) by {
                    assert(transit_wf(zs_pre, ts_pre[k]));
                    assert forall|q: int|
                        0 <= q < ts_pre[k].outputs@.len() implies 0 <= #[trigger] find_zone_rec(
                        self.zones@,
                        ts_pre[k].outputs@[q],
                        0,
                    ) < self.zones@.len() by {
                        lemma_find_pointwise(self.zones@, zs_pre, ts_pre[k].outputs@[q], 0);
                    }
                }
            }
            self.evacuation_time_in_minutes = self.evacuation_time_in_minutes + step_len;
            stats.push(self.distributions_statistics());
            items.push(self.items_statistics());
            proof {
                lemma_row_sum(
                    stats@.last().distribution@,
                    self.zones@,
                    self.zones@.len() as int,
                );
                assert(self.zones@.take(self.zones@.len() as int) =~= self.zones@);
                let zi = z_begin.len() - 1;
                assert(zs_pre[zi].is_safe);
                assert(self.zones@[zi].number_of_people >= zs_pre[zi].number_of_people);
                assert(stats@[stats@.len() - 2] == st_pre.last());
                assert(st_pre.last().distribution@[zi] == zs_pre[zi].number_of_people as u128);
                assert(stats@.last().distribution@[zi] == self.zones@[zi].number_of_people
                    as u128);
            }
            steps = steps + 1;
            let remaining = visited_inside_exec(&self.zones);
            proof {
                if inside_pop(z_begin) == 0 && total > 0 {
                    lemma_visited_zero(self.zones@);
                }
            }
            if remaining == 0 {
                done = true;
            }
        }
        proof {
            lemma_total_split(self.zones@);
            lemma_total_split(z_begin);
            if inside_pop(z_begin) == 0 && total > 0 {
                lemma_inside_zero_pointwise(z_begin);
                lemma_all_inside(self.zones@.drop_last());
            }
        }
        let evacuated = self.zones[self.zones.len() - 1].number_of_people;
        let seconds: u128 = (self.evacuation_time_in_minutes as u128) * 60;
        EvacuationModelingResult {
            number_of_people_inside_building: total,
            number_of_evacuated_people: evacuated,
            time_in_seconds: seconds,
            people_distribution_stats: stats,
            distribution_by_time_steps: DistributionByTimeSteps { items },
        }
    }
}

} // verus!
