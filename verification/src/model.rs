//! The building model: zones, transits, levels, and the building itself.
//!
//! All quantities are fixed-point integers: coordinates and widths in
//! thousandths of a metre, areas in thousandths of a square metre,
//! populations in thousandths of a person, times in thousandths of a minute,
//! speeds in thousandths of a metre per minute.

use vstd::prelude::*;
use crate::geometry::Polygon;
use crate::geometry::valid_polygon;
use crate::geometry::polygon_area_spec;

verus! {

/// Sentinel area of the synthetic outside zone: larger than any real
/// polygon's area can be, an effectively infinite sink.
pub const AREA_OUTSIDE: u64 = 1_000_000_000_000_000;

/// Sentinel potential of a zone not yet reached by the relaxation.
pub const POTENTIAL_INF: u64 = 1_000_000_000_000_000_000;

/// Largest total population a building may carry, in thousandths of a person.
pub const TOTAL_POP_MAX: u64 = 10_000_000_000_000_000;

/// Largest number of people a single element may start with, in persons.
pub const ELEMENT_POP_MAX: u64 = 100_000_000;

/// Largest transit width, in thousandths of a metre.
pub const WIDTH_MAX: u64 = 1_000_000_000;

/// Largest modeling step, in thousandths of a minute.
pub const STEP_MAX: u64 = 100_000_000_000;

/// Largest speed, in thousandths of a metre per minute.
pub const SPEED_MAX: u64 = 1_000_000_000;

/// Largest number of levels an input may carry.
pub const MAX_LEVELS: usize = 100;

/// Largest number of elements a level may carry.
pub const MAX_ELEMENTS_PER_LEVEL: usize = 1000;

/// Default modeling step: one hundredth of a minute.
pub const EVACUATION_MODELING_STEP: u64 = 10;

/// Default greatest walking speed: one hundred metres per minute.
pub const EVACUATION_MODELING_MAX_SPEED: u64 = 100_000;

/// Classification of a raw building element.
#[derive(Clone, Copy, PartialEq, Eq, Structural, Debug)]
pub enum BimElementSign {
    Room,
    Staircase,
    DoorWay,
    DoorWayIn,
    DoorWayOut,
    Outside,
    Undefined,
}

/// The error taxonomy of building construction.
#[derive(Clone, Copy, PartialEq, Eq, Structural, Debug)]
pub enum BimError {
    /// No `DoorWayOut` element is present.
    NoExit,
    /// A UUID or an internal id occurs twice.
    DuplicateId,
    /// A transit names a zone that is not present.
    DanglingTransit,
    /// A transit has no outputs or more than two.
    BadTopology,
    /// A doorway width cannot be derived from the geometry.
    GeometryError,
}

/// A raw building element as the JSON description carries it.
pub struct BimJsonElement {
    pub uuid: u128,
    pub id: u64,
    pub name: String,
    pub sign: BimElementSign,
    pub size_z: i64,
    pub z_level: i64,
    pub number_of_people: u64,
    pub outputs: Vec<u128>,
    pub polygon: Polygon,
}

/// A raw level of the JSON description.
pub struct BimJsonLevel {
    pub name: String,
    pub z_level: i64,
    pub build_elements: Vec<BimJsonElement>,
}

/// The parsed JSON building description.
pub struct BimJsonObject {
    pub building_name: String,
    pub levels: Vec<BimJsonLevel>,
}

/// A doorway of the building model.
pub struct BimTransit {
    pub uuid: u128,
    pub id: u64,
    pub name: String,
    pub outputs: Vec<u128>,
    pub polygon: Polygon,
    pub size_z: i64,
    pub z_level: i64,
    pub width: u64,
    pub no_proceeding: u128,
    pub sign: BimElementSign,
    pub is_visited: bool,
    pub is_blocked: bool,
}

/// A room, a staircase, or the synthetic outside zone.
pub struct BimZone {
    pub uuid: u128,
    pub id: u64,
    pub name: String,
    pub polygon: Polygon,
    pub outputs: Vec<u128>,
    pub size_z: i64,
    pub z_level: i64,
    pub number_of_people: u64,
    pub potential: u64,
    pub area: u64,
    pub hazard_level: u8,
    pub sign: BimElementSign,
    pub is_visited: bool,
    pub is_blocked: bool,
    pub is_safe: bool,
}

/// A storey of the building.
pub struct BimLevel {
    pub zones: Vec<BimZone>,
    pub transits: Vec<BimTransit>,
    pub name: String,
    pub z_level: i64,
}

/// The building model: levels plus flat, id-sorted zone and transit lists.
pub struct Bim {
    pub levels: Vec<BimLevel>,
    pub name: String,
    pub zones: Vec<BimZone>,
    pub transits: Vec<BimTransit>,
    pub evacuation_modeling_step: u64,
    pub evacuation_modeling_max_speed: u64,
    pub evacuation_time_in_minutes: u64,
}

/// One row of the population time series: every zone's population, then
/// every transit's cumulative throughput, in id-sorted order.
pub struct DistributionState {
    pub time_in_minutes: u64,
    pub distribution: Vec<u128>,
}

pub struct DistributionByTimeSteps {
    pub items: Vec<ItemTimeStepData>,
}

/// One row of the per-zone time series, keyed by zone UUID.
pub struct ItemTimeStepData {
    pub rooms: Vec<RoomTimeStepData>,
    pub time: u128,
}

/// Throughput of one door at one step.
pub struct DoorTimeStepData {
    pub from: u128,
    pub nfrom: u64,
    pub uuid: u128,
}

pub struct RoomTimeStepData {
    pub uuid: u128,
    pub density: u64,
}

/// The outcome of a full evacuation simulation.
pub struct EvacuationModelingResult {
    pub number_of_people_inside_building: u64,
    pub number_of_evacuated_people: u64,
    pub time_in_seconds: u128,
    pub people_distribution_stats: Vec<DistributionState>,
    pub distribution_by_time_steps: DistributionByTimeSteps,
}

/// Total population over a zone list, in thousandths of a person.
pub open spec fn total_pop(zones: Seq<BimZone>) -> int
    decreases zones.len(),
{
    if zones.len() == 0 {
        0
    } else {
        total_pop(zones.drop_last()) + zones.last().number_of_people
    }
}

/// Population still inside: the sum over visited zones that are not the
/// outside zone.  The loop of the solver stops when this reaches zero.
pub open spec fn visited_inside_pop(zones: Seq<BimZone>) -> int
    decreases zones.len(),
{
    if zones.len() == 0 {
        0
    } else {
        visited_inside_pop(zones.drop_last()) + (if zones.last().is_visited && zones.last().sign
            != BimElementSign::Outside {
            zones.last().number_of_people as int
        } else {
            0
        })
    }
}

/// Population over zones that are not the outside zone.
pub open spec fn inside_pop(zones: Seq<BimZone>) -> int
    decreases zones.len(),
{
    if zones.len() == 0 {
        0
    } else {
        inside_pop(zones.drop_last()) + (if zones.last().sign != BimElementSign::Outside {
            zones.last().number_of_people as int
        } else {
            0
        })
    }
}

/// First index whose zone carries `uuid`, or `-1` when none does.
pub open spec fn find_zone_rec(zones: Seq<BimZone>, uuid: u128, i: int) -> int
    decreases zones.len() - i,
{
    if i < 0 || i >= zones.len() {
        -1
    } else if zones[i].uuid == uuid {
        i
    } else {
        find_zone_rec(zones, uuid, i + 1)
    }
}

pub open spec fn zone_wf(z: BimZone) -> bool {
    &&& (z.sign == BimElementSign::Room || z.sign == BimElementSign::Staircase || z.sign
        == BimElementSign::Outside)
    &&& (z.is_safe <==> z.sign == BimElementSign::Outside)
    &&& if z.sign == BimElementSign::Outside {
        z.area == AREA_OUTSIDE
    } else {
        &&& valid_polygon(z.polygon.points@)
        &&& z.area == polygon_area_spec(z.polygon.points@)
        &&& 1 <= z.area <= 200_000_000_000_000
    }
    &&& z.number_of_people <= TOTAL_POP_MAX
    &&& z.potential <= POTENTIAL_INF
    &&& !z.is_blocked
}

pub open spec fn transit_wf(zones: Seq<BimZone>, t: BimTransit) -> bool {
    &&& (t.sign == BimElementSign::DoorWay || t.sign == BimElementSign::DoorWayIn || t.sign
        == BimElementSign::DoorWayOut)
    &&& 1 <= t.outputs@.len() <= 2
    &&& forall|k: int|
        0 <= k < t.outputs@.len() ==> 0 <= #[trigger] find_zone_rec(zones, t.outputs@[k], 0)
            < zones.len()
    &&& 1 <= t.width <= WIDTH_MAX
}

pub open spec fn zones_sorted(zones: Seq<BimZone>) -> bool {
    forall|i: int, j: int| 0 <= i < j < zones.len() ==> zones[i].id < zones[j].id
}

pub open spec fn transits_sorted(ts: Seq<BimTransit>) -> bool {
    forall|i: int, j: int| 0 <= i < j < ts.len() ==> ts[i].id < ts[j].id
}

impl Bim {
    /// Structural well-formedness: established by the builder, preserved by
    /// the solver.
    pub open spec fn wf(&self) -> bool {
        &&& 1 <= self.zones@.len() <= 100_001
        &&& self.transits@.len() <= 100_000
        &&& zones_sorted(self.zones@)
        &&& transits_sorted(self.transits@)
        &&& self.zones@.last().sign == BimElementSign::Outside
        &&& forall|i: int|
            0 <= i < self.zones@.len() - 1 ==> (#[trigger] self.zones@[i].sign)
                != BimElementSign::Outside
        &&& forall|i: int| 0 <= i < self.zones@.len() ==> zone_wf(#[trigger] self.zones@[i])
        &&& forall|j: int|
            0 <= j < self.transits@.len() ==> transit_wf(self.zones@, #[trigger] self.transits@[j])
        &&& total_pop(self.zones@) <= TOTAL_POP_MAX
        &&& forall|j: int|
            0 <= j < self.transits@.len() ==> (#[trigger] self.transits@[j].no_proceeding)
                <= 1_000_000_000_000_000_000_000_000_000_000
        &&& 1 <= self.evacuation_modeling_max_speed <= SPEED_MAX
        &&& self.evacuation_modeling_step <= STEP_MAX
        &&& self.evacuation_time_in_minutes <= 1_000_000_000_000_000_000
    }
}

/// Each zone's population is no more than the total over all of them.
pub proof fn lemma_pop_le_total(zones: Seq<BimZone>, i: int)
    requires
        0 <= i < zones.len(),
    ensures
        zones[i].number_of_people <= total_pop(zones),
        total_pop(zones) >= 0,
    decreases zones.len(),
{
    lemma_total_pop_nonneg(zones);
    if zones.len() > 0 {
        if i == zones.len() - 1 {
            lemma_total_pop_nonneg(zones.drop_last());
        } else {
            lemma_pop_le_total(zones.drop_last(), i);
            assert(zones.drop_last()[i] == zones[i]);
        }
    }
}

pub proof fn lemma_total_pop_nonneg(zones: Seq<BimZone>)
    ensures
        total_pop(zones) >= 0,
    decreases zones.len(),
{
    if zones.len() > 0 {
        lemma_total_pop_nonneg(zones.drop_last());
    }
}

/// Changing one zone's population changes the total by the same amount,
/// when nothing else of the zone changes.
pub proof fn lemma_total_pop_update(zones: Seq<BimZone>, i: int, z: BimZone)
    requires
        0 <= i < zones.len(),
    ensures
        total_pop(zones.update(i, z)) == total_pop(zones) - zones[i].number_of_people
            + z.number_of_people,
    decreases zones.len(),
{
    let updated = zones.update(i, z);
    if i == zones.len() - 1 {
        assert(updated.drop_last() =~= zones.drop_last());
        assert(updated.last() == z);
    } else {
        lemma_total_pop_update(zones.drop_last(), i, z);
        assert(updated.drop_last() =~= zones.drop_last().update(i, z));
        assert(updated.last() == zones.last());
    }
}

pub proof fn lemma_visited_pop_nonneg(zones: Seq<BimZone>)
    ensures
        visited_inside_pop(zones) >= 0,
    decreases zones.len(),
{
    if zones.len() > 0 {
        lemma_visited_pop_nonneg(zones.drop_last());
    }
}

} // verus!
