use evacuation_core::builder::bim_tools_new_rust;
use evacuation_core::geometry::Line;
use evacuation_core::geometry::Point;
use evacuation_core::geometry::Polygon;
use evacuation_core::model::BimElementSign;
use evacuation_core::model::BimError;
use evacuation_core::model::BimJsonElement;
use evacuation_core::model::BimJsonLevel;
use evacuation_core::model::BimJsonObject;

fn rect(x0: i64, y0: i64, x1: i64, y1: i64) -> Polygon {
    Polygon {
        points: vec![
            Point { x: x0, y: y0 },
            Point { x: x1, y: y0 },
            Point { x: x1, y: y1 },
            Point { x: x0, y: y1 },
            Point { x: x0, y: y0 },
        ],
    }
}

fn element(
    uuid: u128,
    id: u64,
    sign: BimElementSign,
    polygon: Polygon,
    people: u64,
    outputs: Vec<u128>,
) -> BimJsonElement {
    BimJsonElement {
        uuid,
        id,
        name: format!("element-{}", id),
        sign,
        size_z: 3000,
        z_level: 0,
        number_of_people: people,
        outputs,
        polygon,
    }
}

fn building(elements: Vec<BimJsonElement>) -> BimJsonObject {
    BimJsonObject {
        building_name: String::from("test building"),
        levels: vec![BimJsonLevel {
            name: String::from("level one"),
            z_level: 0,
            build_elements: elements,
        }],
    }
}

/// A 10 m by 10 m room with one 1 m doorway out and 20 people.
fn single_room() -> BimJsonObject {
    building(vec![
        element(
            1,
            0,
            BimElementSign::Room,
            rect(0, 0, 10_000, 10_000),
            20,
            vec![2],
        ),
        element(
            2,
            0,
            BimElementSign::DoorWayOut,
            rect(-500, 4_500, 500, 5_500),
            0,
            vec![1],
        ),
    ])
}

#[test]
fn nearest_point_on_square_edges_is_midpoint() {
    // A square of side 6 m; the foot of the perpendicular from the centre
    // onto each edge is the edge midpoint, at distance half the side.
    let l = 6_000i64;
    let c = Point { x: l / 2, y: l / 2 };
    let corners = [
        (Point { x: 0, y: 0 }, Point { x: l, y: 0 }),
        (Point { x: l, y: 0 }, Point { x: l, y: l }),
        (Point { x: l, y: l }, Point { x: 0, y: l }),
        (Point { x: 0, y: l }, Point { x: 0, y: 0 }),
    ];
    let mids = [
        Point { x: l / 2, y: 0 },
        Point { x: l, y: l / 2 },
        Point { x: l / 2, y: l },
        Point { x: 0, y: l / 2 },
    ];
    for (k, (p1, p2)) in corners.iter().enumerate() {
        let foot = c.nearest_point_on_line(&Line { p1: *p1, p2: *p2 });
        assert_eq!(foot.x, mids[k].x);
        assert_eq!(foot.y, mids[k].y);
        assert_eq!(c.distance_to(&foot), (l / 2) as u64);
    }
}

#[test]
fn interfloor_transit_width_is_sqrt_of_mean_area() {
    // Two staircases of 20 square metres each: width comes out as the square
    // root of 20, about 4.472 metres.
    let bim = bim_tools_new_rust(&building(vec![
        element(1, 0, BimElementSign::Staircase, rect(0, 0, 4_000, 5_000), 0, vec![3]),
        element(
            2,
            1,
            BimElementSign::Staircase,
            rect(10_000, 0, 14_000, 5_000),
            0,
            vec![3],
        ),
        element(
            3,
            0,
            BimElementSign::DoorWay,
            rect(2_000, 2_000, 3_000, 3_000),
            0,
            vec![1, 2],
        ),
        element(
            4,
            1,
            BimElementSign::DoorWayOut,
            rect(-500, 2_000, 500, 3_000),
            0,
            vec![1],
        ),
    ]))
    .unwrap();
    assert_eq!(bim.transits[0].width, 4_472);
}

#[test]
fn no_exit_is_rejected() {
    let r = bim_tools_new_rust(&building(vec![element(
        1,
        0,
        BimElementSign::Room,
        rect(0, 0, 10_000, 10_000),
        20,
        vec![],
    )]));
    assert!(matches!(r, Err(BimError::NoExit)));
}

#[test]
fn lopsided_doorway_vertices_are_a_geometry_error() {
    // The doorway polygon has three corners inside the room and one outside,
    // instead of two and two.
    let door = Polygon {
        points: vec![
            Point { x: 100, y: 2_000 },
            Point { x: 200, y: 2_500 },
            Point { x: 300, y: 3_000 },
            Point { x: -500, y: 2_500 },
            Point { x: 100, y: 2_000 },
        ],
    };
    let r = bim_tools_new_rust(&building(vec![
        element(1, 0, BimElementSign::Room, rect(0, 0, 10_000, 10_000), 5, vec![2]),
        element(2, 0, BimElementSign::DoorWayOut, door, 0, vec![1]),
    ]));
    assert!(matches!(r, Err(BimError::GeometryError)));
}

#[test]
fn duplicate_uuid_is_rejected() {
    let r = bim_tools_new_rust(&building(vec![
        element(1, 0, BimElementSign::Room, rect(0, 0, 10_000, 10_000), 5, vec![2]),
        element(1, 1, BimElementSign::Room, rect(20_000, 0, 30_000, 10_000), 5, vec![2]),
        element(2, 0, BimElementSign::DoorWayOut, rect(-500, 4_500, 500, 5_500), 0, vec![1]),
    ]));
    assert!(matches!(r, Err(BimError::DuplicateId)));
}

#[test]
fn single_room_evacuates_everyone_within_a_minute() {
    let mut bim = bim_tools_new_rust(&single_room()).unwrap();
    assert_eq!(bim.transits[0].width, 1_000);
    assert_eq!(bim.number_of_people(), 20_000);
    let result = bim.run_modeling();
    assert_eq!(result.number_of_people_inside_building, 20_000);
    assert_eq!(result.number_of_evacuated_people, 20_000);
    assert!(result.time_in_seconds <= 60_000);
    // The outside population never falls from one snapshot to the next.
    let outside = bim.zones.len() - 1;
    let rows = &result.people_distribution_stats;
    for w in rows.windows(2) {
        assert!(w[0].distribution[outside] <= w[1].distribution[outside]);
    }
    // Conservation: every snapshot's zone populations sum to the start total.
    for row in rows {
        let total: u128 = row.distribution[..bim.zones.len()].iter().sum();
        assert_eq!(total, 20_000u128);
    }
}

#[test]
fn two_rooms_drain_through_the_connecting_door() {
    let bim_json = building(vec![
        element(1, 0, BimElementSign::Room, rect(0, 0, 5_000, 5_000), 10, vec![3]),
        element(2, 1, BimElementSign::Room, rect(5_000, 0, 10_000, 5_000), 0, vec![3, 4]),
        element(
            3,
            0,
            BimElementSign::DoorWay,
            rect(4_600, 2_000, 5_400, 2_800),
            0,
            vec![1, 2],
        ),
        element(
            4,
            1,
            BimElementSign::DoorWayOut,
            rect(9_500, 2_000, 10_500, 3_000),
            0,
            vec![2],
        ),
    ]);
    let mut bim = bim_tools_new_rust(&bim_json).unwrap();
    let result = bim.run_modeling();
    assert_eq!(result.number_of_evacuated_people, 10_000);
    // Everyone passed the connecting door at least once.
    assert!(bim.transits[0].no_proceeding >= 10_000);
}

#[test]
fn empty_building_records_one_snapshot_at_time_zero() {
    let mut empty = single_room();
    empty.levels[0].build_elements[0].number_of_people = 0;
    let mut bim = bim_tools_new_rust(&empty).unwrap();
    let result = bim.run_modeling();
    assert_eq!(result.people_distribution_stats.len(), 1);
    assert_eq!(result.time_in_seconds, 0);
    assert_eq!(result.number_of_evacuated_people, 0);
}

#[test]
fn rerun_on_evacuated_building_takes_one_step() {
    let mut bim = bim_tools_new_rust(&single_room()).unwrap();
    let first = bim.run_modeling();
    assert_eq!(first.number_of_evacuated_people, 20_000);
    let second = bim.run_modeling();
    assert_eq!(second.people_distribution_stats.len(), 2);
    assert_eq!(second.number_of_evacuated_people, 20_000);
    assert_eq!(second.number_of_people_inside_building, 20_000);
}

#[test]
fn building_twice_from_one_description_gives_identical_records() {
    let description = single_room();
    let mut a = bim_tools_new_rust(&description).unwrap();
    let mut b = bim_tools_new_rust(&description).unwrap();
    let ra = a.run_modeling();
    let rb = b.run_modeling();
    assert_eq!(ra.number_of_people_inside_building, rb.number_of_people_inside_building);
    assert_eq!(ra.number_of_evacuated_people, rb.number_of_evacuated_people);
    assert_eq!(ra.time_in_seconds, rb.time_in_seconds);
    assert_eq!(ra.people_distribution_stats.len(), rb.people_distribution_stats.len());
    for (x, y) in ra
        .people_distribution_stats
        .iter()
        .zip(rb.people_distribution_stats.iter())
    {
        assert_eq!(x.time_in_minutes, y.time_in_minutes);
        assert_eq!(x.distribution, y.distribution);
    }
    for (x, y) in ra
        .distribution_by_time_steps
        .items
        .iter()
        .zip(rb.distribution_by_time_steps.items.iter())
    {
        assert_eq!(x.time, y.time);
        assert_eq!(x.rooms.len(), y.rooms.len());
        for (p, q) in x.rooms.iter().zip(y.rooms.iter()) {
            assert_eq!(p.uuid, q.uuid);
            assert_eq!(p.density, q.density);
        }
    }
}

#[test]
fn building_area_and_population_are_summed() {
    let bim = bim_tools_new_rust(&single_room()).unwrap();
    assert_eq!(bim.area(), 100_000);
    assert_eq!(bim.number_of_people(), 20_000);
}
