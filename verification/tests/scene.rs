use draw_map::building::DrawBuilding;
use draw_map::category_index::CategoryIndex;
use draw_map::geometry::{BBox, Line, Polygon, Pt};
use draw_map::hider::Hider;
use draw_map::map::{BuildError, DrawMap, EditError};
use draw_map::map_data::{
    BuildingIn, ExtraShapeGeomIn, ExtraShapeIn, IntersectionIn, LaneIn, LaneType, MapData,
    ParcelIn, TurnIn,
};

fn pt(x: i64, y: i64) -> Pt {
    Pt { x, y }
}

fn bbox(min_x: i64, min_y: i64, max_x: i64, max_y: i64) -> BBox {
    BBox {
        min_x,
        min_y,
        max_x,
        max_y,
    }
}

fn turn(id: u64, src_lane: u64, parent: u64, angle_degrees: u32) -> TurnIn {
    TurnIn {
        id,
        src_lane,
        parent,
        angle_degrees,
        line: Line {
            p1: pt(300, 100),
            p2: pt(350, 150),
        },
    }
}

fn small_map() -> MapData {
    MapData {
        lanes: vec![LaneIn {
            centerline: vec![pt(100, 100), pt(300, 100)],
            width: 100,
            lane_type: LaneType::Driving,
            src_i: 0,
            dst_i: 1,
        }],
        intersections: vec![IntersectionIn {
            points: vec![pt(300, 80), pt(340, 80), pt(340, 120), pt(300, 120)],
            incident_lanes: vec![0],
        }],
        turns: vec![
            turn(10, 0, 1, 10),
            turn(11, 0, 1, 200),
            turn(12, 0, 1, 90),
        ],
        buildings: vec![BuildingIn {
            points: vec![pt(500, 500), pt(600, 500), pt(600, 600), pt(500, 600)],
            front_path: Line {
                p1: pt(550, 600),
                p2: pt(550, 800),
            },
            front_path_len: 200,
            sidewalk_thickness: 100,
            osm_way_id: 777,
            osm_tags: vec![
                ("addr:housenumber".to_string(), "42".to_string()),
                ("building".to_string(), "house".to_string()),
            ],
            has_parking: true,
            label_center: pt(550, 550),
        }],
        parcels: vec![ParcelIn {
            points: vec![pt(700, 700), pt(800, 700), pt(800, 800)],
        }],
        bounds: bbox(0, 0, 1000, 1000),
    }
}

fn small_shapes() -> Vec<ExtraShapeIn> {
    vec![
        ExtraShapeIn {
            geom: ExtraShapeGeomIn::Point(pt(50, 50)),
            attributes: vec![("TEXT".to_string(), "water".to_string())],
        },
        ExtraShapeIn {
            geom: ExtraShapeGeomIn::Points(vec![pt(10, 10), pt(20, 20)]),
            attributes: vec![],
        },
    ]
}

fn sorted(mut v: Vec<u64>) -> Vec<u64> {
    v.sort();
    v
}

#[test]
fn turn_slots_follow_angle_order() {
    // Three turns at the lane's destination endpoint with angles 10, 200 and
    // 90 degrees take slots 0, 2 and 1 respectively.
    let (d, _) = DrawMap::new(&small_map(), small_shapes()).unwrap();
    assert_eq!(d.get_t(10).unwrap().slot, 0);
    assert_eq!(d.get_t(12).unwrap().slot, 1);
    assert_eq!(d.get_t(11).unwrap().slot, 2);
}

#[test]
fn turn_slot_count_matches_turn_count() {
    let map = small_map();
    let (d, _) = DrawMap::new(&map, small_shapes()).unwrap();
    assert_eq!(d.turns.len(), map.turns.len());
}

#[test]
fn turn_slots_contiguous_from_zero() {
    let (d, _) = DrawMap::new(&small_map(), small_shapes()).unwrap();
    let mut slots: Vec<usize> = d.turns.iter().map(|(_, t)| t.slot).collect();
    slots.sort();
    assert_eq!(slots, vec![0, 1, 2]);
}

#[test]
fn full_scene_query_returns_each_id_once() {
    let (d, _) = DrawMap::new(&small_map(), small_shapes()).unwrap();
    let hider = Hider::new();
    let full = d.scene_bounds;
    assert_eq!(sorted(d.get_loads_onscreen(full, &hider)), vec![0]);
    assert_eq!(sorted(d.get_intersections_onscreen(full, &hider)), vec![0]);
    assert_eq!(sorted(d.get_buildings_onscreen(full, &hider)), vec![0]);
    assert_eq!(sorted(d.get_parcels_onscreen(full)), vec![0]);
    assert_eq!(sorted(d.get_extra_shapes_onscreen(full, &hider)), vec![0, 1]);
}

#[test]
fn query_has_no_false_positives_or_negatives() {
    let a = bbox(0, 0, 10, 10);
    let b = bbox(100, 100, 110, 110);
    let ci = CategoryIndex::build(bbox(0, 0, 200, 200), vec![(1, a), (2, b)]);
    // A rectangle touching only the first box returns exactly that id;
    // boundary touching counts.
    assert_eq!(sorted(ci.query(&bbox(10, 10, 50, 50))), vec![1]);
    assert_eq!(sorted(ci.query(&bbox(11, 11, 50, 50))), vec![]);
    assert_eq!(sorted(ci.query(&bbox(0, 0, 200, 200))), vec![1, 2]);
}

#[test]
fn remove_then_reinsert_restores_queries() {
    let a = bbox(0, 0, 10, 10);
    let b = bbox(100, 100, 110, 110);
    let mut ci = CategoryIndex::build(bbox(0, 0, 200, 200), vec![(1, a), (2, b)]);
    let before = sorted(ci.query(&bbox(0, 0, 200, 200)));
    let removed = ci.remove(1);
    assert_eq!(removed, Some(a));
    ci.insert(1, a);
    let after = sorted(ci.query(&bbox(0, 0, 200, 200)));
    assert_eq!(before, after);
}

#[test]
fn visibility_filter_is_idempotent_per_frame() {
    let (d, _) = DrawMap::new(&small_map(), small_shapes()).unwrap();
    let hider = Hider {
        hidden_lanes: vec![0],
        hidden_intersections: vec![],
        hidden_buildings: vec![],
        hidden_extra_shapes: vec![1],
    };
    let full = d.scene_bounds;
    let once = sorted(d.get_extra_shapes_onscreen(full, &hider));
    let twice = sorted(d.get_extra_shapes_onscreen(full, &hider));
    assert_eq!(once, vec![0]);
    assert_eq!(once, twice);
    assert_eq!(sorted(d.get_loads_onscreen(full, &hider)), vec![]);
}

#[test]
fn front_path_trim_cases() {
    // A 2.0-unit path with a 1.0-unit sidewalk is trimmed by 0.5 to 1.5
    // units; a 0.4-unit path whose residue would be only 0.2 stays whole.
    let trimmed = BuildingIn {
        points: vec![pt(0, 0), pt(100, 0), pt(100, 100)],
        front_path: Line {
            p1: pt(0, 0),
            p2: pt(0, 200),
        },
        front_path_len: 200,
        sidewalk_thickness: 100,
        osm_way_id: 1,
        osm_tags: vec![],
        has_parking: false,
        label_center: pt(50, 50),
    };
    let d = DrawBuilding::new(0, &trimmed).unwrap();
    assert_eq!(d.front_path.draw_len, 150);

    let short = BuildingIn {
        front_path_len: 40,
        sidewalk_thickness: 40,
        ..trimmed
    };
    let d2 = DrawBuilding::new(1, &short).unwrap();
    assert_eq!(d2.front_path.draw_len, 40);
}

#[test]
fn empty_rect_outside_everything_returns_nothing() {
    let (d, _) = DrawMap::new(&small_map(), small_shapes()).unwrap();
    let hider = Hider::new();
    let away = bbox(90000, 90000, 90000, 90000);
    assert!(d.get_loads_onscreen(away, &hider).is_empty());
    assert!(d.get_intersections_onscreen(away, &hider).is_empty());
    assert!(d.get_buildings_onscreen(away, &hider).is_empty());
    assert!(d.get_parcels_onscreen(away).is_empty());
    assert!(d.get_extra_shapes_onscreen(away, &hider).is_empty());
}

#[test]
fn removing_sole_object_empties_category() {
    let a = bbox(5, 5, 20, 20);
    let mut ci = CategoryIndex::build(bbox(0, 0, 100, 100), vec![(7, a)]);
    assert_eq!(ci.remove(7), Some(a));
    assert!(ci.query(&bbox(0, 0, 100, 100)).is_empty());

    let mut map = small_map();
    map.turns = vec![turn(10, 0, 1, 10)];
    let (mut d, _) = DrawMap::new(&map, vec![]).unwrap();
    assert!(d.get_t(10).is_some());
    d.edit_remove_turn(10);
    assert!(d.get_t(10).is_none());
}

#[test]
fn re_adding_turn_restores_it() {
    let map = small_map();
    let (mut d, _) = DrawMap::new(&map, vec![]).unwrap();
    d.edit_remove_turn(12);
    assert!(d.get_t(12).is_none());
    d.edit_add_turn(12, &map);
    let t = d.get_t(12).unwrap();
    assert_eq!(t.id, 12);
    assert_eq!(t.slot, 1);
}

#[test]
fn build_accepts_empty_map() {
    let map = MapData {
        lanes: vec![],
        intersections: vec![],
        turns: vec![],
        buildings: vec![],
        parcels: vec![],
        bounds: bbox(0, 0, 100, 100),
    };
    let (d, center) = DrawMap::new(&map, vec![]).unwrap();
    assert_eq!(d.skipped, 0);
    assert_eq!(center, pt(50, 50));
    assert!(d.get_parcels_onscreen(bbox(0, 0, 100, 100)).is_empty());
}

#[test]
fn degenerate_objects_are_skipped_and_counted() {
    let mut map = small_map();
    map.lanes.push(LaneIn {
        centerline: vec![],
        width: 100,
        lane_type: LaneType::Parking,
        src_i: 0,
        dst_i: 1,
    });
    let (d, _) = DrawMap::new(&map, small_shapes()).unwrap();
    assert_eq!(d.skipped, 1);
    assert!(d.get_l(0).is_some());
    assert!(d.get_l(1).is_none());
    assert!(d.get_l(99).is_none());
}

#[test]
fn duplicate_turn_ids_abort_the_build() {
    let mut map = small_map();
    map.turns = vec![turn(10, 0, 1, 10), turn(10, 0, 1, 20)];
    match DrawMap::new(&map, vec![]) {
        Err(e) => assert_eq!(e, BuildError::TopologyMismatch),
        Ok(_) => panic!("build should abort on duplicate turn identifiers"),
    }
}

#[test]
fn turn_without_its_lane_aborts_the_build() {
    let mut map = small_map();
    map.turns = vec![turn(10, 7, 1, 10)];
    match DrawMap::new(&map, vec![]) {
        Err(e) => assert_eq!(e, BuildError::TopologyMismatch),
        Ok(_) => panic!("build should abort on a turn without its lane"),
    }
}

#[test]
fn edit_lane_type_replaces_drawable_in_place() {
    let mut map = small_map();
    let (mut d, _) = DrawMap::new(&map, vec![]).unwrap();
    map.lanes[0].lane_type = LaneType::Biking;
    assert_eq!(d.edit_lane_type(0, &map), Ok(()));
    assert_eq!(d.get_l(0).unwrap().lane_type, LaneType::Biking);
    // Queries are untouched by the edit.
    let hider = Hider::new();
    assert_eq!(sorted(d.get_loads_onscreen(d.scene_bounds, &hider)), vec![0]);
}

#[test]
fn edit_lane_type_rejects_bad_edits() {
    let map = small_map();
    let (mut d, _) = DrawMap::new(&map, vec![]).unwrap();
    assert_eq!(d.edit_lane_type(9, &map), Err(EditError::NotFound));

    let mut degenerate = small_map();
    degenerate.lanes[0].width = 0;
    assert_eq!(d.edit_lane_type(0, &degenerate), Err(EditError::Degenerate));

    let mut moved = small_map();
    moved.lanes[0].centerline = vec![pt(100, 100), pt(400, 100)];
    assert_eq!(d.edit_lane_type(0, &moved), Err(EditError::BoundsChanged));
}

#[test]
fn lane_band_covers_inflated_centerline() {
    let (d, _) = DrawMap::new(&small_map(), vec![]).unwrap();
    let lane = d.get_l(0).unwrap();
    // Centerline from (100,100) to (300,100) with width 100: the band's
    // extent inflates each point by the half-width of 50.
    assert_eq!(lane.bbox, bbox(50, 50, 350, 150));
}

#[test]
fn annotation_circle_has_square_bounds() {
    let (d, _) = DrawMap::new(&small_map(), small_shapes()).unwrap();
    // The point record becomes a circle of radius 100 at (50, 50).
    let es = d.get_es(0).unwrap();
    assert_eq!(es.bbox, bbox(-50, -50, 150, 150));
    assert_eq!(es.attributes.len(), 1);
}

#[test]
fn building_bbox_includes_front_path_ends() {
    let (d, _) = DrawMap::new(&small_map(), vec![]).unwrap();
    let b = d.get_b(0).unwrap();
    // The fill polygon spans 500..600 but the front path reaches (550, 800).
    assert_eq!(b.bbox, bbox(500, 500, 600, 800));
    assert_eq!(b.label.as_deref(), Some("42"));
    assert_eq!(b.osm_way_id, 777);
    assert_eq!(b.tags.len(), 2);
    assert!(b.has_parking_icon);
}

#[test]
fn annotation_tooltip_flags_the_text_key() {
    let (d, _) = DrawMap::new(&small_map(), small_shapes()).unwrap();
    let entries = d.get_es(0).unwrap().tooltip_entries();
    assert_eq!(entries.len(), 1);
    assert_eq!(entries[0], (true, "TEXT".to_string(), "water".to_string()));
}

#[test]
fn re_adding_turn_recomputes_sibling_slots() {
    // Removing the middle-angle turn and re-adding it refreshes the whole
    // lane: every slot is back at its build-time rank.
    let map = small_map();
    let (mut d, _) = DrawMap::new(&map, vec![]).unwrap();
    let before: Vec<(u64, usize)> = vec![
        (10, d.get_t(10).unwrap().slot),
        (11, d.get_t(11).unwrap().slot),
        (12, d.get_t(12).unwrap().slot),
    ];
    d.edit_remove_turn(12);
    d.edit_add_turn(12, &map);
    for (id, slot) in before {
        assert_eq!(d.get_t(id).unwrap().slot, slot);
    }
}

#[test]
fn polygon_bounds_are_exact_extents() {
    let p = Polygon::new(vec![pt(3, 9), pt(-4, 2), pt(7, -1)]);
    let b = p.get_bounds();
    assert_eq!(b, bbox(-4, -1, 7, 9));
}

#[test]
fn building_hit_test_is_exact() {
    let (d, _) = DrawMap::new(&small_map(), small_shapes()).unwrap();
    let b = d.get_b(0).unwrap();
    // The fill polygon is the square 500..600 in both axes.
    assert!(b.contains_pt(pt(550, 550)));
    assert!(!b.contains_pt(pt(450, 550)));
    assert!(!b.contains_pt(pt(550, 700)));
}

#[test]
fn circle_hit_test_is_exact() {
    let (d, _) = DrawMap::new(&small_map(), small_shapes()).unwrap();
    // The point record is a circle of radius 100 at (50, 50).
    let es = d.get_es(0).unwrap();
    assert!(es.contains_pt(pt(50, 50)));
    assert!(es.contains_pt(pt(150, 50)));
    assert!(!es.contains_pt(pt(151, 50)));
    assert!(!es.contains_pt(pt(121, 121)));
}
