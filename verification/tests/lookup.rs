use gtav_coordinate_lookup::roads::{
    build_road_segments, find_intersection_road, find_nearest_road, is_real_street_name,
    pick_street_name, ConnectedNode, Node, NodeCell, RoadMatch, RoadSegment,
    CROSSING_SEARCH_RADIUS,
};
use gtav_coordinate_lookup::zones::{
    find_zones, matched_volumes_compare, Bounds, MatchType, Point, Zone, ZoneMatch,
};

fn point(x: f64, y: f64, z: f64) -> Point {
    Point { x: x.to_bits(), y: y.to_bits(), z: z.to_bits() }
}

fn bounds(min: (f64, f64, f64), max: (f64, f64, f64)) -> Bounds {
    let volume = (max.0 - min.0).abs() * (max.1 - min.1).abs() * (max.2 - min.2).abs().max(1.0);
    Bounds {
        min: point(min.0, min.1, min.2),
        max: point(max.0, max.1, max.2),
        volume: volume.to_bits(),
    }
}

fn zone(name: &str, display: Option<&str>, boxes: Vec<Bounds>) -> Zone {
    Zone {
        name: name.to_string(),
        display_name: display.map(|d| d.to_string()),
        bounds: boxes,
    }
}

fn sample_zones() -> Vec<Zone> {
    vec![
        zone("Big", Some("Big Area"), vec![bounds((-100.0, -100.0, 0.0), (100.0, 100.0, 50.0))]),
        zone(
            "AirP",
            Some("Los Santos International Airport"),
            vec![
                bounds((-10.0, -10.0, 0.0), (10.0, 10.0, 5.0)),
                bounds((200.0, 200.0, 0.0), (210.0, 210.0, 5.0)),
            ],
        ),
        zone("High", None, vec![bounds((-10.0, -10.0, 100.0), (10.0, 10.0, 105.0))]),
    ]
}

#[test]
fn zones_smallest_box_first() {
    let zones = sample_zones();
    let matches = find_zones(&zones, point(1.0, 1.0, 2.0));
    assert_eq!(
        matches,
        vec![
            ZoneMatch { zone: 1, bounds: 0, match_type: MatchType::Exact3d },
            ZoneMatch { zone: 0, bounds: 0, match_type: MatchType::Exact3d },
        ]
    );
}

#[test]
fn zones_fall_back_to_xy() {
    let zones = sample_zones();
    let matches = find_zones(&zones, point(1.0, 1.0, 500.0));
    assert_eq!(
        matches,
        vec![
            ZoneMatch { zone: 1, bounds: 0, match_type: MatchType::XyFallback },
            ZoneMatch { zone: 2, bounds: 0, match_type: MatchType::XyFallback },
            ZoneMatch { zone: 0, bounds: 0, match_type: MatchType::XyFallback },
        ]
    );
}

#[test]
fn zones_equal_volumes_keep_their_order() {
    let zones = vec![
        zone("A", None, vec![bounds((0.0, 0.0, 0.0), (2.0, 2.0, 2.0))]),
        zone("B", None, vec![bounds((-1.0, -1.0, -1.0), (1.0, 1.0, 1.0))]),
    ];
    let matches = find_zones(&zones, point(0.5, 0.5, 0.5));
    assert_eq!(matches[0].zone, 0);
    assert_eq!(matches[1].zone, 1);
}

#[test]
fn zones_none_outside() {
    let zones = sample_zones();
    assert!(find_zones(&zones, point(1000.0, 0.0, 0.0)).is_empty());
    // A NaN coordinate is held by no box.
    assert!(find_zones(&zones, point(f64::NAN, 1.0, 1.0)).is_empty());
}

fn segment(name: &str, id: u16) -> RoadSegment {
    RoadSegment {
        street_name: name.to_string(),
        start_area_id: 1,
        start_node_id: id,
        end_node_id: id + 1,
        start: point(0.0, 0.0, 0.0),
        end: point(1.0, 0.0, 0.0),
    }
}

fn bits(list: &[f64]) -> Vec<u64> {
    list.iter().map(|d| d.to_bits()).collect()
}

#[test]
fn nearest_road_is_the_first_at_least_distance() {
    let d = bits(&[5.0, 2.0, 2.0, 3.0]);
    assert_eq!(
        find_nearest_road(&d, None),
        Some(RoadMatch { segment: 1, distance: 2.0f64.to_bits() })
    );
}

#[test]
fn nearest_road_respects_the_radius() {
    let d = bits(&[5.0, 2.0, 3.0]);
    assert_eq!(find_nearest_road(&d, Some(1.5f64.to_bits())), None);
    assert_eq!(
        find_nearest_road(&d, Some(2.0f64.to_bits())),
        Some(RoadMatch { segment: 1, distance: 2.0f64.to_bits() })
    );
    assert_eq!(find_nearest_road(&Vec::new(), None), None);
}

#[test]
fn crossing_road_has_another_name() {
    let segments = vec![segment("Main", 1), segment("Main", 3), segment("Side", 5), segment("Far", 7)];
    let d = bits(&[1.0, 1.5, 20.0, 2.0]);
    let road = find_nearest_road(&d, None);
    assert_eq!(road.map(|r| r.segment), Some(0));
    let crossing = find_intersection_road(&segments, &d, road, None);
    assert_eq!(crossing.map(|r| r.segment), Some(3));
    assert_eq!(find_intersection_road(&segments, &d, None, None), None);
}

#[test]
fn crossing_road_reach() {
    let segments = vec![segment("Main", 1), segment("Side", 3)];
    // Without a radius, crossings up to 35 m count.
    assert_eq!(
        find_intersection_road(&segments, &bits(&[1.0, 35.0]), Some(RoadMatch { segment: 0, distance: 1.0f64.to_bits() }), None)
            .map(|r| r.segment),
        Some(1)
    );
    assert_eq!(
        find_intersection_road(&segments, &bits(&[1.0, 35.5]), Some(RoadMatch { segment: 0, distance: 1.0f64.to_bits() }), None),
        None
    );
    // The reach is at least the distance to the road itself.
    assert_eq!(
        find_intersection_road(&segments, &bits(&[50.0, 45.0]), Some(RoadMatch { segment: 0, distance: 50.0f64.to_bits() }), Some(10.0f64.to_bits()))
            .map(|r| r.segment),
        Some(1)
    );
    assert_eq!(f64::from_bits(CROSSING_SEARCH_RADIUS), 35.0);
}

#[test]
fn street_names() {
    assert!(is_real_street_name("Ineseno Road"));
    assert!(!is_real_street_name("  "));
    assert!(!is_real_street_name(" 0 "));
    assert!(is_real_street_name("00"));
    assert_eq!(pick_street_name("0", "Grove St"), "Grove St");
    assert_eq!(pick_street_name("Davis Ave", "Grove St"), "Davis Ave");
    assert_eq!(pick_street_name("", " "), "");
}

fn node(id: u16, name: &str, links: Option<Vec<(u16, &str)>>) -> Node {
    Node {
        id,
        street_name: name.to_string(),
        position: point(id as f64, 0.0, 0.0),
        connected_nodes: links.map(|ls| {
            ls.into_iter()
                .map(|(lid, lname)| ConnectedNode {
                    id: lid,
                    street_name: lname.to_string(),
                    position: point(lid as f64, 1.0, 0.0),
                })
                .collect()
        }),
    }
}

#[test]
fn road_segments_from_nodes() {
    let cells = vec![
        NodeCell {
            area_id: 333,
            nodes: vec![
                node(116, "New Empire Way", Some(vec![(122, "0"), (123, "Other")])),
                node(117, "0", Some(vec![(124, "0"), (125, "Side St")])),
                node(118, "Lonely", None),
            ],
        },
        NodeCell { area_id: 334, nodes: vec![node(1, "", Some(vec![(2, " ")]))] },
    ];
    let segments = build_road_segments(&cells).ok().expect("segments");
    let names: Vec<&str> = segments.iter().map(|s| s.street_name.as_str()).collect();
    assert_eq!(names, vec!["New Empire Way", "New Empire Way", "Side St"]);
    assert_eq!(segments[0].start_area_id, 333);
    assert_eq!(segments[0].start_node_id, 116);
    assert_eq!(segments[0].end_node_id, 122);
    assert_eq!(segments[2].end_node_id, 125);
    assert_eq!(segments[2].end, point(125.0, 1.0, 0.0));
}

#[test]
fn road_segments_need_a_name() {
    let cells = vec![NodeCell { area_id: 1, nodes: vec![node(1, "0", Some(vec![(2, "")]))] }];
    assert!(build_road_segments(&cells).is_err());
}

#[test]
fn a_nan_volume_counts_only_in_a_matching_box() {
    let mut zones = sample_zones();
    let nan_box = Bounds { volume: f64::NAN.to_bits(), ..bounds((500.0, 500.0, 0.0), (600.0, 600.0, 5.0)) };
    zones.push(zone("Far", None, vec![nan_box]));
    let p = point(1.0, 1.0, 2.0);
    assert!(matched_volumes_compare(&zones, p));
    assert_eq!(
        find_zones(&zones, p),
        vec![
            ZoneMatch { zone: 1, bounds: 0, match_type: MatchType::Exact3d },
            ZoneMatch { zone: 0, bounds: 0, match_type: MatchType::Exact3d },
        ]
    );
    assert!(!matched_volumes_compare(&zones, point(550.0, 550.0, 1.0)));
    // Outside every box in 3D, the xy fallback makes the far box count.
    assert!(!matched_volumes_compare(&zones, point(550.0, 550.0, 900.0)));
    assert!(matched_volumes_compare(&zones, point(1.0, 1.0, 900.0)));
}
