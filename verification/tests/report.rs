use gtav_coordinate_lookup::cli::OutputField;
use gtav_coordinate_lookup::coords::CoordinateText;
use gtav_coordinate_lookup::report::{
    json_escape, json_string_or_null, render_json, render_selected_fields, selected_field_value,
    RoadReport,
};
use gtav_coordinate_lookup::roads::{RoadMatch, RoadSegment};
use gtav_coordinate_lookup::zones::{Bounds, MatchType, Point, Zone, ZoneMatch};

fn origin() -> Point {
    Point { x: 0, y: 0, z: 0 }
}

fn zones() -> Vec<Zone> {
    vec![
        Zone {
            name: "AirP".to_string(),
            display_name: Some("Los Santos International Airport".to_string()),
            bounds: vec![Bounds { min: origin(), max: origin(), volume: 0 }],
        },
        Zone { name: "NoName".to_string(), display_name: None, bounds: vec![] },
    ]
}

fn segments() -> Vec<RoadSegment> {
    vec![
        RoadSegment {
            street_name: "New Empire Way".to_string(),
            start_area_id: 333,
            start_node_id: 116,
            end_node_id: 122,
            start: origin(),
            end: origin(),
        },
        RoadSegment {
            street_name: "Zancudo \"Ave\"".to_string(),
            start_area_id: 7,
            start_node_id: 0,
            end_node_id: 65535,
            start: origin(),
            end: origin(),
        },
    ]
}

fn airport() -> Vec<ZoneMatch> {
    vec![ZoneMatch { zone: 0, bounds: 0, match_type: MatchType::Exact3d }]
}

fn road(segment: usize) -> Option<RoadMatch> {
    Some(RoadMatch { segment, distance: 0 })
}

#[test]
fn escapes_json_specials() {
    assert_eq!(json_escape("a\\b\"c\nd\re\tf"), "a\\\\b\\\"c\\nd\\re\\tf");
    assert_eq!(json_escape("plain é"), "plain é");
    assert_eq!(json_string_or_null(Some("x\"y")), "\"x\\\"y\"");
    assert_eq!(json_string_or_null(None), "null");
}

#[test]
fn escaped_text_reads_back() {
    let original = "tab\there \"quoted\" back\\slash\nline";
    let escaped = json_escape(original);
    let read: String = serde_json::from_str(&format!("\"{escaped}\"")).unwrap();
    assert_eq!(read, original);
}

#[test]
fn field_values() {
    let (z, s) = (zones(), segments());
    assert_eq!(selected_field_value(OutputField::ZoneCode, &z, &airport(), &s, None, None), Some("AirP".to_string()));
    assert_eq!(
        selected_field_value(OutputField::ZoneName, &z, &airport(), &s, None, None),
        Some("Los Santos International Airport".to_string())
    );
    let unnamed = vec![ZoneMatch { zone: 1, bounds: 0, match_type: MatchType::XyFallback }];
    assert_eq!(
        selected_field_value(OutputField::ZoneName, &z, &unnamed, &s, None, None),
        Some("NoName".to_string())
    );
    assert_eq!(selected_field_value(OutputField::ZoneCode, &z, &Vec::new(), &s, None, None), None);
    assert_eq!(
        selected_field_value(OutputField::Road, &z, &airport(), &s, road(0), road(1)),
        Some("New Empire Way".to_string())
    );
    assert_eq!(
        selected_field_value(OutputField::Intersection, &z, &airport(), &s, road(0), None),
        None
    );
}

#[test]
fn single_field_prints_its_value() {
    let (z, s) = (zones(), segments());
    assert_eq!(
        render_selected_fields(&vec![OutputField::ZoneCode], &z, &airport(), &s, None, None),
        "AirP\n"
    );
    assert_eq!(
        render_selected_fields(&vec![OutputField::Road], &z, &airport(), &s, None, None),
        "\n"
    );
}

#[test]
fn several_fields_print_an_object() {
    let (z, s) = (zones(), segments());
    let out = render_selected_fields(
        &vec![OutputField::ZoneCode, OutputField::ZoneName, OutputField::Road, OutputField::Intersection],
        &z,
        &airport(),
        &s,
        road(0),
        None,
    );
    assert_eq!(
        out,
        "{\n  \"zoneCode\": \"AirP\",\n  \"zoneName\": \"Los Santos International Airport\",\n  \"road\": \"New Empire Way\",\n  \"intersection\": null\n}\n"
    );
}

#[test]
fn full_document() {
    let (z, s) = (zones(), segments());
    let coordinates = CoordinateText {
        x: "-1037.5".to_string(),
        y: "-2737.8".to_string(),
        z: "20.2".to_string(),
    };
    let out = render_json(
        &coordinates,
        &z,
        &airport(),
        &s,
        &Some(RoadReport { road: RoadMatch { segment: 0, distance: 0 }, distance: "13.191523395015555".to_string() }),
        &None,
    );
    let expected = "{\n  \"coordinates\": { \"x\": -1037.5, \"y\": -2737.8, \"z\": 20.2 },\n  \"zones\": [\n    { \"name\": \"AirP\", \"displayName\": \"Los Santos International Airport\", \"match\": \"3d\" }\n  ],\n  \"road\": { \"name\": \"New Empire Way\", \"distance\": 13.191523395015555, \"from\": \"333:116\", \"to\": \"122\" },\n  \"intersection\": null\n}\n";
    assert_eq!(out, expected);
    let value: serde_json::Value = serde_json::from_str(&out).unwrap();
    assert_eq!(value["road"]["from"], "333:116");
}

#[test]
fn full_document_with_crossing_and_fallback() {
    let (z, s) = (zones(), segments());
    let coordinates = CoordinateText { x: "1".to_string(), y: "2".to_string(), z: "3".to_string() };
    let matches = vec![
        ZoneMatch { zone: 0, bounds: 0, match_type: MatchType::XyFallback },
        ZoneMatch { zone: 1, bounds: 0, match_type: MatchType::XyFallback },
    ];
    let out = render_json(
        &coordinates,
        &z,
        &matches,
        &s,
        &None,
        &Some(RoadReport { road: RoadMatch { segment: 1, distance: 0 }, distance: "null".to_string() }),
    );
    let value: serde_json::Value = serde_json::from_str(&out).unwrap();
    assert_eq!(value["zones"][1]["displayName"], serde_json::Value::Null);
    assert_eq!(value["zones"][0]["match"], "xy_fallback");
    assert_eq!(value["road"], serde_json::Value::Null);
    assert_eq!(value["intersection"]["name"], "Zancudo \"Ave\"");
    assert_eq!(value["intersection"]["from"], "7:0");
    assert_eq!(value["intersection"]["to"], "65535");
}

#[test]
fn empty_display_name_falls_back_to_the_code() {
    let z = vec![Zone {
        name: "ISHEIST".to_string(),
        display_name: Some(String::new()),
        bounds: vec![Bounds { min: origin(), max: origin(), volume: 0 }],
    }];
    let s = segments();
    assert_eq!(
        selected_field_value(OutputField::ZoneName, &z, &airport(), &s, None, None),
        Some("ISHEIST".to_string())
    );
    assert_eq!(
        render_selected_fields(&vec![OutputField::ZoneName], &z, &airport(), &s, None, None),
        "ISHEIST\n"
    );
}
