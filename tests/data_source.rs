use geo_proximity::basic::Point;
use geo_proximity::data_source::{get_all_suburbs, SuburbEntry, SuburbError, SuburbInfo};
use geo_proximity::decimal::parse_u16;
use geo_proximity::error::GeometryError;
use geo_proximity::geo_position::{GeoPosition, COS_SCALE};
use geo_proximity::polyline::PolyLine;
use geo_proximity::power_lines::{
    aggregate_high_voltage_lines, parse_high_voltage_lines, HighVoltageLine, LineError, RawLine,
};
use geo_proximity::report::{filter_suburb, lines_to_report, voltage_distances};
use std::collections::HashMap;

fn entry(code: &str, name: &str, postcode: &str, lat: &str, lon: &str) -> (String, [String; 4]) {
    (
        code.to_owned(),
        [name.to_owned(), postcode.to_owned(), lat.to_owned(), lon.to_owned()],
    )
}

fn read_degrees(text: &str) -> Option<i64> {
    text.parse::<f64>().ok().filter(|d| d.is_finite() && d.abs() < 9e9).map(|d| (d * 1e9).round() as i64)
}

fn entries<I: IntoIterator<Item = (String, [String; 4])>>(raw: I) -> Vec<SuburbEntry> {
    raw.into_iter()
        .map(|(code, fields)| {
            let latitude = read_degrees(&fields[2]);
            let longitude = read_degrees(&fields[3]);
            SuburbEntry { code, fields, latitude, longitude }
        })
        .collect()
}

fn origin() -> GeoPosition {
    GeoPosition { latitude: -33_882_435_600, longitude: 151_206_411_899 }
}

fn location(info: &SuburbInfo) -> Point {
    let lat = info.position.latitude as f64 / 1e9;
    let cos = (lat.to_radians().cos() * COS_SCALE as f64).round() as i64;
    info.position.to_cartesian(&origin(), cos).unwrap()
}

fn assert_point_close(p: Point, x_m: f64, y_m: f64, delta_m: f64) {
    let x = p.x as f64 / 1000.0;
    let y = p.y as f64 / 1000.0;
    assert!((x - x_m).abs() < delta_m, "x = {x}, expected {x_m}");
    assert!((y - y_m).abs() < delta_m, "y = {y}, expected {y_m}");
}

fn pt(x: i64, y: i64) -> Point {
    Point { x, y }
}

fn hv(id: &str, points: Vec<Point>) -> HighVoltageLine {
    HighVoltageLine { line: PolyLine::new(points).unwrap(), id: id.to_owned() }
}

fn raw_line(id: &str, kind: &str, points: Vec<Point>) -> RawLine {
    RawLine { id: id.to_owned(), kind: kind.to_owned(), points }
}

fn labels(pairs: &[(&str, &[&str])]) -> Vec<(String, Vec<String>)> {
    pairs
        .iter()
        .map(|(id, ls)| (id.to_string(), ls.iter().map(|l| l.to_string()).collect()))
        .collect()
}

#[test]
fn data_source_success() {
    let raw_suburb_map: HashMap<String, [String; 4]> = HashMap::from([
        entry("3900", "CHERRYBROOK", "2126", "-33.72185040017101", "151.04624440456263"),
        entry("371", "WEST RYDE", "2114", "-33.80736158843438", "151.08385175565996"),
    ]);
    let info = get_all_suburbs(entries(raw_suburb_map)).unwrap();
    assert_eq!(info.len(), 2);
    let cherrybrook_idx = if info[0].postcode == 2126 { 0 } else { 1 };
    let west_ryde_idx = 1 - cherrybrook_idx;
    assert_eq!(info[cherrybrook_idx].name, "CHERRYBROOK");
    assert_eq!(info[cherrybrook_idx].postcode, 2126);
    assert_eq!(info[cherrybrook_idx].id, 3900);
    assert_point_close(location(&info[cherrybrook_idx]), -14813.3, 17856.5, 1.0);
    assert_eq!(info[west_ryde_idx].name, "WEST RYDE");
    assert_eq!(info[west_ryde_idx].postcode, 2114);
    assert_eq!(info[west_ryde_idx].id, 371);
    assert_point_close(location(&info[west_ryde_idx]), -11323.9, 8347.9, 1.0);
}

#[test]
fn success_with_none_postcode() {
    let raw_suburb_map: HashMap<String, [String; 4]> = HashMap::from([
        entry("3900", "CHERRYBROOK", "2126", "-33.72185040017101", "151.04624440456263"),
        entry("3775", "BLUE MOUNTAINS NATIONAL PARK", "None", "-33.90908096333183", "150.35316571753296"),
    ]);
    let info = get_all_suburbs(entries(raw_suburb_map)).unwrap();
    assert_eq!(info.len(), 1);
    assert_eq!(info[0].name, "CHERRYBROOK");
    assert_eq!(info[0].postcode, 2126);
    assert_eq!(info[0].id, 3900);
    assert_point_close(location(&info[0]), -14813.3, 17856.5, 1.0);
}

#[test]
fn throw_on_non_number_code() {
    let raw = vec![entry("abcd", "CHERRYBROOK", "2126", "-33.72185040017101", "151.04624440456263")];
    assert_eq!(get_all_suburbs(entries(raw)).err(), Some(SuburbError::BadCode { code: "abcd".to_owned() }));
}

#[test]
fn throw_on_non_number_postcode() {
    let raw = vec![entry("3900", "CHERRYBROOK", "abcd", "-33.72185040017101", "151.04624440456263")];
    assert_eq!(
        get_all_suburbs(entries(raw)).err(),
        Some(SuburbError::BadPostcode { postcode: "abcd".to_owned() })
    );
}

#[test]
fn bad_coordinates_are_reported() {
    let raw = vec![entry("1", "A", "2000", "south", "151.0")];
    assert_eq!(
        get_all_suburbs(entries(raw)).err(),
        Some(SuburbError::BadLatitude { latitude: "south".to_owned() })
    );
    let raw = vec![entry("1", "A", "2000", "-33.5", "151.x")];
    assert_eq!(
        get_all_suburbs(entries(raw)).err(),
        Some(SuburbError::BadLongitude { longitude: "151.x".to_owned() })
    );
}

#[test]
fn suburbs_keep_input_order_and_empty_input() {
    let raw = vec![
        entry("7", "B", "2001", "-33.5", "151"),
        entry("8", "C", "None", "x", "y"),
        entry("9", "D", "+2002", "-33.25", "151.125"),
    ];
    let info = get_all_suburbs(entries(raw)).unwrap();
    assert_eq!(info.len(), 2);
    assert_eq!((info[0].id, info[1].id), (7, 9));
    assert_eq!(info[1].postcode, 2002);
    assert_eq!(info[1].position, GeoPosition { latitude: -33_250_000_000, longitude: 151_125_000_000 });
    assert!(get_all_suburbs(entries(vec![])).unwrap().is_empty());
}

#[test]
fn parse_u16_follows_std() {
    for s in ["0", "65535", "65536", "+12", "-1", "", "+", "12a", "007"] {
        assert_eq!(parse_u16(s), s.parse::<u16>().ok(), "{s}");
    }
}

#[test]
fn coordinates_in_every_float_form() {
    let raw = vec![
        entry("1", "A", "2000", "-3.4e1", ".5"),
        entry("2", "B", "2001", "5.", "-1E-2"),
        entry("3", "C", "2002", "95", "200"),
    ];
    let info = get_all_suburbs(entries(raw)).unwrap();
    assert_eq!(info[0].position, GeoPosition { latitude: -34_000_000_000, longitude: 500_000_000 });
    assert_eq!(info[1].position, GeoPosition { latitude: 5_000_000_000, longitude: -10_000_000 });
    assert_eq!(info[2].position, GeoPosition { latitude: 95_000_000_000, longitude: 200_000_000_000 });
}

#[test]
fn parse_lines_groups_by_voltage() {
    let lines = vec![
        raw_line("512", "LineString", vec![pt(0, 0), pt(1000, 0)]),
        raw_line("1024", "LineString", vec![pt(0, 0), pt(0, 1000)]),
        raw_line("2048", "LineString", vec![pt(5, 5), pt(6, 6), pt(7, 5)]),
    ];
    let voltages = labels(&[("512", &["123kV"]), ("1024", &["123kV"]), ("2048", &["66kV"])]);
    let groups = parse_high_voltage_lines(lines, &voltages).unwrap();
    assert_eq!(groups.len(), 2);
    assert_eq!(groups[0].0, 123);
    assert_eq!(groups[0].1.iter().map(|l| l.id.as_str()).collect::<Vec<_>>(), vec!["512", "1024"]);
    assert_eq!(groups[1].0, 66);
    assert_eq!(groups[1].1[0].id, "2048");
    assert_eq!(groups[1].1[0].line.get_vertices(), vec![pt(5, 5), pt(6, 6), pt(7, 5)]);
}

#[test]
fn failed_with_wrong_voltage_format() {
    let lines = vec![raw_line("512", "LineString", vec![pt(0, 0), pt(10, 10)])];
    let voltages = labels(&[("512", &["123KV"])]);
    assert_eq!(
        parse_high_voltage_lines(lines, &voltages).err(),
        Some(LineError::BadVoltage { label: "123KV".to_owned() })
    );
}

#[test]
fn failed_with_multiple_voltage() {
    let lines = vec![raw_line("512", "LineString", vec![pt(0, 0), pt(10, 10)])];
    let voltages = labels(&[("512", &["123KV", "123KV"])]);
    assert_eq!(
        parse_high_voltage_lines(lines, &voltages).err(),
        Some(LineError::MultipleVoltages { id: "512".to_owned() })
    );
}

#[test]
fn failed_with_unsupported_type() {
    let lines = vec![raw_line("512", "PolyLine", vec![pt(0, 0), pt(10, 10)])];
    let voltages = labels(&[("512", &["123kV"])]);
    assert_eq!(
        parse_high_voltage_lines(lines, &voltages).err(),
        Some(LineError::UnsupportedType { kind: "PolyLine".to_owned() })
    );
}

#[test]
fn failed_with_missing_line() {
    let lines = vec![raw_line("512", "LineString", vec![pt(0, 0), pt(10, 10)])];
    let voltages = labels(&[("1024", &["123kV"])]);
    assert_eq!(
        parse_high_voltage_lines(lines, &voltages).err(),
        Some(LineError::MissingVoltage { id: "512".to_owned() })
    );
}

#[test]
fn failed_with_single_point_line() {
    let lines = vec![raw_line("512", "LineString", vec![pt(0, 0)])];
    let voltages = labels(&[("512", &["33kV"])]);
    assert_eq!(
        parse_high_voltage_lines(lines, &voltages).err(),
        Some(LineError::BadShape {
            id: "512".to_owned(),
            error: GeometryError::InsufficientPoints { count: 1 }
        })
    );
}

#[test]
fn aggregate_skips_seen_lines() {
    let acc = vec![(132u16, vec![hv("a", vec![pt(0, 0), pt(1, 0)])])];
    let map = vec![
        (132u16, vec![hv("a", vec![pt(0, 0), pt(1, 0)]), hv("b", vec![pt(0, 0), pt(0, 1)])]),
        (66u16, vec![hv("c", vec![pt(2, 0), pt(3, 0)]), hv("c", vec![pt(2, 0), pt(3, 0)])]),
    ];
    let mut seen = vec!["a".to_owned()];
    let groups = aggregate_high_voltage_lines(acc, map, &mut seen);
    assert_eq!(seen, vec!["a", "b", "c"]);
    assert_eq!(groups.len(), 2);
    assert_eq!(groups[0].0, 132);
    assert_eq!(groups[0].1.iter().map(|l| l.id.as_str()).collect::<Vec<_>>(), vec!["a", "b"]);
    assert_eq!(groups[1].0, 66);
    assert_eq!(groups[1].1.len(), 1);
}

#[test]
fn distances_and_report() {
    let groups = vec![
        (66u16, vec![hv("x", vec![pt(0, 100), pt(100, 100)])]),
        (132u16, vec![hv("y", vec![pt(0, 300), pt(100, 300)]), hv("z", vec![pt(0, 200), pt(100, 200)])]),
        (11u16, vec![]),
        (33u16, vec![hv("w", vec![pt(0, 500), pt(100, 500)])]),
    ];
    let distances = voltage_distances(&groups, &pt(50, 0));
    assert_eq!(distances, vec![(66, Some(100)), (132, Some(200)), (11, None), (33, Some(500))]);
    assert_eq!(lines_to_report(&distances), vec![(66, 100), (132, 200)]);
}

#[test]
fn filter_keeps_suburbs_in_range() {
    let make = |id: u16| SuburbInfo {
        name: format!("S{id}"),
        id,
        postcode: 2000,
        position: GeoPosition { latitude: 0, longitude: 0 },
    };
    let suburbs = vec![(make(1), pt(3000, 4000)), (make(2), pt(4999, 0)), (make(3), pt(-5000, 0))];
    let kept = filter_suburb(&pt(0, 0), suburbs, 5000);
    assert_eq!(kept.iter().map(|s| s.id).collect::<Vec<_>>(), vec![2]);
}

#[test]
fn failed_with_repeated_point_line() {
    let lines = vec![
        raw_line("7", "LineString", vec![pt(0, 0), pt(1, 1)]),
        raw_line("8", "LineString", vec![pt(0, 0), pt(3, 3), pt(3, 3)]),
    ];
    let voltages = labels(&[("7", &["33kV"]), ("8", &["33kV"])]);
    assert_eq!(
        parse_high_voltage_lines(lines, &voltages).err(),
        Some(LineError::BadShape {
            id: "8".to_owned(),
            error: GeometryError::DegenerateSegment { a: pt(3, 3), b: pt(3, 3) }
        })
    );
}
