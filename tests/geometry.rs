use geo_proximity::basic::{floor_sqrt, Point, Vector};
use geo_proximity::error::GeometryError;
use geo_proximity::geo_position::{GeoPosition, COS_SCALE};
use geo_proximity::line::{FracPoint, LineSegment};
use geo_proximity::polygon::Polygon;
use geo_proximity::polyline::PolyLine;

fn pt(x: i64, y: i64) -> Point {
    Point { x, y }
}

fn seg(a: Point, b: Point) -> LineSegment {
    LineSegment::new(a, b).unwrap()
}

fn frac_close_to(p: FracPoint, x: f64, y: f64, delta: f64) -> bool {
    let px = p.x as f64 / p.den as f64;
    let py = p.y as f64 / p.den as f64;
    (px - x).abs() < delta && (py - y).abs() < delta
}

fn nanodegrees(degrees: f64) -> i64 {
    (degrees * 1e9).round() as i64
}

fn cos_scaled(latitude_degrees: f64) -> i64 {
    (latitude_degrees.to_radians().cos() * COS_SCALE as f64).round() as i64
}

fn sydney_central() -> GeoPosition {
    GeoPosition {
        latitude: nanodegrees(-33.88243560003056),
        longitude: nanodegrees(151.2064118987779),
    }
}

fn project(latitude: f64, longitude: f64) -> Point {
    let pos = GeoPosition { latitude: nanodegrees(latitude), longitude: nanodegrees(longitude) };
    pos.to_cartesian(&sydney_central(), cos_scaled(latitude)).unwrap()
}

fn assert_point_close(p: Point, x_m: f64, y_m: f64, delta_m: f64) {
    let x = p.x as f64 / 1000.0;
    let y = p.y as f64 / 1000.0;
    assert!((x - x_m).abs() < delta_m, "x = {x}, expected {x_m}");
    assert!((y - y_m).abs() < delta_m, "y = {y}, expected {y_m}");
}

#[test]
fn distance_to_a_point() {
    let point = pt(1000, 2000);
    assert_eq!(point.distance_to(&pt(0, 0)), 2236);
    assert_eq!(point.distance_sq_to(&pt(0, 0)), 5_000_000);
}

#[test]
fn distance_to_itself() {
    let point = pt(1000, 2000);
    assert_eq!(point.distance_to(&pt(1000, 2000)), 0);
}

#[test]
fn vector_cross_product() {
    let v1 = Vector { x: 13, y: 8 };
    let v2 = Vector { x: -1, y: 2 };
    assert_eq!(v1.cross(&v2), 34);
}

#[test]
fn vector_det() {
    let v = Vector { x: 3, y: 4 };
    assert_eq!(v.det(), 5);
}

#[test]
fn vector_from_points_is_difference() {
    let v = Vector::from_points(&pt(3, -2), &pt(-1, 5));
    assert_eq!(v, Vector { x: -4, y: 7 });
    assert_eq!(v.dot(&Vector { x: 2, y: 1 }), -1);
}

#[test]
fn floor_sqrt_rounds_down() {
    assert_eq!(floor_sqrt(0), 0);
    assert_eq!(floor_sqrt(15), 3);
    assert_eq!(floor_sqrt(16), 4);
    assert_eq!(floor_sqrt(u128::MAX), u64::MAX);
}

#[test]
fn latitude_to_cartesian_rosebery() {
    let cartesian = project(-33.921119441679096, 151.1984099658811);
    assert_point_close(cartesian, -738.6767504988909, -4301.452856541296, 1.0);
}

#[test]
fn latitude_to_cartesian_hills() {
    let cartesian = project(-33.71703513789143, 150.9600398224331);
    assert_point_close(cartesian, -22787.159185405268, 18391.717575661813, 1.0);
}

#[test]
fn latitude_to_cartesian_beacon_mainly() {
    let cartesian = project(-33.79284455124619, 151.2877152046721);
    assert_point_close(cartesian, 7513.165838856347, 9962.083813063693, 1.0);
}

#[test]
fn projection_along_origin_parallel() {
    let origin = sydney_central();
    let delta: i64 = 10_000_000;
    let pos = GeoPosition { latitude: origin.latitude, longitude: origin.longitude + delta };
    let cos = cos_scaled(-33.88243560003056);
    let p = pos.to_cartesian(&origin, cos).unwrap();
    assert_eq!(p.y, 0);
    let exact_mm = 6_371_071_000.0 * (delta as f64 / 1e9).to_radians() * (cos as f64 / 1e9);
    assert!((p.x as f64 - exact_mm).abs() <= 2.0, "x = {}, exact {}", p.x, exact_mm);
}

#[test]
fn projection_beyond_plane_is_none() {
    let pos = GeoPosition { latitude: 0, longitude: 170_000_000_000 };
    let origin = GeoPosition { latitude: 0, longitude: 0 };
    assert_eq!(pos.to_cartesian(&origin, COS_SCALE as i64), None);
}

#[test]
fn find_projection_point_outside() {
    let line_segment = seg(pt(0, 0), pt(1, 1));
    let projection = line_segment.find_projection(&pt(0, 1));
    assert!(frac_close_to(projection, 0.5, 0.5, 1e-14));
    assert_eq!(projection, FracPoint { x: 1, y: 1, den: 2 });
}

#[test]
fn find_projection_vertical_line() {
    let line_segment = seg(pt(10, 0), pt(10, 100));
    let projection = line_segment.find_projection(&pt(0, 100));
    assert!(frac_close_to(projection, 10.0, 100.0, 1e-14));
}

#[test]
fn find_projection_point_on_line() {
    let line_segment = seg(pt(0, 0), pt(2, 2));
    let projection = line_segment.find_projection(&pt(1, 1));
    assert!(frac_close_to(projection, 1.0, 1.0, 1e-14));
}

#[test]
fn find_closest_point_projection_on_line() {
    let line_segment = seg(pt(0, 0), pt(1, 1));
    let closest_point = line_segment.find_closest_point(&pt(0, 1));
    assert!(frac_close_to(closest_point, 0.5, 0.5, 1e-14));
}

#[test]
fn find_closest_point_projection_on_end_point_a() {
    let line_segment = seg(pt(0, 0), pt(1, 1));
    let closest_point = line_segment.find_closest_point(&pt(0, 2));
    assert_eq!(closest_point, FracPoint { x: 1, y: 1, den: 1 });
}

#[test]
fn find_closest_point_projection_on_end_point_b() {
    let line_segment = seg(pt(0, 0), pt(1, 1));
    let closest_point = line_segment.find_closest_point(&pt(-1, 1));
    assert_eq!(closest_point, FracPoint { x: 0, y: 0, den: 1 });
}

#[test]
fn find_closest_point_projection_outside_close_to_point_a() {
    let line_segment = seg(pt(0, 0), pt(1, 1));
    let closest_point = line_segment.find_closest_point(&pt(1, 100));
    assert_eq!(closest_point, FracPoint { x: 1, y: 1, den: 1 });
}

#[test]
fn find_closest_point_projection_outside_close_to_point_b() {
    let line_segment = seg(pt(0, 0), pt(1, 1));
    let closest_point = line_segment.find_closest_point(&pt(-100, 1));
    assert_eq!(closest_point, FracPoint { x: 0, y: 0, den: 1 });
}

#[test]
fn vertical_segment_closest_is_endpoint() {
    let line_segment = seg(pt(10, 0), pt(10, 100));
    let closest_point = line_segment.find_closest_point(&pt(0, 100));
    assert_eq!(closest_point, FracPoint { x: 10, y: 100, den: 1 });
    assert_eq!(line_segment.distance_to_point(&pt(0, 100)), 10);
}

#[test]
fn segment_with_coincident_endpoints_fails() {
    let r = LineSegment::new(pt(0, 0), pt(0, 0));
    assert_eq!(r, Err(GeometryError::DegenerateSegment { a: pt(0, 0), b: pt(0, 0) }));
}

#[test]
fn segment_distance_interior() {
    let line_segment = seg(pt(0, 0), pt(1000, 0));
    assert_eq!(line_segment.distance_to_point(&pt(300, 250)), 250);
    let diagonal = seg(pt(0, 0), pt(1000, 1000));
    assert_eq!(diagonal.distance_to_point(&pt(0, 1000)), 707);
}

#[test]
fn segment_distance_zero_on_span() {
    let line_segment = seg(pt(0, 0), pt(1000, 500));
    assert_eq!(line_segment.distance_to_point(&pt(0, 0)), 0);
    assert_eq!(line_segment.distance_to_point(&pt(400, 200)), 0);
    assert_eq!(line_segment.distance_to_point(&pt(1000, 500)), 0);
}

#[test]
fn segment_distance_outside_is_nearer_endpoint() {
    let line_segment = seg(pt(0, 0), pt(1000, 0));
    assert_eq!(line_segment.distance_to_point(&pt(-300, 400)), 500);
    assert_eq!(line_segment.distance_to_point(&pt(1600, 800)), 1000);
}

#[test]
fn segment_point_on_line_beyond_span() {
    let line_segment = seg(pt(0, 0), pt(1000, 0));
    let closest_point = line_segment.find_closest_point(&pt(2000, 0));
    assert_eq!(closest_point, FracPoint { x: 1000, y: 0, den: 1 });
    assert_eq!(line_segment.distance_to_point(&pt(2000, 0)), 1000);
    assert_eq!(line_segment.distance_to_point(&pt(-300, 0)), 300);
}

#[test]
fn polygon_new_2_lines() {
    let r = Polygon::from_segments(vec![seg(pt(0, 0), pt(1, 1)), seg(pt(1, 1), pt(2, 2))]);
    assert!(matches!(r, Err(GeometryError::InsufficientPoints { count: 2 })));
}

#[test]
fn polygon_new_disconnected_middle() {
    let r = Polygon::from_segments(vec![
        seg(pt(0, 0), pt(2, 2)),
        seg(pt(2, 2), pt(3, 3)),
        seg(pt(4, 2), pt(0, 0)),
    ]);
    assert!(matches!(
        r,
        Err(GeometryError::DiscontinuousChain { index: 2, end: Point { x: 3, y: 3 }, start: Point { x: 4, y: 2 } })
    ));
}

#[test]
fn polygon_new_disconnected_end() {
    let r = Polygon::from_segments(vec![
        seg(pt(0, 0), pt(1, 1)),
        seg(pt(1, 1), pt(2, 2)),
        seg(pt(2, 1), pt(1, 0)),
    ]);
    assert!(matches!(r, Err(GeometryError::DiscontinuousChain { index: 2, .. })));
}

#[test]
fn polygon_from_segments_unclosed() {
    let r = Polygon::from_segments(vec![
        seg(pt(0, 0), pt(1, 1)),
        seg(pt(1, 1), pt(2, 2)),
        seg(pt(2, 2), pt(1, 0)),
    ]);
    assert!(matches!(
        r,
        Err(GeometryError::UnclosedLoop { first_start: Point { x: 0, y: 0 }, last_end: Point { x: 1, y: 0 } })
    ));
}

#[test]
fn polygon_two_points_insufficient() {
    let r = Polygon::new(vec![pt(0, 0), pt(1, 1)]);
    assert!(matches!(r, Err(GeometryError::InsufficientPoints { count: 2 })));
}

#[test]
fn polygon_three_points_first_equals_last() {
    let r = Polygon::new(vec![pt(0, 0), pt(1, 1), pt(0, 0)]);
    assert!(matches!(r, Err(GeometryError::DegenerateShape { .. })));
}

#[test]
fn polygon_auto_closes() {
    let polygon = Polygon::new(vec![pt(0, 0), pt(1, 1), pt(1, 0)]).unwrap();
    let vertices = polygon.get_vertices();
    assert_eq!(vertices, vec![pt(0, 0), pt(1, 1), pt(1, 0)]);
    let rebuilt = Polygon::from_segments(vec![
        seg(vertices[0], vertices[1]),
        seg(vertices[1], vertices[2]),
        seg(vertices[2], vertices[0]),
    ]);
    assert!(rebuilt.is_ok());
}

#[test]
fn polygon_already_closed_keeps_points() {
    let polygon = Polygon::new(vec![pt(0, 0), pt(4, 0), pt(4, 4), pt(0, 0)]).unwrap();
    assert_eq!(polygon.get_vertices(), vec![pt(0, 0), pt(4, 0), pt(4, 4)]);
}

#[test]
fn polygon_repeated_point_fails() {
    let r = Polygon::new(vec![pt(0, 0), pt(0, 0), pt(1, 1), pt(1, 0)]);
    assert!(matches!(r, Err(GeometryError::DegenerateSegment { .. })));
}

#[test]
fn polyline_distance_to_point() {
    let polyline = PolyLine::new(vec![pt(0, 1000), pt(0, 0), pt(1000, 0)]).unwrap();
    let min_distance = polyline.distance_to(&pt(-500, 500));
    assert_eq!(min_distance, 500);
}

#[test]
fn polyline_failed_one_point() {
    let r = PolyLine::new(vec![pt(0, 1)]);
    assert!(matches!(r, Err(GeometryError::InsufficientPoints { count: 1 })));
}

#[test]
fn polyline_success_two_points() {
    let polyline = PolyLine::new(vec![pt(0, 1), pt(0, 0)]).unwrap();
    assert_eq!(polyline.get_vertices(), vec![pt(0, 1), pt(0, 0)]);
}

#[test]
fn polyline_empty_and_repeated() {
    assert!(matches!(PolyLine::new(vec![]), Err(GeometryError::InsufficientPoints { count: 0 })));
    let r = PolyLine::new(vec![pt(0, 0), pt(5, 5), pt(5, 5)]);
    assert!(matches!(r, Err(GeometryError::DegenerateSegment { a: Point { x: 5, y: 5 }, .. })));
}

#[test]
fn polyline_distance_is_repeatable() {
    let polyline = PolyLine::new(vec![pt(0, 0), pt(3000, 4000), pt(6000, 0)]).unwrap();
    let p = pt(100, 2500);
    let first = polyline.distance_to(&p);
    let second = polyline.distance_to(&p);
    assert_eq!(first, second);
}

#[test]
fn polyline_distance_takes_nearest_segment() {
    let polyline = PolyLine::new(vec![pt(0, 0), pt(10000, 0), pt(10000, 10000)]).unwrap();
    assert_eq!(polyline.distance_to(&pt(9000, 5000)), 1000);
    assert_eq!(polyline.distance_to(&pt(5000, -300)), 300);
}

#[test]
fn point_close_to_within_delta() {
    let p = pt(100, -50);
    assert!(p.close_to(&pt(104, -46), 5));
    assert!(!p.close_to(&pt(105, -50), 5));
    assert!(!p.close_to(&pt(100, -55), 5));
    assert!(!p.close_to(&p, 0));
}
