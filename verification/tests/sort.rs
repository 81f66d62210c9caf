use entry_index::entry::{Entry, Location};
use entry_index::geo::{Distance, LatCoord, LngCoord, MapPoint, RAW_COORD_MAX};
use entry_index::sort::{distance_to, SortByDistanceTo};

use std::f64::{INFINITY, NAN};

/// The latitude of so many degrees north, if there is one.
fn lat_from_deg(deg: f64) -> LatCoord {
    if deg >= -90.0 && deg <= 90.0 {
        LatCoord::from_raw((deg / 90.0 * RAW_COORD_MAX as f64).round() as i32)
    } else {
        LatCoord::default()
    }
}

/// The longitude of so many degrees east, if there is one.
fn lng_from_deg(deg: f64) -> LngCoord {
    if deg >= -180.0 && deg <= 180.0 {
        LngCoord::from_raw((deg / 180.0 * RAW_COORD_MAX as f64).round() as i32)
    } else {
        LngCoord::default()
    }
}

fn point(lat: f64, lng: f64) -> MapPoint {
    let point = MapPoint::new(lat_from_deg(lat), lng_from_deg(lng));
    if point.is_valid() {
        point
    } else {
        MapPoint::default()
    }
}

fn new_entry(id: &str, lat: f64, lng: f64) -> Entry {
    Entry {
        id: id.into(),
        created: 0,
        version: 0,
        title: String::new(),
        description: String::new(),
        location: Location {
            pos: point(lat, lng),
            address: None,
        },
        homepage: None,
        categories: vec![],
        tags: vec![],
        license: None,
        image_url: None,
        image_link_url: None,
    }
}

fn to_rad(point: &MapPoint) -> (f64, f64) {
    let half_pi = std::f64::consts::FRAC_PI_2;
    (
        point.lat().to_raw() as f64 / RAW_COORD_MAX as f64 * half_pi,
        point.lng().to_raw() as f64 / RAW_COORD_MAX as f64 * 2.0 * half_pi,
    )
}

/// The distance on the globe between two points, if both are valid.
fn measure(here: &MapPoint, there: &MapPoint) -> Distance {
    if !here.is_valid() || !there.is_valid() {
        return Distance::infinite();
    }
    let (lat1, lng1) = to_rad(here);
    let (lat2, lng2) = to_rad(there);
    let dlat = ((lat2 - lat1) / 2.0).sin();
    let dlng = ((lng2 - lng1) / 2.0).sin();
    let a = dlat * dlat + lat1.cos() * lat2.cos() * dlng * dlng;
    let c = 2.0 * a.sqrt().atan2((1.0 - a).sqrt());
    Distance::from_millimetres((6_371_000_000.0 * c).round() as u64)
}

fn measure_all(entries: &[Entry], center: &MapPoint) -> Vec<Distance> {
    entries
        .iter()
        .map(|entry| measure(&entry.location.pos, center))
        .collect()
}

#[test]
fn sort_by_distance() {
    let mut entries = vec![
        new_entry("a", 1.0, 0.0),
        new_entry("b", 0.0, 0.0),
        new_entry("c", 1.0, 1.0),
        new_entry("d", 0.0, 0.5),
        new_entry("e", -1.0, -1.0),
    ];
    let x = point(0.0, 0.0);
    let measured = measure_all(&entries, &x);
    entries.sort_by_distance_to(&x, &measured);
    assert_eq!(entries[0].id, "b");
    assert_eq!(entries[1].id, "d");
    assert_eq!(entries[2].id, "a");
    assert!(entries[3].id == "c" || entries[3].id == "e");
    assert!(entries[4].id == "c" || entries[4].id == "e");
}

#[test]
fn sort_with_invalid_coordinates() {
    let mut entries = vec![
        new_entry("a", 1.0, NAN),
        new_entry("b", 1.0, INFINITY),
        new_entry("c", 2.0, 0.0),
        new_entry("d", NAN, NAN),
        new_entry("e", 1.0, 0.0),
    ];
    let x = point(0.0, 0.0);
    let measured = measure_all(&entries, &x);
    entries.sort_by_distance_to(&x, &measured);
    assert_eq!(entries[0].id, "e");
    assert_eq!(entries[1].id, "c");

    let mut entries = vec![
        new_entry("a", 2.0, 0.0),
        new_entry("b", 0.0, 0.0),
        new_entry("c", 1.0, 0.0),
    ];

    let x = MapPoint::new(LatCoord::default(), lng_from_deg(0.0));
    let measured = measure_all(&entries, &x);
    entries.sort_by_distance_to(&x, &measured);
    assert_eq!(entries[0].id, "a");
    assert_eq!(entries[1].id, "b");
    assert_eq!(entries[2].id, "c");
}

#[test]
fn entries_without_position_keep_their_order_at_the_end() {
    let mut entries = vec![
        new_entry("a", NAN, 0.0),
        new_entry("b", 3.0, 0.0),
        new_entry("c", 0.0, INFINITY),
        new_entry("d", 1.0, 0.0),
        new_entry("e", NAN, NAN),
    ];
    let x = point(0.0, 0.0);
    // what was measured for an entry without position does not count
    let measured = vec![
        Distance::from_millimetres(0),
        Distance::from_millimetres(30),
        Distance::from_millimetres(1),
        Distance::from_millimetres(10),
        Distance::from_millimetres(2),
    ];
    entries.sort_by_distance_to(&x, &measured);
    let ids: Vec<&str> = entries.iter().map(|entry| entry.id.as_str()).collect();
    assert_eq!(ids, vec!["d", "b", "a", "c", "e"]);
}

#[test]
fn equal_distances_keep_their_order() {
    let mut entries = vec![
        new_entry("a", 1.0, 0.0),
        new_entry("b", 0.0, 1.0),
        new_entry("c", 0.5, 0.0),
        new_entry("d", 0.0, 2.0),
    ];
    let x = point(0.0, 0.0);
    let measured = vec![
        Distance::from_millimetres(7),
        Distance::from_millimetres(7),
        Distance::from_millimetres(3),
        Distance::from_millimetres(7),
    ];
    entries.sort_by_distance_to(&x, &measured);
    let ids: Vec<&str> = entries.iter().map(|entry| entry.id.as_str()).collect();
    assert_eq!(ids, vec!["c", "a", "b", "d"]);
}

#[test]
fn missing_distances_count_as_infinite() {
    let mut entries = vec![
        new_entry("a", 1.0, 0.0),
        new_entry("b", 0.0, 1.0),
        new_entry("c", 0.5, 0.0),
    ];
    let x = point(0.0, 0.0);
    let measured = vec![Distance::from_millimetres(7)];
    entries.sort_by_distance_to(&x, &measured);
    let ids: Vec<&str> = entries.iter().map(|entry| entry.id.as_str()).collect();
    assert_eq!(ids, vec!["a", "b", "c"]);
    let mut entries = vec![
        new_entry("a", 1.0, 0.0),
        new_entry("b", 0.0, 1.0),
        new_entry("c", 0.5, 0.0),
    ];
    let measured = vec![
        Distance::infinite(),
        Distance::from_millimetres(9),
        Distance::from_millimetres(8),
    ];
    entries.sort_by_distance_to(&x, &measured);
    let ids: Vec<&str> = entries.iter().map(|entry| entry.id.as_str()).collect();
    assert_eq!(ids, vec!["c", "b", "a"]);
}

#[test]
fn distance_of_an_entry() {
    let x = point(0.0, 0.0);
    let near = Distance::from_millimetres(5);
    assert_eq!(distance_to(&new_entry("a", 1.0, 0.0), &x, near), near);
    assert_eq!(
        distance_to(&new_entry("a", NAN, 0.0), &x, near),
        Distance::infinite()
    );
    assert_eq!(
        distance_to(&new_entry("a", 1.0, 0.0), &MapPoint::default(), near),
        Distance::infinite()
    );
    assert!(Distance::infinite().is_infinite());
    assert!(!near.is_infinite());
    assert_eq!(near.to_millimetres(), 5);
}
