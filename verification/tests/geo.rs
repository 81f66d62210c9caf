use entry_index::entry::Address;
use entry_index::geo::{
    LatCoord, LngCoord, MapBbox, MapPoint, RAW_COORD_INVALID, RAW_COORD_MAX, RAW_COORD_MIN,
};

fn point(lat: i32, lng: i32) -> MapPoint {
    MapPoint::new(LatCoord::from_raw(lat), LngCoord::from_raw(lng))
}

#[test]
fn coordinates() {
    assert_eq!(LatCoord::max().to_raw(), i32::MAX);
    assert_eq!(LatCoord::min().to_raw(), -i32::MAX);
    assert_eq!(LngCoord::max().to_raw(), RAW_COORD_MAX);
    assert_eq!(LngCoord::min().to_raw(), RAW_COORD_MIN);
    assert!(LatCoord::max().is_valid());
    assert!(LngCoord::min().is_valid());
    assert!(LatCoord::from_raw(0).is_valid());
    assert!(!LatCoord::from_raw(i32::MIN).is_valid());
    assert!(!LngCoord::from_raw(RAW_COORD_INVALID).is_valid());
    assert!(!LatCoord::default().is_valid());
    assert!(!LngCoord::default().is_valid());
    assert_eq!(LatCoord::from_raw(17).to_raw(), 17);
    assert_eq!(LngCoord::from_raw(-17).to_raw(), -17);
}

#[test]
fn points() {
    assert!(point(1, 2).is_valid());
    assert!(!point(i32::MIN, 2).is_valid());
    assert!(!point(1, i32::MIN).is_valid());
    assert!(!MapPoint::default().is_valid());
    assert_eq!(point(1, 2).lat(), LatCoord::from_raw(1));
    assert_eq!(point(1, 2).lng(), LngCoord::from_raw(2));
}

#[test]
fn a_box_contains_its_edges() {
    let bbox = MapBbox::new(point(-10, -20), point(10, 20));
    assert!(bbox.is_valid());
    assert!(!bbox.is_empty());
    assert!(!bbox.wraps());
    assert_eq!(bbox.south_west(), point(-10, -20));
    assert_eq!(bbox.north_east(), point(10, 20));
    assert!(bbox.contains_point(&point(0, 0)));
    assert!(bbox.contains_point(&point(-10, -20)));
    assert!(bbox.contains_point(&point(10, 20)));
    assert!(bbox.contains_point(&point(-10, 20)));
    assert!(!bbox.contains_point(&point(-11, 0)));
    assert!(!bbox.contains_point(&point(11, 0)));
    assert!(!bbox.contains_point(&point(0, -21)));
    assert!(!bbox.contains_point(&point(0, 21)));
}

#[test]
fn a_box_that_wraps_leaves_out_the_band_between_its_edges() {
    let bbox = MapBbox::new(point(-10, 170), point(10, -170));
    assert!(bbox.is_valid());
    assert!(bbox.wraps());
    assert!(bbox.contains_point(&point(0, 175)));
    assert!(bbox.contains_point(&point(0, -175)));
    assert!(bbox.contains_point(&point(0, 170)));
    assert!(bbox.contains_point(&point(0, -170)));
    assert!(bbox.contains_point(&point(0, RAW_COORD_MAX)));
    assert!(bbox.contains_point(&point(0, RAW_COORD_MIN)));
    assert!(!bbox.contains_point(&point(0, 169)));
    assert!(!bbox.contains_point(&point(0, -169)));
    assert!(!bbox.contains_point(&point(0, 0)));
    assert!(!bbox.contains_point(&point(11, 175)));
    assert!(!bbox.contains_point(&point(-11, -175)));
}

#[test]
fn boxes_that_are_not_valid_or_empty() {
    assert!(!MapBbox::new(point(10, 0), point(-10, 5)).is_valid());
    assert!(!MapBbox::new(MapPoint::default(), point(10, 5)).is_valid());
    assert!(!MapBbox::new(point(0, 0), MapPoint::default()).is_valid());
    assert!(MapBbox::new(point(0, 0), point(0, 5)).is_valid());
    assert!(MapBbox::new(point(0, 0), point(0, 5)).is_empty());
    assert!(MapBbox::new(point(0, 5), point(7, 5)).is_empty());
    assert!(!MapBbox::new(point(0, 5), point(7, 4)).is_empty());
}

#[test]
fn an_address_is_empty_without_any_part() {
    let mut address = Address {
        street: None,
        zip: None,
        city: None,
        country: None,
    };
    assert!(address.is_empty());
    address.city = Some("Stuttgart".into());
    assert!(!address.is_empty());
}
