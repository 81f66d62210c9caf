use entry_index::entry::{Entry, Location};
use entry_index::geo::{LatCoord, LngCoord, MapPoint};
use entry_index::rating::{
    avg_rating_for_context, calculate_all_ratings, calculate_rating_for_entry, ratings_of_entry,
    AvgRatingValue, Rated, Rating, RatingContext, RatingValue, AVG_RATING_SCALE,
};

fn new_entry(id: &str) -> Entry {
    Entry {
        id: id.into(),
        created: 0,
        version: 0,
        title: String::new(),
        description: String::new(),
        location: Location {
            pos: MapPoint::new(LatCoord::from_raw(0), LngCoord::from_raw(0)),
            address: None,
        },
        homepage: None,
        categories: vec![],
        tags: vec![],
        license: None,
        image_url: None,
        image_link_url: None,
    }
}

fn new_rating(id: &str, entry_id: &str, value: i8, context: RatingContext) -> Rating {
    Rating {
        id: id.into(),
        entry_id: entry_id.into(),
        created: 0,
        title: "blubb".into(),
        value: value.into(),
        context,
        source: Some("blabla".into()),
    }
}

/// The score with the given value.
fn avg(value: f64) -> AvgRatingValue {
    AvgRatingValue::from_raw((value * AVG_RATING_SCALE as f64).round() as i64)
}

#[test]
fn test_average_rating() {
    let entry1 = new_entry("a");
    let entry2 = new_entry("b");
    let entry3 = new_entry("c");

    let ratings1 = [
        new_rating("1", "a", 0, RatingContext::Diversity),
        new_rating("2", "a", 0, RatingContext::Diversity),
        new_rating("3", "a", 3, RatingContext::Diversity),
        new_rating("4", "a", 3, RatingContext::Diversity),
    ];

    let ratings2 = [
        new_rating("5", "b", -3, RatingContext::Diversity),
        new_rating("6", "b", 3, RatingContext::Diversity),
    ];
    assert_eq!(entry1.avg_rating(&ratings1), avg(0.25));
    assert_eq!(entry2.avg_rating(&ratings2), avg(0.0));
    assert_eq!(entry3.avg_rating(&[]), avg(0.0));
}

#[test]
fn test_average_rating_different_contexts() {
    let entry1 = new_entry("a");
    let entry2 = new_entry("b");

    let ratings1 = [
        new_rating("1", "a", 0, RatingContext::Diversity),
        new_rating("2", "a", 10, RatingContext::Renewable),
        new_rating("3", "a", 7, RatingContext::Fairness),
        new_rating("4", "a", 9, RatingContext::Fairness),
    ];

    let ratings2 = [
        new_rating("5", "b", -3, RatingContext::Diversity),
        new_rating("6", "b", 3, RatingContext::Fairness),
    ];

    assert_eq!(entry1.avg_rating(&ratings1), avg(3.0));
    assert_eq!(entry2.avg_rating(&ratings2), avg(0.0));
}

#[test]
fn mean_of_one_context() {
    let ratings = [
        new_rating("1", "a", 0, RatingContext::Diversity),
        new_rating("2", "a", 0, RatingContext::Diversity),
        new_rating("3", "a", 3, RatingContext::Diversity),
        new_rating("4", "a", 3, RatingContext::Diversity),
    ];
    assert_eq!(
        avg_rating_for_context(&ratings, &RatingContext::Diversity),
        Some(avg(1.5))
    );
    assert_eq!(avg_rating_for_context(&ratings, &RatingContext::Fairness), None);
}

#[test]
fn means_of_several_contexts() {
    let ratings = [
        new_rating("1", "a", 0, RatingContext::Diversity),
        new_rating("2", "a", 10, RatingContext::Renewable),
        new_rating("3", "a", 7, RatingContext::Fairness),
        new_rating("4", "a", 9, RatingContext::Fairness),
    ];
    let mean = |context| avg_rating_for_context(&ratings, &context);
    assert_eq!(mean(RatingContext::Diversity), Some(avg(0.0)));
    assert_eq!(mean(RatingContext::Renewable), Some(avg(10.0)));
    assert_eq!(mean(RatingContext::Fairness), Some(avg(8.0)));
    assert_eq!(mean(RatingContext::Humanity), None);
    assert_eq!(mean(RatingContext::Transparency), None);
    assert_eq!(mean(RatingContext::Solidarity), None);
}

#[test]
fn means_are_rounded_to_the_nearest_unit() {
    // one third of the scale is no whole number of units
    let ratings = [
        new_rating("1", "a", 0, RatingContext::Humanity),
        new_rating("2", "a", 0, RatingContext::Humanity),
        new_rating("3", "a", 1, RatingContext::Humanity),
    ];
    let third = avg_rating_for_context(&ratings, &RatingContext::Humanity).unwrap();
    assert_eq!(third.to_raw(), 1_431_655_765);
    let ratings = [
        new_rating("1", "a", 0, RatingContext::Humanity),
        new_rating("2", "a", 0, RatingContext::Humanity),
        new_rating("3", "a", -1, RatingContext::Humanity),
    ];
    let third = avg_rating_for_context(&ratings, &RatingContext::Humanity).unwrap();
    assert_eq!(third.to_raw(), -1_431_655_765);
}

#[test]
fn scores_of_valid_ratings_are_valid() {
    let entry = new_entry("a");
    let lowest: Vec<Rating> = [
        RatingContext::Diversity,
        RatingContext::Renewable,
        RatingContext::Fairness,
        RatingContext::Humanity,
        RatingContext::Transparency,
        RatingContext::Solidarity,
    ]
    .into_iter()
    .map(|context| new_rating("1", "a", -1, context))
    .collect();
    assert_eq!(entry.avg_rating(&lowest), AvgRatingValue::min());
    let highest: Vec<Rating> = [
        RatingContext::Diversity,
        RatingContext::Renewable,
        RatingContext::Fairness,
        RatingContext::Humanity,
        RatingContext::Transparency,
        RatingContext::Solidarity,
    ]
    .into_iter()
    .map(|context| new_rating("1", "a", 2, context))
    .collect();
    assert_eq!(entry.avg_rating(&highest), AvgRatingValue::max());
    assert!(entry.avg_rating(&highest).is_valid());
    assert!(!avg(3.0).is_valid());
    assert_eq!(avg(3.0).clamp(), AvgRatingValue::max());
    assert_eq!(avg(-3.0).clamp(), AvgRatingValue::min());
}

#[test]
fn rating_values() {
    assert!(RatingValue::new(-1).is_valid());
    assert!(RatingValue::new(2).is_valid());
    assert!(!RatingValue::new(3).is_valid());
    assert_eq!(RatingValue::new(3).clamp(), RatingValue::max());
    assert_eq!(RatingValue::new(-3).clamp(), RatingValue::min());
    assert_eq!(i8::from(RatingValue::from(2)), 2);
    assert_eq!(AvgRatingValue::from(RatingValue::new(2)), avg(2.0));
    assert_eq!(AvgRatingValue::default(), avg(0.0));
}

#[test]
fn scores_of_all_entries() {
    let entries = vec![new_entry("a"), new_entry("b"), new_entry("c")];
    let ratings = [
        new_rating("1", "a", 0, RatingContext::Diversity),
        new_rating("2", "b", 2, RatingContext::Diversity),
        new_rating("3", "a", 0, RatingContext::Diversity),
        new_rating("4", "b", 2, RatingContext::Fairness),
        new_rating("5", "a", 3, RatingContext::Diversity),
        new_rating("6", "a", 3, RatingContext::Diversity),
        new_rating("7", "x", 2, RatingContext::Humanity),
    ];
    let own: Vec<String> = ratings_of_entry(&ratings, "a")
        .into_iter()
        .map(|rating| rating.id)
        .collect();
    assert_eq!(own, ["1", "3", "5", "6"]);
    assert!(ratings_of_entry(&ratings, "c").is_empty());
    assert_eq!(calculate_rating_for_entry(&entries[0], &ratings), avg(0.25));
    let scores = calculate_all_ratings(&entries, &ratings);
    assert_eq!(scores.len(), 3);
    assert_eq!(scores[0], ("a".to_string(), avg(0.25)));
    assert_eq!(scores[1].0, "b");
    assert_eq!(scores[1].1.to_raw(), 2_863_311_531);
    assert_eq!(scores[2], ("c".to_string(), avg(0.0)));
}
