use entry_index::entry::{Entry, Location};
use entry_index::geo::{LatCoord, LngCoord, MapBbox, MapPoint, RAW_COORD_MAX};
use entry_index::index::document::{avg_rating_to_u64, u64_to_avg_rating};
use entry_index::index::entry_index::{
    hit_from_document, hits_from_documents, resolved_entries, resolved_entry, EntryGateway,
    IndexedHit, TantivyEntryIndex,
};
use entry_index::index::error::{IndexError, RepoError};
use entry_index::index::query::EntryIndexQuery;
use entry_index::index::schema::TantivyEntryFields;
use entry_index::rating::{AvgRatingValue, AVG_RATING_SCALE};

fn lat(deg: f64) -> LatCoord {
    LatCoord::from_raw((deg / 90.0 * RAW_COORD_MAX as f64).round() as i32)
}

fn lng(deg: f64) -> LngCoord {
    LngCoord::from_raw((deg / 180.0 * RAW_COORD_MAX as f64).round() as i32)
}

fn point(lat_deg: f64, lng_deg: f64) -> MapPoint {
    MapPoint::new(lat(lat_deg), lng(lng_deg))
}

fn bbox(south: f64, west: f64, north: f64, east: f64) -> MapBbox {
    MapBbox::new(point(south, west), point(north, east))
}

fn avg(value: f64) -> AvgRatingValue {
    AvgRatingValue::from_raw((value * AVG_RATING_SCALE as f64).round() as i64)
}

fn entry(id: &str, lat_deg: f64, lng_deg: f64) -> Entry {
    Entry {
        id: id.into(),
        created: 0,
        version: 0,
        title: format!("title of {}", id),
        description: format!("description of {}", id),
        location: Location {
            pos: point(lat_deg, lng_deg),
            address: None,
        },
        homepage: None,
        categories: vec![],
        tags: vec![],
        license: None,
        image_url: None,
        image_link_url: None,
    }
}

fn labelled(id: &str, categories: &[&str], tags: &[&str]) -> Entry {
    let mut labelled = entry(id, 0.0, 0.0);
    labelled.categories = categories.iter().map(|c| c.to_string()).collect();
    labelled.tags = tags.iter().map(|t| t.to_string()).collect();
    labelled
}

fn everywhere() -> EntryIndexQuery {
    EntryIndexQuery {
        bbox: Some(bbox(-90.0, -180.0, 90.0, 180.0)),
        text: None,
        categories: vec![],
        tags: vec![],
    }
}

fn within(bbox: MapBbox) -> EntryIndexQuery {
    EntryIndexQuery {
        bbox: Some(bbox),
        text: None,
        categories: vec![],
        tags: vec![],
    }
}

fn with_text(text: &str) -> EntryIndexQuery {
    EntryIndexQuery {
        bbox: None,
        text: Some(text.into()),
        categories: vec![],
        tags: vec![],
    }
}

fn labels(categories: &[&str], tags: &[&str]) -> EntryIndexQuery {
    EntryIndexQuery {
        bbox: None,
        text: None,
        categories: categories.iter().map(|c| c.to_string()).collect(),
        tags: tags.iter().map(|t| t.to_string()).collect(),
    }
}

fn ids(hits: &[IndexedHit]) -> Vec<String> {
    hits.iter().map(|hit| hit.id.clone()).collect()
}

fn sorted_ids(hits: &[IndexedHit]) -> Vec<String> {
    let mut found = ids(hits);
    found.sort();
    found
}

fn index_of(entries: &[(Entry, f64)]) -> TantivyEntryIndex {
    let mut index = TantivyEntryIndex::create_in_ram().unwrap();
    for (entry, rating) in entries {
        index.add_or_update_entry(entry, avg(*rating)).unwrap();
    }
    index.flush().unwrap();
    index
}

#[test]
fn a_new_index_is_empty() {
    let index = TantivyEntryIndex::create_in_ram().unwrap();
    assert!(index.search_hits(&everywhere(), 10).unwrap().is_empty());
}

#[test]
fn changes_are_seen_after_the_commit() {
    let mut index = TantivyEntryIndex::create_in_ram().unwrap();
    index
        .add_or_update_entry(&entry("a", 1.0, 1.0), avg(0.0))
        .unwrap();
    assert!(index.search_hits(&everywhere(), 10).unwrap().is_empty());
    index.flush().unwrap();
    assert_eq!(ids(&index.search_hits(&everywhere(), 10).unwrap()), ["a"]);
}

#[test]
fn an_entry_that_is_added_twice_is_found_once() {
    let mut index = TantivyEntryIndex::create_in_ram().unwrap();
    let mut first = entry("a", 1.0, 1.0);
    first.tags = vec!["old".into()];
    let mut second = entry("a", 2.0, 2.0);
    second.tags = vec!["new".into()];
    index.add_or_update_entry(&first, avg(0.0)).unwrap();
    index.add_or_update_entry(&second, avg(1.0)).unwrap();
    index.flush().unwrap();
    let hits = index.search_hits(&everywhere(), 10).unwrap();
    assert_eq!(hits.len(), 1);
    assert_eq!(hits[0].id, "a");
    assert_eq!(hits[0].tags, ["new"]);
    assert_eq!(hits[0].rating, avg_rating_to_u64(avg(1.0)));
}

#[test]
fn an_entry_is_replaced_by_a_later_commit() {
    let mut index = index_of(&[(entry("a", 1.0, 1.0), 0.0), (entry("b", 1.0, 1.0), 0.5)]);
    index
        .add_or_update_entry(&entry("a", 50.0, 50.0), avg(2.0))
        .unwrap();
    // not yet committed
    let nearby = within(bbox(0.0, 0.0, 2.0, 2.0));
    assert_eq!(sorted_ids(&index.search_hits(&nearby, 10).unwrap()), ["a", "b"]);
    index.flush().unwrap();
    assert_eq!(ids(&index.search_hits(&nearby, 10).unwrap()), ["b"]);
    assert_eq!(ids(&index.search_hits(&everywhere(), 10).unwrap()), ["a", "b"]);
}

#[test]
fn a_removed_entry_is_gone_after_the_commit() {
    let mut index = index_of(&[(entry("a", 1.0, 1.0), 0.0), (entry("b", 1.0, 1.0), 0.5)]);
    assert!(index.remove_entry_by_id("a").is_ok());
    // queries before the commit still see it
    assert_eq!(
        sorted_ids(&index.search_hits(&everywhere(), 10).unwrap()),
        ["a", "b"]
    );
    index.flush().unwrap();
    assert_eq!(ids(&index.search_hits(&everywhere(), 10).unwrap()), ["b"]);
    assert_eq!(ids(&index.search_hits(&everywhere(), 10).unwrap()), ["b"]);
}

#[test]
fn removing_an_unknown_entry_is_no_error() {
    let mut index = index_of(&[(entry("a", 1.0, 1.0), 0.0)]);
    assert_eq!(index.remove_entry_by_id("nobody"), Ok(()));
    assert_eq!(index.flush(), Ok(()));
    assert_eq!(ids(&index.search_hits(&everywhere(), 10).unwrap()), ["a"]);
}

#[test]
fn identifiers_are_matched_exactly() {
    let mut index = index_of(&[(entry("Abc", 1.0, 1.0), 0.0), (entry("abc", 1.0, 1.0), 1.0)]);
    index.remove_entry_by_id("ABC").unwrap();
    index.remove_entry_by_id("ab").unwrap();
    index.remove_entry_by_id("abc").unwrap();
    index.flush().unwrap();
    assert_eq!(ids(&index.search_hits(&everywhere(), 10).unwrap()), ["Abc"]);
}

#[test]
fn an_entry_removed_and_added_in_one_commit_is_there() {
    let mut index = index_of(&[(entry("a", 1.0, 1.0), 0.0)]);
    index.remove_entry_by_id("a").unwrap();
    index
        .add_or_update_entry(&entry("a", 1.0, 1.0), avg(1.0))
        .unwrap();
    index.flush().unwrap();
    assert_eq!(ids(&index.search_hits(&everywhere(), 10).unwrap()), ["a"]);
    index
        .add_or_update_entry(&entry("a", 1.0, 1.0), avg(1.0))
        .unwrap();
    index.remove_entry_by_id("a").unwrap();
    index.flush().unwrap();
    assert!(index.search_hits(&everywhere(), 10).unwrap().is_empty());
}

#[test]
fn hits_are_ranked_by_rating() {
    let index = index_of(&[
        (entry("low", 1.0, 1.0), -0.5),
        (entry("high", 1.0, 1.0), 1.5),
        (entry("middle", 1.0, 1.0), 0.25),
        (entry("lowest", 1.0, 1.0), -1.0),
        (entry("highest", 1.0, 1.0), 2.0),
    ]);
    let hits = index.search_hits(&everywhere(), 10).unwrap();
    assert_eq!(ids(&hits), ["highest", "high", "middle", "low", "lowest"]);
    assert_eq!(hits[0].rating, u64::MAX);
    assert_eq!(hits[4].rating, 0);
    assert_eq!(u64_to_avg_rating(hits[2].rating), avg(0.25));
    let hits = index.search_hits(&everywhere(), 2).unwrap();
    assert_eq!(ids(&hits), ["highest", "high"]);
    let hits = index.search_hits(&everywhere(), 1).unwrap();
    assert_eq!(ids(&hits), ["highest"]);
    assert!(index.search_hits(&everywhere(), 0).unwrap().is_empty());
    let hits = index.search_hits(&everywhere(), usize::MAX).unwrap();
    assert_eq!(hits.len(), 5);
}

#[test]
fn ratings_out_of_range_are_taken_for_the_nearer_end() {
    let index = index_of(&[(entry("a", 1.0, 1.0), 3.0), (entry("b", 1.0, 1.0), -7.0)]);
    let hits = index.search_hits(&everywhere(), 10).unwrap();
    assert_eq!(ids(&hits), ["a", "b"]);
    assert_eq!(hits[0].rating, u64::MAX);
    assert_eq!(hits[1].rating, 0);
}

#[test]
fn a_request_that_names_nothing_finds_nothing() {
    let index = index_of(&[(entry("a", 1.0, 1.0), 0.0)]);
    assert!(index.search_hits(&labels(&[], &[]), 10).unwrap().is_empty());
    // a text of whitespace is passed over
    assert!(index.search_hits(&with_text("  \t "), 10).unwrap().is_empty());
}

#[test]
fn entries_are_found_in_a_bounding_box() {
    let index = index_of(&[
        (entry("inside", 5.0, 5.0), 0.0),
        (entry("on the edge", 10.0, -10.0), 0.0),
        (entry("north", 10.5, 5.0), 0.0),
        (entry("south", -10.5, 5.0), 0.0),
        (entry("east", 5.0, 10.5), 0.0),
        (entry("west", 5.0, -10.5), 0.0),
    ]);
    let hits = index
        .search_hits(&within(bbox(-10.0, -10.0, 10.0, 10.0)), 10)
        .unwrap();
    assert_eq!(sorted_ids(&hits), ["inside", "on the edge"]);
}

#[test]
fn a_bounding_box_can_wrap_around_the_antimeridian() {
    let index = index_of(&[
        (entry("east of it", 0.0, -175.0), 0.0),
        (entry("west of it", 0.0, 175.0), 0.0),
        (entry("on the west edge", 0.0, 170.0), 0.0),
        (entry("on the east edge", 0.0, -170.0), 0.0),
        (entry("greenwich", 0.0, 0.0), 0.0),
        (entry("just outside", 0.0, 169.0), 0.0),
        (entry("too far north", 20.0, 175.0), 0.0),
    ]);
    // from 170 degrees east over the antimeridian to 170 degrees west
    let hits = index
        .search_hits(&within(bbox(-10.0, 170.0, 10.0, -170.0)), 10)
        .unwrap();
    assert_eq!(
        sorted_ids(&hits),
        [
            "east of it",
            "on the east edge",
            "on the west edge",
            "west of it"
        ]
    );
    // the box the other way round
    let hits = index
        .search_hits(&within(bbox(-10.0, -170.0, 10.0, 170.0)), 10)
        .unwrap();
    assert_eq!(
        sorted_ids(&hits),
        [
            "greenwich",
            "just outside",
            "on the east edge",
            "on the west edge"
        ]
    );
}

#[test]
fn a_box_that_is_upside_down_finds_nothing() {
    let index = index_of(&[(entry("a", 1.0, 1.0), 0.0)]);
    let hits = index
        .search_hits(&within(bbox(10.0, -10.0, -10.0, 10.0)), 10)
        .unwrap();
    assert!(hits.is_empty());
}

#[test]
fn categories_and_tags_are_combined() {
    let index = index_of(&[
        (labelled("a and x", &["a"], &["x"]), 0.0),
        (labelled("b and x", &["b"], &["x", "y"]), 0.0),
        (labelled("a, b and x", &["a", "b"], &["x"]), 0.0),
        (labelled("c and x", &["c"], &["x"]), 0.0),
        (labelled("a and y", &["a"], &["y"]), 0.0),
        (labelled("x only", &[], &["x"]), 0.0),
        (labelled("a only", &["a"], &[]), 0.0),
    ]);
    let hits = index.search_hits(&labels(&["a", "b"], &["x"]), 10).unwrap();
    assert_eq!(sorted_ids(&hits), ["a and x", "a, b and x", "b and x"]);
    let hits = index.search_hits(&labels(&["a"], &[]), 10).unwrap();
    assert_eq!(
        sorted_ids(&hits),
        ["a and x", "a and y", "a only", "a, b and x"]
    );
    let hits = index.search_hits(&labels(&[], &["x", "y"]), 10).unwrap();
    assert_eq!(
        sorted_ids(&hits),
        [
            "a and x",
            "a and y",
            "a, b and x",
            "b and x",
            "c and x",
            "x only"
        ]
    );
    let hits = index.search_hits(&labels(&["c"], &["y"]), 10).unwrap();
    assert!(hits.is_empty());
}

#[test]
fn hits_carry_the_categories_and_tags_of_the_entry() {
    let index = index_of(&[(labelled("a", &["c1", "c2"], &["Tag", "other"]), 0.5)]);
    let hits = index.search_hits(&labels(&["c2"], &[]), 10).unwrap();
    assert_eq!(hits.len(), 1);
    assert_eq!(hits[0].id, "a");
    assert_eq!(hits[0].categories, ["c1", "c2"]);
    assert_eq!(hits[0].tags, ["Tag", "other"]);
    assert_eq!(hits[0].rating, avg_rating_to_u64(avg(0.5)));
}

#[test]
fn tags_are_found_whatever_their_case() {
    let index = index_of(&[
        (labelled("upper", &[], &["BIO"]), 0.0),
        (labelled("mixed", &[], &["Bio"]), 0.0),
        (labelled("lower", &[], &["bio"]), 0.0),
        (labelled("other", &[], &["bio-laden"]), 0.0),
    ]);
    for tag in ["bio", "BIO", "bIO"] {
        let hits = index.search_hits(&labels(&[], &[tag]), 10).unwrap();
        assert_eq!(sorted_ids(&hits), ["lower", "mixed", "upper"]);
    }
}

#[test]
fn categories_are_found_whatever_their_case() {
    let index = index_of(&[
        (labelled("upper", &["CAT"], &[]), 0.0),
        (labelled("mixed", &["Cat"], &[]), 0.0),
        (labelled("lower", &["cat"], &[]), 0.0),
        (labelled("other", &["cat-like"], &[]), 0.0),
    ]);
    for category in ["cat", "CAT", "Cat"] {
        let hits = index.search_hits(&labels(&[category], &[]), 10).unwrap();
        assert_eq!(sorted_ids(&hits), ["lower", "mixed", "upper"]);
    }
}

#[test]
fn categories_and_tags_are_found_whatever_their_case_and_identifiers_are_not() {
    let index = index_of(&[(labelled("Entry", &["Cat"], &["Bio"]), 0.0)]);
    let repo = Repo {
        known: vec![entry("Entry", 0.0, 0.0)],
    };
    let by_category = index.query_entries(&repo, &labels(&["CAT"], &[]), 10).unwrap();
    assert_eq!(by_category.len(), 1);
    assert_eq!(by_category[0].0.id, "Entry");
    assert_eq!(by_category[0].0.categories, ["Cat"]);
    let by_tag = index.query_entries(&repo, &labels(&[], &["bIO"]), 10).unwrap();
    assert_eq!(by_tag.len(), 1);
    assert_eq!(by_tag[0].0.tags, ["Bio"]);
    let mut index = index;
    index.remove_entry_by_id("entry").unwrap();
    index.flush().unwrap();
    assert_eq!(index.search_hits(&labels(&["cat"], &[]), 10).unwrap().len(), 1);
}

#[test]
fn the_fields_of_the_schema() {
    let schema = entry_schema();
    let names: Vec<&str> = schema.fields().map(|(_, entry)| entry.name()).collect();
    assert_eq!(
        names,
        ["id", "lat", "lng", "title", "description", "category", "tag", "rating"]
    );
    let stored: Vec<bool> = schema.fields().map(|(_, entry)| entry.is_stored()).collect();
    assert_eq!(stored, [true, true, true, false, false, true, true, true]);
    let indexed: Vec<bool> = schema.fields().map(|(_, entry)| entry.is_indexed()).collect();
    assert_eq!(indexed, [true, true, true, true, true, true, true, false]);
    let fast: Vec<bool> = schema.fields().map(|(_, entry)| entry.is_fast()).collect();
    assert_eq!(fast, [false, false, false, false, false, false, false, true]);
    let fields = entry_index::index::schema::build_schema().1;
    assert_eq!(
        (fields.id, fields.lat, fields.lng, fields.title),
        (0, 1, 2, 3)
    );
    assert_eq!(
        (fields.description, fields.category, fields.tag, fields.rating),
        (4, 5, 6, 7)
    );
}

#[test]
fn hits_are_handed_out_of_what_was_fetched() {
    let fields = entry_index::index::schema::build_schema().1;
    let document = |id: Option<&str>, tag: &str| {
        let mut document = tantivy::TantivyDocument::default();
        if let Some(id) = id {
            document.add_text(tantivy::schema::Field::from_field_id(0), id);
        }
        document.add_text(tantivy::schema::Field::from_field_id(6), tag);
        document
    };
    let failed = || tantivy::TantivyError::InvalidArgument("no".into());
    let fetched = vec![
        (Some(9), Ok(document(Some("a"), "t1"))),
        (Some(8), Err(failed())),
        (Some(7), Ok(document(None, "t2"))),
        (None, Ok(document(Some("b"), "t3"))),
        (Some(5), Ok(document(Some("c"), "t4"))),
    ];
    let hits = hits_from_documents(&fields, &fetched);
    assert_eq!(ids(&hits), ["a", "c"]);
    assert_eq!(hits[0].rating, 9);
    assert_eq!(hits[1].rating, 5);
    assert_eq!(hits[1].tags, ["t4"]);
    assert!(hits_from_documents(&fields, &vec![]).is_empty());
}

#[test]
fn entries_are_handed_out_of_what_the_repository_answered() {
    let answers = vec![
        (Ok(entry("a", 0.0, 0.0)), u64::MAX),
        (Err(RepoError::NotFound), 7),
        (Ok(entry("b", 0.0, 0.0)), 0),
        (Err(RepoError::Other), 0),
    ];
    let found = resolved_entries(answers);
    assert_eq!(found.len(), 2);
    assert_eq!(found[0].0.id, "a");
    assert_eq!(found[0].1, avg(2.0));
    assert_eq!(found[1].0.id, "b");
    assert_eq!(found[1].1, avg(-1.0));
    assert!(resolved_entries(vec![]).is_empty());
}

#[test]
fn entries_are_found_by_text() {
    let mut apple = entry("apple", 0.0, 0.0);
    apple.title = "Apple farm".into();
    apple.description = "Fresh fruit from the orchard".into();
    let mut bakery = entry("bakery", 0.0, 0.0);
    bakery.title = "Bakery".into();
    bakery.description = "Bread and apple pie".into();
    let mut cobbler = entry("cobbler", 0.0, 0.0);
    cobbler.title = "Cobbler".into();
    cobbler.description = "Shoes".into();
    let index = index_of(&[(apple, 0.0), (bakery, 1.0), (cobbler, 2.0)]);
    let hits = index.search_hits(&with_text("apple"), 10).unwrap();
    assert_eq!(ids(&hits), ["bakery", "apple"]);
    let hits = index.search_hits(&with_text("APPLE"), 10).unwrap();
    assert_eq!(ids(&hits), ["bakery", "apple"]);
    let hits = index.search_hits(&with_text("shoes bread"), 10).unwrap();
    assert_eq!(ids(&hits), ["cobbler", "bakery"]);
    let hits = index.search_hits(&with_text("nothing"), 10).unwrap();
    assert!(hits.is_empty());
}

#[test]
fn a_text_that_is_no_query_is_passed_over() {
    let mut apple = entry("apple", 5.0, 5.0);
    apple.title = "Apple farm".into();
    let mut cobbler = entry("cobbler", 5.0, 5.0);
    cobbler.title = "Cobbler".into();
    let index = index_of(&[(apple, 0.0), (cobbler, 1.0)]);
    let mut query = within(bbox(0.0, 0.0, 10.0, 10.0));
    query.text = Some("apple".into());
    assert_eq!(ids(&index.search_hits(&query, 10).unwrap()), ["apple"]);
    // a field that the schema does not have
    query.text = Some("nofield:apple".into());
    assert_eq!(
        ids(&index.search_hits(&query, 10).unwrap()),
        ["cobbler", "apple"]
    );
    // alone, such a text leaves a request that names nothing
    let hits = index.search_hits(&with_text("nofield:apple"), 10).unwrap();
    assert!(hits.is_empty());
}

#[test]
fn all_parts_of_a_request_are_combined() {
    let mut wanted = labelled("wanted", &["shop"], &["bio"]);
    wanted.title = "Green grocer".into();
    wanted.location.pos = point(5.0, 5.0);
    let mut far = labelled("far", &["shop"], &["bio"]);
    far.title = "Green grocer".into();
    far.location.pos = point(50.0, 5.0);
    let mut other_tag = labelled("other tag", &["shop"], &["fair"]);
    other_tag.title = "Green grocer".into();
    other_tag.location.pos = point(5.0, 5.0);
    let mut other_category = labelled("other category", &["farm"], &["bio"]);
    other_category.title = "Green grocer".into();
    other_category.location.pos = point(5.0, 5.0);
    let mut other_text = labelled("other text", &["shop"], &["bio"]);
    other_text.title = "Butcher".into();
    other_text.location.pos = point(5.0, 5.0);
    let index = index_of(&[
        (wanted, 0.0),
        (far, 0.0),
        (other_tag, 0.0),
        (other_category, 0.0),
        (other_text, 0.0),
    ]);
    let query = EntryIndexQuery {
        bbox: Some(bbox(0.0, 0.0, 10.0, 10.0)),
        text: Some("grocer".into()),
        categories: vec!["shop".into()],
        tags: vec!["bio".into(), "vegan".into()],
    };
    assert_eq!(ids(&index.search_hits(&query, 10).unwrap()), ["wanted"]);
}

struct Repo {
    known: Vec<Entry>,
}

impl EntryGateway for Repo {
    fn get_entry_with_relations(
        &self,
        id: &str,
        categories: &Vec<String>,
        tags: &Vec<String>,
    ) -> Result<Entry, RepoError> {
        match self.known.iter().find(|entry| entry.id == id) {
            Some(entry) => {
                let mut entry = entry.clone();
                entry.categories = categories.clone();
                entry.tags = tags.clone();
                Ok(entry)
            }
            None => Err(RepoError::NotFound),
        }
    }
}

#[test]
fn found_entries_come_from_the_repository() {
    let a = labelled("a", &["c"], &["t"]);
    let b = labelled("b", &["c"], &["t"]);
    let gone = labelled("gone", &["c"], &["t"]);
    let index = index_of(&[(a.clone(), 0.25), (gone, 1.0), (b.clone(), 2.0)]);
    let repo = Repo {
        known: vec![entry("a", 0.0, 0.0), entry("b", 0.0, 0.0)],
    };
    let found = index.query_entries(&repo, &labels(&["c"], &[]), 10).unwrap();
    assert_eq!(found.len(), 2);
    assert_eq!(found[0].0.id, "b");
    assert_eq!(found[0].0.categories, ["c"]);
    assert_eq!(found[0].0.tags, ["t"]);
    assert_eq!(found[0].1, avg(2.0));
    assert_eq!(found[1].0.id, "a");
    assert_eq!(found[1].1, avg(0.25));
    // the entry that is gone counts for the limit
    let found = index.query_entries(&repo, &labels(&["c"], &[]), 2).unwrap();
    assert_eq!(found.len(), 1);
    assert_eq!(found[0].0.id, "b");
}

#[test]
fn an_entry_is_handed_out_with_its_score() {
    let quantized = avg_rating_to_u64(avg(1.5));
    let resolved = resolved_entry(Ok(entry("a", 0.0, 0.0)), quantized).unwrap();
    assert_eq!(resolved.0.id, "a");
    assert_eq!(resolved.1, avg(1.5));
    assert!(resolved_entry(Err(RepoError::NotFound), quantized).is_none());
    assert_eq!(resolved_entry(Ok(entry("a", 0.0, 0.0)), 0).unwrap().1, avg(-1.0));
    assert_eq!(
        resolved_entry(Ok(entry("a", 0.0, 0.0)), u64::MAX).unwrap().1,
        avg(2.0)
    );
}

#[test]
fn a_document_without_identifier_is_no_hit() {
    let fields = TantivyEntryFields {
        id: 0,
        title: 3,
        description: 4,
        category: 5,
        lat: 1,
        lng: 2,
        tag: 6,
        rating: 7,
    };
    let mut document = tantivy::TantivyDocument::default();
    document.add_text(tantivy::schema::Field::from_field_id(5), "c");
    assert!(hit_from_document(&fields, Some(1), Ok(document)).is_none());
    let mut document = tantivy::TantivyDocument::default();
    document.add_text(tantivy::schema::Field::from_field_id(0), "a");
    document.add_text(tantivy::schema::Field::from_field_id(0), "b");
    document.add_text(tantivy::schema::Field::from_field_id(5), "c");
    document.add_u64(tantivy::schema::Field::from_field_id(5), 3);
    document.add_text(tantivy::schema::Field::from_field_id(5), "d");
    document.add_text(tantivy::schema::Field::from_field_id(6), "t");
    let hit = hit_from_document(&fields, Some(7), Ok(document.clone())).unwrap();
    assert_eq!(hit.id, "a");
    assert_eq!(hit.categories, ["c", "d"]);
    assert_eq!(hit.tags, ["t"]);
    assert_eq!(hit.rating, 7);
    assert!(hit_from_document(&fields, None, Ok(document)).is_none());
    let error = tantivy::TantivyError::InvalidArgument("no".into());
    assert!(hit_from_document(&fields, Some(7), Err(error)).is_none());
    let mut document = tantivy::TantivyDocument::default();
    document.add_u64(tantivy::schema::Field::from_field_id(0), 3);
    document.add_text(tantivy::schema::Field::from_field_id(0), "a");
    assert!(hit_from_document(&fields, Some(7), Ok(document)).is_none());
}

#[test]
fn an_index_of_the_engine_needs_the_analyzers() {
    let index = tantivy::Index::create_in_ram(entry_schema());
    assert!(TantivyEntryIndex::create_with(index).is_ok());
    // the analyzer of the tags is there already
    let index = tantivy::Index::create_in_ram(entry_schema());
    index
        .tokenizers()
        .register("tag", tantivy::tokenizer::RawTokenizer::default());
    assert_eq!(
        TantivyEntryIndex::create_with(index).err(),
        Some(IndexError::Tokenizers)
    );
    // an analyzer of the engine is missing
    let index = tantivy::Index::create_in_ram(entry_schema());
    let mut index = index;
    index.set_tokenizers(tantivy::tokenizer::TokenizerManager::new());
    assert_eq!(
        TantivyEntryIndex::create_with(index).err(),
        Some(IndexError::Tokenizers)
    );
}

fn entry_schema() -> tantivy::schema::Schema {
    entry_index::index::schema::build_schema().0.build()
}

#[test]
fn an_entry_with_many_labels() {
    let categories: Vec<String> = (0..50).map(|i| format!("category{}", i)).collect();
    let tags: Vec<String> = (0..50).map(|i| format!("tag{}", i)).collect();
    let mut many = entry("many", 0.0, 0.0);
    many.categories = categories.clone();
    many.tags = tags.clone();
    let index = index_of(&[(many, 0.0)]);
    let hits = index
        .search_hits(&labels(&["category49", "nothing"], &["none", "tag0"]), 10)
        .unwrap();
    assert_eq!(hits.len(), 1);
    assert_eq!(hits[0].categories, categories);
    assert_eq!(hits[0].tags, tags);
}

#[test]
fn an_entry_without_identifier() {
    let mut index = index_of(&[(entry("", 1.0, 1.0), 0.0), (entry("a", 1.0, 1.0), 1.0)]);
    assert_eq!(ids(&index.search_hits(&everywhere(), 10).unwrap()), ["a", ""]);
    index
        .add_or_update_entry(&entry("", 1.0, 1.0), avg(2.0))
        .unwrap();
    index.flush().unwrap();
    assert_eq!(ids(&index.search_hits(&everywhere(), 10).unwrap()), ["", "a"]);
    index.remove_entry_by_id("").unwrap();
    index.flush().unwrap();
    assert_eq!(ids(&index.search_hits(&everywhere(), 10).unwrap()), ["a"]);
}

#[test]
fn an_identifier_too_long_for_a_term() {
    // such an entry is never found under its identifier again
    let long = "x".repeat(65531);
    let short = "x".repeat(65530);
    let mut index = index_of(&[(entry(&long, 1.0, 1.0), 0.0), (entry(&short, 1.0, 1.0), 0.0)]);
    assert_eq!(index.search_hits(&everywhere(), 10).unwrap().len(), 2);
    index
        .add_or_update_entry(&entry(&short, 1.0, 1.0), avg(0.0))
        .unwrap();
    index
        .add_or_update_entry(&entry(&long, 1.0, 1.0), avg(0.0))
        .unwrap();
    index.flush().unwrap();
    let hits = index.search_hits(&everywhere(), 10).unwrap();
    assert_eq!(hits.iter().filter(|hit| hit.id == short).count(), 1);
    assert_eq!(hits.iter().filter(|hit| hit.id == long).count(), 2);
    index.remove_entry_by_id(&short).unwrap();
    index.remove_entry_by_id(&long).unwrap();
    index.flush().unwrap();
    let hits = index.search_hits(&everywhere(), 10).unwrap();
    assert_eq!(hits.iter().filter(|hit| hit.id == short).count(), 0);
    assert_eq!(hits.iter().filter(|hit| hit.id == long).count(), 2);
}

#[test]
fn tags_are_put_into_lower_case_letter_by_letter() {
    // the engine does not know the sigma at the end of a word
    let index = index_of(&[(labelled("greek", &[], &["\u{39f}\u{394}\u{39f}\u{3a3}"]), 0.0)]);
    let hits = index
        .search_hits(&labels(&[], &["\u{3bf}\u{3b4}\u{3bf}\u{3c3}"]), 10)
        .unwrap();
    assert_eq!(ids(&hits), ["greek"]);
    // the request is put into lower case as a word
    let hits = index
        .search_hits(&labels(&[], &["\u{39f}\u{394}\u{39f}\u{3a3}"]), 10)
        .unwrap();
    assert!(hits.is_empty());
}

#[test]
fn the_best_are_found_over_many_commits() {
    let mut index = TantivyEntryIndex::create_in_ram().unwrap();
    let mut expected: Vec<(u64, String)> = Vec::new();
    let mut seed: u64 = 12345;
    for commit in 0..5 {
        for number in 0..60 {
            seed = seed
                .wrapping_mul(6364136223846793005)
                .wrapping_add(1442695040888963407);
            let raw = (seed >> 33) as i64 % (3 * AVG_RATING_SCALE) - AVG_RATING_SCALE;
            let rating = AvgRatingValue::from_raw(raw);
            let id = format!("{}-{}", commit, number);
            let mut added = entry(&id, 0.0, 0.0);
            added.categories = vec![if number % 3 == 0 { "odd" } else { "even" }.to_string()];
            index.add_or_update_entry(&added, rating).unwrap();
            if number % 3 != 0 {
                expected.push((avg_rating_to_u64(rating), id));
            }
        }
        index.flush().unwrap();
    }
    expected.sort_by(|a, b| b.0.cmp(&a.0));
    for limit in [1, 7, 50, 199, 200, 201, 1000] {
        let hits = index.search_hits(&labels(&["even"], &[]), limit).unwrap();
        assert_eq!(hits.len(), limit.min(200));
        let ratings: Vec<u64> = hits.iter().map(|hit| hit.rating).collect();
        let best: Vec<u64> = expected.iter().take(limit).map(|pair| pair.0).collect();
        assert_eq!(ratings, best);
        for hit in &hits {
            assert!(expected.contains(&(hit.rating, hit.id.clone())));
            assert_eq!(hit.categories, ["even"]);
        }
        let mut found = ids(&hits);
        found.sort();
        found.dedup();
        assert_eq!(found.len(), hits.len());
    }
}

struct Silent;

impl EntryGateway for Silent {
    fn get_entry_with_relations(
        &self,
        _id: &str,
        _categories: &Vec<String>,
        _tags: &Vec<String>,
    ) -> Result<Entry, RepoError> {
        panic!("the repository must not be asked");
    }
}

#[test]
fn nobody_is_asked_where_nothing_can_be_found() {
    let index = index_of(&[(entry("a", 1.0, 1.0), 0.0)]);
    assert_eq!(index.query_entries(&Silent, &everywhere(), 0).unwrap().len(), 0);
    let upside_down = within(bbox(10.0, -10.0, -10.0, 10.0));
    assert_eq!(index.query_entries(&Silent, &upside_down, 10).unwrap().len(), 0);
    assert!(index.search_hits(&upside_down, 10).unwrap().is_empty());
    assert!(index.search_hits(&everywhere(), 0).unwrap().is_empty());
}

#[test]
fn found_entries_have_the_scores_of_their_hits() {
    let index = index_of(&[
        (labelled("a", &["c"], &[]), 0.25),
        (labelled("gone", &["c"], &[]), 1.0),
        (labelled("b", &["c"], &[]), 2.0),
        (labelled("away", &["c"], &[]), -1.0),
    ]);
    let repo = Repo {
        known: vec![entry("a", 0.0, 0.0), entry("b", 0.0, 0.0)],
    };
    let hits = index.search_hits(&labels(&["c"], &[]), 10).unwrap();
    assert_eq!(ids(&hits), ["b", "gone", "a", "away"]);
    let found = index.query_entries(&repo, &labels(&["c"], &[]), 10).unwrap();
    let scores: Vec<AvgRatingValue> = found.iter().map(|pair| pair.1).collect();
    assert_eq!(
        scores,
        [u64_to_avg_rating(hits[0].rating), u64_to_avg_rating(hits[2].rating)]
    );
    assert_eq!(found[0].0.id, "b");
    assert_eq!(found[1].0.id, "a");
}
