//! What the web interface decides once a request is read: what a search
//! asks of the index, which categories and events are asked for, and which
//! status answers an error.

use vstd::prelude::*;
use crate::geo::MapBbox;
use crate::index::error::RepoError;
use crate::index::query::EntryIndexQuery;
use crate::text::{
    extract_hash_tags, extract_ids, hash_tags_in, ids_in, lowercased, remove_hash_tags, split,
    split_on, to_lowercase, without_hash_tags,
};
use crate::usecase::{Error, ParameterError};

verus! {

/// The number that `str::parse` reads in the text as an `i64`, if it reads
/// one.
pub uninterp spec fn parsed_i64(text: Seq<char>) -> Option<i64>;

/// `str::parse` for `i64`.
#[verifier::external_body]
pub(crate) fn parse_i64(text: &str) -> (number: Option<i64>)
    ensures
        number == parsed_i64(text@),
{
    text.parse::<i64>().ok()
}

/// What a search asks of the index: the box, the categories of the list
/// `categories`, the text without its hash tags, and for tags the hash
/// tags of the text followed by the tags of the list `tags`.
pub fn search_request(
    bbox: Option<MapBbox>,
    categories: Option<&str>,
    text: Option<&str>,
    tags: Option<&str>,
) -> (query: EntryIndexQuery)
    ensures
        query.bbox == bbox,
        query.categories.deep_view() == match categories {
            Some(list) => ids_in(list@),
            None => Seq::<Seq<char>>::empty(),
        },
        match text {
            Some(text) => query.text matches Some(rest) && rest@ == without_hash_tags(text@),
            None => query.text.is_none(),
        },
        query.tags.deep_view() == match text {
            Some(text) => hash_tags_in(text@),
            None => Seq::<Seq<char>>::empty(),
        } + match tags {
            Some(list) => ids_in(list@),
            None => Seq::<Seq<char>>::empty(),
        },
{
    let categories: Vec<String> = match categories {
        Some(list) => extract_ids(list),
        None => Vec::new(),
    };
    let mut all_tags: Vec<String> = match text {
        Some(text) => extract_hash_tags(text),
        None => Vec::new(),
    };
    let ghost from_text = all_tags.deep_view();
    match tags {
        Some(list) => {
            let mut more = extract_ids(list);
            let ghost from_list = more.deep_view();
            all_tags.append(&mut more);
            proof {
                assert(all_tags.deep_view() =~= from_text + from_list);
            }
        },
        None => {
            proof {
                assert(all_tags.deep_view() =~= from_text + Seq::<Seq<char>>::empty());
            }
        },
    }
    let text: Option<String> = match text {
        Some(text) => Some(remove_hash_tags(text)),
        None => None,
    };
    EntryIndexQuery { bbox, text, categories, tags: all_tags }
}

/// The words of a text: the text in lower case, cut at each blank.
pub fn to_words(txt: &str) -> (words: Vec<String>)
    ensures
        words.deep_view() == split_on(lowercased(txt@), ' '),
{
    let lower = to_lowercase(txt);
    split(lower.as_str(), ' ')
}

/// A category of entries.
#[derive(Clone, Debug)]
pub struct Category {
    pub id: String,
    pub created: u64,
    pub version: u64,
    pub name: String,
}

/// The categories that were asked for.
#[derive(Clone, Debug)]
pub enum CategorySelection {
    /// No identifier was given: all categories.
    All(Vec<Category>),
    /// One identifier was given: the category with it.
    One(Category),
    /// Several identifiers were given: the categories with one of them.
    Several(Vec<Category>),
}

/// Whether the identifier is one of the identifiers.
pub open spec fn is_one_of(id: Seq<char>, ids: Seq<Seq<char>>) -> bool {
    exists|k: int| 0 <= k < ids.len() && #[trigger] ids[k] == id
}

/// The categories with one of the identifiers.
pub open spec fn has_id_of(ids: Seq<Seq<char>>) -> spec_fn(Category) -> bool {
    |category: Category| is_one_of(category.id@, ids)
}

/// Whether the identifier is one of the identifiers.
fn contains_id(ids: &Vec<String>, id: &String) -> (found: bool)
    ensures
        found == is_one_of(id@, ids.deep_view()),
{
    let mut k: usize = 0;
    while k < ids.len()
        invariant
            k <= ids.len(),
            forall|j: int| 0 <= j < k ==> ids.deep_view()[j] != id@,
        decreases ids.len() - k,
    {
        if ids[k] == *id {
            assert(ids.deep_view()[k as int] == id@);
            return true;
        }
        k = k + 1;
    }
    false
}

/// A copy of the category.
fn copy_of(category: &Category) -> (copy: Category)
    ensures
        copy == *category,
{
    Category {
        id: category.id.clone(),
        created: category.created,
        version: category.version,
        name: category.name.clone(),
    }
}

/// The categories that are asked for by a list of identifiers: all of them
/// where the list is empty; the first with the identifier where the list
/// holds one, which has to be there; and those with one of the identifiers
/// where it holds more.
pub fn select_categories(categories: Vec<Category>, ids: &Vec<String>) -> (r: Result<
    CategorySelection,
    RepoError,
>)
    ensures
        ids.len() == 0 ==> (r matches Ok(CategorySelection::All(all)) && all == categories),
        ids.len() == 1 ==> match r {
            Ok(CategorySelection::One(one)) => exists|i: int|
                0 <= i < categories.len() && one == #[trigger] categories[i] && one.id@ == ids[0]@
                    && forall|j: int| 0 <= j < i ==> (#[trigger] categories[j]).id@ != ids[0]@,
            Ok(_) => false,
            Err(error) => error == RepoError::NotFound && forall|j: int|
                0 <= j < categories.len() ==> (#[trigger] categories[j]).id@ != ids[0]@,
        },
        ids.len() > 1 ==> (r matches Ok(CategorySelection::Several(several)) && several@
            == categories@.filter(has_id_of(ids.deep_view()))),
{
    if ids.len() == 0 {
        Ok(CategorySelection::All(categories))
    } else if ids.len() == 1 {
        let mut i: usize = 0;
        while i < categories.len()
            invariant
                i <= categories.len(),
                ids.len() == 1,
                forall|j: int| 0 <= j < i ==> (#[trigger] categories[j]).id@ != ids[0]@,
            decreases categories.len() - i,
        {
            if categories[i].id == ids[0] {
                return Ok(CategorySelection::One(copy_of(&categories[i])));
            }
            i = i + 1;
        }
        Err(RepoError::NotFound)
    } else {
        let mut several: Vec<Category> = Vec::new();
        let mut i: usize = 0;
        proof {
            reveal(Seq::filter);
            assert(categories@.take(0) =~= Seq::<Category>::empty());
        }
        while i < categories.len()
            invariant
                i <= categories.len(),
                several@ == categories@.take(i as int).filter(has_id_of(ids.deep_view())),
            decreases categories.len() - i,
        {
            proof {
                reveal(Seq::filter);
                assert(categories@.take(i + 1).drop_last() =~= categories@.take(i as int));
                assert(categories@.take(i + 1).last() == categories@[i as int]);
            }
            if contains_id(ids, &categories[i].id) {
                several.push(copy_of(&categories[i]));
            }
            i = i + 1;
        }
        proof {
            assert(categories@.take(i as int) =~= categories@);
        }
        Ok(CategorySelection::Several(several))
    }
}

/// The names of those of the categories that have one of the identifiers,
/// in the order of the categories.
pub fn category_names(all_categories: &Vec<Category>, ids: &Vec<String>) -> (names: Vec<String>)
    ensures
        names.len() == all_categories@.filter(has_id_of(ids.deep_view())).len(),
        forall|i: int|
            0 <= i < names.len() ==> (#[trigger] names[i])@ == all_categories@.filter(
                has_id_of(ids.deep_view()),
            )[i].name@,
{
    let mut names: Vec<String> = Vec::new();
    let mut i: usize = 0;
    proof {
        reveal(Seq::filter);
        assert(all_categories@.take(0) =~= Seq::<Category>::empty());
    }
    while i < all_categories.len()
        invariant
            i <= all_categories.len(),
            names.len() == all_categories@.take(i as int).filter(
                has_id_of(ids.deep_view()),
            ).len(),
            forall|k: int|
                0 <= k < names.len() ==> (#[trigger] names[k])@ == all_categories@.take(
                    i as int,
                ).filter(has_id_of(ids.deep_view()))[k].name@,
        decreases all_categories.len() - i,
    {
        proof {
            reveal(Seq::filter);
            assert(all_categories@.take(i + 1).drop_last() =~= all_categories@.take(i as int));
            assert(all_categories@.take(i + 1).last() == all_categories@[i as int]);
        }
        if contains_id(ids, &all_categories[i].id) {
            names.push(all_categories[i].name.clone());
        }
        i = i + 1;
    }
    proof {
        assert(all_categories@.take(i as int) =~= all_categories@);
    }
    names
}

/// What went wrong while a request was answered.
#[derive(Clone, Copy, Debug, PartialEq, Eq, Structural)]
pub enum AppError {
    /// A use of the repository failed.
    Business(Error),
    /// Something else failed in the service itself.
    Internal,
}

/// The status of an answer: its code, and the reason where the answer gives
/// one of its own.
#[derive(Clone, Copy, Debug, PartialEq, Eq, Structural)]
pub enum HttpStatus {
    BadRequest,
    UserExists,
    Unauthorized,
    EmailNotConfirmed,
    NotFound,
    InternalServerError,
}

impl HttpStatus {
    pub open spec fn spec_code(self) -> u16 {
        match self {
            HttpStatus::BadRequest => 400,
            HttpStatus::UserExists => 400,
            HttpStatus::Unauthorized => 401,
            HttpStatus::EmailNotConfirmed => 403,
            HttpStatus::NotFound => 404,
            HttpStatus::InternalServerError => 500,
        }
    }

    /// The code of the status.
    #[verifier::when_used_as_spec(spec_code)]
    pub fn code(self) -> (code: u16)
        ensures
            code == self.code(),
    {
        match self {
            HttpStatus::BadRequest => 400,
            HttpStatus::UserExists => 400,
            HttpStatus::Unauthorized => 401,
            HttpStatus::EmailNotConfirmed => 403,
            HttpStatus::NotFound => 404,
            HttpStatus::InternalServerError => 500,
        }
    }
}

/// The status that answers an error.
pub open spec fn status_of(error: AppError) -> HttpStatus {
    match error {
        AppError::Business(Error::Parameter(ParameterError::Credentials)) => HttpStatus::Unauthorized,
        AppError::Business(Error::Parameter(ParameterError::UserExists)) => HttpStatus::UserExists,
        AppError::Business(
            Error::Parameter(ParameterError::EmailNotConfirmed),
        ) => HttpStatus::EmailNotConfirmed,
        AppError::Business(Error::Parameter(_)) => HttpStatus::BadRequest,
        AppError::Business(Error::Repo(RepoError::NotFound)) => HttpStatus::NotFound,
        AppError::Business(Error::Repo(_)) => HttpStatus::InternalServerError,
        AppError::Business(Error::Pwhash) => HttpStatus::InternalServerError,
        AppError::Internal => HttpStatus::InternalServerError,
    }
}

/// The status that answers an error: wrong credentials are not authorized,
/// another fault of the request is a bad request, something that the
/// repository does not find is not found, and everything else is an error of
/// the server.
pub fn respond_to(error: AppError) -> (status: HttpStatus)
    ensures
        status == status_of(error),
{
    match error {
        AppError::Business(error) => match error {
            Error::Parameter(error) => match error {
                ParameterError::Credentials => HttpStatus::Unauthorized,
                ParameterError::UserExists => HttpStatus::UserExists,
                ParameterError::EmailNotConfirmed => HttpStatus::EmailNotConfirmed,
                _ => HttpStatus::BadRequest,
            },
            Error::Repo(error) => match error {
                RepoError::NotFound => HttpStatus::NotFound,
                _ => HttpStatus::InternalServerError,
            },
            Error::Pwhash => HttpStatus::InternalServerError,
        },
        _ => HttpStatus::InternalServerError,
    }
}

/// One item of the query of a request: its key, its value as it was sent,
/// and its value decoded.
#[derive(Clone, Debug)]
pub struct QueryItem {
    pub key: String,
    pub value: String,
    pub decoded: String,
}

/// Which events are asked for.
#[derive(Clone, Debug)]
pub struct EventQuery {
    pub tags: Option<Vec<String>>,
    pub created_by: Option<String>,
    pub bbox: Option<MapBbox>,
    pub start_min: Option<i64>,
    pub start_max: Option<i64>,
}

/// The items with the key whose value is not empty.
pub open spec fn is_given(key: Seq<char>) -> spec_fn(QueryItem) -> bool {
    |item: QueryItem| item.key@ == key && item.value@.len() > 0
}

/// The items with the key whose decoded value is not empty.
pub open spec fn is_given_decoded(key: Seq<char>) -> spec_fn(QueryItem) -> bool {
    |item: QueryItem| item.key@ == key && item.decoded@.len() > 0
}

/// The decoded value of the first item with the key that has one.
pub open spec fn first_decoded(items: Seq<QueryItem>, key: Seq<char>) -> Option<Seq<char>> {
    let given = items.filter(is_given_decoded(key));
    if given.len() > 0 {
        Some(given[0].decoded@)
    } else {
        None
    }
}

/// The values of the items with the key `tag`, but for the empty ones.
pub open spec fn tag_values(items: Seq<QueryItem>) -> Seq<Seq<char>> {
    items.filter(is_given("tag"@)).map_values(|item: QueryItem| item.value@)
}

/// The decoded value of the first item with the key that has one.
pub fn first_value(items: &Vec<QueryItem>, key: &str) -> (value: Option<String>)
    ensures
        match value {
            Some(found) => first_decoded(items@, key@) == Some(found@),
            None => first_decoded(items@, key@).is_none(),
        },
{
    let wanted = key.to_owned();
    let mut i: usize = 0;
    proof {
        reveal(Seq::filter);
        assert(items@.take(0) =~= Seq::<QueryItem>::empty());
    }
    while i < items.len()
        invariant
            i <= items.len(),
            wanted@ == key@,
            items@.take(i as int).filter(is_given_decoded(key@)).len() == 0,
        decreases items.len() - i,
    {
        proof {
            reveal(Seq::filter);
            assert(items@.take(i + 1).drop_last() =~= items@.take(i as int));
            assert(items@.take(i + 1).last() == items@[i as int]);
        }
        if items[i].key == wanted && !items[i].decoded.as_str().is_empty() {
            proof {
                let found = items@.take(i + 1).filter(is_given_decoded(key@));
                assert(found[0] == items@[i as int]);
                assert(items@ =~= items@.take(i + 1) + items@.skip(i + 1));
                Seq::filter_distributes_over_add(
                    items@.take(i + 1),
                    items@.skip(i + 1),
                    is_given_decoded(key@),
                );
            }
            return Some(items[i].decoded.clone());
        }
        i = i + 1;
    }
    proof {
        assert(items@.take(i as int) =~= items@);
    }
    None
}

/// The values of the items with the key `tag`, but for the empty ones.
pub fn tags_of(items: &Vec<QueryItem>) -> (tags: Vec<String>)
    ensures
        tags.deep_view() == tag_values(items@),
{
    let wanted = "tag".to_owned();
    let mut tags: Vec<String> = Vec::new();
    let mut i: usize = 0;
    proof {
        reveal(Seq::filter);
        assert(items@.take(0) =~= Seq::<QueryItem>::empty());
        assert(tags.deep_view() =~= tag_values(items@.take(0)));
    }
    while i < items.len()
        invariant
            i <= items.len(),
            wanted@ == "tag"@,
            tags.deep_view() == tag_values(items@.take(i as int)),
        decreases items.len() - i,
    {
        let ghost before = tags.deep_view();
        proof {
            reveal(Seq::filter);
            assert(items@.take(i + 1).drop_last() =~= items@.take(i as int));
            assert(items@.take(i + 1).last() == items@[i as int]);
        }
        if items[i].key == wanted && !items[i].value.as_str().is_empty() {
            tags.push(items[i].value.clone());
            proof {
                assert(tags.deep_view() =~= before.push(items@[i as int].value@));
                assert(tag_values(items@.take(i + 1)) =~= tag_values(items@.take(i as int)).push(
                    items@[i as int].value@,
                ));
            }
        } else {
            proof {
                assert(tag_values(items@.take(i + 1)) =~= tag_values(items@.take(i as int)));
            }
        }
        i = i + 1;
    }
    proof {
        assert(items@.take(i as int) =~= items@);
    }
    tags
}

/// The number that a time of the query is given by, if there is one and it
/// is a number.
pub fn time_of(text: Option<String>) -> (r: Result<Option<i64>, Error>)
    ensures
        match text {
            Some(text) => match parsed_i64(text@) {
                Some(number) => r == Ok::<Option<i64>, Error>(Some(number)),
                None => r == Err::<Option<i64>, Error>(
                    Error::Parameter(ParameterError::InvalidNumber),
                ),
            },
            None => r == Ok::<Option<i64>, Error>(None),
        },
{
    match text {
        Some(text) => match parse_i64(text.as_str()) {
            Some(number) => Ok(Some(number)),
            None => Err(Error::Parameter(ParameterError::InvalidNumber)),
        },
        None => Ok(None),
    }
}

/// The box of a query of events, where the text of the box was read as
/// `read`: a text that is no box, and a box that is not valid or is empty,
/// are refused.
pub fn bbox_of(read: Option<Option<MapBbox>>) -> (r: Result<Option<MapBbox>, Error>)
    ensures
        match read {
            Some(Some(bbox)) => if bbox.is_valid() && !bbox.is_empty() {
                r == Ok::<Option<MapBbox>, Error>(Some(bbox))
            } else {
                r == Err::<Option<MapBbox>, Error>(Error::Parameter(ParameterError::Bbox))
            },
            Some(None) => r == Err::<Option<MapBbox>, Error>(
                Error::Parameter(ParameterError::Bbox),
            ),
            None => r == Ok::<Option<MapBbox>, Error>(None),
        },
{
    match read {
        Some(Some(bbox)) => {
            if bbox.is_valid() && !bbox.is_empty() {
                Ok(Some(bbox))
            } else {
                Err(Error::Parameter(ParameterError::Bbox))
            }
        },
        Some(None) => Err(Error::Parameter(ParameterError::Bbox)),
        None => Ok(None),
    }
}

impl EventQuery {
    /// The query of events that the items of a request make: the tags are
    /// the values of the items `tag`; the creator, the earliest and the
    /// latest start are the first decoded values of the items `created_by`,
    /// `start_min` and `start_max`; `bbox` is what the first decoded value
    /// of the item `bbox` was read as, if there is one.
    pub fn from_query(items: &Vec<QueryItem>, bbox: Option<Option<MapBbox>>) -> (r: Result<
        EventQuery,
        Error,
    >)
        ensures
            r matches Ok(query) ==> {
                &&& match query.tags {
                    Some(tags) => tags.deep_view() == tag_values(items@) && tags.len() > 0,
                    None => tag_values(items@).len() == 0,
                }
                &&& match query.created_by {
                    Some(creator) => first_decoded(items@, "created_by"@) == Some(creator@),
                    None => first_decoded(items@, "created_by"@).is_none(),
                }
                &&& match first_decoded(items@, "start_min"@) {
                    Some(text) => parsed_i64(text).is_some() && query.start_min == parsed_i64(
                        text,
                    ),
                    None => query.start_min.is_none(),
                }
                &&& match first_decoded(items@, "start_max"@) {
                    Some(text) => parsed_i64(text).is_some() && query.start_max == parsed_i64(
                        text,
                    ),
                    None => query.start_max.is_none(),
                }
                &&& match bbox {
                    Some(read) => query.bbox == read && (read matches Some(read_box)
                        && read_box.is_valid() && !read_box.is_empty()),
                    None => query.bbox.is_none(),
                }
            },
            r.is_err() <==> (first_decoded(items@, "start_min"@) matches Some(text) && parsed_i64(
                text,
            ).is_none()) || (first_decoded(items@, "start_max"@) matches Some(text) && parsed_i64(
                text,
            ).is_none()) || (bbox matches Some(read) && !(read matches Some(read_box)
                && read_box.is_valid() && !read_box.is_empty())),
    {
        let tags = tags_of(items);
        let tags = if tags.len() > 0 {
            Some(tags)
        } else {
            None
        };
        let created_by = first_value(items, "created_by");
        let start_min = match time_of(first_value(items, "start_min")) {
            Ok(start) => start,
            Err(error) => {
                return Err(error);
            },
        };
        let start_max = match time_of(first_value(items, "start_max")) {
            Ok(start) => start,
            Err(error) => {
                return Err(error);
            },
        };
        let bbox = match bbox_of(bbox) {
            Ok(bbox) => bbox,
            Err(error) => {
                return Err(error);
            },
        };
        Ok(EventQuery { tags, created_by, bbox, start_min, start_max })
    }

    /// Whether the events may be listed for a request without a token: not
    /// where the request asks for the events of one creator.
    pub fn is_open_to_all(&self) -> (open: bool)
        ensures
            open == self.created_by.is_none(),
    {
        self.created_by.is_none()
    }
}

} // verus!
