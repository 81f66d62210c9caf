//! What is asked of the index, and the query of the engine that answers it.
//!
//! A request can name a bounding box, a text, categories and tags. A
//! document is found when it passes each of these that the request names:
//! it lies in the box, the text as a query of the engine matches it, it has
//! one of the categories, and it has one of the tags. A request that names
//! none of them finds nothing.

use vstd::prelude::*;
use crate::geo::MapBbox;
use crate::index::engine::{
    empty_query, parser_setup, query_clauses, text_is_query, text_query_matches, with_must_group,
    with_must_text, with_range, with_term,
};
use crate::index::model::{
    all_admit, carries_term, clause_admits, clause_finds, group_admits, group_finds,
    group_matches, has_value_in_range, is_flat, leaf_clause_admits, leaf_clause_finds,
    leaf_is_valid, node_matches, query_is_valid, query_matches, some_finds, Clause, Doc,
    IndexConfig, Leaf, Node, Occur, ParserSetup, RangeBound,
};
use crate::index::schema::{
    entry_fields, is_entry_config, TantivyEntryFields, FIELD_CATEGORY, FIELD_LAT, FIELD_LNG,
    FIELD_TAG,
};
use crate::text::{is_blank, lowercased, to_lowercase, trim};

verus! {

/// What is asked of the index.
#[derive(Clone, Debug)]
pub struct EntryIndexQuery {
    /// Find entries in this box only.
    pub bbox: Option<MapBbox>,
    /// Find entries that this text, as a query of the engine, matches; a
    /// text that holds nothing but whitespace, or that is no query of the
    /// engine, is passed over.
    pub text: Option<String>,
    /// Find entries with one of these categories only, if there are any.
    pub categories: Vec<String>,
    /// Find entries with one of these tags only, if there are any.
    pub tags: Vec<String>,
}

/// Whether the document lies between the southern and the northern edge of
/// the box, both included.
pub open spec fn lat_admits(config: IndexConfig, bbox: MapBbox, doc: Doc) -> bool {
    has_value_in_range(
        config,
        doc,
        FIELD_LAT,
        RangeBound::Included(bbox.sw.lat.raw as i64),
        RangeBound::Included(bbox.ne.lat.raw as i64),
    )
}

/// Whether the document lies between the western and the eastern edge of
/// the box. In a box that does not wrap around the antimeridian these are
/// the longitudes from the western to the eastern edge, both included. A
/// box that wraps lets every document pass but those with a longitude that
/// lies between the eastern and the western edge and on neither of them.
pub open spec fn lng_admits(config: IndexConfig, bbox: MapBbox, doc: Doc) -> bool {
    if bbox.wraps() {
        !has_value_in_range(
            config,
            doc,
            FIELD_LNG,
            RangeBound::Excluded(bbox.ne.lng.raw as i64),
            RangeBound::Excluded(bbox.sw.lng.raw as i64),
        )
    } else {
        has_value_in_range(
            config,
            doc,
            FIELD_LNG,
            RangeBound::Included(bbox.sw.lng.raw as i64),
            RangeBound::Included(bbox.ne.lng.raw as i64),
        )
    }
}

/// Whether the document passes the box of a request.
pub open spec fn bbox_admits(config: IndexConfig, bbox: Option<MapBbox>, doc: Doc) -> bool {
    match bbox {
        Some(bbox) => lat_admits(config, bbox, doc) && lng_admits(config, bbox, doc),
        None => true,
    }
}

/// The query text that the engine is asked with: the text of the request in
/// lower case, where there is a text, it holds more than whitespace, and
/// the engine's parser takes it for a query.
pub open spec fn text_clause(setup: ParserSetup, text: Option<String>) -> Option<Seq<char>> {
    match text {
        Some(text) => if !is_blank(text@) && text_is_query(setup, lowercased(text@)) {
            Some(lowercased(text@))
        } else {
            None
        },
        None => None,
    }
}

/// Whether the document passes the text of a request.
pub open spec fn text_admits(setup: ParserSetup, text: Option<String>, doc: Doc) -> bool {
    match text_clause(setup, text) {
        Some(query) => text_query_matches(setup, query, doc),
        None => true,
    }
}

/// Whether the index finds the document under one of the texts, put into
/// lower case, as a term of the field.
pub open spec fn finds_any_term(
    config: IndexConfig,
    doc: Doc,
    field: u32,
    texts: Seq<Seq<char>>,
) -> bool
    decreases texts.len(),
{
    texts.len() > 0 && (finds_any_term(config, doc, field, texts.drop_last()) || carries_term(
        config,
        doc,
        field,
        lowercased(texts.last()),
    ))
}

/// Whether the document passes the categories, or the tags, of a request:
/// there are none, or the index finds the document under one of them.
pub open spec fn terms_admit(config: IndexConfig, doc: Doc, field: u32, texts: Seq<Seq<char>>) -> bool {
    texts.len() == 0 || finds_any_term(config, doc, field, texts)
}

/// Whether the request names anything to find entries by.
pub open spec fn names_something(setup: ParserSetup, query: EntryIndexQuery) -> bool {
    query.bbox.is_some() || text_clause(setup, query.text).is_some() || query.categories.len() > 0
        || query.tags.len() > 0
}

/// Whether the request finds the document.
pub open spec fn request_matches(
    config: IndexConfig,
    setup: ParserSetup,
    query: EntryIndexQuery,
    doc: Doc,
) -> bool {
    &&& names_something(setup, query)
    &&& bbox_admits(config, query.bbox, doc)
    &&& text_admits(setup, query.text, doc)
    &&& terms_admit(config, doc, FIELD_CATEGORY, query.categories.deep_view())
    &&& terms_admit(config, doc, FIELD_TAG, query.tags.deep_view())
}

/// Whether the southern edge of the box of the request lies north of its
/// northern edge. Such a request finds nothing.
pub open spec fn is_upside_down(query: EntryIndexQuery) -> bool {
    query.bbox matches Some(bbox) && bbox.sw.lat.raw > bbox.ne.lat.raw
}

/// A request with a box that is upside down finds nothing.
pub proof fn lemma_upside_down_finds_nothing(
    config: IndexConfig,
    setup: ParserSetup,
    query: EntryIndexQuery,
    doc: Doc,
)
    requires
        is_upside_down(query),
    ensures
        !request_matches(config, setup, query, doc),
{
}

/// What one more clause does to a boolean query.
pub proof fn lemma_push_clause(config: IndexConfig, clauses: Seq<Clause>, clause: Clause, doc: Doc)
    ensures
        all_admit(config, clauses.push(clause), doc) == (all_admit(config, clauses, doc)
            && clause_admits(config, clause, doc)),
        some_finds(config, clauses.push(clause), doc) == (some_finds(config, clauses, doc)
            || clause_finds(config, clause, doc)),
        group_admits(config, clauses.push(clause), doc) == (group_admits(config, clauses, doc)
            && leaf_clause_admits(config, clause, doc)),
        group_finds(config, clauses.push(clause), doc) == (group_finds(config, clauses, doc)
            || leaf_clause_finds(config, clause, doc)),
{
    assert(clauses.push(clause).drop_last() =~= clauses);
}

/// Whether the engine can run the query with these clauses, and the query
/// finds every document that all of its clauses let pass, if it has a clause
/// at all: it is a conjunction.
pub open spec fn is_conjunction(config: IndexConfig, clauses: Seq<Clause>) -> bool {
    &&& query_is_valid(config, clauses)
    &&& forall|doc: Doc|
        all_admit(config, clauses, doc) ==> #[trigger] some_finds(config, clauses, doc) == (
        clauses.len() > 0)
}

/// A conjunction with one more clause that the documents must match is a
/// conjunction, which lets a document pass when the conjunction does and the
/// document matches the clause.
proof fn lemma_and_must(config: IndexConfig, clauses: Seq<Clause>, node: Node)
    requires
        is_conjunction(config, clauses),
        query_is_valid(config, seq![Clause { occur: Occur::Must, node }]),
    ensures
        is_conjunction(config, clauses.push(Clause { occur: Occur::Must, node })),
        forall|doc: Doc| #[trigger]
            all_admit(config, clauses.push(Clause { occur: Occur::Must, node }), doc) == (
            all_admit(config, clauses, doc) && node_matches(config, node, doc)),
{
    let clause = Clause { occur: Occur::Must, node };
    let extended = clauses.push(clause);
    assert(seq![clause][0] == clause);
    assert forall|doc: Doc| #[trigger]
        all_admit(config, extended, doc) == (all_admit(config, clauses, doc) && node_matches(
            config,
            node,
            doc,
        )) by {
        lemma_push_clause(config, clauses, clause, doc);
    }
    assert forall|doc: Doc| all_admit(config, extended, doc) implies #[trigger] some_finds(
        config,
        extended,
        doc,
    ) == (extended.len() > 0) by {
        lemma_push_clause(config, clauses, clause, doc);
    }
}

/// A conjunction that has a clause, with one more clause that the
/// documents must not match, is a conjunction, which lets a document pass
/// when the conjunction does and the document does not match the clause.
proof fn lemma_and_must_not(config: IndexConfig, clauses: Seq<Clause>, node: Node)
    requires
        is_conjunction(config, clauses),
        clauses.len() > 0,
        query_is_valid(config, seq![Clause { occur: Occur::MustNot, node }]),
    ensures
        is_conjunction(config, clauses.push(Clause { occur: Occur::MustNot, node })),
        forall|doc: Doc| #[trigger]
            all_admit(config, clauses.push(Clause { occur: Occur::MustNot, node }), doc) == (
            all_admit(config, clauses, doc) && !node_matches(config, node, doc)),
{
    let clause = Clause { occur: Occur::MustNot, node };
    let extended = clauses.push(clause);
    assert(seq![clause][0] == clause);
    assert forall|doc: Doc| #[trigger]
        all_admit(config, extended, doc) == (all_admit(config, clauses, doc) && !node_matches(
            config,
            node,
            doc,
        )) by {
        lemma_push_clause(config, clauses, clause, doc);
    }
    assert forall|doc: Doc| all_admit(config, extended, doc) implies #[trigger] some_finds(
        config,
        extended,
        doc,
    ) == (extended.len() > 0) by {
        lemma_push_clause(config, clauses, clause, doc);
        assert(some_finds(config, clauses, doc));
    }
}

/// A boolean query of leaves that finds a document under one of the texts,
/// put into lower case, as a term of the field.
fn any_term_query(field: u32, texts: &Vec<String>, Ghost(config): Ghost<IndexConfig>) -> (group:
    tantivy::query::BooleanQuery)
    requires
        config.is_term_field(field),
    ensures
        query_is_valid(config, seq![Clause { occur: Occur::Must, node: Node::Group(query_clauses(group)) }]),
        is_flat(query_clauses(group)),
        forall|doc: Doc| #[trigger]
            group_matches(config, query_clauses(group), doc) == finds_any_term(
                config,
                doc,
                field,
                texts.deep_view(),
            ),
{
    let mut group = empty_query();
    let mut i: usize = 0;
    while i < texts.len()
        invariant
            i <= texts.len(),
            config.is_term_field(field),
            forall|k: int|
                0 <= k < query_clauses(group).len() ==> ((#[trigger] query_clauses(
                    group,
                )[k]).node matches Node::Leaf(leaf) && leaf_is_valid(config, leaf)),
            forall|doc: Doc| #[trigger] group_admits(config, query_clauses(group), doc),
            forall|doc: Doc| #[trigger]
                group_finds(config, query_clauses(group), doc) == finds_any_term(
                    config,
                    doc,
                    field,
                    texts.deep_view().take(i as int),
                ),
        decreases texts.len() - i,
    {
        let lower = to_lowercase(texts[i].as_str());
        let ghost before = query_clauses(group);
        let ghost clause = Clause {
            occur: Occur::Should,
            node: Node::Leaf(Leaf::Term { field, text: lower@ }),
        };
        group = with_term(&group, Occur::Should, field, lower.as_str());
        proof {
            let done = texts.deep_view().take(i as int);
            let next = texts.deep_view().take(i + 1);
            assert(next.drop_last() =~= done);
            assert(next.last() == texts[i as int]@);
            assert forall|doc: Doc| #[trigger] group_admits(config, query_clauses(group), doc) by {
                lemma_push_clause(config, before, clause, doc);
            }
            assert forall|doc: Doc| #[trigger]
                group_finds(config, query_clauses(group), doc) == finds_any_term(
                    config,
                    doc,
                    field,
                    next,
                ) by {
                lemma_push_clause(config, before, clause, doc);
            }
        }
        i = i + 1;
    }
    proof {
        assert(texts.deep_view().take(i as int) =~= texts.deep_view());
        let only = seq![Clause { occur: Occur::Must, node: Node::Group(query_clauses(group)) }];
        assert(only[0].node == Node::Group(query_clauses(group)));
    }
    group
}

/// The query with one more clause that the documents must match: that the
/// index finds them under one of the texts, put into lower case, as a term
/// of the field. Without texts the query is left as it is.
fn with_any_term(
    query: tantivy::query::BooleanQuery,
    field: u32,
    texts: &Vec<String>,
    Ghost(config): Ghost<IndexConfig>,
) -> (extended: tantivy::query::BooleanQuery)
    requires
        config.is_term_field(field),
        is_conjunction(config, query_clauses(query)),
    ensures
        is_conjunction(config, query_clauses(extended)),
        forall|doc: Doc| #[trigger]
            all_admit(config, query_clauses(extended), doc) == (all_admit(
                config,
                query_clauses(query),
                doc,
            ) && terms_admit(config, doc, field, texts.deep_view())),
        query_clauses(extended).len() > 0 <==> query_clauses(query).len() > 0 || texts.len() > 0,
{
    let ghost before = query_clauses(query);
    if texts.len() == 0 {
        query
    } else if texts.len() == 1 {
        let lower = to_lowercase(texts[0].as_str());
        let extended = with_term(&query, Occur::Must, field, lower.as_str());
        proof {
            let node = Node::Leaf(Leaf::Term { field, text: lower@ });
            let only = texts.deep_view();
            assert(only.drop_last().len() == 0);
            assert(only.last() == texts[0]@);
            assert(seq![Clause { occur: Occur::Must, node }][0].node == node);
            lemma_and_must(config, before, node);
            assert forall|doc: Doc|
                node_matches(config, node, doc) == #[trigger] terms_admit(
                    config,
                    doc,
                    field,
                    only,
                ) by {
                assert(!finds_any_term(config, doc, field, only.drop_last()));
            }
        }
        extended
    } else {
        let group = any_term_query(field, texts, Ghost(config));
        let ghost inner = query_clauses(group);
        let extended = with_must_group(&query, group);
        proof {
            lemma_and_must(config, before, Node::Group(inner));
        }
        extended
    }
}

/// The query with the clauses of a bounding box that is not upside down.
fn with_bbox(
    query: tantivy::query::BooleanQuery,
    fields: &TantivyEntryFields,
    bbox: &MapBbox,
    Ghost(config): Ghost<IndexConfig>,
) -> (extended: tantivy::query::BooleanQuery)
    requires
        *fields == entry_fields(),
        is_entry_config(config),
        bbox.sw.lat.raw <= bbox.ne.lat.raw,
        query_clauses(query).len() == 0,
    ensures
        is_conjunction(config, query_clauses(extended)),
        forall|doc: Doc| #[trigger]
            all_admit(config, query_clauses(extended), doc) == (lat_admits(config, *bbox, doc)
                && lng_admits(config, *bbox, doc)),
        query_clauses(extended).len() > 0,
{
    let south = bbox.south_west().lat().to_raw() as i64;
    let north = bbox.north_east().lat().to_raw() as i64;
    let west = bbox.south_west().lng().to_raw() as i64;
    let east = bbox.north_east().lng().to_raw() as i64;
    let ghost none = query_clauses(query);
    let ghost lat_node = Node::Leaf(
        Leaf::Range {
            field: FIELD_LAT,
            lower: RangeBound::Included(south),
            upper: RangeBound::Included(north),
        },
    );
    let with_lat = with_range(
        &query,
        Occur::Must,
        fields.lat,
        RangeBound::Included(south),
        RangeBound::Included(north),
    );
    let ghost one = query_clauses(with_lat);
    proof {
        assert(seq![Clause { occur: Occur::Must, node: lat_node }][0].node == lat_node);
        lemma_and_must(config, none, lat_node);
    }
    if west <= east {
        let extended = with_range(
            &with_lat,
            Occur::Must,
            fields.lng,
            RangeBound::Included(west),
            RangeBound::Included(east),
        );
        proof {
            let node = Node::Leaf(
                Leaf::Range {
                    field: FIELD_LNG,
                    lower: RangeBound::Included(west),
                    upper: RangeBound::Included(east),
                },
            );
            assert(seq![Clause { occur: Occur::Must, node }][0].node == node);
            lemma_and_must(config, one, node);
            assert forall|doc: Doc| #[trigger]
                all_admit(config, query_clauses(extended), doc) == (lat_admits(
                    config,
                    *bbox,
                    doc,
                ) && lng_admits(config, *bbox, doc)) by {
                assert(all_admit(config, one, doc) == (all_admit(config, none, doc)
                    && node_matches(config, lat_node, doc)));
            }
        }
        extended
    } else {
        let extended = with_range(
            &with_lat,
            Occur::MustNot,
            fields.lng,
            RangeBound::Excluded(east),
            RangeBound::Excluded(west),
        );
        proof {
            let node = Node::Leaf(
                Leaf::Range {
                    field: FIELD_LNG,
                    lower: RangeBound::Excluded(east),
                    upper: RangeBound::Excluded(west),
                },
            );
            assert(seq![Clause { occur: Occur::MustNot, node }][0].node == node);
            lemma_and_must_not(config, one, node);
            assert forall|doc: Doc| #[trigger]
                all_admit(config, query_clauses(extended), doc) == (lat_admits(
                    config,
                    *bbox,
                    doc,
                ) && lng_admits(config, *bbox, doc)) by {
                assert(all_admit(config, one, doc) == (all_admit(config, none, doc)
                    && node_matches(config, lat_node, doc)));
            }
        }
        extended
    }
}

/// The query with the clause of a text, where the text holds more than
/// whitespace and the engine's parser takes it for a query.
fn with_text(
    query: tantivy::query::BooleanQuery,
    parser: &tantivy::query::QueryParser,
    text: &Option<String>,
    Ghost(config): Ghost<IndexConfig>,
) -> (extended: tantivy::query::BooleanQuery)
    requires
        is_conjunction(config, query_clauses(query)),
    ensures
        is_conjunction(config, query_clauses(extended)),
        forall|doc: Doc| #[trigger]
            all_admit(config, query_clauses(extended), doc) == (all_admit(
                config,
                query_clauses(query),
                doc,
            ) && text_admits(parser_setup(*parser), *text, doc)),
        query_clauses(extended).len() > 0 <==> query_clauses(query).len() > 0 || text_clause(
            parser_setup(*parser),
            *text,
        ).is_some(),
{
    let ghost before = query_clauses(query);
    match text {
        Some(text) => {
            if trim(text.as_str()).is_empty() {
                return query;
            }
            let lower = to_lowercase(text.as_str());
            match with_must_text(&query, parser, lower.as_str()) {
                Ok(extended) => {
                    proof {
                        let clause = query_clauses(extended).last();
                        assert(seq![clause][0].node == clause.node);
                        lemma_and_must(config, before, clause.node);
                    }
                    extended
                },
                Err(_) => query,
            }
        },
        None => query,
    }
}

/// The query of the engine for a request whose box is not upside down.
pub(crate) fn build_query(
    fields: &TantivyEntryFields,
    parser: &tantivy::query::QueryParser,
    query: &EntryIndexQuery,
    Ghost(config): Ghost<IndexConfig>,
) -> (built: tantivy::query::BooleanQuery)
    requires
        *fields == entry_fields(),
        is_entry_config(config),
        !is_upside_down(*query),
    ensures
        query_is_valid(config, query_clauses(built)),
        forall|doc: Doc| #[trigger]
            query_matches(config, query_clauses(built), doc) == request_matches(
                config,
                parser_setup(*parser),
                *query,
                doc,
            ),
{
    let ghost setup = parser_setup(*parser);
    let empty = empty_query();
    let with_box = match &query.bbox {
        Some(bbox) => with_bbox(empty, fields, bbox, Ghost(config)),
        None => empty,
    };
    let ghost boxed = query_clauses(with_box);
    let with_words = with_text(with_box, parser, &query.text, Ghost(config));
    let ghost worded = query_clauses(with_words);
    let with_categories = with_any_term(
        with_words,
        fields.category,
        &query.categories,
        Ghost(config),
    );
    let ghost categorized = query_clauses(with_categories);
    let built = with_any_term(with_categories, fields.tag, &query.tags, Ghost(config));
    proof {
        assert(query_clauses(built).len() > 0 <==> names_something(setup, *query));
        assert forall|doc: Doc| #[trigger]
            query_matches(config, query_clauses(built), doc) == request_matches(
                config,
                setup,
                *query,
                doc,
            ) by {
            assert(all_admit(config, query_clauses(built), doc) == (all_admit(
                config,
                categorized,
                doc,
            ) && terms_admit(config, doc, FIELD_TAG, query.tags.deep_view())));
            assert(all_admit(config, categorized, doc) == (all_admit(config, worded, doc)
                && terms_admit(config, doc, FIELD_CATEGORY, query.categories.deep_view())));
            assert(all_admit(config, worded, doc) == (all_admit(config, boxed, doc)
                && text_admits(setup, query.text, doc)));
            assert(all_admit(config, boxed, doc) == bbox_admits(config, query.bbox, doc));
            if query_clauses(built).len() == 0 {
                assert(!some_finds(config, query_clauses(built), doc));
            }
        }
    }
    built
}

} // verus!
