//! What follows from the contracts of the index: how entries are found, and
//! what adding and removing them does to what searches see.

use vstd::prelude::*;
use vstd::multiset::Multiset;
use vstd::utf8::encode_utf8;
use crate::entry::Entry;
use crate::geo::MapBbox;
use crate::index::document::{entry_document, entry_head, text_values};
use crate::index::engine::engine_lowercased;
use crate::index::entry_index::{found_in, hit_is_of, is_selection_of, IndexedHit};
use crate::index::model::{
    above, applied, applied_op, below, carries_term, first_text, gives_term, has_term,
    has_value_in_range, is_stored, lacks_term, stored_values, Analyzer, Doc, FieldContent, FieldValue, IndexConfig, IndexOp, ParserSetup,
    RangeBound, MAX_TERM_BYTES,
};
use crate::index::query::{
    bbox_admits, finds_any_term, names_something, request_matches, terms_admit, text_admits,
    EntryIndexQuery,
};
use crate::index::schema::{
    is_entry_config, lemma_names_differ, FIELD_CATEGORY, FIELD_ID, FIELD_LAT, FIELD_LNG, FIELD_TAG,
};
use crate::rating::AvgRatingValue;
use crate::text::lowercased;

verus! {

/// Whether the text is short enough to be a term of the index.
pub open spec fn is_term(text: Seq<char>) -> bool {
    encode_utf8(text).len() <= MAX_TERM_BYTES
}

/// Whether the entry has a category that is, put into lower case by the
/// engine, the given one.
pub open spec fn has_category(entry: Entry, category: Seq<char>) -> bool {
    exists|j: int|
        0 <= j < entry.categories.len() && engine_lowercased((#[trigger] entry.categories[j])@)
            == category
}

/// Whether the entry has a tag that is, put into lower case by the engine,
/// the given one.
pub open spec fn has_tag(entry: Entry, tag: Seq<char>) -> bool {
    exists|j: int|
        0 <= j < entry.tags.len() && engine_lowercased((#[trigger] entry.tags[j])@) == tag
}

/// Whether one of the categories, put into lower case, is a term of the
/// index and a category of the entry.
pub open spec fn has_any_category(entry: Entry, categories: Seq<Seq<char>>) -> bool {
    exists|i: int|
        0 <= i < categories.len() && is_term(lowercased(#[trigger] categories[i]))
            && has_category(entry, lowercased(categories[i]))
}

/// Whether one of the tags, put into lower case, is a term of the index and
/// a tag of the entry.
pub open spec fn has_any_tag(entry: Entry, tags: Seq<Seq<char>>) -> bool {
    exists|i: int|
        0 <= i < tags.len() && is_term(lowercased(#[trigger] tags[i])) && has_tag(
            entry,
            lowercased(tags[i]),
        )
}

/// Where the values of the fields stand in the document of an entry.
proof fn lemma_entry_document_layout(entry: Entry, rating: AvgRatingValue)
    ensures
        entry_document(entry, rating).len() == 6 + entry.categories.len() + entry.tags.len(),
        entry_document(entry, rating)[0] == (FieldValue {
            field: FIELD_ID,
            content: FieldContent::Text(entry.id@),
        }),
        entry_document(entry, rating)[1] == (FieldValue {
            field: FIELD_LAT,
            content: FieldContent::Signed(entry.location.pos.lat.raw as i64),
        }),
        entry_document(entry, rating)[2] == (FieldValue {
            field: FIELD_LNG,
            content: FieldContent::Signed(entry.location.pos.lng.raw as i64),
        }),
        forall|i: int|
            0 <= i < entry_document(entry, rating).len() ==> ((#[trigger] entry_document(
                entry,
                rating,
            )[i]).field == FIELD_ID <==> i == 0),
        forall|i: int|
            0 <= i < entry_document(entry, rating).len() ==> ((#[trigger] entry_document(
                entry,
                rating,
            )[i]).field == FIELD_LAT <==> i == 1),
        forall|i: int|
            0 <= i < entry_document(entry, rating).len() ==> ((#[trigger] entry_document(
                entry,
                rating,
            )[i]).field == FIELD_LNG <==> i == 2),
        forall|i: int|
            0 <= i < entry_document(entry, rating).len() ==> ((#[trigger] entry_document(
                entry,
                rating,
            )[i]).field == FIELD_CATEGORY <==> 5 <= i < 5 + entry.categories.len()),
        forall|i: int|
            0 <= i < entry_document(entry, rating).len() ==> ((#[trigger] entry_document(
                entry,
                rating,
            )[i]).field == FIELD_TAG <==> 5 + entry.categories.len() <= i < 5
                + entry.categories.len() + entry.tags.len()),
        forall|j: int|
            0 <= j < entry.categories.len() ==> #[trigger] entry_document(entry, rating)[5 + j]
                == (FieldValue {
                field: FIELD_CATEGORY,
                content: FieldContent::Text(entry.categories[j]@),
            }),
        forall|j: int|
            0 <= j < entry.tags.len() ==> #[trigger] entry_document(
                entry,
                rating,
            )[5 + entry.categories.len() + j] == (FieldValue {
                field: FIELD_TAG,
                content: FieldContent::Text(entry.tags[j]@),
            }),
{
    let doc = entry_document(entry, rating);
    let head = entry_head(entry);
    let categories = text_values(FIELD_CATEGORY, entry.categories.deep_view());
    let tags = text_values(FIELD_TAG, entry.tags.deep_view());
    assert(head.len() == 5);
    assert(categories.len() == entry.categories.len());
    assert(tags.len() == entry.tags.len());
    assert forall|i: int| 0 <= i < doc.len() implies ((#[trigger] doc[i]).field == FIELD_ID <==> i
        == 0) && (doc[i].field == FIELD_LAT <==> i == 1) && (doc[i].field == FIELD_LNG <==> i == 2)
        && (doc[i].field == FIELD_CATEGORY <==> 5 <= i < 5 + entry.categories.len()) && (
    doc[i].field == FIELD_TAG <==> 5 + entry.categories.len() <= i < 5 + entry.categories.len()
        + entry.tags.len()) by {
        if i < 5 {
            assert(doc[i] == head[i]);
        } else if i < 5 + categories.len() {
            assert(doc[i] == categories[i - 5]);
        } else if i < 5 + categories.len() + tags.len() {
            assert(doc[i] == tags[i - 5 - categories.len()]);
        } else {
        }
    }
    assert forall|j: int| 0 <= j < entry.categories.len() implies #[trigger] doc[5 + j]
        == (FieldValue {
        field: FIELD_CATEGORY,
        content: FieldContent::Text(entry.categories[j]@),
    }) by {
        assert(doc[5 + j] == categories[j]);
    }
    assert forall|j: int| 0 <= j < entry.tags.len() implies #[trigger] doc[5
        + entry.categories.len() + j] == (FieldValue {
        field: FIELD_TAG,
        content: FieldContent::Text(entry.tags[j]@),
    }) by {
        assert(doc[5 + entry.categories.len() + j] == tags[j]);
    }
    assert(doc[0] == head[0]);
    assert(doc[1] == head[1]);
    assert(doc[2] == head[2]);
}

/// The index finds an entry under an identifier exactly when it is the
/// identifier of the entry and short enough to be a term.
pub proof fn lemma_entry_is_found_by_identifier(
    config: IndexConfig,
    entry: Entry,
    rating: AvgRatingValue,
    id: Seq<char>,
)
    requires
        is_entry_config(config),
    ensures
        carries_term(config, entry_document(entry, rating), FIELD_ID, id) == (entry.id@ == id
            && is_term(id)),
{
    let doc = entry_document(entry, rating);
    lemma_names_differ();
    lemma_entry_document_layout(entry, rating);
    let raw = config.tokenizers["raw"@]->Whole_0;
    assert(config.analyzer_of(FIELD_ID) == Some(Analyzer::Whole(raw)));
    if entry.id@ == id && is_term(id) {
        assert(gives_term(doc[0], FIELD_ID, raw, id));
    }
}

/// The index finds an entry under a category exactly when the entry has a
/// category that is the given one once the engine has put it into lower
/// case, and the given category is short enough to be a term.
pub proof fn lemma_entry_is_found_by_category(
    config: IndexConfig,
    entry: Entry,
    rating: AvgRatingValue,
    category: Seq<char>,
)
    requires
        is_entry_config(config),
    ensures
        carries_term(config, entry_document(entry, rating), FIELD_CATEGORY, category) == (
        has_category(entry, category) && is_term(category)),
{
    let doc = entry_document(entry, rating);
    lemma_names_differ();
    lemma_entry_document_layout(entry, rating);
    let lower = config.tokenizers["tag"@]->Whole_0;
    assert(config.analyzer_of(FIELD_CATEGORY) == Some(Analyzer::Whole(lower)));
    if has_category(entry, category) && is_term(category) {
        let j = choose|j: int|
            0 <= j < entry.categories.len() && engine_lowercased(
                (#[trigger] entry.categories[j])@,
            ) == category;
        assert(gives_term(doc[5 + j], FIELD_CATEGORY, lower, category));
    }
    if carries_term(config, doc, FIELD_CATEGORY, category) {
        let i = choose|i: int|
            0 <= i < doc.len() && gives_term(#[trigger] doc[i], FIELD_CATEGORY, lower, category);
        assert(doc[i] == doc[5 + (i - 5)]);
        assert(engine_lowercased(entry.categories[i - 5]@) == category);
    }
}

/// The index finds an entry under a tag exactly when the entry has a tag
/// that is the given one once the engine has put it into lower case, and the
/// given tag is short enough to be a term.
pub proof fn lemma_entry_is_found_by_tag(
    config: IndexConfig,
    entry: Entry,
    rating: AvgRatingValue,
    tag: Seq<char>,
)
    requires
        is_entry_config(config),
    ensures
        carries_term(config, entry_document(entry, rating), FIELD_TAG, tag) == (has_tag(
            entry,
            tag,
        ) && is_term(tag)),
{
    let doc = entry_document(entry, rating);
    lemma_names_differ();
    lemma_entry_document_layout(entry, rating);
    let lower = config.tokenizers["tag"@]->Whole_0;
    assert(config.analyzer_of(FIELD_TAG) == Some(Analyzer::Whole(lower)));
    let n = entry.categories.len() as int;
    if has_tag(entry, tag) && is_term(tag) {
        let j = choose|j: int|
            0 <= j < entry.tags.len() && engine_lowercased((#[trigger] entry.tags[j])@) == tag;
        assert(gives_term(doc[5 + n + j], FIELD_TAG, lower, tag));
    }
    if carries_term(config, doc, FIELD_TAG, tag) {
        let i = choose|i: int|
            0 <= i < doc.len() && gives_term(#[trigger] doc[i], FIELD_TAG, lower, tag);
        assert(doc[i] == doc[5 + n + (i - 5 - n)]);
        assert(engine_lowercased(entry.tags[i - 5 - n]@) == tag);
    }
}

/// A range of latitudes finds an entry exactly when the latitude of the
/// entry lies in it, and so for longitudes.
pub proof fn lemma_entry_is_found_by_position(
    config: IndexConfig,
    entry: Entry,
    rating: AvgRatingValue,
    lower: RangeBound,
    upper: RangeBound,
)
    requires
        is_entry_config(config),
    ensures
        has_value_in_range(config, entry_document(entry, rating), FIELD_LAT, lower, upper) == (
        above(lower, entry.location.pos.lat.raw as i64) && below(
            upper,
            entry.location.pos.lat.raw as i64,
        )),
        has_value_in_range(config, entry_document(entry, rating), FIELD_LNG, lower, upper) == (
        above(lower, entry.location.pos.lng.raw as i64) && below(
            upper,
            entry.location.pos.lng.raw as i64,
        )),
{
    let doc = entry_document(entry, rating);
    lemma_entry_document_layout(entry, rating);
    assert(doc[1].field == FIELD_LAT);
    assert(doc[2].field == FIELD_LNG);
}

/// A bounding box finds an entry exactly when it contains the position of
/// the entry.
///
/// So a box that wraps around the antimeridian finds the entries between
/// its southern and its northern edge but for those with a longitude that
/// lies between its eastern and its western edge and on neither of them.
pub proof fn lemma_box_finds_what_it_contains(
    config: IndexConfig,
    entry: Entry,
    rating: AvgRatingValue,
    bbox: MapBbox,
)
    requires
        is_entry_config(config),
    ensures
        bbox_admits(config, Some(bbox), entry_document(entry, rating)) == bbox.contains_point(
            &entry.location.pos,
        ),
        bbox.wraps() ==> (bbox_admits(config, Some(bbox), entry_document(entry, rating)) == (
        bbox.sw.lat.raw <= entry.location.pos.lat.raw <= bbox.ne.lat.raw && !(bbox.ne.lng.raw
            < entry.location.pos.lng.raw < bbox.sw.lng.raw))),
{
    lemma_entry_is_found_by_position(
        config,
        entry,
        rating,
        RangeBound::Included(bbox.sw.lat.raw as i64),
        RangeBound::Included(bbox.ne.lat.raw as i64),
    );
    lemma_entry_is_found_by_position(
        config,
        entry,
        rating,
        RangeBound::Included(bbox.sw.lng.raw as i64),
        RangeBound::Included(bbox.ne.lng.raw as i64),
    );
    lemma_entry_is_found_by_position(
        config,
        entry,
        rating,
        RangeBound::Excluded(bbox.ne.lng.raw as i64),
        RangeBound::Excluded(bbox.sw.lng.raw as i64),
    );
}

/// The categories of a request let an entry pass exactly when there are
/// none or the entry has one of them, whatever the case of the letters: the
/// category of the request and the category of the entry are both put into
/// lower case. And so for the tags.
pub proof fn lemma_labels_find_entries(
    config: IndexConfig,
    entry: Entry,
    rating: AvgRatingValue,
    labels: Seq<Seq<char>>,
)
    requires
        is_entry_config(config),
    ensures
        terms_admit(config, entry_document(entry, rating), FIELD_CATEGORY, labels) == (
        labels.len() == 0 || has_any_category(entry, labels)),
        terms_admit(config, entry_document(entry, rating), FIELD_TAG, labels) == (labels.len()
            == 0 || has_any_tag(entry, labels)),
    decreases labels.len(),
{
    let doc = entry_document(entry, rating);
    if labels.len() > 0 {
        let rest = labels.drop_last();
        let last = lowercased(labels.last());
        lemma_labels_find_entries(config, entry, rating, rest);
        lemma_entry_is_found_by_category(config, entry, rating, last);
        lemma_entry_is_found_by_tag(config, entry, rating, last);
        assert(finds_any_term(config, doc, FIELD_CATEGORY, labels) == (finds_any_term(
            config,
            doc,
            FIELD_CATEGORY,
            rest,
        ) || carries_term(config, doc, FIELD_CATEGORY, last)));
        assert(finds_any_term(config, doc, FIELD_TAG, labels) == (finds_any_term(
            config,
            doc,
            FIELD_TAG,
            rest,
        ) || carries_term(config, doc, FIELD_TAG, last)));
        if has_any_category(entry, rest) {
            let i = choose|i: int|
                0 <= i < rest.len() && is_term(lowercased(#[trigger] rest[i])) && has_category(
                    entry,
                    lowercased(rest[i]),
                );
            assert(rest[i] == labels[i]);
        }
        if has_any_tag(entry, rest) {
            let i = choose|i: int|
                0 <= i < rest.len() && is_term(lowercased(#[trigger] rest[i])) && has_tag(
                    entry,
                    lowercased(rest[i]),
                );
            assert(rest[i] == labels[i]);
        }
        if has_any_category(entry, labels) {
            let i = choose|i: int|
                0 <= i < labels.len() && is_term(lowercased(#[trigger] labels[i]))
                    && has_category(entry, lowercased(labels[i]));
            if i < rest.len() {
                assert(rest[i] == labels[i]);
            }
        }
        if has_any_tag(entry, labels) {
            let i = choose|i: int|
                0 <= i < labels.len() && is_term(lowercased(#[trigger] labels[i])) && has_tag(
                    entry,
                    lowercased(labels[i]),
                );
            if i < rest.len() {
                assert(rest[i] == labels[i]);
            }
        }
        if carries_term(config, doc, FIELD_CATEGORY, last) {
            assert(labels[labels.len() - 1] == labels.last());
        }
        if carries_term(config, doc, FIELD_TAG, last) {
            assert(labels[labels.len() - 1] == labels.last());
        }
    }
}

/// Whether the request finds the entry, said of the entry itself: the
/// request names something to find entries by, its box contains the position
/// of the entry, its text matches the document of the entry, and the entry
/// has one of its categories and one of its tags.
pub open spec fn request_finds_entry(
    config: IndexConfig,
    setup: ParserSetup,
    query: EntryIndexQuery,
    entry: Entry,
    rating: AvgRatingValue,
) -> bool {
    &&& names_something(setup, query)
    &&& (query.bbox matches Some(bbox) ==> bbox.contains_point(&entry.location.pos))
    &&& text_admits(setup, query.text, entry_document(entry, rating))
    &&& (query.categories.len() == 0 || has_any_category(entry, query.categories.deep_view()))
    &&& (query.tags.len() == 0 || has_any_tag(entry, query.tags.deep_view()))
}

/// A request finds the document of an entry exactly when it finds the
/// entry.
///
/// So a request for some categories and some tags, and for nothing else,
/// finds the entries that have one of the categories and one of the tags.
pub proof fn lemma_request_finds_entries(
    config: IndexConfig,
    setup: ParserSetup,
    query: EntryIndexQuery,
    entry: Entry,
    rating: AvgRatingValue,
)
    requires
        is_entry_config(config),
    ensures
        request_matches(config, setup, query, entry_document(entry, rating))
            == request_finds_entry(config, setup, query, entry, rating),
        query.bbox.is_none() && query.text.is_none() && query.categories.len() > 0
            && query.tags.len() > 0 ==> (request_matches(
            config,
            setup,
            query,
            entry_document(entry, rating),
        ) == (has_any_category(entry, query.categories.deep_view()) && has_any_tag(
            entry,
            query.tags.deep_view(),
        ))),
{
    if query.bbox.is_some() {
        lemma_box_finds_what_it_contains(config, entry, rating, query.bbox.unwrap());
    }
    lemma_labels_find_entries(config, entry, rating, query.categories.deep_view());
    lemma_labels_find_entries(config, entry, rating, query.tags.deep_view());
}

/// What the next commit applies when an entry is added or replaced: the
/// removal of what the index finds under the identifier of the entry, and
/// then the document of the entry.
pub open spec fn upsert_ops(entry: Entry, rating: AvgRatingValue) -> Seq<IndexOp> {
    seq![
        IndexOp::DeleteTerm { field: FIELD_ID, text: entry.id@ },
        IndexOp::Add(entry_document(entry, rating)),
    ]
}

/// What the operations make of the documents when they are applied after
/// others.
pub proof fn lemma_applied_after(
    config: IndexConfig,
    docs: Multiset<Doc>,
    ops: Seq<IndexOp>,
    more: Seq<IndexOp>,
)
    ensures
        applied(config, docs, ops + more) == applied(config, applied(config, docs, ops), more),
    decreases more.len(),
{
    if more.len() == 0 {
        assert(ops + more =~= ops);
    } else {
        lemma_applied_after(config, docs, ops, more.drop_last());
        assert((ops + more).drop_last() =~= ops + more.drop_last());
        assert((ops + more).last() == more.last());
    }
}

/// What adding or replacing an entry makes of the documents of an index:
/// the documents that the index does not find under the identifier of the
/// entry, and the document of the entry.
pub proof fn lemma_upsert_applied(
    config: IndexConfig,
    docs: Multiset<Doc>,
    entry: Entry,
    rating: AvgRatingValue,
)
    ensures
        applied(config, docs, upsert_ops(entry, rating)) == docs.filter(
            lacks_term(config, FIELD_ID, entry.id@),
        ).insert(entry_document(entry, rating)),
{
    let ops = upsert_ops(entry, rating);
    let first = ops.drop_last();
    assert(first.drop_last() =~= Seq::<IndexOp>::empty());
    assert(applied(config, docs, first.drop_last()) == docs);
    assert(first.last() == ops[0]);
    assert(ops.last() == ops[1]);
    assert(applied(config, docs, first) == applied_op(config, docs, ops[0]));
    assert(applied(config, docs, ops) == applied_op(
        config,
        applied(config, docs, first),
        ops[1],
    ));
}

/// Adding or replacing an entry keeps every document that the index does
/// not find under the identifier of the entry, as often as it was there,
/// and leaves the document of the entry as the one that is found under the
/// identifier. The second holds for an identifier that is short enough to
/// be a term of the index.
pub proof fn lemma_upsert_keeps_others(
    config: IndexConfig,
    docs: Multiset<Doc>,
    entry: Entry,
    rating: AvgRatingValue,
    doc: Doc,
)
    requires
        is_entry_config(config),
    ensures
        !carries_term(config, doc, FIELD_ID, entry.id@) && doc != entry_document(entry, rating)
            ==> applied(config, docs, upsert_ops(entry, rating)).count(doc) == docs.count(doc),
        is_term(entry.id@) ==> applied(config, docs, upsert_ops(entry, rating)).filter(
            has_term(config, FIELD_ID, entry.id@),
        ) == Multiset::singleton(entry_document(entry, rating)),
{
    lemma_upsert_applied(config, docs, entry, rating);
    lemma_entry_is_found_by_identifier(config, entry, rating, entry.id@);
    if is_term(entry.id@) {
        let after = applied(config, docs, upsert_ops(entry, rating));
        let under = after.filter(has_term(config, FIELD_ID, entry.id@));
        let added = entry_document(entry, rating);
        assert forall|other: Doc| under.count(other) == Multiset::singleton(added).count(
            other,
        ) by {
            if other != added {
                assert(Multiset::singleton(added).count(other) == 0);
            }
        }
        assert(under =~= Multiset::singleton(added));
    }
}

/// Adding the same identifier twice and committing leaves one document
/// under the identifier: the one that was added last. This holds for an
/// identifier that is short enough to be a term of the index.
pub proof fn lemma_upsert_twice_commits_once(
    config: IndexConfig,
    docs: Multiset<Doc>,
    pending: Seq<IndexOp>,
    first: Entry,
    first_rating: AvgRatingValue,
    second: Entry,
    second_rating: AvgRatingValue,
)
    requires
        is_entry_config(config),
        first.id@ == second.id@,
        is_term(first.id@),
    ensures
        applied(
            config,
            docs,
            pending + upsert_ops(first, first_rating) + upsert_ops(second, second_rating),
        ).filter(has_term(config, FIELD_ID, first.id@)) == Multiset::singleton(
            entry_document(second, second_rating),
        ),
{
    let id = first.id@;
    let before = applied(config, docs, pending);
    let between = applied(config, before, upsert_ops(first, first_rating));
    let after = applied(config, between, upsert_ops(second, second_rating));
    lemma_applied_after(config, docs, pending, upsert_ops(first, first_rating));
    lemma_applied_after(
        config,
        docs,
        pending + upsert_ops(first, first_rating),
        upsert_ops(second, second_rating),
    );
    lemma_upsert_applied(config, before, first, first_rating);
    lemma_upsert_applied(config, between, second, second_rating);
    lemma_entry_is_found_by_identifier(config, first, first_rating, id);
    lemma_entry_is_found_by_identifier(config, second, second_rating, id);
    let under = after.filter(has_term(config, FIELD_ID, id));
    let last = entry_document(second, second_rating);
    assert forall|doc: Doc| under.count(doc) == Multiset::singleton(last).count(doc) by {
        if doc != last {
            assert(Multiset::singleton(last).count(doc) == 0);
        }
    }
    assert(under =~= Multiset::singleton(last));
}

/// After a commit whose last operation removes an identifier, the index
/// finds no document under the identifier.
pub proof fn lemma_removed_is_gone(
    config: IndexConfig,
    docs: Multiset<Doc>,
    pending: Seq<IndexOp>,
    id: Seq<char>,
    doc: Doc,
)
    ensures
        !(applied(
            config,
            docs,
            pending.push(IndexOp::DeleteTerm { field: FIELD_ID, text: id }),
        ).contains(doc) && carries_term(config, doc, FIELD_ID, id)),
{
    let ops = pending.push(IndexOp::DeleteTerm { field: FIELD_ID, text: id });
    assert(ops.drop_last() =~= pending);
}

/// The first identifier that is handed out of a document is a text that the
/// document has in the field of the identifiers.
proof fn lemma_first_identifier(config: IndexConfig, doc: Doc, id: Seq<char>)
    requires
        is_entry_config(config),
        first_text(stored_values(config, doc), FIELD_ID) == Some(id),
    ensures
        exists|i: int|
            0 <= i < doc.len() && (#[trigger] doc[i]).field == FIELD_ID && doc[i].content
                == FieldContent::Text(id),
{
    let stored = stored_values(config, doc);
    lemma_first_text_is_value(stored, FIELD_ID, id);
    let j = choose|j: int|
        0 <= j < stored.len() && (#[trigger] stored[j]).field == FIELD_ID && stored[j].content
            == FieldContent::Text(id);
    assert(stored.contains(stored[j]));
    doc.lemma_filter_contains_rev(is_stored(config), stored[j]);
    let i = choose|i: int| 0 <= i < doc.len() && doc[i] == stored[j];
    assert(doc[i].field == FIELD_ID);
}

/// The first text of a field is one of the values of the document.
proof fn lemma_first_text_is_value(doc: Doc, field: u32, text: Seq<char>)
    requires
        first_text(doc, field) == Some(text),
    ensures
        exists|i: int|
            0 <= i < doc.len() && (#[trigger] doc[i]).field == field && doc[i].content
                == FieldContent::Text(text),
    decreases doc.len(),
{
    if doc.len() > 0 {
        if doc[0].field == field {
            assert(doc[0].content == FieldContent::Text(text));
        } else {
            let rest = doc.drop_first();
            lemma_first_text_is_value(rest, field, text);
            let j = choose|j: int|
                0 <= j < rest.len() && (#[trigger] rest[j]).field == field && rest[j].content
                    == FieldContent::Text(text);
            assert(doc[j + 1] == rest[j]);
        }
    }
}

/// The index finds the document of a hit under the identifier of the hit,
/// where the identifier is short enough to be a term of the index.
proof fn lemma_hit_identifier_is_term(config: IndexConfig, hit: IndexedHit, doc: Doc)
    requires
        is_entry_config(config),
        hit_is_of(hit, config, doc),
        is_term(hit.id@),
    ensures
        carries_term(config, doc, FIELD_ID, hit.id@),
{
    let id = hit.id@;
    lemma_names_differ();
    lemma_first_identifier(config, doc, id);
    let at = choose|at: int|
        0 <= at < doc.len() && (#[trigger] doc[at]).field == FIELD_ID && doc[at].content
            == FieldContent::Text(id);
    let raw = config.tokenizers["raw"@]->Whole_0;
    assert(config.analyzer_of(FIELD_ID) == Some(Analyzer::Whole(raw)));
    assert(gives_term(doc[at], FIELD_ID, raw, id));
}

/// A search after a commit whose last operation removes an identifier
/// hands out no hit with the identifier. This holds for an identifier that
/// is short enough to be a term of the index.
pub proof fn lemma_removed_is_not_found(
    config: IndexConfig,
    setup: ParserSetup,
    docs: Multiset<Doc>,
    pending: Seq<IndexOp>,
    id: Seq<char>,
    query: EntryIndexQuery,
    limit: nat,
    hits: Seq<IndexedHit>,
    i: int,
)
    requires
        is_entry_config(config),
        is_term(id),
        is_selection_of(
            hits,
            config,
            setup,
            applied(config, docs, pending.push(IndexOp::DeleteTerm { field: FIELD_ID, text: id })),
            query,
            limit,
        ),
        0 <= i < hits.len(),
    ensures
        hits[i].id@ != id,
{
    let committed = applied(
        config,
        docs,
        pending.push(IndexOp::DeleteTerm { field: FIELD_ID, text: id }),
    );
    let found = choose|found: Seq<Doc>| found_in(hits, found, config, setup, committed, query);
    let doc = found[i];
    assert(hit_is_of(hits[i], config, doc));
    found.to_multiset_ensures();
    assert(found.contains(doc));
    assert(found.to_multiset().count(doc) > 0);
    assert(committed.contains(doc));
    lemma_removed_is_gone(config, docs, pending, id, doc);
    if hits[i].id@ == id {
        lemma_hit_identifier_is_term(config, hits[i], doc);
    }
}

/// A value that stands at two places of a sequence is counted twice.
proof fn lemma_counted_twice<A>(s: Seq<A>, i: int, j: int)
    requires
        0 <= i < j < s.len(),
        s[i] == s[j],
    ensures
        s.to_multiset().count(s[i]) >= 2,
{
    let rest = s.remove(j);
    s.remove_ensures(j);
    vstd::seq_lib::to_multiset_remove(s, j);
    rest.to_multiset_ensures();
    assert(rest[i] == s[i]);
    assert(rest.contains(s[i]));
    assert(rest.to_multiset().count(s[i]) > 0);
}

/// Where the index has one document under an identifier, a search hands
/// out no more than one hit with the identifier. This holds for an
/// identifier that is short enough to be a term of the index.
pub proof fn lemma_found_once(
    config: IndexConfig,
    setup: ParserSetup,
    committed: Multiset<Doc>,
    only: Doc,
    id: Seq<char>,
    query: EntryIndexQuery,
    limit: nat,
    hits: Seq<IndexedHit>,
    i: int,
    j: int,
)
    requires
        is_entry_config(config),
        is_term(id),
        committed.filter(has_term(config, FIELD_ID, id)) == Multiset::singleton(only),
        is_selection_of(hits, config, setup, committed, query, limit),
        0 <= i < j < hits.len(),
    ensures
        !(hits[i].id@ == id && hits[j].id@ == id),
{
    if hits[i].id@ == id && hits[j].id@ == id {
        let found = choose|found: Seq<Doc>| found_in(hits, found, config, setup, committed, query);
        let under = committed.filter(has_term(config, FIELD_ID, id));
        assert(hit_is_of(hits[i], config, found[i]));
        assert(hit_is_of(hits[j], config, found[j]));
        lemma_hit_identifier_is_term(config, hits[i], found[i]);
        lemma_hit_identifier_is_term(config, hits[j], found[j]);
        found.to_multiset_ensures();
        assert(found.contains(found[i]));
        assert(found.contains(found[j]));
        assert(found.to_multiset().count(found[i]) > 0);
        assert(found.to_multiset().count(found[j]) > 0);
        assert(committed.contains(found[i]));
        assert(committed.contains(found[j]));
        assert(under.count(found[i]) == committed.count(found[i]));
        assert(under.count(found[j]) == committed.count(found[j]));
        if found[i] != only {
            assert(Multiset::singleton(only).count(found[i]) == 0);
        }
        if found[j] != only {
            assert(Multiset::singleton(only).count(found[j]) == 0);
        }
        assert(found[i] == found[j]);
        lemma_counted_twice(found, i, j);
    }
}

} // verus!
