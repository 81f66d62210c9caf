//! The index of entries.
//!
//! Entries are added, replaced and removed by their identifier. A change is
//! held back until it is committed by `flush`: only then do searches see it.
//! A search sees the documents of the last commit; it finds the entries that
//! the request names and hands out the best of them, the highest score
//! first.

use vstd::prelude::*;
use vstd::multiset::Multiset;
use crate::codec::{dequantized, lemma_dequantized_range};
use crate::entry::Entry;
use crate::index::document::{
    entry_document, lemma_entry_document_accepted, make_document, u64_to_avg_rating,
};
use crate::index::engine::{
    add_document, all_texts_of, commit, create_index_in_ram, delete_term, document_count,
    document_values, fetch_document, first_text_of, index_state, is_builtin_tokenizer,
    open_parser_and_writer, open_searcher, parser_setup, query_clauses, search_top,
    snapshot, writer_state, Writer,
};
use crate::index::error::{IndexError, RepoError};
use crate::index::model::{
    all_texts, applied, first_text, first_unsigned, hit_documents, is_top_selection,
    query_is_valid, query_matches, stored_values, Analyzer, Doc, Hit, IndexConfig, IndexOp, ParserSetup, Snapshot,
};
use crate::index::query::{
    build_query, is_upside_down, lemma_upside_down_finds_nothing, request_matches,
    EntryIndexQuery,
};
use crate::index::schema::{
    build_schema, entry_fields, entry_schema, is_entry_config, lemma_names_differ,
    register_tokenizers, TantivyEntryFields, FIELD_CATEGORY, FIELD_DESCRIPTION, FIELD_ID,
    FIELD_RATING, FIELD_TAG, FIELD_TITLE,
};
use crate::rating::{AvgRatingValue, AVG_RATING_RAW_MAX, AVG_RATING_RAW_MIN};

verus! {

/// How many bytes of memory the writer of the index may use.
pub const OVERALL_INDEX_HEAP_SIZE_IN_BYTES: usize = 50_000_000;

/// The repository of the entries: the index knows entries by their
/// identifiers, categories and tags, the repository hands them out whole.
pub trait EntryGateway {
    /// The entry with the identifier. The categories and the tags are those
    /// that the index has of the entry; the repository may rely on them.
    fn get_entry_with_relations(
        &self,
        id: &str,
        categories: &Vec<String>,
        tags: &Vec<String>,
    ) -> Result<Entry, RepoError>;
}

/// What the index hands out of a document that a search found.
#[derive(Clone, Debug)]
pub struct IndexedHit {
    pub id: String,
    pub categories: Vec<String>,
    pub tags: Vec<String>,
    /// The score of the entry in its quantized form.
    pub rating: u64,
}

/// Whether the hit is what the index hands out of the document: the first
/// identifier, the categories and the tags that are stored with it, and
/// its score.
pub open spec fn hit_is_of(hit: IndexedHit, config: IndexConfig, doc: Doc) -> bool {
    &&& first_text(stored_values(config, doc), FIELD_ID) == Some(hit.id@)
    &&& hit.categories.deep_view() == all_texts(stored_values(config, doc), FIELD_CATEGORY)
    &&& hit.tags.deep_view() == all_texts(stored_values(config, doc), FIELD_TAG)
    &&& first_unsigned(doc, FIELD_RATING) == Some(hit.rating)
}

/// What a hit holds.
pub struct HitModel {
    pub id: Seq<char>,
    pub categories: Seq<Seq<char>>,
    pub tags: Seq<Seq<char>>,
    pub rating: u64,
}

impl View for IndexedHit {
    type V = HitModel;

    open spec fn view(&self) -> HitModel {
        HitModel {
            id: self.id@,
            categories: self.categories.deep_view(),
            tags: self.tags.deep_view(),
            rating: self.rating,
        }
    }
}

/// What the hits hold, one after the other.
pub open spec fn hit_views(hits: Seq<IndexedHit>) -> Seq<HitModel> {
    Seq::new(hits.len(), |i: int| hits[i]@)
}

/// What a search found of one document: the value that it ordered the
/// document by, and what the engine gave when the document was fetched.
pub type Fetched = (Option<u64>, Result<tantivy::TantivyDocument, tantivy::TantivyError>);

/// What is handed out of a document that a search found: the first
/// identifier, the categories and the tags of the fetched document, and the
/// score; nothing where the document could not be fetched, has no
/// identifier, or was found without a score.
pub open spec fn hit_of(
    fields: TantivyEntryFields,
    rating: Option<u64>,
    fetched: Result<tantivy::TantivyDocument, tantivy::TantivyError>,
) -> Option<HitModel> {
    match (rating, fetched) {
        (Some(rating), Ok(document)) => match first_text(document_values(document), fields.id) {
            Some(id) => Some(
                HitModel {
                    id,
                    categories: all_texts(document_values(document), fields.category),
                    tags: all_texts(document_values(document), fields.tag),
                    rating,
                },
            ),
            None => None,
        },
        _ => None,
    }
}

/// What is handed out of the documents that a search found, in their order:
/// a hit of each one that yields a hit.
pub open spec fn hits_of(fields: TantivyEntryFields, found: Seq<Fetched>) -> Seq<HitModel>
    decreases found.len(),
{
    if found.len() == 0 {
        Seq::<HitModel>::empty()
    } else {
        match hit_of(fields, found.last().0, found.last().1) {
            Some(hit) => hits_of(fields, found.drop_last()).push(hit),
            None => hits_of(fields, found.drop_last()),
        }
    }
}

/// What is handed out of a document that a search found.
fn hit_of_fetched(
    fields: &TantivyEntryFields,
    rating: Option<u64>,
    fetched: &Result<tantivy::TantivyDocument, tantivy::TantivyError>,
) -> (hit: Option<IndexedHit>)
    ensures
        match hit {
            Some(found) => hit_of(*fields, rating, *fetched) == Some(found@),
            None => hit_of(*fields, rating, *fetched).is_none(),
        },
{
    match (rating, fetched) {
        (Some(rating), Ok(document)) => {
            match first_text_of(document, fields.id) {
                Some(id) => {
                    let categories = all_texts_of(document, fields.category);
                    let tags = all_texts_of(document, fields.tag);
                    proof {
                        assert(categories.deep_view() =~= all_texts(
                            document_values(*document),
                            fields.category,
                        ));
                        assert(tags.deep_view() =~= all_texts(
                            document_values(*document),
                            fields.tag,
                        ));
                    }
                    Some(IndexedHit { id, categories, tags, rating })
                },
                None => None,
            }
        },
        _ => None,
    }
}

/// What is handed out of a document that a search found: nothing where the
/// document could not be fetched, has no identifier, or was found without
/// a score.
pub fn hit_from_document(
    fields: &TantivyEntryFields,
    rating: Option<u64>,
    fetched: Result<tantivy::TantivyDocument, tantivy::TantivyError>,
) -> (hit: Option<IndexedHit>)
    ensures
        match hit {
            Some(found) => hit_of(*fields, rating, fetched) == Some(found@),
            None => hit_of(*fields, rating, fetched).is_none(),
        },
{
    hit_of_fetched(fields, rating, &fetched)
}

/// What is handed out of the documents that a search found, in their order:
/// a hit of each document that was fetched, has an identifier and was found
/// with a score. The others are passed over.
pub fn hits_from_documents(fields: &TantivyEntryFields, found: &Vec<Fetched>) -> (hits: Vec<
    IndexedHit,
>)
    ensures
        hit_views(hits@) == hits_of(*fields, found@),
{
    let mut hits: Vec<IndexedHit> = Vec::new();
    let mut i: usize = 0;
    proof {
        assert(found@.take(0) =~= Seq::<Fetched>::empty());
        assert(hit_views(hits@) =~= Seq::<HitModel>::empty());
    }
    while i < found.len()
        invariant
            i <= found.len(),
            hit_views(hits@) == hits_of(*fields, found@.take(i as int)),
        decreases found.len() - i,
    {
        let ghost before = hits@;
        proof {
            assert(found@.take(i + 1).drop_last() =~= found@.take(i as int));
            assert(found@.take(i + 1).last() == found@[i as int]);
        }
        match hit_of_fetched(fields, found[i].0, &found[i].1) {
            Some(hit) => {
                hits.push(hit);
                proof {
                    assert(hit_views(hits@) =~= hit_views(before).push(hit@));
                }
            },
            None => {},
        }
        i = i + 1;
    }
    proof {
        assert(found@.take(i as int) =~= found@);
    }
    hits
}

/// The score that a quantized form stands for.
pub open spec fn score_of(rating: u64) -> AvgRatingValue {
    AvgRatingValue {
        raw: dequantized(
            rating as int,
            AVG_RATING_RAW_MIN as int,
            AVG_RATING_RAW_MAX as int,
        ) as i64,
    }
}

/// What the repository answered when it was asked for the entry of a hit,
/// with the quantized score of the hit.
pub type Answer = (Result<Entry, RepoError>, u64);

/// What is handed out for a hit once the repository was asked for its
/// entry: the entry with the score that the quantized form stands for, or
/// nothing where the repository had no entry to give.
pub open spec fn resolved_of(outcome: Result<Entry, RepoError>, rating: u64) -> Option<
    (Entry, AvgRatingValue),
> {
    match outcome {
        Ok(entry) => Some((entry, score_of(rating))),
        Err(_) => None,
    }
}

/// What is handed out for the hits once the repository was asked for the
/// entry of each, in their order: the entries that the repository gave,
/// each with the score of its hit.
pub open spec fn resolved_all(answers: Seq<Answer>) -> Seq<(Entry, AvgRatingValue)>
    decreases answers.len(),
{
    if answers.len() == 0 {
        Seq::<(Entry, AvgRatingValue)>::empty()
    } else {
        match resolved_of(answers.last().0, answers.last().1) {
            Some(pair) => resolved_all(answers.drop_last()).push(pair),
            None => resolved_all(answers.drop_last()),
        }
    }
}

/// What is handed out for a hit once the repository was asked for its
/// entry: the entry with the score that the quantized form stands for, or
/// nothing where the repository had no entry to give.
pub fn resolved_entry(outcome: Result<Entry, RepoError>, rating: u64) -> (resolved: Option<
    (Entry, AvgRatingValue),
>)
    ensures
        resolved == resolved_of(outcome, rating),
{
    proof {
        lemma_dequantized_range(
            rating as int,
            AVG_RATING_RAW_MIN as int,
            AVG_RATING_RAW_MAX as int,
        );
    }
    match outcome {
        Ok(entry) => Some((entry, u64_to_avg_rating(rating))),
        Err(_) => None,
    }
}

/// What is handed out for the hits once the repository was asked for the
/// entry of each, in their order: the entries that the repository gave,
/// each with the score of its hit. The others are passed over.
pub fn resolved_entries(answers: Vec<Answer>) -> (found: Vec<(Entry, AvgRatingValue)>)
    ensures
        found@ == resolved_all(answers@),
{
    let ghost all = answers@;
    let mut found: Vec<(Entry, AvgRatingValue)> = Vec::new();
    proof {
        assert(all.take(0) =~= Seq::<Answer>::empty());
    }
    for answer in it: answers.into_iter()
        invariant
            it.seq() == all,
            found@ == resolved_all(all.take(it.index() as int)),
    {
        proof {
            let i = it.index() as int;
            assert(all.take(i + 1).drop_last() =~= all.take(i));
            assert(all.take(i + 1).last() == all[i]);
        }
        match resolved_entry(answer.0, answer.1) {
            Some(pair) => {
                found.push(pair);
            },
            None => {},
        }
    }
    proof {
        assert(all.take(all.len() as int) =~= all);
    }
    found
}

/// The score that the quantized form of a hit stands for.
pub open spec fn rating_of_hit(hit: IndexedHit) -> AvgRatingValue {
    score_of(hit.rating)
}

/// Whether the entries stand for hits, in the order of the hits, each with
/// the score of its hit: the entry at `k` for the hit at `places[k]`.
pub open spec fn are_scored_by(
    found: Seq<(Entry, AvgRatingValue)>,
    hits: Seq<IndexedHit>,
    places: Seq<int>,
) -> bool {
    &&& places.len() == found.len()
    &&& forall|k: int| 0 <= k < places.len() ==> 0 <= #[trigger] places[k] < hits.len()
    &&& forall|k: int, l: int|
        0 <= k < l < places.len() ==> #[trigger] places[k] < #[trigger] places[l]
    &&& forall|k: int|
        0 <= k < found.len() ==> (#[trigger] found[k]).1 == rating_of_hit(hits[places[k]])
}

/// Whether the hits are what the index hands out of the documents, one of
/// each, and the documents are among those that are committed and that the
/// request finds, none of them more often than it is committed.
pub open spec fn found_in(
    hits: Seq<IndexedHit>,
    docs: Seq<Doc>,
    config: IndexConfig,
    setup: ParserSetup,
    committed: Multiset<Doc>,
    query: EntryIndexQuery,
) -> bool {
    &&& docs.len() == hits.len()
    &&& forall|i: int|
        0 <= i < hits.len() ==> hit_is_of(#[trigger] hits[i], config, docs[i]) && request_matches(
            config,
            setup,
            query,
            docs[i],
        )
    &&& docs.to_multiset().subset_of(
        committed.filter(|doc: Doc| request_matches(config, setup, query, doc)),
    )
}

/// The documents that the request finds.
pub open spec fn is_wanted(config: IndexConfig, setup: ParserSetup, query: EntryIndexQuery) -> spec_fn(
    Doc,
) -> bool {
    |doc: Doc| request_matches(config, setup, query, doc)
}

/// Whether `best` lists the `limit` best of the documents `matching`, the
/// highest score first: it lists none of them more often than it is there;
/// it lists `limit` of them, or all where they are fewer; the scores
/// descend; and a document that is left out has no higher score than any
/// that is listed.
pub open spec fn is_best(best: Seq<Doc>, matching: Multiset<Doc>, limit: nat) -> bool {
    &&& best.to_multiset().subset_of(matching)
    &&& best.len() == if matching.len() < limit {
        matching.len()
    } else {
        limit
    }
    &&& forall|i: int, j: int|
        0 <= i < j < best.len() ==> (first_unsigned(
            #[trigger] best[i],
            FIELD_RATING,
        ) matches Some(a) && first_unsigned(#[trigger] best[j], FIELD_RATING) matches Some(b) ==> a
            >= b)
    &&& forall|doc: Doc, i: int|
        best.to_multiset().count(doc) < #[trigger] matching.count(doc) && 0 <= i < best.len() ==> (
        first_unsigned(doc, FIELD_RATING) matches Some(a) && first_unsigned(
            #[trigger] best[i],
            FIELD_RATING,
        ) matches Some(b) ==> a <= b)
}

/// Whether the hits are handed out of documents of `best`, in the order of
/// `best`: the hit at `k` of the document at `places[k]`.
pub open spec fn are_taken_from(
    hits: Seq<IndexedHit>,
    config: IndexConfig,
    best: Seq<Doc>,
    places: Seq<int>,
) -> bool {
    &&& places.len() == hits.len()
    &&& forall|k: int| 0 <= k < places.len() ==> 0 <= #[trigger] places[k] < best.len()
    &&& forall|k: int, l: int|
        0 <= k < l < places.len() ==> #[trigger] places[k] < #[trigger] places[l]
    &&& forall|k: int|
        0 <= k < hits.len() ==> hit_is_of(#[trigger] hits[k], config, best[places[k]])
}

/// Whether the hits are a selection of what the request finds among the
/// committed documents: no more than `limit`, by descending score, each one
/// handed out of a committed document that the request finds, and all of
/// them taken, in their order, from the `limit` best of these documents.
pub open spec fn is_selection_of(
    hits: Seq<IndexedHit>,
    config: IndexConfig,
    setup: ParserSetup,
    committed: Multiset<Doc>,
    query: EntryIndexQuery,
    limit: nat,
) -> bool {
    &&& hits.len() <= limit
    &&& forall|i: int, j: int|
        0 <= i < j < hits.len() ==> (#[trigger] hits[i]).rating >= (#[trigger] hits[j]).rating
    &&& exists|docs: Seq<Doc>| found_in(hits, docs, config, setup, committed, query)
    &&& exists|best: Seq<Doc>, places: Seq<int>|
        is_best(best, committed.filter(is_wanted(config, setup, query)), limit)
            && are_taken_from(hits, config, best, places)
}

/// The documents at the places.
pub open spec fn picked(best: Seq<Doc>, places: Seq<int>) -> Seq<Doc> {
    Seq::new(places.len(), |k: int| best[places[k]])
}

/// The places of the documents that yield the hits: of the first `m`
/// documents that a search found, those that yield a hit, in their order.
proof fn lemma_hits_taken(
    fields: TantivyEntryFields,
    found: Seq<Fetched>,
    best: Seq<Doc>,
    m: int,
) -> (places: Seq<int>)
    requires
        0 <= m <= found.len(),
        best.len() == found.len(),
    ensures
        places.len() == hits_of(fields, found.take(m)).len(),
        places.len() <= m,
        forall|k: int| 0 <= k < places.len() ==> 0 <= #[trigger] places[k] < m,
        forall|k: int, l: int|
            0 <= k < l < places.len() ==> #[trigger] places[k] < #[trigger] places[l],
        forall|k: int|
            0 <= k < places.len() ==> hit_of(
                fields,
                found[#[trigger] places[k]].0,
                found[places[k]].1,
            ) == Some(hits_of(fields, found.take(m))[k]),
        picked(best, places).to_multiset().subset_of(best.take(m).to_multiset()),
    decreases m,
{
    if m == 0 {
        let places = Seq::<int>::empty();
        assert(found.take(0) =~= Seq::<Fetched>::empty());
        assert(picked(best, places) =~= Seq::<Doc>::empty());
        picked(best, places).to_multiset_ensures();
        vstd::multiset::lemma_multiset_empty_len(picked(best, places).to_multiset());
        places
    } else {
        let earlier = lemma_hits_taken(fields, found, best, m - 1);
        assert(found.take(m).drop_last() =~= found.take(m - 1));
        assert(found.take(m).last() == found[m - 1]);
        assert(best.take(m) =~= best.take(m - 1).push(best[m - 1]));
        vstd::seq_lib::to_multiset_build(best.take(m - 1), best[m - 1]);
        match hit_of(fields, found[m - 1].0, found[m - 1].1) {
            Some(hit) => {
                let places = earlier.push(m - 1);
                assert(picked(best, places) =~= picked(best, earlier).push(best[m - 1]));
                vstd::seq_lib::to_multiset_build(picked(best, earlier), best[m - 1]);
                assert forall|k: int| 0 <= k < places.len() implies hit_of(
                    fields,
                    found[#[trigger] places[k]].0,
                    found[places[k]].1,
                ) == Some(hits_of(fields, found.take(m))[k]) by {
                    if k < earlier.len() {
                        assert(places[k] == earlier[k]);
                    }
                }
                places
            },
            None => earlier,
        }
    }
}

/// The places of the answers that yield the entries: of the first `m`
/// answers of the repository, those that hold an entry, in their order.
proof fn lemma_entries_taken(answers: Seq<Answer>, m: int) -> (places: Seq<int>)
    requires
        0 <= m <= answers.len(),
    ensures
        places.len() == resolved_all(answers.take(m)).len(),
        places.len() <= m,
        forall|k: int| 0 <= k < places.len() ==> 0 <= #[trigger] places[k] < m,
        forall|k: int, l: int|
            0 <= k < l < places.len() ==> #[trigger] places[k] < #[trigger] places[l],
        forall|k: int|
            0 <= k < places.len() ==> resolved_of(
                answers[#[trigger] places[k]].0,
                answers[places[k]].1,
            ) == Some(resolved_all(answers.take(m))[k]),
    decreases m,
{
    if m == 0 {
        assert(answers.take(0) =~= Seq::<Answer>::empty());
        Seq::<int>::empty()
    } else {
        let earlier = lemma_entries_taken(answers, m - 1);
        assert(answers.take(m).drop_last() =~= answers.take(m - 1));
        assert(answers.take(m).last() == answers[m - 1]);
        match resolved_of(answers[m - 1].0, answers[m - 1].1) {
            Some(pair) => {
                let places = earlier.push(m - 1);
                assert forall|k: int| 0 <= k < places.len() implies resolved_of(
                    answers[#[trigger] places[k]].0,
                    answers[places[k]].1,
                ) == Some(resolved_all(answers.take(m))[k]) by {
                    if k < earlier.len() {
                        assert(places[k] == earlier[k]);
                    }
                }
                places
            },
            None => earlier,
        }
    }
}

/// No more of the documents pass a test than there are documents.
proof fn lemma_filter_len(docs: Multiset<Doc>, test: spec_fn(Doc) -> bool)
    ensures
        docs.filter(test).len() <= docs.len(),
    decreases docs.len(),
{
    if docs.len() == 0 {
        vstd::multiset::lemma_multiset_empty_len(docs);
        assert(docs.filter(test) =~= Multiset::<Doc>::empty());
    } else {
        let doc = docs.choose();
        let rest = docs.remove(doc);
        assert(docs =~= rest.insert(doc));
        lemma_filter_len(rest, test);
        if test(doc) {
            assert(docs.filter(test) =~= rest.filter(test).insert(doc));
        } else {
            assert(docs.filter(test) =~= rest.filter(test));
        }
    }
}

/// The index of entries.
pub struct TantivyEntryIndex {
    fields: TantivyEntryFields,
    writer: Writer,
    text_query_parser: tantivy::query::QueryParser,
}

impl TantivyEntryIndex {
    /// The configuration of the index.
    pub closed spec fn config(&self) -> IndexConfig {
        writer_state(self.writer).config
    }

    /// The documents of the last commit: what searches see.
    pub closed spec fn committed(&self) -> Multiset<Doc> {
        writer_state(self.writer).committed
    }

    /// The changes that are held back until the next commit, in their order.
    pub closed spec fn pending(&self) -> Seq<IndexOp> {
        writer_state(self.writer).pending
    }

    /// How the parser of search texts is set up.
    pub closed spec fn parser(&self) -> ParserSetup {
        parser_setup(self.text_query_parser)
    }

    /// The index is well formed: it has the schema and the analyzers of an
    /// index of entries, and search texts are looked for in the titles and
    /// the descriptions.
    pub closed spec fn wf(&self) -> bool {
        &&& self.fields == entry_fields()
        &&& is_entry_config(self.config())
        &&& self.parser() == (ParserSetup {
            config: self.config(),
            defaults: seq![FIELD_TITLE, FIELD_DESCRIPTION],
        })
    }

    /// What being well formed says of the configuration and of the parser.
    pub proof fn lemma_wf(&self)
        requires
            self.wf(),
        ensures
            is_entry_config(self.config()),
            self.parser() == (ParserSetup {
                config: self.config(),
                defaults: seq![FIELD_TITLE, FIELD_DESCRIPTION],
            }),
    {
    }

    /// An index in memory that holds no entry.
    pub fn create_in_ram() -> (r: Result<Self, IndexError>)
        ensures
            r matches Ok(index) ==> index.wf() && index.committed() == Multiset::<Doc>::empty()
                && index.pending() == Seq::<IndexOp>::empty(),
            r matches Err(error) ==> error == IndexError::Engine,
    {
        let (builder, _fields) = build_schema();
        match create_index_in_ram(builder) {
            Ok(index) => {
                proof {
                    lemma_names_differ();
                    assert(!is_builtin_tokenizer("tag"@));
                }
                match Self::create_with(index) {
                    Ok(created) => Ok(created),
                    Err(_) => Err(IndexError::Engine),
                }
            },
            Err(_) => Err(IndexError::Engine),
        }
    }

    /// An index of entries on an index of the engine that has the schema of
    /// `build_schema` and the analyzers that the engine registers by itself.
    ///
    /// The analyzer of the categories and tags is registered. The analyzers
    /// `raw` and `default` have to be there for that, and none may stand
    /// under the name `tag` yet: else the index is refused, and only then
    /// for its analyzers.
    pub fn create_with(index: tantivy::Index) -> (r: Result<Self, IndexError>)
        requires
            index_state(index).config.fields == entry_schema(),
            index_state(index).config.tokenizers.contains_key("raw"@) ==> index_state(
                index,
            ).config.tokenizers["raw"@] == Analyzer::Whole(|text: Seq<char>| text),
            index_state(index).config.tokenizers.contains_key("default"@) ==> index_state(
                index,
            ).config.tokenizers["default"@] == Analyzer::Other,
        ensures
            r matches Ok(created) ==> created.wf() && created.committed() == index_state(
                index,
            ).docs && created.pending() == Seq::<IndexOp>::empty(),
            !(index_state(index).config.tokenizers.contains_key("raw"@) && index_state(
                index,
            ).config.tokenizers.contains_key("default"@) && !index_state(
                index,
            ).config.tokenizers.contains_key("tag"@)) ==> r matches Err(
                IndexError::Tokenizers,
            ),
            r matches Err(error) ==> (error == IndexError::Tokenizers <==> !(index_state(
                index,
            ).config.tokenizers.contains_key("raw"@) && index_state(
                index,
            ).config.tokenizers.contains_key("default"@) && !index_state(
                index,
            ).config.tokenizers.contains_key("tag"@))),
    {
        let mut index = index;
        if !register_tokenizers(&mut index) {
            return Err(IndexError::Tokenizers);
        }
        proof {
            lemma_names_differ();
        }
        let mut defaults: Vec<u32> = Vec::new();
        defaults.push(FIELD_TITLE);
        defaults.push(FIELD_DESCRIPTION);
        proof {
            assert(defaults@ =~= seq![FIELD_TITLE, FIELD_DESCRIPTION]);
        }
        match open_parser_and_writer(index, defaults, OVERALL_INDEX_HEAP_SIZE_IN_BYTES) {
            Ok((text_query_parser, writer)) => Ok(
                TantivyEntryIndex { fields: entry_fields_of(), writer, text_query_parser },
            ),
            Err(_) => Err(IndexError::Engine),
        }
    }

    /// Adds the entry with its score, in place of the entry that the index
    /// has under the same identifier, if it has one. Searches see the change
    /// after the next `flush`, and nothing of it before.
    ///
    /// Where the engine does not take the document, the removal of the
    /// entry under the identifier may be all that is held back for the next
    /// `flush`.
    pub fn add_or_update_entry(&mut self, entry: &Entry, avg_rating: AvgRatingValue) -> (r: Result<
        (),
        IndexError,
    >)
        requires
            old(self).wf(),
        ensures
            final(self).wf(),
            final(self).config() == old(self).config(),
            final(self).committed() == old(self).committed(),
            r.is_ok() ==> final(self).pending() == old(self).pending().push(
                IndexOp::DeleteTerm { field: FIELD_ID, text: entry.id@ },
            ).push(IndexOp::Add(entry_document(*entry, avg_rating))),
            r matches Err(error) ==> error == IndexError::Engine,
    {
        proof {
            lemma_names_differ();
            lemma_entry_document_accepted(self.config(), *entry, avg_rating);
        }
        delete_term(&mut self.writer, self.fields.id, entry.id.as_str());
        let document = make_document(&self.fields, entry, avg_rating);
        match add_document(&mut self.writer, document) {
            Ok(_) => Ok(()),
            Err(_) => Err(IndexError::Engine),
        }
    }

    /// Removes the entry with the identifier, if the index has one. Searches
    /// see the change after the next `flush`.
    pub fn remove_entry_by_id(&mut self, id: &str) -> (r: Result<(), IndexError>)
        requires
            old(self).wf(),
        ensures
            final(self).wf(),
            r.is_ok(),
            final(self).config() == old(self).config(),
            final(self).committed() == old(self).committed(),
            final(self).pending() == old(self).pending().push(
                IndexOp::DeleteTerm { field: FIELD_ID, text: id@ },
            ),
    {
        proof {
            lemma_names_differ();
        }
        delete_term(&mut self.writer, self.fields.id, id);
        Ok(())
    }

    /// Commits the changes that were held back: they are applied, in their
    /// order, to the documents of the last commit, and searches see the
    /// outcome from now on.
    pub fn flush(&mut self) -> (r: Result<(), IndexError>)
        requires
            old(self).wf(),
        ensures
            final(self).wf(),
            final(self).config() == old(self).config(),
            r.is_ok() ==> final(self).committed() == applied(
                old(self).config(),
                old(self).committed(),
                old(self).pending(),
            ) && final(self).pending() == Seq::<IndexOp>::empty(),
            r matches Err(error) ==> error == IndexError::Engine,
    {
        match commit(&mut self.writer) {
            Ok(_) => Ok(()),
            Err(_) => Err(IndexError::Engine),
        }
    }

    /// The query of the engine that answers a request whose box is not
    /// upside down: it matches the documents that the request finds.
    pub fn engine_query(&self, query: &EntryIndexQuery) -> (built: tantivy::query::BooleanQuery)
        requires
            self.wf(),
            !is_upside_down(*query),
        ensures
            query_is_valid(self.config(), query_clauses(built)),
            forall|doc: Doc| #[trigger]
                query_matches(self.config(), query_clauses(built), doc) == request_matches(
                    self.config(),
                    self.parser(),
                    *query,
                    doc,
                ),
    {
        build_query(&self.fields, &self.text_query_parser, query, Ghost(self.config()))
    }

    /// Searches the committed entries for the best that the request finds:
    /// no more than `limit` of them, the highest score first. Where scores
    /// are equal the engine decides which entry comes first.
    ///
    /// A document that the engine cannot fetch, or that has no identifier,
    /// is passed over.
    pub fn search_hits(&self, query: &EntryIndexQuery, limit: usize) -> (r: Result<
        Vec<IndexedHit>,
        IndexError,
    >)
        requires
            self.wf(),
        ensures
            r matches Ok(hits) ==> is_selection_of(
                hits@,
                self.config(),
                self.parser(),
                self.committed(),
                *query,
                limit as nat,
            ),
            limit == 0 || is_upside_down(*query) ==> (r matches Ok(hits) && hits.len() == 0),
            r matches Err(error) ==> error == IndexError::Engine,
    {
        let ghost config = self.config();
        let ghost setup = self.parser();
        let ghost committed = self.committed();
        let upside_down = match &query.bbox {
            Some(bbox) => bbox.south_west().lat().to_raw() > bbox.north_east().lat().to_raw(),
            None => false,
        };
        if limit == 0 || upside_down {
            let hits: Vec<IndexedHit> = Vec::new();
            proof {
                let docs = Seq::<Doc>::empty();
                docs.to_multiset_ensures();
                vstd::multiset::lemma_multiset_empty_len(docs.to_multiset());
                assert(found_in(hits@, docs, config, setup, committed, *query));
                let wanted = committed.filter(is_wanted(config, setup, *query));
                if upside_down {
                    assert forall|doc: Doc| wanted.count(doc) == 0 by {
                        lemma_upside_down_finds_nothing(config, setup, *query, doc);
                    }
                    assert(wanted =~= Multiset::<Doc>::empty());
                }
                assert(is_best(docs, wanted, limit as nat));
                assert(are_taken_from(hits@, config, docs, Seq::<int>::empty()));
            }
            return Ok(hits);
        }
        let searcher = match open_searcher(&self.writer) {
            Ok(searcher) => searcher,
            Err(_) => {
                return Err(IndexError::Engine);
            },
        };
        let built = self.engine_query(query);
        let count = document_count(&searcher);
        let capped: usize = if limit as u64 <= count {
            limit
        } else if count == 0 {
            1
        } else {
            count as usize
        };
        let top = match search_top(&searcher, &built, self.fields.rating, capped) {
            Ok(top) => top,
            Err(_) => {
                return Err(IndexError::Engine);
            },
        };
        let ghost seen = snapshot(searcher);
        let ghost clauses = query_clauses(built);
        let ghost best = hit_documents(seen, top@);
        let mut fetched: Vec<Fetched> = Vec::new();
        let mut k: usize = 0;
        while k < top.len()
            invariant
                k <= top.len(),
                seen == snapshot(searcher),
                seen.config == config,
                is_top_selection(seen, clauses, FIELD_RATING, capped as nat, top@),
                best == hit_documents(seen, top@),
                fetched.len() == k,
                forall|i: int| 0 <= i < k ==> (#[trigger] fetched@[i]).0 == top@[i].0,
                forall|i: int|
                    0 <= i < k ==> ((#[trigger] fetched@[i]).1 matches Ok(document)
                        ==> document_values(document) == stored_values(config, best[i])),
            decreases top.len() - k,
        {
            let (rating, address) = top[k];
            proof {
                assert(top@[k as int] == (rating, address));
                assert(best[k as int] == seen.docs[address]);
            }
            fetched.push((rating, fetch_document(&searcher, address)));
            k = k + 1;
        }
        let hits = hits_from_documents(&self.fields, &fetched);
        let ghost places = lemma_hits_taken(
            self.fields,
            fetched@,
            best,
            fetched.len() as int,
        );
        let ghost docs = picked(best, places);
        proof {
            assert(fetched@.take(fetched.len() as int) =~= fetched@);
            assert(best.take(best.len() as int) =~= best);
            assert(hit_views(hits@).len() == hits.len());
            assert forall|i: int| 0 <= i < hits.len() implies hit_is_of(
                #[trigger] hits@[i],
                config,
                best[places[i]],
            ) && query_matches(config, clauses, best[places[i]]) && top@[places[i]].0 == Some(
                hits@[i].rating,
            ) by {
                let at = places[i];
                assert(hit_views(hits@)[i] == hits@[i]@);
                assert(hit_of(self.fields, fetched@[at].0, fetched@[at].1) == Some(hits@[i]@));
                assert(fetched@[at].0 == top@[at].0);
                assert(top@[at].0 == first_unsigned(best[at], FIELD_RATING));
            }
            assert forall|i: int, j: int| 0 <= i < j < hits.len() implies (
            #[trigger] hits@[i]).rating >= (#[trigger] hits@[j]).rating by {
                assert(places[i] < places[j]);
                assert(top@[places[i]].0 == Some(hits@[i].rating));
                assert(top@[places[j]].0 == Some(hits@[j].rating));
            }
            assert forall|i: int| 0 <= i < hits.len() implies hit_is_of(
                #[trigger] hits@[i],
                config,
                docs[i],
            ) && request_matches(config, setup, *query, docs[i]) by {
                assert(docs[i] == best[places[i]]);
                assert(hit_is_of(hits@[i], config, best[places[i]]));
            }
        }
        proof {
            let wanted = committed.filter(|doc: Doc| request_matches(config, setup, *query, doc));
            let matching = seen.live.filter(|doc: Doc| query_matches(seen.config, clauses, doc));
            assert(matching =~= wanted);
            assert(found_in(hits@, docs, config, setup, committed, *query));
            let named = committed.filter(is_wanted(config, setup, *query));
            assert(matching =~= named);
            lemma_filter_len(seen.live, |doc: Doc| query_matches(seen.config, clauses, doc));
            assert(best.len() == top@.len());
            assert forall|i: int, j: int| 0 <= i < j < best.len() implies (first_unsigned(
                #[trigger] best[i],
                FIELD_RATING,
            ) matches Some(a) && first_unsigned(#[trigger] best[j], FIELD_RATING) matches Some(b)
                ==> a >= b) by {
                assert(top@[i].0 == first_unsigned(best[i], FIELD_RATING));
                assert(top@[j].0 == first_unsigned(best[j], FIELD_RATING));
            }
            assert forall|doc: Doc, i: int|
                best.to_multiset().count(doc) < #[trigger] named.count(doc) && 0 <= i
                    < best.len() implies (first_unsigned(doc, FIELD_RATING) matches Some(a)
                && first_unsigned(#[trigger] best[i], FIELD_RATING) matches Some(b) ==> a <= b) by {
                assert(top@[i].0 == first_unsigned(best[i], FIELD_RATING));
                assert(best.to_multiset().count(doc) < matching.count(doc));
            }
            assert(is_best(best, named, limit as nat));
            assert(are_taken_from(hits@, config, best, places));
        }
        Ok(hits)
    }

    /// Searches the committed entries for the best that the request finds,
    /// and asks the repository for each of them: the entries that the
    /// repository hands out, each with its score, the highest score first.
    ///
    /// The repository is asked for the entry of each hit of the search, in
    /// the order of the hits, with the identifier, the categories and the
    /// tags of the hit; which entry it hands out, if any, is up to the
    /// repository. An entry that it does not hand out is passed over. So
    /// the entries found stand for hits of the search, in their order, and
    /// each has the score of its hit. With a limit of zero, and with a box
    /// that is upside down, nothing is found and neither the engine nor the
    /// repository is asked.
    pub fn query_entries<G: EntryGateway>(
        &self,
        entries: &G,
        query: &EntryIndexQuery,
        limit: usize,
    ) -> (r: Result<Vec<(Entry, AvgRatingValue)>, IndexError>)
        requires
            self.wf(),
        ensures
            r matches Ok(found) ==> {
                &&& exists|hits: Seq<IndexedHit>, places: Seq<int>|
                    is_selection_of(
                        hits,
                        self.config(),
                        self.parser(),
                        self.committed(),
                        *query,
                        limit as nat,
                    ) && #[trigger] are_scored_by(found@, hits, places)
                &&& found.len() <= limit
                &&& forall|i: int| 0 <= i < found.len() ==> (#[trigger] found[i]).1.is_valid()
                &&& forall|i: int, j: int|
                    0 <= i < j < found.len() ==> (#[trigger] found[i]).1.raw >= (
                    #[trigger] found[j]).1.raw
            },
            limit == 0 || is_upside_down(*query) ==> (r matches Ok(found) && found.len() == 0),
            r matches Err(error) ==> error == IndexError::Engine,
    {
        let hits = match self.search_hits(query, limit) {
            Ok(hits) => hits,
            Err(error) => {
                return Err(error);
            },
        };
        let mut answers: Vec<Answer> = Vec::new();
        let mut k: usize = 0;
        while k < hits.len()
            invariant
                k <= hits.len(),
                answers.len() == k,
                forall|i: int| 0 <= i < k ==> (#[trigger] answers@[i]).1 == hits@[i].rating,
            decreases hits.len() - k,
        {
            let hit = &hits[k];
            let answer = entries.get_entry_with_relations(
                hit.id.as_str(),
                &hit.categories,
                &hit.tags,
            );
            answers.push((answer, hit.rating));
            k = k + 1;
        }
        let ghost answered = answers@;
        let found = resolved_entries(answers);
        let ghost places = lemma_entries_taken(answered, answered.len() as int);
        let r: Result<Vec<(Entry, AvgRatingValue)>, IndexError> = Ok(found);
        proof {
            let entries_found = r->Ok_0;
            assert(answered.take(answered.len() as int) =~= answered);
            assert forall|i: int| 0 <= i < entries_found.len() implies (
            #[trigger] entries_found[i]).1 == rating_of_hit(hits@[places[i]]) by {
                assert(resolved_of(answered[places[i]].0, answered[places[i]].1) == Some(
                    entries_found@[i],
                ));
            }
            assert(are_scored_by(entries_found@, hits@, places));
            assert forall|i: int| 0 <= i < entries_found.len() implies (
            #[trigger] entries_found[i]).1.is_valid() by {
                lemma_dequantized_range(
                    hits@[places[i]].rating as int,
                    AVG_RATING_RAW_MIN as int,
                    AVG_RATING_RAW_MAX as int,
                );
            }
            assert forall|i: int, j: int| 0 <= i < j < entries_found.len() implies (
            #[trigger] entries_found[i]).1.raw >= (#[trigger] entries_found[j]).1.raw by {
                assert(places[i] < places[j]);
                assert(hits@[places[i]].rating >= hits@[places[j]].rating);
                lemma_dequantized_range(
                    hits@[places[i]].rating as int,
                    AVG_RATING_RAW_MIN as int,
                    AVG_RATING_RAW_MAX as int,
                );
                lemma_dequantized_range(
                    hits@[places[j]].rating as int,
                    AVG_RATING_RAW_MIN as int,
                    AVG_RATING_RAW_MAX as int,
                );
                crate::codec::lemma_dequantized_monotonic(
                    hits@[places[j]].rating as int,
                    hits@[places[i]].rating as int,
                    AVG_RATING_RAW_MIN as int,
                    AVG_RATING_RAW_MAX as int,
                );
            }
        }
        r
    }
}

/// The handles of the fields of the schema.
fn entry_fields_of() -> (fields: TantivyEntryFields)
    ensures
        fields == entry_fields(),
{
    TantivyEntryFields {
        id: FIELD_ID,
        title: FIELD_TITLE,
        description: FIELD_DESCRIPTION,
        category: FIELD_CATEGORY,
        lat: crate::index::schema::FIELD_LAT,
        lng: crate::index::schema::FIELD_LNG,
        tag: FIELD_TAG,
        rating: FIELD_RATING,
    }
}

} // verus!
