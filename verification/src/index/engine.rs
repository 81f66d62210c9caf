//! The full-text engine behind the index, as far as this crate calls it.
//!
//! Nothing in this file is proved. Each function calls the engine as its
//! comment says, and its contract says, in the terms of the model, what the
//! engine is relied on to do. The spec functions without a body give names
//! to what the values of the engine hold and to what the engine makes of a
//! text.

use vstd::prelude::*;
use vstd::multiset::Multiset;
use std::ops::Bound;
use tantivy::query::{BooleanQuery, Query, RangeQuery, TermQuery};
use tantivy::schema::{Field, IndexRecordOption, Value};
use tantivy::tokenizer::{LowerCaser, RawTokenizer, TextAnalyzer};
use tantivy::Term;
use crate::index::model::{
    all_texts, applied, first_text, is_flat, is_top_selection, query_is_valid, stored_values,
    Analyzer, Clause, Doc, FieldContent, FieldKind, FieldSpec, FieldValue, Hit, IndexOp,
    IndexState, Leaf, Node, Occur, ParserSetup, RangeBound, RecordOption, Snapshot, WriterState,
};

verus! {

#[verifier::external_type_specification]
#[verifier::external_body]
pub struct ExSchemaBuilder(tantivy::schema::SchemaBuilder);

#[verifier::external_type_specification]
#[verifier::external_body]
pub struct ExIndex(tantivy::Index);

/// The writer of an index. The writer of the engine is generic over the
/// kind of document, bounded by a trait of the engine, which Verus does not
/// take in a declaration; this struct holds the writer for the engine's own
/// documents.
#[verifier::external_body]
pub struct Writer {
    inner: tantivy::IndexWriter<tantivy::TantivyDocument>,
}

#[verifier::external_type_specification]
#[verifier::external_body]
pub struct ExTantivyDocument(tantivy::TantivyDocument);

#[verifier::external_type_specification]
#[verifier::external_body]
pub struct ExQueryParser(tantivy::query::QueryParser);

#[verifier::external_type_specification]
#[verifier::external_body]
pub struct ExBooleanQuery(tantivy::query::BooleanQuery);

#[verifier::external_type_specification]
#[verifier::external_body]
pub struct ExSearcher(tantivy::Searcher);

#[verifier::external_type_specification]
#[verifier::external_body]
pub struct ExTantivyError(tantivy::TantivyError);

#[verifier::external_type_specification]
#[verifier::external_body]
pub struct ExQueryParserError(tantivy::query::QueryParserError);

/// The fields that were added to the schema builder, in their order.
pub uninterp spec fn builder_fields(builder: tantivy::schema::SchemaBuilder) -> Seq<FieldSpec>;

/// What the index holds.
pub uninterp spec fn index_state(index: tantivy::Index) -> IndexState;

/// What the writer holds.
pub uninterp spec fn writer_state(writer: Writer) -> WriterState;

/// The field values of the document, in the order in which they were added.
pub uninterp spec fn document_values(document: tantivy::TantivyDocument) -> Doc;

/// How the parser was set up.
pub uninterp spec fn parser_setup(parser: tantivy::query::QueryParser) -> ParserSetup;

/// The clauses of the boolean query.
pub uninterp spec fn query_clauses(query: tantivy::query::BooleanQuery) -> Seq<Clause>;

/// What the searcher sees.
pub uninterp spec fn snapshot(searcher: tantivy::Searcher) -> Snapshot;

/// The text that the engine's `LowerCaser` makes of `text`: each character
/// put into lower case by itself.
pub uninterp spec fn engine_lowercased(text: Seq<char>) -> Seq<char>;

/// Whether a parser with this setup takes `text` for a query.
pub uninterp spec fn text_is_query(setup: ParserSetup, text: Seq<char>) -> bool;

/// Whether the query that a parser with this setup makes of `text` matches
/// the document.
pub uninterp spec fn text_query_matches(setup: ParserSetup, text: Seq<char>, doc: Doc) -> bool;

/// The names under which the engine registers analyzers by itself.
pub open spec fn is_builtin_tokenizer(name: Seq<char>) -> bool {
    name == "raw"@ || name == "default"@ || name == "en_stem"@ || name == "whitespace"@
}

/// Whether the engine takes the text for the name of a field: it is not
/// empty and does not start with a hyphen.
pub open spec fn is_field_name(name: Seq<char>) -> bool {
    name.len() > 0 && name[0] != '-'
}

/// Whether the schema under construction has a field of this name.
pub open spec fn has_field_named(fields: Seq<FieldSpec>, name: Seq<char>) -> bool {
    exists|i: int| 0 <= i < fields.len() && (#[trigger] fields[i]).name == name
}

/// `Schema::builder`: a schema builder without fields.
#[verifier::external_body]
pub(crate) fn new_schema_builder() -> (builder: tantivy::schema::SchemaBuilder)
    ensures
        builder_fields(builder) == Seq::<FieldSpec>::empty(),
{
    tantivy::schema::Schema::builder()
}

/// `SchemaBuilder::add_text_field` for a field that is indexed, and stored
/// where `stored` says so: the field is appended, and its handle holds its
/// position. The engine panics where the name is taken or is no name of a
/// field.
#[verifier::external_body]
pub(crate) fn add_text_field(
    builder: &mut tantivy::schema::SchemaBuilder,
    name: &str,
    tokenizer: &str,
    record: RecordOption,
    stored: bool,
) -> (field: u32)
    requires
        is_field_name(name@),
        !has_field_named(builder_fields(*old(builder)), name@),
        builder_fields(*old(builder)).len() < u32::MAX,
    ensures
        field == builder_fields(*old(builder)).len(),
        builder_fields(*final(builder)) == builder_fields(*old(builder)).push(
            (FieldSpec {
                name: name@,
                kind: FieldKind::Text { tokenizer: tokenizer@, record },
                indexed: true,
                stored,
                fast: false,
            }),
        ),
{
    let option = match record {
        RecordOption::Basic => IndexRecordOption::Basic,
        RecordOption::WithFreqs => IndexRecordOption::WithFreqs,
        RecordOption::WithFreqsAndPositions => IndexRecordOption::WithFreqsAndPositions,
    };
    let indexing = tantivy::schema::TextFieldIndexing::default().set_tokenizer(tokenizer).set_index_option(option);
    let options = tantivy::schema::TextOptions::default().set_indexing_options(indexing);
    builder.add_text_field(name, if stored { options.set_stored() } else { options }).field_id()
}

/// `SchemaBuilder::add_i64_field` for a field that is indexed and stored
/// and not fast. The engine panics where the name is taken or is no name of
/// a field.
#[verifier::external_body]
pub(crate) fn add_indexed_stored_i64_field(
    builder: &mut tantivy::schema::SchemaBuilder,
    name: &str,
) -> (field: u32)
    requires
        is_field_name(name@),
        !has_field_named(builder_fields(*old(builder)), name@),
        builder_fields(*old(builder)).len() < u32::MAX,
    ensures
        field == builder_fields(*old(builder)).len(),
        builder_fields(*final(builder)) == builder_fields(*old(builder)).push(
            (FieldSpec {
                name: name@,
                kind: FieldKind::Signed,
                indexed: true,
                stored: true,
                fast: false,
            }),
        ),
{
    builder.add_i64_field(name, tantivy::schema::NumericOptions::default().set_indexed().set_stored()).field_id()
}

/// `SchemaBuilder::add_u64_field` for a field that is stored and fast and
/// not indexed. The engine panics where the name is taken or is no name of
/// a field.
#[verifier::external_body]
pub(crate) fn add_stored_fast_u64_field(
    builder: &mut tantivy::schema::SchemaBuilder,
    name: &str,
) -> (field: u32)
    requires
        is_field_name(name@),
        !has_field_named(builder_fields(*old(builder)), name@),
        builder_fields(*old(builder)).len() < u32::MAX,
    ensures
        field == builder_fields(*old(builder)).len(),
        builder_fields(*final(builder)) == builder_fields(*old(builder)).push(
            (FieldSpec {
                name: name@,
                kind: FieldKind::Unsigned,
                indexed: false,
                stored: true,
                fast: true,
            }),
        ),
{
    builder.add_u64_field(name, tantivy::schema::NumericOptions::default().set_stored().set_fast()).field_id()
}

/// `IndexBuilder::create_in_ram` with the schema of the builder: an index in
/// memory that holds no document. The engine registers the analyzers
/// `raw`, which makes the text itself the one term, and `default`, and at
/// most two more under the names `en_stem` and `whitespace`.
#[verifier::external_body]
pub(crate) fn create_index_in_ram(builder: tantivy::schema::SchemaBuilder) -> (r: Result<
    tantivy::Index,
    tantivy::TantivyError,
>)
    ensures
        r matches Ok(index) ==> {
            &&& index_state(index).config.fields == builder_fields(builder)
            &&& index_state(index).docs == Multiset::<Doc>::empty()
            &&& index_state(index).config.tokenizers.contains_key("raw"@)
            &&& index_state(index).config.tokenizers["raw"@] == Analyzer::Whole(
                |text: Seq<char>| text,
            )
            &&& index_state(index).config.tokenizers.contains_key("default"@)
            &&& index_state(index).config.tokenizers["default"@] == Analyzer::Other
            &&& forall|name: Seq<char>| #[trigger]
                index_state(index).config.tokenizers.contains_key(name) ==> is_builtin_tokenizer(
                    name,
                )
        },
{
    tantivy::Index::builder().schema(builder.build()).create_in_ram()
}

/// `TokenizerManager::get` on the analyzers of the index: whether one is
/// registered under the name.
#[verifier::external_body]
pub(crate) fn has_tokenizer(index: &tantivy::Index, name: &str) -> (b: bool)
    ensures
        b == index_state(*index).config.tokenizers.contains_key(name@),
{
    index.tokenizers().get(name).is_some()
}

/// `TokenizerManager::register` with a `RawTokenizer` followed by a
/// `LowerCaser`: under the name stands, from now on, the analyzer that makes
/// of a text the one term `engine_lowercased(text)`.
#[verifier::external_body]
pub(crate) fn register_lowercased_raw(index: &mut tantivy::Index, name: &str)
    ensures
        index_state(*final(index)).docs == index_state(*old(index)).docs,
        index_state(*final(index)).config.fields == index_state(*old(index)).config.fields,
        index_state(*final(index)).config.tokenizers == index_state(
            *old(index),
        ).config.tokenizers.insert(
            name@,
            Analyzer::Whole(|text: Seq<char>| engine_lowercased(text)),
        ),
{
    index.tokenizers().register(name, TextAnalyzer::builder(RawTokenizer::default()).filter(LowerCaser).build());
}

/// `QueryParser::for_index` and `Index::writer`: a parser for queries on the
/// index that looks in the fields `defaults` where the text of a query names
/// no field, and a writer on the index, with the documents of the index
/// committed and no operation pending.
///
/// A parser of the engine looks up the analyzers of its index whenever it
/// parses. The index is given up here, so that no analyzer is registered
/// once the parser is there: what the parser answers stays what its setup
/// says.
#[verifier::external_body]
pub(crate) fn open_parser_and_writer(
    index: tantivy::Index,
    defaults: Vec<u32>,
    memory_budget: usize,
) -> (r: Result<(tantivy::query::QueryParser, Writer), tantivy::TantivyError>)
    requires
        forall|i: int|
            0 <= i < defaults@.len() ==> index_state(index).config.analyzer_of(
                #[trigger] defaults@[i],
            ).is_some(),
    ensures
        r matches Ok(opened) ==> parser_setup(opened.0) == (ParserSetup {
            config: index_state(index).config,
            defaults: defaults@,
        }) && writer_state(opened.1) == (WriterState {
            config: index_state(index).config,
            committed: index_state(index).docs,
            pending: Seq::<IndexOp>::empty(),
        }),
{
    let parser = tantivy::query::QueryParser::for_index(&index, defaults.into_iter().map(Field::from_field_id).collect());
    Ok((parser, Writer { inner: index.writer(memory_budget)? }))
}

/// `IndexWriter::delete_term` with a term of a text field: the deletion is
/// held back until the next commit. The engine panics on a field that the
/// schema does not have, and does nothing on one that is not indexed.
#[verifier::external_body]
pub(crate) fn delete_term(
    writer: &mut Writer,
    field: u32,
    text: &str,
)
    requires
        writer_state(*old(writer)).config.is_term_field(field),
    ensures
        writer_state(*final(writer)) == (WriterState {
            pending: writer_state(*old(writer)).pending.push(
                IndexOp::DeleteTerm { field, text: text@ },
            ),
            ..writer_state(*old(writer))
        }),
{
    writer.inner.delete_term(Term::from_field_text(Field::from_field_id(field), text));
}

/// `TantivyDocument::default`: a document without values.
#[verifier::external_body]
pub(crate) fn new_document() -> (document: tantivy::TantivyDocument)
    ensures
        document_values(document) == Seq::<FieldValue>::empty(),
{
    tantivy::TantivyDocument::default()
}

/// `TantivyDocument::add_text`: the text is appended as a value of the field.
/// The engine panics on a handle above `u16::MAX`.
#[verifier::external_body]
pub(crate) fn add_text(document: &mut tantivy::TantivyDocument, field: u32, text: &str)
    requires
        field <= u16::MAX,
    ensures
        document_values(*final(document)) == document_values(*old(document)).push(
            (FieldValue { field, content: FieldContent::Text(text@) }),
        ),
{
    document.add_text(Field::from_field_id(field), text);
}

/// `TantivyDocument::add_i64`: the number is appended as a value of the
/// field. The engine panics on a handle above `u16::MAX`.
#[verifier::external_body]
pub(crate) fn add_i64(document: &mut tantivy::TantivyDocument, field: u32, value: i64)
    requires
        field <= u16::MAX,
    ensures
        document_values(*final(document)) == document_values(*old(document)).push(
            (FieldValue { field, content: FieldContent::Signed(value) }),
        ),
{
    document.add_i64(Field::from_field_id(field), value);
}

/// `TantivyDocument::add_u64`: the number is appended as a value of the
/// field. The engine panics on a handle above `u16::MAX`.
#[verifier::external_body]
pub(crate) fn add_u64(document: &mut tantivy::TantivyDocument, field: u32, value: u64)
    requires
        field <= u16::MAX,
    ensures
        document_values(*final(document)) == document_values(*old(document)).push(
            (FieldValue { field, content: FieldContent::Unsigned(value) }),
        ),
{
    document.add_u64(Field::from_field_id(field), value);
}

/// `IndexWriter::add_document`: the document is held back until the next
/// commit. The committed documents stay as they are. Where the engine
/// reports an error, nothing is said of the pending operations.
#[verifier::external_body]
pub(crate) fn add_document(
    writer: &mut Writer,
    document: tantivy::TantivyDocument,
) -> (r: Result<(), tantivy::TantivyError>)
    requires
        writer_state(*old(writer)).config.accepts(document_values(document)),
    ensures
        writer_state(*final(writer)).config == writer_state(*old(writer)).config,
        writer_state(*final(writer)).committed == writer_state(*old(writer)).committed,
        r.is_ok() ==> writer_state(*final(writer)) == (WriterState {
            pending: writer_state(*old(writer)).pending.push(
                IndexOp::Add(document_values(document)),
            ),
            ..writer_state(*old(writer))
        }),
{
    writer.inner.add_document(document).map(|_| ())
}

/// `IndexWriter::commit`: the pending operations are applied, in their
/// order, to the committed documents, and none is pending any more. Where
/// the engine reports an error, nothing is said of the documents and
/// operations of the writer.
#[verifier::external_body]
pub(crate) fn commit(writer: &mut Writer) -> (r: Result<
    (),
    tantivy::TantivyError,
>)
    ensures
        writer_state(*final(writer)).config == writer_state(*old(writer)).config,
        r.is_ok() ==> writer_state(*final(writer)) == (WriterState {
            config: writer_state(*old(writer)).config,
            committed: applied(
                writer_state(*old(writer)).config,
                writer_state(*old(writer)).committed,
                writer_state(*old(writer)).pending,
            ),
            pending: Seq::<IndexOp>::empty(),
        }),
{
    writer.inner.commit().map(|_| ())
}

/// `IndexReader::searcher` of a reader that was made for the index of the
/// writer at this moment: the searcher sees the committed documents.
#[verifier::external_body]
pub(crate) fn open_searcher(writer: &Writer) -> (r: Result<
    tantivy::Searcher,
    tantivy::TantivyError,
>)
    ensures
        r matches Ok(searcher) ==> snapshot(searcher).config == writer_state(*writer).config
            && snapshot(searcher).live == writer_state(*writer).committed,
{
    let reader = writer.inner.index().reader_builder().reload_policy(tantivy::ReloadPolicy::Manual).try_into()?;
    Ok(reader.searcher())
}

/// `Searcher::num_docs`: how many documents the searcher sees.
#[verifier::external_body]
pub(crate) fn document_count(searcher: &tantivy::Searcher) -> (n: u64)
    ensures
        n == snapshot(*searcher).live.len(),
{
    searcher.num_docs()
}

/// `BooleanQuery::new` without clauses.
#[verifier::external_body]
pub(crate) fn empty_query() -> (query: tantivy::query::BooleanQuery)
    ensures
        query_clauses(query) == Seq::<Clause>::empty(),
{
    BooleanQuery::new(Vec::new())
}

/// `BooleanQuery::new` with the clauses of `query` and one more: a
/// `RangeQuery` on the signed integers of `field` between the two ends.
#[verifier::external_body]
pub(crate) fn with_range(
    query: &tantivy::query::BooleanQuery,
    occur: Occur,
    field: u32,
    lower: RangeBound,
    upper: RangeBound,
) -> (extended: tantivy::query::BooleanQuery)
    ensures
        query_clauses(extended) == query_clauses(*query).push(
            (Clause { occur, node: Node::Leaf(Leaf::Range { field, lower, upper }) }),
        ),
{
    let end = |bound: RangeBound| match bound {
        RangeBound::Included(value) => Bound::Included(Term::from_field_i64(Field::from_field_id(field), value)),
        RangeBound::Excluded(value) => Bound::Excluded(Term::from_field_i64(Field::from_field_id(field), value)),
    };
    let sign = match occur {
        Occur::Must => tantivy::query::Occur::Must,
        Occur::Should => tantivy::query::Occur::Should,
        Occur::MustNot => tantivy::query::Occur::MustNot,
    };
    let mut clauses: Vec<(tantivy::query::Occur, Box<dyn Query>)> = query.clauses().iter().map(|(occur, sub)| (*occur, sub.box_clone())).collect();
    clauses.push((sign, Box::new(RangeQuery::new(end(lower), end(upper)))));
    BooleanQuery::new(clauses)
}

/// `BooleanQuery::new` with the clauses of `query` and one more: a
/// `TermQuery` for the term `text` of `field`.
#[verifier::external_body]
pub(crate) fn with_term(
    query: &tantivy::query::BooleanQuery,
    occur: Occur,
    field: u32,
    text: &str,
) -> (extended: tantivy::query::BooleanQuery)
    ensures
        query_clauses(extended) == query_clauses(*query).push(
            (Clause { occur, node: Node::Leaf(Leaf::Term { field, text: text@ }) }),
        ),
{
    let term = Term::from_field_text(Field::from_field_id(field), text);
    let sign = match occur {
        Occur::Must => tantivy::query::Occur::Must,
        Occur::Should => tantivy::query::Occur::Should,
        Occur::MustNot => tantivy::query::Occur::MustNot,
    };
    let mut clauses: Vec<(tantivy::query::Occur, Box<dyn Query>)> = query.clauses().iter().map(|(occur, sub)| (*occur, sub.box_clone())).collect();
    clauses.push((sign, Box::new(TermQuery::new(term, IndexRecordOption::Basic))));
    BooleanQuery::new(clauses)
}

/// `BooleanQuery::new` with the clauses of `query` and one more: the boolean
/// query `group`, whose clauses are leaves, which the documents must match.
#[verifier::external_body]
pub(crate) fn with_must_group(
    query: &tantivy::query::BooleanQuery,
    group: tantivy::query::BooleanQuery,
) -> (extended: tantivy::query::BooleanQuery)
    requires
        is_flat(query_clauses(group)),
    ensures
        query_clauses(extended) == query_clauses(*query).push(
            (Clause { occur: Occur::Must, node: Node::Group(query_clauses(group)) }),
        ),
{
    let mut clauses: Vec<(tantivy::query::Occur, Box<dyn Query>)> = query.clauses().iter().map(|(occur, sub)| (*occur, sub.box_clone())).collect();
    clauses.push((tantivy::query::Occur::Must, Box::new(group)));
    BooleanQuery::new(clauses)
}

/// `QueryParser::parse_query`, and `BooleanQuery::new` with the clauses of
/// `query` and one more: the parsed query, which the documents must match.
/// The parser decides which texts are queries.
#[verifier::external_body]
pub(crate) fn with_must_text(
    query: &tantivy::query::BooleanQuery,
    parser: &tantivy::query::QueryParser,
    text: &str,
) -> (r: Result<tantivy::query::BooleanQuery, tantivy::query::QueryParserError>)
    ensures
        r.is_ok() == text_is_query(parser_setup(*parser), text@),
        r matches Ok(extended) ==> query_clauses(extended) == query_clauses(*query).push(
            (Clause {
                occur: Occur::Must,
                node: Node::Leaf(
                    Leaf::Parsed {
                        accepts: |doc: Doc|
                            text_query_matches(parser_setup(*parser), text@, doc),
                    },
                ),
            }),
        ),
{
    let parsed = parser.parse_query(text)?;
    let mut clauses: Vec<(tantivy::query::Occur, Box<dyn Query>)> = query.clauses().iter().map(|(occur, sub)| (*occur, sub.box_clone())).collect();
    clauses.push((tantivy::query::Occur::Must, parsed));
    Ok(BooleanQuery::new(clauses))
}

/// `Searcher::search` with a `TopDocs` collector that orders by the fast
/// field `order_by`, highest value first: the `limit` best of the documents
/// that match the query. The engine panics on a limit of zero and reserves
/// memory for twice the limit.
#[verifier::external_body]
pub(crate) fn search_top(
    searcher: &tantivy::Searcher,
    query: &tantivy::query::BooleanQuery,
    order_by: u32,
    limit: usize,
) -> (r: Result<Vec<Hit>, tantivy::TantivyError>)
    requires
        query_is_valid(snapshot(*searcher).config, query_clauses(*query)),
        snapshot(*searcher).config.is_unsigned_fast(order_by),
        1 <= limit,
        limit <= snapshot(*searcher).live.len() || limit == 1,
    ensures
        r matches Ok(hits) ==> is_top_selection(
            snapshot(*searcher),
            query_clauses(*query),
            order_by,
            limit as nat,
            hits@,
        ),
{
    let name = searcher.schema().get_field_name(Field::from_field_id(order_by));
    let collector = tantivy::collector::TopDocs::with_limit(limit).order_by_fast_field::<u64>(name, tantivy::Order::Desc);
    let found = searcher.search(query, &collector)?;
    Ok(found.into_iter().map(|(value, address)| (value, (address.segment_ord, address.doc_id))).collect())
}

/// `Searcher::doc`: the stored values of the document at the address. The
/// engine panics on an address that the searcher does not know.
#[verifier::external_body]
pub(crate) fn fetch_document(searcher: &tantivy::Searcher, address: (u32, u32)) -> (r: Result<
    tantivy::TantivyDocument,
    tantivy::TantivyError,
>)
    requires
        snapshot(*searcher).docs.dom().contains(address),
    ensures
        r matches Ok(document) ==> document_values(document) == stored_values(
            snapshot(*searcher).config,
            snapshot(*searcher).docs[address],
        ),
{
    searcher.doc(tantivy::DocAddress::new(address.0, address.1))
}

/// `TantivyDocument::get_first`: the first value of the field, where it is
/// a text.
#[verifier::external_body]
pub(crate) fn first_text_of(document: &tantivy::TantivyDocument, field: u32) -> (text: Option<String>)
    ensures
        match text {
            Some(found) => first_text(document_values(*document), field) == Some(found@),
            None => first_text(document_values(*document), field).is_none(),
        },
{
    document.get_first(Field::from_field_id(field)).and_then(|value| value.as_str().map(|text| text.to_string()))
}

/// `TantivyDocument::get_all`: the values of the field that are texts, in
/// their order.
#[verifier::external_body]
pub(crate) fn all_texts_of(document: &tantivy::TantivyDocument, field: u32) -> (texts: Vec<String>)
    ensures
        texts@.len() == all_texts(document_values(*document), field).len(),
        forall|i: int|
            0 <= i < texts@.len() ==> (#[trigger] texts@[i])@ == all_texts(
                document_values(*document),
                field,
            )[i],
{
    document.get_all(Field::from_field_id(field)).filter_map(|value| value.as_str().map(|text| text.to_string())).collect()
}

} // verus!
