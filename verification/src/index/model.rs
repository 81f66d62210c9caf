//! The model of the full-text engine that the contracts of this crate speak
//! of: documents as lists of field values, the configuration of an index,
//! buffered operations and what a commit makes of them, and queries with the
//! documents that they match.
//!
//! Everything here is specification. It says how the engine behaves as far
//! as this crate relies on it.

use vstd::prelude::*;
use vstd::multiset::Multiset;
use vstd::utf8::encode_utf8;

verus! {

/// The longest term, in bytes of UTF-8, that the engine takes into an index.
/// A longer term is left out when a document is indexed.
pub const MAX_TERM_BYTES: usize = 65530;

/// What a field holds in a document.
pub enum FieldContent {
    Text(Seq<char>),
    Signed(i64),
    Unsigned(u64),
}

/// One value of one field in a document.
pub struct FieldValue {
    pub field: u32,
    pub content: FieldContent,
}

/// A document: the values of its fields in the order in which they were
/// added. A field can have any number of values.
pub type Doc = Seq<FieldValue>;

/// How a text is made into terms.
pub enum Analyzer {
    /// The text as a whole gives one term: the function says which.
    Whole(spec_fn(Seq<char>) -> Seq<char>),
    /// The text is cut into several terms. This crate looks for no single
    /// term in a field that is analyzed so.
    Other,
}

/// How much the index records for each term of a text field.
#[derive(Clone, Copy, Debug, PartialEq, Eq, Structural)]
pub enum RecordOption {
    Basic,
    WithFreqs,
    WithFreqsAndPositions,
}

/// The type of the values of a field.
pub enum FieldKind {
    /// Text that is cut into terms by the analyzer registered under the name
    /// `tokenizer`.
    Text { tokenizer: Seq<char>, record: RecordOption },
    Signed,
    Unsigned,
}

/// A field of a schema.
pub struct FieldSpec {
    pub name: Seq<char>,
    pub kind: FieldKind,
    /// Queries can find documents by the values of the field.
    pub indexed: bool,
    /// The values of the field are handed out with a document that was found.
    pub stored: bool,
    /// Found documents can be ordered by the value of the field.
    pub fast: bool,
}

/// The configuration of an index: the fields of its schema, each known by
/// its position, and the analyzers registered by name.
pub struct IndexConfig {
    pub fields: Seq<FieldSpec>,
    pub tokenizers: Map<Seq<char>, Analyzer>,
}

impl IndexConfig {
    /// Whether terms of `field` can be looked for: it is an indexed text
    /// field whose analyzer makes one term of a text.
    pub open spec fn is_term_field(self, field: u32) -> bool {
        self.analyzer_of(field) matches Some(Analyzer::Whole(_))
    }

    /// The analyzer of an indexed text field, if `field` is one and its
    /// analyzer is registered.
    pub open spec fn analyzer_of(self, field: u32) -> Option<Analyzer> {
        if field < self.fields.len() && self.fields[field as int].indexed {
            match self.fields[field as int].kind {
                FieldKind::Text { tokenizer, record } => if self.tokenizers.contains_key(
                    tokenizer,
                ) {
                    Some(self.tokenizers[tokenizer])
                } else {
                    None
                },
                _ => None,
            }
        } else {
            None
        }
    }

    /// Whether `field` is an indexed field of signed integers.
    pub open spec fn is_signed_indexed(self, field: u32) -> bool {
        field < self.fields.len() && self.fields[field as int].indexed
            && self.fields[field as int].kind is Signed
    }

    /// Whether `field` is a fast field of unsigned integers.
    pub open spec fn is_unsigned_fast(self, field: u32) -> bool {
        field < self.fields.len() && self.fields[field as int].fast
            && self.fields[field as int].kind is Unsigned
    }

    /// Whether the value fits the schema: its field exists and holds values
    /// of this type, and the analyzer of a text field is registered.
    pub open spec fn accepts_value(self, value: FieldValue) -> bool {
        &&& value.field < self.fields.len()
        &&& match (self.fields[value.field as int].kind, value.content) {
            (FieldKind::Text { tokenizer, record }, FieldContent::Text(_)) => {
                self.fields[value.field as int].indexed ==> self.tokenizers.contains_key(
                    tokenizer,
                )
            },
            (FieldKind::Signed, FieldContent::Signed(_)) => true,
            (FieldKind::Unsigned, FieldContent::Unsigned(_)) => true,
            _ => false,
        }
    }

    /// Whether every value of the document fits the schema.
    pub open spec fn accepts(self, doc: Doc) -> bool {
        forall|i: int| 0 <= i < doc.len() ==> self.accepts_value(#[trigger] doc[i])
    }
}

/// Whether the value is a text of the field that gives the term when the
/// function is applied to it.
pub open spec fn gives_term(
    value: FieldValue,
    field: u32,
    term_of: spec_fn(Seq<char>) -> Seq<char>,
    term: Seq<char>,
) -> bool {
    value.field == field && (value.content matches FieldContent::Text(text) && term_of(text)
        == term)
}

/// Whether the index finds the document under the term `term` of the field
/// `field`: the field is an indexed text field whose analyzer makes one
/// term of a text, it makes the term of one of the texts that the document
/// has in the field, and the term is not too long to be indexed.
pub open spec fn carries_term(
    config: IndexConfig,
    doc: Doc,
    field: u32,
    term: Seq<char>,
) -> bool {
    &&& config.analyzer_of(field) matches Some(Analyzer::Whole(term_of))
    &&& encode_utf8(term).len() <= MAX_TERM_BYTES
    &&& exists|i: int| 0 <= i < doc.len() && gives_term(#[trigger] doc[i], field, term_of, term)
}

/// An end of a range of signed integers.
#[derive(Clone, Copy, Debug, PartialEq, Eq, Structural)]
pub enum RangeBound {
    Included(i64),
    Excluded(i64),
}

/// The number that the end of a range is given by.
pub open spec fn bound_value(bound: RangeBound) -> i64 {
    match bound {
        RangeBound::Included(b) => b,
        RangeBound::Excluded(b) => b,
    }
}

/// Whether `value` is not below the lower end `bound`.
pub open spec fn above(bound: RangeBound, value: i64) -> bool {
    match bound {
        RangeBound::Included(b) => b <= value,
        RangeBound::Excluded(b) => b < value,
    }
}

/// Whether `value` is not above the upper end `bound`.
pub open spec fn below(bound: RangeBound, value: i64) -> bool {
    match bound {
        RangeBound::Included(b) => value <= b,
        RangeBound::Excluded(b) => value < b,
    }
}

/// Whether the document has, in the indexed field `field` of signed
/// integers, a value between the two ends.
pub open spec fn has_value_in_range(
    config: IndexConfig,
    doc: Doc,
    field: u32,
    lower: RangeBound,
    upper: RangeBound,
) -> bool {
    &&& config.is_signed_indexed(field)
    &&& exists|i: int|
        0 <= i < doc.len() && (#[trigger] doc[i]).field == field && (doc[i].content matches FieldContent::Signed(
            value,
        ) && above(lower, value) && below(upper, value))
}

/// How a query parser was set up: for an index with the configuration
/// `config`, with the fields `defaults` searched where the text of a query
/// names no field.
pub struct ParserSetup {
    pub config: IndexConfig,
    pub defaults: Seq<u32>,
}

/// How a clause of a boolean query bears on a document.
#[derive(Clone, Copy, Debug, PartialEq, Eq, Structural)]
pub enum Occur {
    /// The document has to match the clause.
    Must,
    /// The document may match the clause; where no clause is a `Must`, it
    /// has to match one of these.
    Should,
    /// The document must not match the clause.
    MustNot,
}

/// A query that is not made of other queries.
pub enum Leaf {
    /// Documents found under a term of a text field.
    Term { field: u32, text: Seq<char> },
    /// Documents with a value of a field of signed integers in a range.
    Range { field: u32, lower: RangeBound, upper: RangeBound },
    /// Documents that a query parsed from a text accepts.
    Parsed { accepts: spec_fn(Doc) -> bool },
}

/// A part of a boolean query: a leaf, or a boolean query of its own.
pub enum Node {
    Leaf(Leaf),
    Group(Seq<Clause>),
}

/// A part of a boolean query with the way it bears on a document.
pub struct Clause {
    pub occur: Occur,
    pub node: Node,
}

/// Whether the document matches the leaf.
pub open spec fn leaf_matches(config: IndexConfig, leaf: Leaf, doc: Doc) -> bool {
    match leaf {
        Leaf::Term { field, text } => carries_term(config, doc, field, text),
        Leaf::Range { field, lower, upper } => has_value_in_range(
            config,
            doc,
            field,
            lower,
            upper,
        ),
        Leaf::Parsed { accepts } => accepts(doc),
    }
}

/// Whether every clause is a leaf.
pub open spec fn is_flat(clauses: Seq<Clause>) -> bool {
    forall|i: int| 0 <= i < clauses.len() ==> (#[trigger] clauses[i]).node is Leaf
}

/// Whether the clause, a leaf, lets the document pass: a `Must` clause
/// when the document matches it, a `MustNot` clause when it does not, a
/// `Should` clause always.
pub open spec fn leaf_clause_admits(config: IndexConfig, clause: Clause, doc: Doc) -> bool {
    clause.node matches Node::Leaf(leaf) && match clause.occur {
        Occur::Must => leaf_matches(config, leaf, doc),
        Occur::MustNot => !leaf_matches(config, leaf, doc),
        Occur::Should => true,
    }
}

/// Whether the clause, a leaf, finds the document: it is a `Must` or a
/// `Should` clause that the document matches.
pub open spec fn leaf_clause_finds(config: IndexConfig, clause: Clause, doc: Doc) -> bool {
    clause.occur != Occur::MustNot && (clause.node matches Node::Leaf(leaf) && leaf_matches(
        config,
        leaf,
        doc,
    ))
}

/// Whether every clause of a boolean query of leaves lets the document
/// pass.
pub open spec fn group_admits(config: IndexConfig, group: Seq<Clause>, doc: Doc) -> bool
    decreases group.len(),
{
    group.len() == 0 || (group_admits(config, group.drop_last(), doc) && leaf_clause_admits(
        config,
        group.last(),
        doc,
    ))
}

/// Whether one of the clauses of a boolean query of leaves finds the
/// document.
pub open spec fn group_finds(config: IndexConfig, group: Seq<Clause>, doc: Doc) -> bool
    decreases group.len(),
{
    group.len() > 0 && (group_finds(config, group.drop_last(), doc) || leaf_clause_finds(
        config,
        group.last(),
        doc,
    ))
}

/// Whether the document matches a boolean query of leaves: it matches every
/// `Must` clause and no `MustNot` clause, and at least one clause that is a
/// `Must` or a `Should`.
pub open spec fn group_matches(config: IndexConfig, group: Seq<Clause>, doc: Doc) -> bool {
    group_admits(config, group, doc) && group_finds(config, group, doc)
}

/// Whether the document matches the part of a boolean query.
pub open spec fn node_matches(config: IndexConfig, node: Node, doc: Doc) -> bool {
    match node {
        Node::Leaf(leaf) => leaf_matches(config, leaf, doc),
        Node::Group(group) => group_matches(config, group, doc),
    }
}

/// Whether the clause lets the document pass: a `Must` clause when the
/// document matches it, a `MustNot` clause when it does not, a `Should`
/// clause always.
pub open spec fn clause_admits(config: IndexConfig, clause: Clause, doc: Doc) -> bool {
    match clause.occur {
        Occur::Must => node_matches(config, clause.node, doc),
        Occur::MustNot => !node_matches(config, clause.node, doc),
        Occur::Should => true,
    }
}

/// Whether the clause finds the document: it is a `Must` or a `Should`
/// clause that the document matches.
pub open spec fn clause_finds(config: IndexConfig, clause: Clause, doc: Doc) -> bool {
    clause.occur != Occur::MustNot && node_matches(config, clause.node, doc)
}

/// Whether every clause lets the document pass.
pub open spec fn all_admit(config: IndexConfig, clauses: Seq<Clause>, doc: Doc) -> bool
    decreases clauses.len(),
{
    clauses.len() == 0 || (all_admit(config, clauses.drop_last(), doc) && clause_admits(
        config,
        clauses.last(),
        doc,
    ))
}

/// Whether one of the clauses finds the document.
pub open spec fn some_finds(config: IndexConfig, clauses: Seq<Clause>, doc: Doc) -> bool
    decreases clauses.len(),
{
    clauses.len() > 0 && (some_finds(config, clauses.drop_last(), doc) || clause_finds(
        config,
        clauses.last(),
        doc,
    ))
}

/// Whether the document matches the boolean query with these clauses: it
/// matches every `Must` clause and no `MustNot` clause, and at least one
/// clause that is a `Must` or a `Should`.
pub open spec fn query_matches(config: IndexConfig, clauses: Seq<Clause>, doc: Doc) -> bool {
    all_admit(config, clauses, doc) && some_finds(config, clauses, doc)
}

/// Whether the engine can run the leaf on an index with the configuration:
/// a term is looked for in a field that terms can be looked for in, a range
/// in an indexed field of signed integers, and its lower end is not above
/// its upper end.
pub open spec fn leaf_is_valid(config: IndexConfig, leaf: Leaf) -> bool {
    match leaf {
        Leaf::Term { field, text } => config.is_term_field(field),
        Leaf::Range { field, lower, upper } => config.is_signed_indexed(field) && bound_value(
            lower,
        ) <= bound_value(upper),
        Leaf::Parsed { accepts } => true,
    }
}

/// Whether the engine can run the query with these clauses on an index with
/// the configuration.
pub open spec fn query_is_valid(config: IndexConfig, clauses: Seq<Clause>) -> bool {
    forall|i: int|
        0 <= i < clauses.len() ==> match (#[trigger] clauses[i]).node {
            Node::Leaf(leaf) => leaf_is_valid(config, leaf),
            Node::Group(group) => forall|j: int|
                0 <= j < group.len() ==> ((#[trigger] group[j]).node matches Node::Leaf(leaf)
                    && leaf_is_valid(config, leaf)),
        }
}

/// An operation that an index holds back until the next commit.
pub enum IndexOp {
    /// Take out every document found under the term `text` of the field
    /// `field`: those of earlier commits and those added before this
    /// operation.
    DeleteTerm { field: u32, text: Seq<char> },
    /// Add the document.
    Add(Doc),
}

/// The documents that the index does not find under the term.
pub open spec fn lacks_term(config: IndexConfig, field: u32, term: Seq<char>) -> spec_fn(
    Doc,
) -> bool {
    |doc: Doc| !carries_term(config, doc, field, term)
}

/// The documents that the index finds under the term.
pub open spec fn has_term(config: IndexConfig, field: u32, term: Seq<char>) -> spec_fn(Doc) -> bool {
    |doc: Doc| carries_term(config, doc, field, term)
}

/// The documents of an index after the operation was applied to `docs`.
pub open spec fn applied_op(config: IndexConfig, docs: Multiset<Doc>, op: IndexOp) -> Multiset<
    Doc,
> {
    match op {
        IndexOp::DeleteTerm { field, text } => docs.filter(lacks_term(config, field, text)),
        IndexOp::Add(doc) => docs.insert(doc),
    }
}

/// The documents of an index after the operations were applied to `docs`,
/// one after the other.
pub open spec fn applied(config: IndexConfig, docs: Multiset<Doc>, ops: Seq<IndexOp>) -> Multiset<
    Doc,
>
    decreases ops.len(),
{
    if ops.len() == 0 {
        docs
    } else {
        applied_op(config, applied(config, docs, ops.drop_last()), ops.last())
    }
}

/// The first value that the document has in the field, where it is a text.
pub open spec fn first_text(doc: Doc, field: u32) -> Option<Seq<char>>
    decreases doc.len(),
{
    if doc.len() == 0 {
        None
    } else if doc[0].field == field {
        match doc[0].content {
            FieldContent::Text(text) => Some(text),
            _ => None,
        }
    } else {
        first_text(doc.drop_first(), field)
    }
}

/// The texts that the document has in the field, in their order.
pub open spec fn all_texts(doc: Doc, field: u32) -> Seq<Seq<char>>
    decreases doc.len(),
{
    if doc.len() == 0 {
        seq![]
    } else if doc.last().field == field && doc.last().content is Text {
        all_texts(doc.drop_last(), field).push(doc.last().content->Text_0)
    } else {
        all_texts(doc.drop_last(), field)
    }
}

/// The first value that the document has in the field, where it is an
/// unsigned integer.
pub open spec fn first_unsigned(doc: Doc, field: u32) -> Option<u64>
    decreases doc.len(),
{
    if doc.len() == 0 {
        None
    } else if doc[0].field == field {
        match doc[0].content {
            FieldContent::Unsigned(value) => Some(value),
            _ => None,
        }
    } else {
        first_unsigned(doc.drop_first(), field)
    }
}

/// The values of stored fields.
pub open spec fn is_stored(config: IndexConfig) -> spec_fn(FieldValue) -> bool {
    |value: FieldValue|
        value.field < config.fields.len() && config.fields[value.field as int].stored
}

/// The values of the document that the index hands out again: those of the
/// stored fields, in their order.
pub open spec fn stored_values(config: IndexConfig, doc: Doc) -> Doc {
    doc.filter(is_stored(config))
}

/// What an index holds: its configuration and its documents.
pub struct IndexState {
    pub config: IndexConfig,
    pub docs: Multiset<Doc>,
}

/// What a writer of an index holds: the configuration of the index, the
/// documents of the last commit, and the operations made since, which the
/// next commit applies.
pub struct WriterState {
    pub config: IndexConfig,
    pub committed: Multiset<Doc>,
    pub pending: Seq<IndexOp>,
}

/// What a searcher sees: the documents of one commit, each under the address
/// that the searcher knows it by.
pub struct Snapshot {
    pub config: IndexConfig,
    pub live: Multiset<Doc>,
    pub docs: Map<(u32, u32), Doc>,
}

/// A document that a search found, by its address, with the value of the
/// field that the search ordered by.
pub type Hit = (Option<u64>, (u32, u32));

/// The documents at the addresses of the hits.
pub open spec fn hit_documents(snapshot: Snapshot, hits: Seq<Hit>) -> Seq<Doc> {
    Seq::new(hits.len(), |i: int| snapshot.docs[hits[i].1])
}

/// Whether `hits` is what a search for the `limit` best documents gives on
/// the snapshot, for the query with these clauses and ordered by the field
/// `order_by`, highest value first:
/// each hit is a document of the snapshot that matches the query, with its
/// value of the field; no document is found more often than the snapshot
/// holds it; the values descend; there are `limit` hits, or as many as
/// documents match if those are fewer; and a matching document that is not
/// among the hits has no higher value than any hit.
pub open spec fn is_top_selection(
    snapshot: Snapshot,
    clauses: Seq<Clause>,
    order_by: u32,
    limit: nat,
    hits: Seq<Hit>,
) -> bool {
    let matching = snapshot.live.filter(
        |doc: Doc| query_matches(snapshot.config, clauses, doc),
    );
    let found = hit_documents(snapshot, hits).to_multiset();
    &&& forall|i: int|
        0 <= i < hits.len() ==> snapshot.docs.dom().contains((#[trigger] hits[i]).1)
            && query_matches(snapshot.config, clauses, snapshot.docs[hits[i].1]) && hits[i].0
            == first_unsigned(snapshot.docs[hits[i].1], order_by)
    &&& forall|i: int, j: int|
        0 <= i < j < hits.len() ==> (#[trigger] hits[i]).1 != (#[trigger] hits[j]).1
    &&& found.subset_of(matching)
    &&& forall|i: int, j: int|
        0 <= i < j < hits.len() ==> ((#[trigger] hits[i]).0 matches Some(a) && (
        #[trigger] hits[j]).0 matches Some(b) ==> a >= b)
    &&& hits.len() == if matching.len() < limit {
        matching.len()
    } else {
        limit
    }
    &&& forall|doc: Doc, i: int|
        found.count(doc) < #[trigger] matching.count(doc) && 0 <= i < hits.len() ==> (
        first_unsigned(doc, order_by) matches Some(a) && (#[trigger] hits[i]).0 matches Some(b)
            ==> a <= b)
}

} // verus!
