//! The schema of the index and the analyzers of its text fields.
//!
//! An entry is indexed under eight fields:
//!
//! | field         | values                 | analyzer  | stored | use |
//! |---------------|------------------------|-----------|--------|-----|
//! | `id`          | text                   | `raw`     | yes    | found by the exact identifier |
//! | `lat`         | signed integer         |           | yes    | found by range |
//! | `lng`         | signed integer         |           | yes    | found by range |
//! | `title`       | text                   | `default` | no     | free text search |
//! | `description` | text                   | `default` | no     | free text search |
//! | `category`    | text, any number       | `tag`     | yes    | found by the category, whatever its case |
//! | `tag`         | text, any number       | `tag`     | yes    | found by the tag, whatever its case |
//! | `rating`      | unsigned integer, fast | | yes    | ranking |
//!
//! `raw` and `default` are analyzers of the engine. `tag` is registered by
//! this crate: it makes of a category or a tag, put into lower case, one
//! term. So identifiers are found letter for letter, categories and tags
//! whatever the case of their letters.

use vstd::prelude::*;
use crate::index::engine::{
    add_indexed_stored_i64_field, add_stored_fast_u64_field, add_text_field, builder_fields,
    engine_lowercased, has_tokenizer, index_state, is_field_name, new_schema_builder,
    register_lowercased_raw,
};
use crate::index::model::{Analyzer, FieldKind, FieldSpec, IndexConfig, RecordOption};

verus! {

/// The position of the field `id` in the schema.
pub const FIELD_ID: u32 = 0;

/// The position of the field `lat` in the schema.
pub const FIELD_LAT: u32 = 1;

/// The position of the field `lng` in the schema.
pub const FIELD_LNG: u32 = 2;

/// The position of the field `title` in the schema.
pub const FIELD_TITLE: u32 = 3;

/// The position of the field `description` in the schema.
pub const FIELD_DESCRIPTION: u32 = 4;

/// The position of the field `category` in the schema.
pub const FIELD_CATEGORY: u32 = 5;

/// The position of the field `tag` in the schema.
pub const FIELD_TAG: u32 = 6;

/// The position of the field `rating` in the schema.
pub const FIELD_RATING: u32 = 7;

/// The handles of the fields of the schema.
#[derive(Clone, Copy, Debug, PartialEq, Eq, Structural)]
pub struct TantivyEntryFields {
    pub id: u32,
    pub title: u32,
    pub description: u32,
    pub category: u32,
    pub lat: u32,
    pub lng: u32,
    pub tag: u32,
    pub rating: u32,
}

/// The handles that the fields of the schema have.
pub open spec fn entry_fields() -> TantivyEntryFields {
    TantivyEntryFields {
        id: FIELD_ID,
        title: FIELD_TITLE,
        description: FIELD_DESCRIPTION,
        category: FIELD_CATEGORY,
        lat: FIELD_LAT,
        lng: FIELD_LNG,
        tag: FIELD_TAG,
        rating: FIELD_RATING,
    }
}

/// A text field that is indexed.
pub open spec fn text_field(
    name: Seq<char>,
    tokenizer: Seq<char>,
    record: RecordOption,
    stored: bool,
) -> FieldSpec {
    FieldSpec {
        name,
        kind: FieldKind::Text { tokenizer, record },
        indexed: true,
        stored,
        fast: false,
    }
}

/// A field of signed integers that is indexed and stored and not fast.
pub open spec fn coordinate_field(name: Seq<char>) -> FieldSpec {
    FieldSpec { name, kind: FieldKind::Signed, indexed: true, stored: true, fast: false }
}

/// A field of unsigned integers that is stored and fast and not indexed.
pub open spec fn ranking_field(name: Seq<char>) -> FieldSpec {
    FieldSpec { name, kind: FieldKind::Unsigned, indexed: false, stored: true, fast: true }
}

/// The fields of the schema, in their order.
pub open spec fn entry_schema() -> Seq<FieldSpec> {
    seq![
        text_field("id"@, "raw"@, RecordOption::Basic, true),
        coordinate_field("lat"@),
        coordinate_field("lng"@),
        text_field("title"@, "default"@, RecordOption::WithFreqsAndPositions, false),
        text_field("description"@, "default"@, RecordOption::WithFreqsAndPositions, false),
        text_field("category"@, "tag"@, RecordOption::WithFreqs, true),
        text_field("tag"@, "tag"@, RecordOption::WithFreqs, true),
        ranking_field("rating"@),
    ]
}

/// Whether the analyzers are those that the schema relies on: `raw` makes
/// of a text the text itself, `tag` the text in lower case, as the one
/// term, and `default` is registered.
pub open spec fn are_entry_tokenizers(tokenizers: Map<Seq<char>, Analyzer>) -> bool {
    &&& tokenizers.contains_key("raw"@)
    &&& tokenizers["raw"@] matches Analyzer::Whole(raw)
    &&& forall|text: Seq<char>| #[trigger] raw(text) == text
    &&& tokenizers.contains_key("tag"@)
    &&& tokenizers["tag"@] matches Analyzer::Whole(lower)
    &&& forall|text: Seq<char>| #[trigger] lower(text) == engine_lowercased(text)
    &&& tokenizers.contains_key("default"@)
    &&& tokenizers["default"@] is Other
}

/// Whether the configuration is that of an index of entries.
pub open spec fn is_entry_config(config: IndexConfig) -> bool {
    config.fields == entry_schema() && are_entry_tokenizers(config.tokenizers)
}

/// The names of the fields and of the analyzers differ where they have to.
pub proof fn lemma_names_differ()
    ensures
        "id"@ != "lat"@,
        "id"@ != "lng"@,
        "id"@ != "title"@,
        "id"@ != "description"@,
        "id"@ != "category"@,
        "id"@ != "tag"@,
        "id"@ != "rating"@,
        "lat"@ != "lng"@,
        "lat"@ != "title"@,
        "lat"@ != "description"@,
        "lat"@ != "category"@,
        "lat"@ != "tag"@,
        "lat"@ != "rating"@,
        "lng"@ != "title"@,
        "lng"@ != "description"@,
        "lng"@ != "category"@,
        "lng"@ != "tag"@,
        "lng"@ != "rating"@,
        "title"@ != "description"@,
        "title"@ != "category"@,
        "title"@ != "tag"@,
        "title"@ != "rating"@,
        "description"@ != "category"@,
        "description"@ != "tag"@,
        "description"@ != "rating"@,
        "category"@ != "tag"@,
        "category"@ != "rating"@,
        "tag"@ != "rating"@,
        "raw"@ != "tag"@,
        "raw"@ != "default"@,
        "tag"@ != "default"@,
        "tag"@ != "en_stem"@,
        "tag"@ != "whitespace"@,
        is_field_name("id"@),
        is_field_name("lat"@),
        is_field_name("lng"@),
        is_field_name("title"@),
        is_field_name("description"@),
        is_field_name("category"@),
        is_field_name("tag"@),
        is_field_name("rating"@),
{
    reveal_strlit("id");
    reveal_strlit("lat");
    reveal_strlit("lng");
    reveal_strlit("title");
    reveal_strlit("description");
    reveal_strlit("category");
    reveal_strlit("tag");
    reveal_strlit("rating");
    reveal_strlit("raw");
    reveal_strlit("default");
    reveal_strlit("en_stem");
    reveal_strlit("whitespace");
    assert("id"@.len() == 2);
    assert("lat"@.len() == 3);
    assert("lng"@.len() == 3);
    assert("tag"@.len() == 3);
    assert("raw"@.len() == 3);
    assert("title"@.len() == 5);
    assert("rating"@.len() == 6);
    assert("default"@.len() == 7);
    assert("en_stem"@.len() == 7);
    assert("category"@.len() == 8);
    assert("whitespace"@.len() == 10);
    assert("description"@.len() == 11);
    assert("lat"@[1] != "lng"@[1]);
    assert("lat"@[0] != "tag"@[0]);
    assert("lng"@[0] != "tag"@[0]);
    assert("title"@[0] != "rating"@[0]);
    assert("raw"@[0] != "tag"@[0]);
    assert("id"@[0] == 'i');
    assert("description"@[0] == 'd');
    assert("category"@[0] == 'c');
}

/// Builds the schema of the index: a schema builder that holds the eight
/// fields, with the handle of each.
pub fn build_schema() -> (r: (tantivy::schema::SchemaBuilder, TantivyEntryFields))
    ensures
        builder_fields(r.0) == entry_schema(),
        r.1 == entry_fields(),
{
    proof {
        lemma_names_differ();
    }
    let mut builder = new_schema_builder();
    let id = add_text_field(&mut builder, "id", "raw", RecordOption::Basic, true);
    let lat = add_indexed_stored_i64_field(&mut builder, "lat");
    let lng = add_indexed_stored_i64_field(&mut builder, "lng");
    let title = add_text_field(
        &mut builder,
        "title",
        "default",
        RecordOption::WithFreqsAndPositions,
        false,
    );
    let description = add_text_field(
        &mut builder,
        "description",
        "default",
        RecordOption::WithFreqsAndPositions,
        false,
    );
    let category = add_text_field(&mut builder, "category", "tag", RecordOption::WithFreqs, true);
    let tag = add_text_field(&mut builder, "tag", "tag", RecordOption::WithFreqs, true);
    let rating = add_stored_fast_u64_field(&mut builder, "rating");
    proof {
        assert(builder_fields(builder) =~= entry_schema());
    }
    (builder, TantivyEntryFields { id, title, description, category, lat, lng, tag, rating })
}

/// Registers the analyzer of the field `tag`.
///
/// The analyzers `raw` and `default` have to be there, and none may stand
/// under the name `tag` yet: the index is then left as it is, and `false`
/// is returned.
pub(crate) fn register_tokenizers(index: &mut tantivy::Index) -> (registered: bool)
    ensures
        index_state(*final(index)).docs == index_state(*old(index)).docs,
        index_state(*final(index)).config.fields == index_state(*old(index)).config.fields,
        registered == (index_state(*old(index)).config.tokenizers.contains_key("raw"@)
            && index_state(*old(index)).config.tokenizers.contains_key("default"@) && !index_state(
            *old(index),
        ).config.tokenizers.contains_key("tag"@)),
        registered ==> index_state(*final(index)).config.tokenizers == index_state(
            *old(index),
        ).config.tokenizers.insert(
            "tag"@,
            Analyzer::Whole(|text: Seq<char>| engine_lowercased(text)),
        ),
        !registered ==> index_state(*final(index)) == index_state(*old(index)),
{
    if !has_tokenizer(index, "raw") || !has_tokenizer(index, "default") || has_tokenizer(
        index,
        "tag",
    ) {
        return false;
    }
    register_lowercased_raw(index, "tag");
    true
}

} // verus!
