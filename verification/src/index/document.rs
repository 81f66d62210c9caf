//! Entries as documents of the index.

use vstd::prelude::*;
use crate::codec::{dequantize, quantize, quantized};
use crate::entry::Entry;
use crate::index::engine::{add_i64, add_text, add_u64, document_values, new_document};
use crate::index::model::{Doc, FieldContent, FieldValue, IndexConfig};
use crate::index::schema::{
    entry_fields, is_entry_config, TantivyEntryFields, FIELD_CATEGORY, FIELD_DESCRIPTION,
    FIELD_ID, FIELD_LAT, FIELD_LNG, FIELD_RATING, FIELD_TAG, FIELD_TITLE,
};
use crate::rating::{AvgRatingValue, AVG_RATING_RAW_MAX, AVG_RATING_RAW_MIN};

verus! {

/// The quantized form of a score, by which the index ranks: the scores from
/// the smallest to the largest valid one are laid over the range of `u64`,
/// and a score outside is taken for the nearer end.
pub open spec fn quantized_rating(rating: AvgRatingValue) -> u64 {
    quantized(rating.raw as int, AVG_RATING_RAW_MIN as int, AVG_RATING_RAW_MAX as int) as u64
}

/// The quantized form of a score.
pub fn avg_rating_to_u64(avg_rating: AvgRatingValue) -> (q: u64)
    ensures
        q == quantized_rating(avg_rating),
        avg_rating.raw <= AVG_RATING_RAW_MIN ==> q == 0,
        avg_rating.raw >= AVG_RATING_RAW_MAX ==> q == u64::MAX,
{
    quantize(avg_rating.raw, AVG_RATING_RAW_MIN, AVG_RATING_RAW_MAX)
}

/// The score that a quantized form stands for.
pub fn u64_to_avg_rating(val: u64) -> (avg_rating: AvgRatingValue)
    ensures
        avg_rating.raw == crate::codec::dequantized(
            val as int,
            AVG_RATING_RAW_MIN as int,
            AVG_RATING_RAW_MAX as int,
        ),
        avg_rating.is_valid(),
{
    AvgRatingValue { raw: dequantize(val, AVG_RATING_RAW_MIN, AVG_RATING_RAW_MAX) }
}

/// A valid score is not changed by quantizing it and taking the score of
/// the quantized form.
pub proof fn lemma_rating_round_trip(rating: AvgRatingValue)
    requires
        rating.is_valid(),
    ensures
        crate::codec::dequantized(
            quantized_rating(rating) as int,
            AVG_RATING_RAW_MIN as int,
            AVG_RATING_RAW_MAX as int,
        ) == rating.raw,
{
    crate::codec::lemma_quantized_range(
        rating.raw as int,
        AVG_RATING_RAW_MIN as int,
        AVG_RATING_RAW_MAX as int,
    );
    crate::codec::lemma_quantize_round_trip(
        rating.raw as int,
        AVG_RATING_RAW_MIN as int,
        AVG_RATING_RAW_MAX as int,
    );
}

/// The texts as values of the field.
pub open spec fn text_values(field: u32, texts: Seq<Seq<char>>) -> Doc {
    Seq::new(
        texts.len(),
        |i: int| FieldValue { field, content: FieldContent::Text(texts[i]) },
    )
}

/// The values of an entry that stand before its categories in its document.
pub open spec fn entry_head(entry: Entry) -> Doc {
    seq![
        FieldValue { field: FIELD_ID, content: FieldContent::Text(entry.id@) },
        FieldValue {
            field: FIELD_LAT,
            content: FieldContent::Signed(entry.location.pos.lat.raw as i64),
        },
        FieldValue {
            field: FIELD_LNG,
            content: FieldContent::Signed(entry.location.pos.lng.raw as i64),
        },
        FieldValue { field: FIELD_TITLE, content: FieldContent::Text(entry.title@) },
        FieldValue { field: FIELD_DESCRIPTION, content: FieldContent::Text(entry.description@) },
    ]
}

/// The document of an entry with a score: its identifier, the raw
/// coordinates of its position, its title and description, each of its
/// categories and of its tags, and the quantized score.
pub open spec fn entry_document(entry: Entry, rating: AvgRatingValue) -> Doc {
    entry_head(entry) + text_values(FIELD_CATEGORY, entry.categories.deep_view()) + text_values(
        FIELD_TAG,
        entry.tags.deep_view(),
    ) + seq![
        FieldValue {
            field: FIELD_RATING,
            content: FieldContent::Unsigned(quantized_rating(rating)),
        },
    ]
}

/// The document of an entry fits the schema of the index.
pub proof fn lemma_entry_document_accepted(config: IndexConfig, entry: Entry, rating: AvgRatingValue)
    requires
        is_entry_config(config),
    ensures
        config.accepts(entry_document(entry, rating)),
{
    let doc = entry_document(entry, rating);
    let head = entry_head(entry);
    let categories = text_values(FIELD_CATEGORY, entry.categories.deep_view());
    let tags = text_values(FIELD_TAG, entry.tags.deep_view());
    assert forall|i: int| 0 <= i < doc.len() implies config.accepts_value(#[trigger] doc[i]) by {
        if i < head.len() {
            assert(doc[i] == head[i]);
        } else if i < head.len() + categories.len() {
            assert(doc[i] == categories[i - head.len()]);
        } else if i < head.len() + categories.len() + tags.len() {
            assert(doc[i] == tags[i - head.len() - categories.len()]);
        } else {
        }
    }
}

/// Adds each of the texts to the document as a value of the field.
fn add_texts(document: &mut tantivy::TantivyDocument, field: u32, texts: &Vec<String>)
    requires
        field <= u16::MAX,
    ensures
        document_values(*final(document)) == document_values(*old(document)) + text_values(
            field,
            texts.deep_view(),
        ),
{
    let ghost before = document_values(*document);
    let mut i: usize = 0;
    while i < texts.len()
        invariant
            i <= texts.len(),
            field <= u16::MAX,
            document_values(*document) == before + text_values(
                field,
                texts.deep_view().take(i as int),
            ),
        decreases texts.len() - i,
    {
        add_text(document, field, texts[i].as_str());
        proof {
            assert(text_values(field, texts.deep_view().take(i + 1)) =~= text_values(
                field,
                texts.deep_view().take(i as int),
            ).push(FieldValue { field, content: FieldContent::Text(texts[i as int]@) }));
        }
        i = i + 1;
    }
    proof {
        assert(texts.deep_view().take(i as int) =~= texts.deep_view());
    }
}

/// Makes the document of an entry with a score.
pub(crate) fn make_document(
    fields: &TantivyEntryFields,
    entry: &Entry,
    avg_rating: AvgRatingValue,
) -> (document: tantivy::TantivyDocument)
    requires
        *fields == entry_fields(),
    ensures
        document_values(document) == entry_document(*entry, avg_rating),
{
    let mut document = new_document();
    add_text(&mut document, fields.id, entry.id.as_str());
    add_i64(&mut document, fields.lat, entry.location.pos.lat.to_raw() as i64);
    add_i64(&mut document, fields.lng, entry.location.pos.lng.to_raw() as i64);
    add_text(&mut document, fields.title, entry.title.as_str());
    add_text(&mut document, fields.description, entry.description.as_str());
    proof {
        assert(document_values(document) =~= entry_head(*entry));
    }
    add_texts(&mut document, fields.category, &entry.categories);
    add_texts(&mut document, fields.tag, &entry.tags);
    add_u64(&mut document, fields.rating, avg_rating_to_u64(avg_rating));
    proof {
        assert(document_values(document) =~= entry_document(*entry, avg_rating));
    }
    document
}

} // verus!
