//! A search index over map entries: entries are projected into documents of
//! a full-text engine, found again by bounding box, free text, category and
//! tag, and ranked by an aggregate rating.

pub mod geo;
pub mod rounding;
pub mod codec;
pub mod entry;
pub mod rating;
pub mod sort;
pub mod index;
pub mod text;
pub mod usecase;
pub mod web;
