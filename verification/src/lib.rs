//! An in-memory inverted-index search engine.
//!
//! Documents are ordered sequences of typed, named properties. Building an
//! index assigns each document an identifier (starting at 1, in input order)
//! and records, per property name and per value, a posting list of
//! (document id, frequency) entries. Queries combine per-property posting
//! lookups with AND/OR set operations, optionally filtered by facet
//! sub-queries, and return an unordered set of matching document ids.

pub mod doc_id_set;
pub mod index_types;
pub mod laws;
pub mod property_map;
pub mod query;
pub mod search_result;
pub mod searchable_index;
pub mod tokenize;
