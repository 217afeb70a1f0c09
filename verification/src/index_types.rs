//! Core data types shared by the index and the query evaluator.

use vstd::prelude::*;

verus! {

/// Name of a document property, e.g. `content` or `count`.
pub type PropertyName = String;

/// Document identifier: assigned by the index at build time, starting at 1,
/// monotonically increasing, never reused.
pub type DocId = usize;

/// The value type indexed for `PropertyType::Integer` properties.
pub type IntegerT = u32;

/// The value type indexed for `PropertyType::Text` properties.
pub type TextT = String;

/// The value type reserved for `PropertyType::SortableText` properties.
/// Intended for future ordered/range queries; a bounded length will be
/// required for sort performance, but that bound is not yet enforced.
pub type SortableTextT = String;

/// One posting entry: the document that carried a value, and how often.
/// For `Text` values, `frequency` counts occurrences of the token within the
/// property's text; for `Integer` values it is always 1 (presence, not count).
#[derive(Copy, Clone, Debug)]
pub struct WordFrequency {
    pub doc_id: DocId,
    pub frequency: usize,
}

/// A named, typed attribute attached to a document.
#[derive(Clone)]
pub struct IndexProperty {
    pub name: PropertyName,
    pub data: PropertyType,
}

/// The closed set of property value variants.
#[derive(Clone)]
pub enum PropertyType {
    Integer(IntegerT),
    Text(TextT),
    SortableText(SortableTextT),
}

/// Failures that propagate to the caller. Absent property names or values
/// never produce an error: every lookup boundary resolves them to an empty
/// result instead.
#[derive(Copy, Clone, Debug, PartialEq, Eq, Structural)]
pub enum SearchError {
    /// A value type not yet implemented was used for indexing or querying,
    /// e.g. `SortableText`.
    UnsupportedOperation,
}

} // verus!
