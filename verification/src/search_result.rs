//! The value handed to result consumers.

use vstd::prelude::*;

use crate::doc_id_set::DocIdSet;

verus! {

/// An unordered set of matching document identifiers, with no scores,
/// snippets or frequency data attached: ranking and presentation are the
/// caller's concern.
pub struct SearchResultIds {
    pub doc_ids: DocIdSet,
}

} // verus!
