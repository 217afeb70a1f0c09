//! The query model and its evaluator.
//!
//! A query is one criterion (a primary property condition plus further
//! conditions, all combined with a single AND/OR operation) and an optional
//! facet sub-query tree. Evaluation resolves each condition to a posting
//! lookup, combines the resulting document-id sets, and intersects or unites
//! the facet contribution with the base result. Unknown property names and
//! values resolve to the empty set; a `SortableText` condition is rejected
//! with a typed `UnsupportedOperation` outcome, never a crash.

use vstd::prelude::*;

use crate::doc_id_set::DocIdSet;
use crate::index_types::DocId;
use crate::index_types::IntegerT;
use crate::index_types::PropertyName;
use crate::index_types::PropertyType;
use crate::index_types::SearchError;
use crate::index_types::WordFrequency;
use crate::search_result::SearchResultIds;
use crate::searchable_index::SearchableIndex;

verus! {

/// A processed query: a primary criterion and optional facet filters, ready
/// to execute against an index.
pub struct IndexQuery {
    pub criterion: Criterion,
    pub facets: Option<FacetQuery>,
}

/// One property condition: the property to look in and the value expected.
#[derive(Clone)]
pub struct PropertyQuery {
    pub name: PropertyName,
    pub query_data: PropertyType,
}

/// A primary condition plus zero or more additional conditions, folded
/// left-to-right with one uniform operation. The primary condition is a
/// required field, so a criterion with no condition at all — a malformed
/// query — cannot be formed.
pub struct Criterion {
    pub first_property: PropertyQuery,
    pub additional_properties: Option<Vec<PropertyQuery>>,
    pub operation: Operation,
}

/// How two result sets combine.
#[derive(Clone, Copy, Debug)]
pub enum Operation {
    And,
    Or,
}

/// A facet filter: an optional criterion of its own, nested sub-facets, and
/// the operation with which its contribution combines with its parent's
/// result.
pub struct FacetQuery {
    pub criterion: Option<Criterion>,
    pub sub_queries: Vec<FacetQuery>,
    pub operation: Operation,
}

/// AND combines by intersection, OR by union.
pub open spec fn combine_spec(op: Operation, a: Set<DocId>, b: Set<DocId>) -> Set<DocId> {
    match op {
        Operation::And => a.intersect(b),
        Operation::Or => a.union(b),
    }
}

/// The document ids carried by a posting list.
pub open spec fn doc_ids_of(postings: Seq<WordFrequency>) -> Set<DocId> {
    Set::new(
        |id: DocId| exists|i: int| 0 <= i < postings.len() && (#[trigger] postings[i]).doc_id == id,
    )
}

/// The posting list a condition resolves to (empty for unknown names and
/// values, and unused for unsupported condition types).
pub open spec fn property_postings(index: SearchableIndex, q: PropertyQuery) -> Seq<
    WordFrequency,
> {
    match q.query_data {
        PropertyType::Text(t) => index.spec_text_postings(q.name@, t@),
        PropertyType::Integer(v) => index.spec_integer_postings(q.name@, v),
        PropertyType::SortableText(_) => Seq::empty(),
    }
}

/// The document-id set a single condition matches.
pub open spec fn eval_property(index: SearchableIndex, q: PropertyQuery) -> Set<DocId> {
    doc_ids_of(property_postings(index, q))
}

/// Whether this condition's value type can be queried. `SortableText`
/// predicates are not yet supported.
pub open spec fn property_query_supported(q: PropertyQuery) -> bool {
    !(q.query_data is SortableText)
}

/// The additional conditions of a criterion, empty when absent.
pub open spec fn additional_of(c: Criterion) -> Seq<PropertyQuery> {
    match c.additional_properties {
        Some(v) => v@,
        None => Seq::empty(),
    }
}

/// Folding the conditions `props` onto `base`, left to right, with `op`.
pub open spec fn eval_fold(
    index: SearchableIndex,
    base: Set<DocId>,
    props: Seq<PropertyQuery>,
    op: Operation,
) -> Set<DocId>
    decreases props.len(),
{
    if props.len() == 0 {
        base
    } else {
        combine_spec(op, eval_fold(index, base, props.drop_last(), op), eval_property(
            index,
            props.last(),
        ))
    }
}

/// The document-id set a criterion matches.
pub open spec fn eval_criterion(index: SearchableIndex, c: Criterion) -> Set<DocId> {
    eval_fold(index, eval_property(index, c.first_property), additional_of(c), c.operation)
}

/// Whether every condition of the criterion can be queried.
pub open spec fn criterion_supported(c: Criterion) -> bool {
    property_query_supported(c.first_property) && forall|i: int|
        0 <= i < additional_of(c).len() ==> property_query_supported(
            #[trigger] additional_of(c)[i],
        )
}

/// The set a facet starts from: its own criterion's matches, or the empty
/// set when it has none.
pub open spec fn facet_base(index: SearchableIndex, f: FacetQuery) -> Set<DocId> {
    match f.criterion {
        Some(c) => eval_criterion(index, c),
        None => Set::empty(),
    }
}

/// The facet's base set with its first `k` sub-facets folded in, each with
/// the sub-facet's own operation.
pub open spec fn eval_facet_upto(index: SearchableIndex, f: FacetQuery, k: int) -> Set<DocId>
    decreases f, k, 0int,
    via eval_facet_upto_decreases
{
    if k <= 0 || k > f.sub_queries@.len() {
        facet_base(index, f)
    } else {
        let sub = f.sub_queries@[k - 1];
        combine_spec(sub.operation, eval_facet_upto(index, f, k - 1), eval_facet(index, sub))
    }
}

#[via_fn]
proof fn eval_facet_upto_decreases(index: SearchableIndex, f: FacetQuery, k: int) {
    broadcast use vstd::std_specs::vec::axiom_vec_index_decreases;

    if 0 < k <= f.sub_queries@.len() {
        assert(decreases_to!(f => f.sub_queries[k - 1]));
    }
}

/// The document-id contribution of a whole facet: its base set with every
/// sub-facet folded in.
pub open spec fn eval_facet(index: SearchableIndex, f: FacetQuery) -> Set<DocId>
    decreases f, f.sub_queries@.len(), 1int,
{
    eval_facet_upto(index, f, f.sub_queries@.len() as int)
}

/// Whether the facet's own criterion and its first `k` sub-facets can be
/// queried.
pub open spec fn facet_supported_upto(f: FacetQuery, k: int) -> bool
    decreases f, k, 0int,
    via facet_supported_upto_decreases
{
    if k <= 0 || k > f.sub_queries@.len() {
        match f.criterion {
            Some(c) => criterion_supported(c),
            None => true,
        }
    } else {
        facet_supported_upto(f, k - 1) && facet_supported(f.sub_queries@[k - 1])
    }
}

#[via_fn]
proof fn facet_supported_upto_decreases(f: FacetQuery, k: int) {
    broadcast use vstd::std_specs::vec::axiom_vec_index_decreases;

    if 0 < k <= f.sub_queries@.len() {
        assert(decreases_to!(f => f.sub_queries[k - 1]));
    }
}

/// Whether every condition anywhere in the facet tree can be queried.
pub open spec fn facet_supported(f: FacetQuery) -> bool
    decreases f, f.sub_queries@.len(), 1int,
{
    facet_supported_upto(f, f.sub_queries@.len() as int)
}

/// Whether every condition of the whole query can be queried.
pub open spec fn query_supported(q: IndexQuery) -> bool {
    criterion_supported(q.criterion) && match q.facets {
        Some(f) => facet_supported(f),
        None => true,
    }
}

/// The document-id set the whole query matches: the criterion's set, with
/// the facet contribution combined in by the facet's operation.
pub open spec fn eval_query(index: SearchableIndex, q: IndexQuery) -> Set<DocId> {
    match q.facets {
        Some(f) => combine_spec(f.operation, eval_criterion(index, q.criterion), eval_facet(
            index,
            f,
        )),
        None => eval_criterion(index, q.criterion),
    }
}

impl Operation {
    /// Combines two result sets: AND is set intersection, OR is set union.
    /// The operation iterates the smaller of the two sets and tests
    /// membership against the larger, bounding the work by the smaller
    /// cardinality.
    pub fn combine(&self, set1: &DocIdSet, set2: &DocIdSet) -> (r: DocIdSet)
        requires
            set1.wf(),
            set2.wf(),
        ensures
            r.wf(),
            r@ == combine_spec(*self, set1@, set2@),
    {
        match self {
            Operation::And => set1.intersect(set2),
            Operation::Or => set1.union(set2),
        }
    }
}

/// Adding one posting's document id extends the id set by exactly it.
proof fn lemma_doc_ids_take_succ(postings: Seq<WordFrequency>, i: int)
    requires
        0 <= i < postings.len(),
    ensures
        doc_ids_of(postings.take(i + 1)) == doc_ids_of(postings.take(i)).insert(
            postings[i].doc_id,
        ),
{
    let a = doc_ids_of(postings.take(i + 1));
    let b = doc_ids_of(postings.take(i)).insert(postings[i].doc_id);
    assert forall|id: DocId| a.contains(id) implies b.contains(id) by {
        let j = choose|j: int|
            0 <= j < postings.take(i + 1).len() && (#[trigger] postings.take(i + 1)[j]).doc_id
                == id;
        if j < i {
            assert(postings.take(i)[j].doc_id == id);
        }
    }
    assert forall|id: DocId| b.contains(id) implies a.contains(id) by {
        if id == postings[i].doc_id {
            assert(postings.take(i + 1)[i].doc_id == id);
        } else {
            let j = choose|j: int|
                0 <= j < postings.take(i).len() && (#[trigger] postings.take(i)[j]).doc_id == id;
            assert(postings.take(i + 1)[j].doc_id == id);
        }
    }
    assert(a =~= b);
}

/// Collects the document ids of a posting list into a set, discarding the
/// frequencies: presence is all that boolean matching needs.
fn doc_ids_from_postings(postings: &Vec<WordFrequency>) -> (r: DocIdSet)
    ensures
        r.wf(),
        r@ == doc_ids_of(postings@),
{
    let n = postings.len();
    let mut r = DocIdSet::empty();
    proof {
        assert(doc_ids_of(postings@.take(0)) =~= Set::<DocId>::empty());
    }
    let mut i: usize = 0;
    while i < n
        invariant
            n == postings@.len(),
            i <= n,
            r.wf(),
            r@ == doc_ids_of(postings@.take(i as int)),
        decreases n - i,
    {
        r.insert(postings[i].doc_id);
        proof {
            lemma_doc_ids_take_succ(postings@, i as int);
        }
        i += 1;
    }
    proof {
        assert(postings@.take(n as int) =~= postings@);
    }
    r
}

/// Resolves one condition to its posting list. Unknown property names and
/// values give an empty list; a `SortableText` condition gives the typed
/// `UnsupportedOperation` outcome.
pub fn query_property(index: &SearchableIndex, query: &PropertyQuery) -> (r: Result<
    Vec<WordFrequency>,
    SearchError,
>)
    ensures
        match r {
            Ok(v) => property_query_supported(*query) && v@ == property_postings(*index, *query),
            Err(e) => e == SearchError::UnsupportedOperation && !property_query_supported(*query),
        },
{
    match &query.query_data {
        PropertyType::Text(query_text) => Ok(
            query_text_property(index, query.name.as_str(), query_text.as_str()),
        ),
        PropertyType::Integer(val) => Ok(query_integer_property(index, query.name.as_str(), val)),
        PropertyType::SortableText(_) => Err(SearchError::UnsupportedOperation),
    }
}

/// The posting list indexed under the text property `property` for the
/// exact token `query_text`; empty when either is unknown.
pub fn query_text_property(index: &SearchableIndex, property: &str, query_text: &str) -> (r: Vec<
    WordFrequency,
>)
    ensures
        r@ == index.spec_text_postings(property@, query_text@),
{
    let mut res: Vec<WordFrequency> = Vec::new();
    match index.get_property_map_text(property) {
        Some(map) => {
            let key: String = query_text.to_owned();
            match map.get(&key) {
                Some(v) => {
                    let n = v.len();
                    let mut i: usize = 0;
                    while i < n
                        invariant
                            n == v@.len(),
                            i <= n,
                            res@ == v@.take(i as int),
                        decreases n - i,
                    {
                        res.push(v[i]);
                        proof {
                            assert(v@.take(i as int).push(v@[i as int]) =~= v@.take(i as int + 1));
                        }
                        i += 1;
                    }
                    proof {
                        assert(v@.take(n as int) =~= v@);
                    }
                },
                None => {},
            }
        },
        None => {},
    }
    res
}

/// The posting list indexed under the integer property `property` for the
/// exact value `val`; empty when either is unknown.
pub fn query_integer_property(index: &SearchableIndex, property: &str, val: &IntegerT) -> (r: Vec<
    WordFrequency,
>)
    ensures
        r@ == index.spec_integer_postings(property@, *val),
{
    let mut res: Vec<WordFrequency> = Vec::new();
    match index.get_property_map_integer(property) {
        Some(map) => {
            match map.get(val) {
                Some(v) => {
                    let n = v.len();
                    let mut i: usize = 0;
                    while i < n
                        invariant
                            n == v@.len(),
                            i <= n,
                            res@ == v@.take(i as int),
                        decreases n - i,
                    {
                        res.push(v[i]);
                        proof {
                            assert(v@.take(i as int).push(v@[i as int]) =~= v@.take(i as int + 1));
                        }
                        i += 1;
                    }
                    proof {
                        assert(v@.take(n as int) =~= v@);
                    }
                },
                None => {},
            }
        },
        None => {},
    }
    res
}

/// Evaluates a criterion: the primary condition's matches, with each
/// additional condition folded in by the criterion's operation.
pub fn query_criterion(index: &SearchableIndex, criterion: &Criterion) -> (r: Result<
    DocIdSet,
    SearchError,
>)
    ensures
        match r {
            Ok(s) => s.wf() && criterion_supported(*criterion) && s@ == eval_criterion(
                *index,
                *criterion,
            ),
            Err(e) => e == SearchError::UnsupportedOperation && !criterion_supported(*criterion),
        },
{
    let first = match query_property(index, &criterion.first_property) {
        Ok(v) => v,
        Err(e) => {
            return Err(e);
        },
    };
    let mut doc_ids = doc_ids_from_postings(&first);
    let ghost base = eval_property(*index, criterion.first_property);
    match &criterion.additional_properties {
        Some(properties) => {
            let n = properties.len();
            let mut k: usize = 0;
            proof {
                assert(additional_of(*criterion) == properties@);
            }
            while k < n
                invariant
                    n == properties@.len(),
                    k <= n,
                    doc_ids.wf(),
                    additional_of(*criterion) == properties@,
                    base == eval_property(*index, criterion.first_property),
                    property_query_supported(criterion.first_property),
                    forall|i: int|
                        0 <= i < k ==> property_query_supported(#[trigger] properties@[i]),
                    doc_ids@ == eval_fold(
                        *index,
                        base,
                        properties@.take(k as int),
                        criterion.operation,
                    ),
                decreases n - k,
            {
                let ids_vec = match query_property(index, &properties[k]) {
                    Ok(v) => v,
                    Err(e) => {
                        proof {
                            assert(!property_query_supported(additional_of(*criterion)[k as int]));
                        }
                        return Err(e);
                    },
                };
                let ids = doc_ids_from_postings(&ids_vec);
                doc_ids = criterion.operation.combine(&doc_ids, &ids);
                proof {
                    assert(properties@.take(k as int + 1).drop_last() =~= properties@.take(
                        k as int,
                    ));
                    assert(properties@.take(k as int + 1).last() == properties@[k as int]);
                }
                k += 1;
            }
            proof {
                assert(properties@.take(n as int) =~= properties@);
            }
        },
        None => {
            proof {
                assert(additional_of(*criterion) =~= Seq::<PropertyQuery>::empty());
            }
        },
    }
    Ok(doc_ids)
}

/// Every sub-facet up to `k` being supported is the same as each one being
/// supported on its own.
proof fn lemma_facet_supported_upto(f: FacetQuery, k: int)
    requires
        0 <= k <= f.sub_queries@.len(),
    ensures
        facet_supported_upto(f, k) <==> ((match f.criterion {
            Some(c) => criterion_supported(c),
            None => true,
        }) && forall|i: int| 0 <= i < k ==> facet_supported(#[trigger] f.sub_queries@[i])),
    decreases k,
{
    if k > 0 {
        lemma_facet_supported_upto(f, k - 1);
    }
}

/// Evaluates a facet: its criterion's matches (or the empty set), with each
/// sub-facet's contribution folded in by the sub-facet's operation.
fn query_facet(index: &SearchableIndex, facet: &FacetQuery) -> (r: Result<DocIdSet, SearchError>)
    ensures
        match r {
            Ok(s) => s.wf() && facet_supported(*facet) && s@ == eval_facet(*index, *facet),
            Err(e) => e == SearchError::UnsupportedOperation && !facet_supported(*facet),
        },
    decreases *facet,
{
    let mut s: DocIdSet;
    match &facet.criterion {
        Some(c) => {
            match query_criterion(index, c) {
                Ok(set) => {
                    s = set;
                },
                Err(e) => {
                    proof {
                        lemma_facet_supported_upto(*facet, facet.sub_queries@.len() as int);
                    }
                    return Err(e);
                },
            }
        },
        None => {
            s = DocIdSet::empty();
        },
    }
    let n = facet.sub_queries.len();
    let mut j: usize = 0;
    while j < n
        invariant
            n == facet.sub_queries@.len(),
            j <= n,
            s.wf(),
            match facet.criterion {
                Some(c) => criterion_supported(c),
                None => true,
            },
            forall|i: int| 0 <= i < j ==> facet_supported(#[trigger] facet.sub_queries@[i]),
            s@ == eval_facet_upto(*index, *facet, j as int),
        decreases n - j,
    {
        let sub = &facet.sub_queries[j];
        proof {
            broadcast use vstd::std_specs::vec::axiom_vec_index_decreases;

            assert(decreases_to!(*facet => facet.sub_queries[j as int]));
        }
        match query_facet(index, sub) {
            Ok(sub_set) => {
                s = sub.operation.combine(&s, &sub_set);
            },
            Err(e) => {
                proof {
                    lemma_facet_supported_upto(*facet, facet.sub_queries@.len() as int);
                }
                return Err(e);
            },
        }
        j += 1;
    }
    proof {
        lemma_facet_supported_upto(*facet, n as int);
    }
    Ok(s)
}

/// Evaluates a whole query: the primary criterion's matches, combined with
/// the facet contribution (when present) by the facet's operation.
pub fn query_index(index: &SearchableIndex, query: &IndexQuery) -> (r: Result<
    SearchResultIds,
    SearchError,
>)
    ensures
        match r {
            Ok(res) => query_supported(*query) && res.doc_ids.wf() && res.doc_ids@ == eval_query(
                *index,
                *query,
            ),
            Err(e) => e == SearchError::UnsupportedOperation && !query_supported(*query),
        },
{
    let mut doc_ids = match query_criterion(index, &query.criterion) {
        Ok(s) => s,
        Err(e) => {
            return Err(e);
        },
    };
    match &query.facets {
        Some(facets) => {
            let doc_ids_facets = match query_facet(index, facets) {
                Ok(s) => s,
                Err(e) => {
                    return Err(e);
                },
            };
            doc_ids = facets.operation.combine(&doc_ids, &doc_ids_facets);
        },
        None => {},
    }
    Ok(SearchResultIds { doc_ids })
}

} // verus!
