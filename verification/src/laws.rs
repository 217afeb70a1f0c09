//! The guarantees the library states of itself, each proved once and for
//! all inputs: what a built index answers for text and integer conditions,
//! how AND/OR combination behaves, and how criteria and facets compose.

use vstd::prelude::*;

use crate::index_types::DocId;
use crate::index_types::IndexProperty;
use crate::index_types::IntegerT;
use crate::index_types::PropertyType;
use crate::index_types::WordFrequency;
use crate::query::additional_of;
use crate::query::combine_spec;
use crate::query::doc_ids_of;
use crate::query::eval_criterion;
use crate::query::eval_fold;
use crate::query::eval_property;
use crate::query::eval_query;
use crate::query::Criterion;
use crate::query::IndexQuery;
use crate::query::Operation;
use crate::query::PropertyQuery;
use crate::searchable_index::doc_integer_entries;
use crate::searchable_index::doc_text_entries;
use crate::searchable_index::integer_entries;
use crate::searchable_index::prop_integer_entry;
use crate::searchable_index::prop_text_entry;
use crate::searchable_index::text_entries;
use crate::searchable_index::ProcessedDocument;
use crate::searchable_index::SearchableIndex;
use crate::tokenize::token_count;

verus! {

/// Law: combining two sets is commutative — AND and OR give the same set
/// whichever operand comes first.
pub proof fn lemma_combine_commutative(op: Operation, a: Set<DocId>, b: Set<DocId>)
    ensures
        combine_spec(op, a, b) == combine_spec(op, b, a),
{
    match op {
        Operation::And => {
            assert(a.intersect(b) =~= b.intersect(a));
        },
        Operation::Or => {
            assert(a.union(b) =~= b.union(a));
        },
    }
}

/// Law: combining is associative across repeated folds — grouping does not
/// change the result of AND or OR chains.
pub proof fn lemma_combine_associative(op: Operation, a: Set<DocId>, b: Set<DocId>, c: Set<DocId>)
    ensures
        combine_spec(op, combine_spec(op, a, b), c) == combine_spec(op, a, combine_spec(op, b, c)),
{
    match op {
        Operation::And => {
            assert(a.intersect(b).intersect(c) =~= a.intersect(b.intersect(c)));
        },
        Operation::Or => {
            assert(a.union(b).union(c) =~= a.union(b.union(c)));
        },
    }
}

/// Folding conditions with AND keeps exactly the ids every condition (and
/// the base set) matches.
proof fn lemma_fold_and(
    index: SearchableIndex,
    base: Set<DocId>,
    props: Seq<PropertyQuery>,
    id: DocId,
)
    ensures
        eval_fold(index, base, props, Operation::And).contains(id) <==> (base.contains(id)
            && forall|i: int|
            0 <= i < props.len() ==> eval_property(index, #[trigger] props[i]).contains(id)),
    decreases props.len(),
{
    if props.len() != 0 {
        lemma_fold_and(index, base, props.drop_last(), id);
        assert forall|i: int| 0 <= i < props.len() - 1 implies props.drop_last()[i] == props[i] by {
        }
    }
}

/// Folding conditions with OR keeps exactly the ids some condition (or the
/// base set) matches.
proof fn lemma_fold_or(
    index: SearchableIndex,
    base: Set<DocId>,
    props: Seq<PropertyQuery>,
    id: DocId,
)
    ensures
        eval_fold(index, base, props, Operation::Or).contains(id) <==> (base.contains(id)
            || exists|i: int|
            0 <= i < props.len() && eval_property(index, #[trigger] props[i]).contains(id)),
    decreases props.len(),
{
    if props.len() != 0 {
        lemma_fold_or(index, base, props.drop_last(), id);
        if eval_fold(index, base, props, Operation::Or).contains(id) {
            if eval_property(index, props.last()).contains(id) {
                assert(eval_property(index, props[props.len() - 1]).contains(id));
            } else if !base.contains(id) {
                let i = choose|i: int|
                    0 <= i < props.drop_last().len() && eval_property(
                        index,
                        #[trigger] props.drop_last()[i],
                    ).contains(id);
                assert(eval_property(index, props[i]).contains(id));
            }
        }
        if exists|i: int|
            0 <= i < props.len() && eval_property(index, #[trigger] props[i]).contains(id) {
            let i = choose|i: int|
                0 <= i < props.len() && eval_property(index, #[trigger] props[i]).contains(id);
            if i < props.len() - 1 {
                assert(eval_property(index, props.drop_last()[i]).contains(id));
            }
        }
    }
}

/// Law: a criterion that AND-folds its N conditions matches exactly the
/// intersection of all N condition result sets; one that OR-folds them
/// matches exactly their union.
pub proof fn lemma_criterion_fold(index: SearchableIndex, c: Criterion, id: DocId)
    ensures
        c.operation is And ==> (eval_criterion(index, c).contains(id) <==> (eval_property(
            index,
            c.first_property,
        ).contains(id) && forall|i: int|
            0 <= i < additional_of(c).len() ==> eval_property(
                index,
                #[trigger] additional_of(c)[i],
            ).contains(id))),
        c.operation is Or ==> (eval_criterion(index, c).contains(id) <==> (eval_property(
            index,
            c.first_property,
        ).contains(id) || exists|i: int|
            0 <= i < additional_of(c).len() && eval_property(
                index,
                #[trigger] additional_of(c)[i],
            ).contains(id))),
{
    match c.operation {
        Operation::And => {
            lemma_fold_and(index, eval_property(index, c.first_property), additional_of(c), id);
        },
        Operation::Or => {
            lemma_fold_or(index, eval_property(index, c.first_property), additional_of(c), id);
        },
    }
}

/// Law: a facet combined with AND never adds documents — every id the whole
/// query returns is in the primary criterion's result set.
pub proof fn lemma_facet_and_narrows(index: SearchableIndex, q: IndexQuery)
    requires
        match q.facets {
            Some(f) => f.operation is And,
            None => false,
        },
    ensures
        forall|id: DocId|
            eval_query(index, q).contains(id) ==> #[trigger] eval_criterion(
                index,
                q.criterion,
            ).contains(id),
{
    // with AND the query's set is the intersection of the criterion's set
    // and the facet's contribution, and an intersection adds nothing
}

/// Whether this property is a text property named `name` whose content
/// contains the token `tok`.
pub open spec fn prop_has_text_token(p: IndexProperty, name: Seq<char>, tok: Seq<char>) -> bool {
    match p.data {
        PropertyType::Text(t) => p.name@ == name && token_count(t@, tok) > 0,
        _ => false,
    }
}

/// Whether some property of the document is a text property named `name`
/// containing the token `tok`.
pub open spec fn doc_has_text_token(d: ProcessedDocument, name: Seq<char>, tok: Seq<char>) -> bool {
    exists|j: int|
        0 <= j < d.properties@.len() && prop_has_text_token(#[trigger] d.properties@[j], name, tok)
}

/// The ids in a concatenation are the ids of the two parts.
proof fn lemma_doc_ids_concat(a: Seq<WordFrequency>, b: Seq<WordFrequency>)
    ensures
        doc_ids_of(a + b) == doc_ids_of(a).union(doc_ids_of(b)),
{
    assert forall|id: DocId| doc_ids_of(a + b).contains(id) implies doc_ids_of(a).union(
        doc_ids_of(b),
    ).contains(id) by {
        let i = choose|i: int| 0 <= i < (a + b).len() && (#[trigger] (a + b)[i]).doc_id == id;
        if i < a.len() {
            assert(a[i].doc_id == id);
        } else {
            assert(b[i - a.len()].doc_id == id);
        }
    }
    assert forall|id: DocId| doc_ids_of(a).union(doc_ids_of(b)).contains(id) implies doc_ids_of(
        a + b,
    ).contains(id) by {
        if doc_ids_of(a).contains(id) {
            let i = choose|i: int| 0 <= i < a.len() && (#[trigger] a[i]).doc_id == id;
            assert((a + b)[i].doc_id == id);
        } else {
            let i = choose|i: int| 0 <= i < b.len() && (#[trigger] b[i]).doc_id == id;
            assert((a + b)[a.len() + i].doc_id == id);
        }
    }
    assert(doc_ids_of(a + b) =~= doc_ids_of(a).union(doc_ids_of(b)));
}

/// One document's text contribution for (`name`, `tok`) carries exactly its
/// own id — when some property matches — and nothing otherwise.
proof fn lemma_doc_text_ids(props: Seq<IndexProperty>, d: DocId, name: Seq<char>, tok: Seq<char>)
    ensures
        doc_ids_of(doc_text_entries(props, d, name, tok)) == if exists|j: int|
            0 <= j < props.len() && prop_has_text_token(#[trigger] props[j], name, tok) {
            Set::<DocId>::empty().insert(d)
        } else {
            Set::<DocId>::empty()
        },
    decreases props.len(),
{
    if props.len() == 0 {
        assert(doc_ids_of(Seq::<WordFrequency>::empty()) =~= Set::<DocId>::empty());
    } else {
        lemma_doc_text_ids(props.drop_last(), d, name, tok);
        lemma_doc_ids_concat(
            doc_text_entries(props.drop_last(), d, name, tok),
            prop_text_entry(props.last(), d, name, tok),
        );
        let last_entry = prop_text_entry(props.last(), d, name, tok);
        if prop_has_text_token(props.last(), name, tok) {
            assert(last_entry.len() == 1 && last_entry[0].doc_id == d);
            assert(doc_ids_of(last_entry) =~= Set::<DocId>::empty().insert(d)) by {
                assert(last_entry[0].doc_id == d);
            }
        } else {
            assert(last_entry =~= Seq::<WordFrequency>::empty());
            assert(doc_ids_of(last_entry) =~= Set::<DocId>::empty());
        }
        // the exists over all properties splits into the prefix and the last
        if exists|j: int|
            0 <= j < props.len() && prop_has_text_token(#[trigger] props[j], name, tok) {
            let j = choose|j: int|
                0 <= j < props.len() && prop_has_text_token(#[trigger] props[j], name, tok);
            if j < props.len() - 1 {
                assert(prop_has_text_token(props.drop_last()[j], name, tok));
            }
        }
        if exists|j: int|
            0 <= j < props.drop_last().len() && prop_has_text_token(
                #[trigger] props.drop_last()[j],
                name,
                tok,
            ) {
            let j = choose|j: int|
                0 <= j < props.drop_last().len() && prop_has_text_token(
                    #[trigger] props.drop_last()[j],
                    name,
                    tok,
                );
            assert(prop_has_text_token(props[j], name, tok));
        }
        assert(doc_ids_of(doc_text_entries(props, d, name, tok)) =~= if exists|j: int|
            0 <= j < props.len() && prop_has_text_token(#[trigger] props[j], name, tok) {
            Set::<DocId>::empty().insert(d)
        } else {
            Set::<DocId>::empty()
        });
    }
}

/// Law: for every built index and every text condition, the query returns
/// exactly the ids of the documents whose text under that property contains
/// the token — no others, and never an error.
pub proof fn lemma_text_query_exact(docs: Seq<ProcessedDocument>, name: Seq<char>, tok: Seq<char>)
    requires
        docs.len() <= usize::MAX,
    ensures
        forall|id: DocId|
            #[trigger] doc_ids_of(text_entries(docs, name, tok)).contains(id) <==> (1 <= id
                <= docs.len() && doc_has_text_token(docs[id - 1], name, tok)),
    decreases docs.len(),
{
    if docs.len() == 0 {
        assert(doc_ids_of(Seq::<WordFrequency>::empty()) =~= Set::<DocId>::empty());
    } else {
        lemma_text_query_exact(docs.drop_last(), name, tok);
        lemma_doc_ids_concat(
            text_entries(docs.drop_last(), name, tok),
            doc_text_entries(docs.last().properties@, docs.len() as usize, name, tok),
        );
        lemma_doc_text_ids(docs.last().properties@, docs.len() as usize, name, tok);
        assert forall|id: DocId|
            #[trigger] doc_ids_of(text_entries(docs, name, tok)).contains(id) <==> (1 <= id
                <= docs.len() && doc_has_text_token(docs[id - 1], name, tok)) by {
            assert(doc_ids_of(text_entries(docs, name, tok)) == doc_ids_of(
                text_entries(docs.drop_last(), name, tok),
            ).union(
                doc_ids_of(
                    doc_text_entries(docs.last().properties@, docs.len() as usize, name, tok),
                ),
            ));
            if 1 <= id <= docs.len() - 1 {
                assert(docs.drop_last()[id - 1] == docs[id - 1]);
            }
            if id == docs.len() {
                assert(docs[id - 1] == docs.last());
                assert(doc_has_text_token(docs[id - 1], name, tok) == (exists|j: int|
                    0 <= j < docs.last().properties@.len() && prop_has_text_token(
                        #[trigger] docs.last().properties@[j],
                        name,
                        tok,
                    )));
            }
        }
    }
}

/// Whether this property is an integer property named `name` carrying
/// exactly the value `val`.
pub open spec fn prop_has_integer_value(p: IndexProperty, name: Seq<char>, val: IntegerT) -> bool {
    match p.data {
        PropertyType::Integer(v) => p.name@ == name && v == val,
        _ => false,
    }
}

/// Whether some property of the document is an integer property named
/// `name` carrying exactly the value `val`.
pub open spec fn doc_has_integer_value(
    d: ProcessedDocument,
    name: Seq<char>,
    val: IntegerT,
) -> bool {
    exists|j: int|
        0 <= j < d.properties@.len() && prop_has_integer_value(
            #[trigger] d.properties@[j],
            name,
            val,
        )
}

/// One document's integer contribution for (`name`, `val`) carries exactly
/// its own id — when some property matches — and nothing otherwise.
proof fn lemma_doc_integer_ids(props: Seq<IndexProperty>, d: DocId, name: Seq<char>, val: IntegerT)
    ensures
        doc_ids_of(doc_integer_entries(props, d, name, val)) == if exists|j: int|
            0 <= j < props.len() && prop_has_integer_value(#[trigger] props[j], name, val) {
            Set::<DocId>::empty().insert(d)
        } else {
            Set::<DocId>::empty()
        },
    decreases props.len(),
{
    if props.len() == 0 {
        assert(doc_ids_of(Seq::<WordFrequency>::empty()) =~= Set::<DocId>::empty());
    } else {
        lemma_doc_integer_ids(props.drop_last(), d, name, val);
        lemma_doc_ids_concat(
            doc_integer_entries(props.drop_last(), d, name, val),
            prop_integer_entry(props.last(), d, name, val),
        );
        let last_entry = prop_integer_entry(props.last(), d, name, val);
        if prop_has_integer_value(props.last(), name, val) {
            assert(last_entry.len() == 1 && last_entry[0].doc_id == d);
            assert(doc_ids_of(last_entry) =~= Set::<DocId>::empty().insert(d)) by {
                assert(last_entry[0].doc_id == d);
            }
        } else {
            assert(last_entry =~= Seq::<WordFrequency>::empty());
            assert(doc_ids_of(last_entry) =~= Set::<DocId>::empty());
        }
        if exists|j: int|
            0 <= j < props.len() && prop_has_integer_value(#[trigger] props[j], name, val) {
            let j = choose|j: int|
                0 <= j < props.len() && prop_has_integer_value(#[trigger] props[j], name, val);
            if j < props.len() - 1 {
                assert(prop_has_integer_value(props.drop_last()[j], name, val));
            }
        }
        if exists|j: int|
            0 <= j < props.drop_last().len() && prop_has_integer_value(
                #[trigger] props.drop_last()[j],
                name,
                val,
            ) {
            let j = choose|j: int|
                0 <= j < props.drop_last().len() && prop_has_integer_value(
                    #[trigger] props.drop_last()[j],
                    name,
                    val,
                );
            assert(prop_has_integer_value(props[j], name, val));
        }
        assert(doc_ids_of(doc_integer_entries(props, d, name, val)) =~= if exists|j: int|
            0 <= j < props.len() && prop_has_integer_value(#[trigger] props[j], name, val) {
            Set::<DocId>::empty().insert(d)
        } else {
            Set::<DocId>::empty()
        });
    }
}

/// Law: for every built index and every integer condition, the query
/// returns exactly the ids of the documents carrying that value under that
/// property — no others, and never an error.
pub proof fn lemma_integer_query_exact(
    docs: Seq<ProcessedDocument>,
    name: Seq<char>,
    val: IntegerT,
)
    requires
        docs.len() <= usize::MAX,
    ensures
        forall|id: DocId|
            #[trigger] doc_ids_of(integer_entries(docs, name, val)).contains(id) <==> (1 <= id
                <= docs.len() && doc_has_integer_value(docs[id - 1], name, val)),
    decreases docs.len(),
{
    if docs.len() == 0 {
        assert(doc_ids_of(Seq::<WordFrequency>::empty()) =~= Set::<DocId>::empty());
    } else {
        lemma_integer_query_exact(docs.drop_last(), name, val);
        lemma_doc_ids_concat(
            integer_entries(docs.drop_last(), name, val),
            doc_integer_entries(docs.last().properties@, docs.len() as usize, name, val),
        );
        lemma_doc_integer_ids(docs.last().properties@, docs.len() as usize, name, val);
        assert forall|id: DocId|
            #[trigger] doc_ids_of(integer_entries(docs, name, val)).contains(id) <==> (1 <= id
                <= docs.len() && doc_has_integer_value(docs[id - 1], name, val)) by {
            assert(doc_ids_of(integer_entries(docs, name, val)) == doc_ids_of(
                integer_entries(docs.drop_last(), name, val),
            ).union(
                doc_ids_of(
                    doc_integer_entries(docs.last().properties@, docs.len() as usize, name, val),
                ),
            ));
            if 1 <= id <= docs.len() - 1 {
                assert(docs.drop_last()[id - 1] == docs[id - 1]);
            }
            if id == docs.len() {
                assert(docs[id - 1] == docs.last());
                assert(doc_has_integer_value(docs[id - 1], name, val) == (exists|j: int|
                    0 <= j < docs.last().properties@.len() && prop_has_integer_value(
                        #[trigger] docs.last().properties@[j],
                        name,
                        val,
                    )));
            }
        }
    }
}

/// Law: querying a property name no document ever carried matches no
/// documents — the result is the empty set, not an error.
pub proof fn lemma_unindexed_property_empty(
    docs: Seq<ProcessedDocument>,
    name: Seq<char>,
    tok: Seq<char>,
    val: IntegerT,
)
    requires
        docs.len() <= usize::MAX,
        forall|i: int, j: int|
            0 <= i < docs.len() && 0 <= j < docs[i].properties@.len() ==> (#[trigger] docs[
                i
            ].properties@[j]).name@ != name,
    ensures
        doc_ids_of(text_entries(docs, name, tok)) == Set::<DocId>::empty(),
        doc_ids_of(integer_entries(docs, name, val)) == Set::<DocId>::empty(),
{
    lemma_text_query_exact(docs, name, tok);
    lemma_integer_query_exact(docs, name, val);
    assert forall|id: DocId| !doc_ids_of(text_entries(docs, name, tok)).contains(id) by {
        if doc_ids_of(text_entries(docs, name, tok)).contains(id) {
            let j = choose|j: int|
                0 <= j < docs[id - 1].properties@.len() && prop_has_text_token(
                    #[trigger] docs[id - 1].properties@[j],
                    name,
                    tok,
                );
            assert(docs[id - 1].properties@[j].name@ != name);
        }
    }
    assert forall|id: DocId| !doc_ids_of(integer_entries(docs, name, val)).contains(id) by {
        if doc_ids_of(integer_entries(docs, name, val)).contains(id) {
            let j = choose|j: int|
                0 <= j < docs[id - 1].properties@.len() && prop_has_integer_value(
                    #[trigger] docs[id - 1].properties@[j],
                    name,
                    val,
                );
            assert(docs[id - 1].properties@[j].name@ != name);
        }
    }
    assert(doc_ids_of(text_entries(docs, name, tok)) =~= Set::<DocId>::empty());
    assert(doc_ids_of(integer_entries(docs, name, val)) =~= Set::<DocId>::empty());
}

} // verus!
