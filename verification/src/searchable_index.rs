//! The searchable index: one property map per value type, document id
//! assignment, and the one-pass batch build.
//!
//! Document ids start at 1 and increase by one per document, in input order,
//! independently of how many properties a document carries. The index is
//! built once and read-only afterwards.

use vstd::prelude::*;

use crate::index_types::DocId;
use crate::index_types::IndexProperty;
use crate::index_types::IntegerT;
use crate::index_types::PropertyType;
use crate::index_types::SearchError;
use crate::index_types::SortableTextT;
use crate::index_types::TextT;
use crate::index_types::WordFrequency;
use crate::property_map::PropertyMap;
use crate::property_map::ValueMap;
use crate::tokenize::token_count;
use crate::tokenize::token_counts;
use crate::tokenize::TokenCount;

verus! {

/// A document after upstream processing (stop-word removal, normalization):
/// an ordered sequence of named, typed properties.
#[derive(Clone)]
pub struct ProcessedDocument {
    pub properties: Vec<IndexProperty>,
}

impl ProcessedDocument {
    pub fn new(properties: Vec<IndexProperty>) -> (r: Self)
        ensures
            r.properties == properties,
    {
        ProcessedDocument { properties }
    }
}

/// Whether this property's value type can be indexed. `SortableText` is
/// reserved for future ordered queries and is not yet supported.
pub open spec fn prop_supported(p: IndexProperty) -> bool {
    !(p.data is SortableText)
}

/// Whether every property of the document can be indexed.
pub open spec fn doc_supported(d: ProcessedDocument) -> bool {
    forall|j: int| 0 <= j < d.properties@.len() ==> prop_supported(#[trigger] d.properties@[j])
}

/// Whether every property of every document can be indexed.
pub open spec fn docs_supported(docs: Seq<ProcessedDocument>) -> bool {
    forall|i: int| 0 <= i < docs.len() ==> doc_supported(#[trigger] docs[i])
}

/// The posting entry a text property named `pname` with content `text`
/// contributes to the postings of (`name`, `tok`) for document `doc_id`:
/// one entry carrying the token's occurrence count, if the names match and
/// the token occurs; nothing otherwise.
pub open spec fn text_entry_of(
    pname: Seq<char>,
    text: Seq<char>,
    doc_id: DocId,
    name: Seq<char>,
    tok: Seq<char>,
) -> Seq<WordFrequency> {
    if pname == name && token_count(text, tok) > 0 {
        seq![WordFrequency { doc_id, frequency: token_count(text, tok) as usize }]
    } else {
        Seq::empty()
    }
}

/// What one property contributes to the text postings of (`name`, `tok`).
pub open spec fn prop_text_entry(
    p: IndexProperty,
    doc_id: DocId,
    name: Seq<char>,
    tok: Seq<char>,
) -> Seq<WordFrequency> {
    match p.data {
        PropertyType::Text(t) => text_entry_of(p.name@, t@, doc_id, name, tok),
        _ => Seq::empty(),
    }
}

/// The posting entry an integer property named `pname` with value `v`
/// contributes to the postings of (`name`, `val`): one presence entry of
/// frequency 1 on an exact match; nothing otherwise.
pub open spec fn integer_entry_of(
    pname: Seq<char>,
    v: IntegerT,
    doc_id: DocId,
    name: Seq<char>,
    val: IntegerT,
) -> Seq<WordFrequency> {
    if pname == name && v == val {
        seq![WordFrequency { doc_id, frequency: 1 }]
    } else {
        Seq::empty()
    }
}

/// What one property contributes to the integer postings of (`name`, `val`).
pub open spec fn prop_integer_entry(
    p: IndexProperty,
    doc_id: DocId,
    name: Seq<char>,
    val: IntegerT,
) -> Seq<WordFrequency> {
    match p.data {
        PropertyType::Integer(v) => integer_entry_of(p.name@, v, doc_id, name, val),
        _ => Seq::empty(),
    }
}

/// Whether the text holds at least one token: only then does indexing it
/// record anything under the property's name.
pub open spec fn text_has_token(text: Seq<char>) -> bool {
    exists|tok: Seq<char>| token_count(text, tok) > 0
}

/// Whether indexing this property records something in the text store under
/// property `name`: a text property of that name whose content has a token.
pub open spec fn prop_adds_text_name(p: IndexProperty, name: Seq<char>) -> bool {
    match p.data {
        PropertyType::Text(t) => p.name@ == name && text_has_token(t@),
        _ => false,
    }
}

/// Whether indexing this property records something in the integer store
/// under property `name`.
pub open spec fn prop_adds_integer_name(p: IndexProperty, name: Seq<char>) -> bool {
    match p.data {
        PropertyType::Integer(_) => p.name@ == name,
        _ => false,
    }
}

/// Whether indexing `docs` records anything in the text store under
/// property `name`.
pub open spec fn docs_add_text_name(docs: Seq<ProcessedDocument>, name: Seq<char>) -> bool {
    exists|i: int, j: int|
        0 <= i < docs.len() && 0 <= j < docs[i].properties@.len() && prop_adds_text_name(
            #[trigger] docs[i].properties@[j],
            name,
        )
}

/// Whether indexing `docs` records anything in the integer store under
/// property `name`.
pub open spec fn docs_add_integer_name(docs: Seq<ProcessedDocument>, name: Seq<char>) -> bool {
    exists|i: int, j: int|
        0 <= i < docs.len() && 0 <= j < docs[i].properties@.len() && prop_adds_integer_name(
            #[trigger] docs[i].properties@[j],
            name,
        )
}

/// The text postings document `doc_id` contributes for (`name`, `tok`):
/// its properties' contributions, in property order.
pub open spec fn doc_text_entries(
    props: Seq<IndexProperty>,
    doc_id: DocId,
    name: Seq<char>,
    tok: Seq<char>,
) -> Seq<WordFrequency>
    decreases props.len(),
{
    if props.len() == 0 {
        Seq::empty()
    } else {
        doc_text_entries(props.drop_last(), doc_id, name, tok) + prop_text_entry(
            props.last(),
            doc_id,
            name,
            tok,
        )
    }
}

/// The integer postings document `doc_id` contributes for (`name`, `val`).
pub open spec fn doc_integer_entries(
    props: Seq<IndexProperty>,
    doc_id: DocId,
    name: Seq<char>,
    val: IntegerT,
) -> Seq<WordFrequency>
    decreases props.len(),
{
    if props.len() == 0 {
        Seq::empty()
    } else {
        doc_integer_entries(props.drop_last(), doc_id, name, val) + prop_integer_entry(
            props.last(),
            doc_id,
            name,
            val,
        )
    }
}

/// The full text posting list for (`name`, `tok`) after indexing `docs`,
/// document `i` (0-based) carrying id `i + 1`: entries accumulate in
/// document order and are never deduplicated or overwritten.
pub open spec fn text_entries(
    docs: Seq<ProcessedDocument>,
    name: Seq<char>,
    tok: Seq<char>,
) -> Seq<WordFrequency>
    decreases docs.len(),
{
    if docs.len() == 0 {
        Seq::empty()
    } else {
        text_entries(docs.drop_last(), name, tok) + doc_text_entries(
            docs.last().properties@,
            docs.len() as usize,
            name,
            tok,
        )
    }
}

/// The full integer posting list for (`name`, `val`) after indexing `docs`.
pub open spec fn integer_entries(
    docs: Seq<ProcessedDocument>,
    name: Seq<char>,
    val: IntegerT,
) -> Seq<WordFrequency>
    decreases docs.len(),
{
    if docs.len() == 0 {
        Seq::empty()
    } else {
        integer_entries(docs.drop_last(), name, val) + doc_integer_entries(
            docs.last().properties@,
            docs.len() as usize,
            name,
            val,
        )
    }
}

/// An index over a fixed batch of documents: one posting-list store per
/// value type, plus the documents themselves for diagnostics.
pub struct SearchableIndex {
    next_id: DocId,
    properties_text_word_map: PropertyMap<TextT>,
    properties_integer_word_map: PropertyMap<IntegerT>,
    properties_sortable_text_word_map: PropertyMap<SortableTextT>,
    documents: Vec<ProcessedDocument>,
}

impl SearchableIndex {
    /// The text posting list recorded under (`name`, `tok`).
    pub closed spec fn spec_text_postings(&self, name: Seq<char>, tok: Seq<char>) -> Seq<
        WordFrequency,
    > {
        self.properties_text_word_map.spec_postings(name, tok)
    }

    /// Whether any text value was indexed under property `name`.
    pub closed spec fn spec_has_text(&self, name: Seq<char>) -> bool {
        self.properties_text_word_map.spec_has(name)
    }

    /// The integer posting list recorded under (`name`, `val`).
    pub closed spec fn spec_integer_postings(&self, name: Seq<char>, val: IntegerT) -> Seq<
        WordFrequency,
    > {
        self.properties_integer_word_map.spec_postings(name, val)
    }

    /// Whether any integer value was indexed under property `name`.
    pub closed spec fn spec_has_integer(&self, name: Seq<char>) -> bool {
        self.properties_integer_word_map.spec_has(name)
    }

    /// How many documents the index stores.
    pub closed spec fn spec_doc_count(&self) -> nat {
        self.documents@.len()
    }

    /// The id the next inserted document would receive.
    pub closed spec fn spec_next_id(&self) -> DocId {
        self.next_id
    }

    /// An index with no documents: every posting list is empty and the
    /// first document id to be assigned is 1.
    pub fn empty() -> (r: Self)
        ensures
            r.spec_doc_count() == 0,
            r.spec_next_id() == 1,
            forall|name: Seq<char>, tok: Seq<char>|
                r.spec_text_postings(name, tok) == Seq::<WordFrequency>::empty(),
            forall|name: Seq<char>, val: IntegerT|
                r.spec_integer_postings(name, val) == Seq::<WordFrequency>::empty(),
            forall|name: Seq<char>| !r.spec_has_text(name),
            forall|name: Seq<char>| !r.spec_has_integer(name),
    {
        SearchableIndex {
            next_id: 1,
            properties_sortable_text_word_map: PropertyMap::new(),
            properties_text_word_map: PropertyMap::new(),
            properties_integer_word_map: PropertyMap::new(),
            documents: Vec::new(),
        }
    }

    fn increment_id(&mut self)
        requires
            old(self).next_id < usize::MAX,
        ensures
            final(self).next_id == old(self).next_id + 1,
            final(self).properties_text_word_map == old(self).properties_text_word_map,
            final(self).properties_integer_word_map == old(self).properties_integer_word_map,
            final(self).properties_sortable_text_word_map == old(
                self,
            ).properties_sortable_text_word_map,
            final(self).documents == old(self).documents,
    {
        self.next_id += 1;
    }

    fn insert_integer_property(&mut self, name: &str, data: IntegerT)
        ensures
            forall|n2: Seq<char>, v: IntegerT|
                final(self).properties_integer_word_map.spec_postings(n2, v) == old(
                    self,
                ).properties_integer_word_map.spec_postings(n2, v) + integer_entry_of(
                    name@,
                    data,
                    old(self).next_id,
                    n2,
                    v,
                ),
            forall|n2: Seq<char>|
                final(self).properties_integer_word_map.spec_has(n2) == (old(
                    self,
                ).properties_integer_word_map.spec_has(n2) || n2 == name@),
            final(self).properties_text_word_map == old(self).properties_text_word_map,
            final(self).properties_sortable_text_word_map == old(
                self,
            ).properties_sortable_text_word_map,
            final(self).documents == old(self).documents,
            final(self).next_id == old(self).next_id,
    {
        let ghost d = self.next_id;
        let ghost m_old = self.properties_integer_word_map;
        let wf = WordFrequency { doc_id: self.next_id, frequency: 1 };
        self.properties_integer_word_map.insert_data(name, data, wf);
        proof {
            let m = self.properties_integer_word_map;
            assert forall|n2: Seq<char>, v: IntegerT| #[trigger] m.spec_postings(n2, v)
                == m_old.spec_postings(n2, v) + integer_entry_of(name@, data, d, n2, v) by {
                if n2 == name@ && v == data {
                    assert(m.spec_postings(n2, v) == m_old.spec_postings(n2, v).push(wf));
                    assert(m_old.spec_postings(n2, v).push(wf) =~= m_old.spec_postings(n2, v)
                        + seq![wf]);
                } else {
                    assert(m.spec_postings(n2, v) == m_old.spec_postings(n2, v));
                    assert(m_old.spec_postings(n2, v) + Seq::<WordFrequency>::empty()
                        =~= m_old.spec_postings(n2, v));
                }
            }
        }
    }

    fn insert_text_property(&mut self, name: &str, text: &str)
        ensures
            forall|n2: Seq<char>, tok: Seq<char>|
                final(self).properties_text_word_map.spec_postings(n2, tok) == old(
                    self,
                ).properties_text_word_map.spec_postings(n2, tok) + text_entry_of(
                    name@,
                    text@,
                    old(self).next_id,
                    n2,
                    tok,
                ),
            forall|n2: Seq<char>|
                final(self).properties_text_word_map.spec_has(n2) == (old(
                    self,
                ).properties_text_word_map.spec_has(n2) || (n2 == name@ && text_has_token(
                    text@,
                ))),
            final(self).properties_integer_word_map == old(self).properties_integer_word_map,
            final(self).properties_sortable_text_word_map == old(
                self,
            ).properties_sortable_text_word_map,
            final(self).documents == old(self).documents,
            final(self).next_id == old(self).next_id,
    {
        let counts: Vec<TokenCount> = token_counts(text);
        let ghost d = self.next_id;
        let ghost m_old = self.properties_text_word_map;
        let n = counts.len();
        let mut idx: usize = 0;
        while idx < n
            invariant
                d == old(self).next_id,
                m_old == old(self).properties_text_word_map,
                n == counts@.len(),
                idx <= n,
                self.next_id == d,
                self.properties_integer_word_map == old(self).properties_integer_word_map,
                self.properties_sortable_text_word_map == old(
                    self,
                ).properties_sortable_text_word_map,
                self.documents == old(self).documents,
                forall|p: int, q: int| 0 <= p < q < n ==> counts@[p].token@ != counts@[q].token@,
                forall|p: int|
                    0 <= p < n ==> (#[trigger] counts@[p]).count == token_count(
                        text@,
                        counts@[p].token@,
                    ),
                forall|p: int| 0 <= p < n ==> (#[trigger] counts@[p]).count > 0,
                forall|tok: Seq<char>|
                    token_count(text@, tok) > 0 ==> exists|p: int|
                        0 <= p < n && (#[trigger] counts@[p]).token@ == tok,
                forall|n2: Seq<char>|
                    #[trigger] self.properties_text_word_map.spec_has(n2) == (m_old.spec_has(n2)
                        || (n2 == name@ && idx > 0)),
                forall|n2: Seq<char>, tok: Seq<char>|
                    #[trigger] self.properties_text_word_map.spec_postings(n2, tok) == if (n2
                        == name@ && contributed(counts@, idx as int, tok)) {
                        m_old.spec_postings(n2, tok).push(
                            WordFrequency {
                                doc_id: d,
                                frequency: token_count(text@, tok) as usize,
                            },
                        )
                    } else {
                        m_old.spec_postings(n2, tok)
                    },
            decreases n - idx,
        {
            let tok_string = counts[idx].token.clone();
            let freq = counts[idx].count;
            let wf = WordFrequency { doc_id: self.next_id, frequency: freq };
            let ghost m_prev = self.properties_text_word_map;
            let ghost w = counts@[idx as int].token@;
            self.properties_text_word_map.insert_data(name, tok_string, wf);
            proof {
                assert(tok_string@ == w);
                assert(counts@[idx as int].count == token_count(text@, w));
                if contributed(counts@, idx as int, w) {
                    let pp = choose|pp: int|
                        0 <= pp < idx && (#[trigger] counts@[pp]).token@ == w;
                    assert(counts@[pp].token@ != counts@[idx as int].token@);
                }
                assert(m_prev.spec_postings(name@, w) == m_old.spec_postings(name@, w));
                assert forall|n2: Seq<char>, tok: Seq<char>|
                    #[trigger] self.properties_text_word_map.spec_postings(n2, tok) == if (n2
                        == name@ && contributed(counts@, idx as int + 1, tok)) {
                        m_old.spec_postings(n2, tok).push(
                            WordFrequency {
                                doc_id: d,
                                frequency: token_count(text@, tok) as usize,
                            },
                        )
                    } else {
                        m_old.spec_postings(n2, tok)
                    } by {
                    if n2 == name@ && tok == w {
                        assert(contributed(counts@, idx as int + 1, tok)) by {
                            assert(counts@[idx as int].token@ == tok);
                        }
                        assert(self.properties_text_word_map.spec_postings(n2, tok)
                            == m_prev.spec_postings(n2, tok).push(wf));
                    } else {
                        assert(self.properties_text_word_map.spec_postings(n2, tok)
                            == m_prev.spec_postings(n2, tok));
                        if tok != w {
                            assert(contributed(counts@, idx as int + 1, tok) == contributed(
                                counts@,
                                idx as int,
                                tok,
                            )) by {
                                if contributed(counts@, idx as int + 1, tok) {
                                    let pp = choose|pp: int|
                                        0 <= pp < idx + 1 && (#[trigger] counts@[pp]).token@
                                            == tok;
                                    if pp < idx {
                                        assert(contributed(counts@, idx as int, tok));
                                    } else {
                                        assert(counts@[idx as int].token@ == w);
                                    }
                                }
                                if contributed(counts@, idx as int, tok) {
                                    let pp = choose|pp: int|
                                        0 <= pp < idx && (#[trigger] counts@[pp]).token@ == tok;
                                    assert(0 <= pp < idx + 1 && counts@[pp].token@ == tok);
                                }
                            }
                        }
                    }
                }
            }
            idx += 1;
        }
        proof {
            let m = self.properties_text_word_map;
            // the name was recorded exactly when the text had a token
            assert((n > 0) == text_has_token(text@)) by {
                if n > 0 {
                    assert(counts@[0].count == token_count(text@, counts@[0].token@) > 0);
                }
                if text_has_token(text@) {
                    let tok = choose|tok: Seq<char>| token_count(text@, tok) > 0;
                    let pp = choose|pp: int|
                        0 <= pp < counts@.len() && (#[trigger] counts@[pp]).token@ == tok;
                    assert(0 <= pp < n);
                }
            }
            assert forall|n2: Seq<char>| #[trigger] m.spec_has(n2) == (m_old.spec_has(n2) || (n2
                == name@ && text_has_token(text@))) by {}
            assert forall|n2: Seq<char>, tok: Seq<char>| #[trigger] m.spec_postings(n2, tok)
                == m_old.spec_postings(n2, tok) + text_entry_of(name@, text@, d, n2, tok) by {
                if n2 == name@ && token_count(text@, tok) > 0 {
                    assert(contributed(counts@, n as int, tok)) by {
                        let pp = choose|pp: int|
                            0 <= pp < n && (#[trigger] counts@[pp]).token@ == tok;
                        assert(counts@[pp].token@ == tok);
                    }
                    assert(m_old.spec_postings(n2, tok).push(
                        WordFrequency { doc_id: d, frequency: token_count(text@, tok) as usize },
                    ) =~= m_old.spec_postings(n2, tok) + text_entry_of(name@, text@, d, n2, tok));
                } else {
                    if n2 == name@ && contributed(counts@, n as int, tok) {
                        let pp = choose|pp: int|
                            0 <= pp < n && (#[trigger] counts@[pp]).token@ == tok;
                        assert(counts@[pp].count == token_count(text@, tok));
                    }
                    assert(m_old.spec_postings(n2, tok) + Seq::<WordFrequency>::empty()
                        =~= m_old.spec_postings(n2, tok));
                }
            }
        }
    }

    /// Dispatches one property to the insertion routine of its value type.
    /// `SortableText` is rejected with a typed outcome, never a crash.
    fn insert_property(&mut self, prop: &IndexProperty) -> (r: Result<(), SearchError>)
        ensures
            match r {
                Ok(_) => {
                    &&& prop_supported(*prop)
                    &&& final(self).next_id == old(self).next_id
                    &&& final(self).documents == old(self).documents
                    &&& final(self).properties_sortable_text_word_map == old(
                        self,
                    ).properties_sortable_text_word_map
                    &&& (forall|n2: Seq<char>, tok: Seq<char>|
                        final(self).properties_text_word_map.spec_postings(n2, tok) == old(
                            self,
                        ).properties_text_word_map.spec_postings(n2, tok) + prop_text_entry(
                            *prop,
                            old(self).next_id,
                            n2,
                            tok,
                        ))
                    &&& (forall|n2: Seq<char>, v: IntegerT|
                        final(self).properties_integer_word_map.spec_postings(n2, v) == old(
                            self,
                        ).properties_integer_word_map.spec_postings(n2, v) + prop_integer_entry(
                            *prop,
                            old(self).next_id,
                            n2,
                            v,
                        ))
                    &&& (forall|n2: Seq<char>|
                        #[trigger] final(self).properties_text_word_map.spec_has(n2) == (old(
                            self,
                        ).properties_text_word_map.spec_has(n2) || prop_adds_text_name(*prop, n2)))
                    &&& (forall|n2: Seq<char>|
                        #[trigger] final(self).properties_integer_word_map.spec_has(n2) == (old(
                            self,
                        ).properties_integer_word_map.spec_has(n2) || prop_adds_integer_name(
                            *prop,
                            n2,
                        )))
                },
                Err(e) => {
                    &&& e == SearchError::UnsupportedOperation
                    &&& !prop_supported(*prop)
                    &&& *final(self) == *old(self)
                },
            },
    {
        match &prop.data {
            PropertyType::Integer(data) => {
                self.insert_integer_property(prop.name.as_str(), *data);
                proof {
                    assert forall|n2: Seq<char>, tok: Seq<char>|
                        #[trigger] self.properties_text_word_map.spec_postings(n2, tok) == old(
                            self,
                        ).properties_text_word_map.spec_postings(n2, tok) + prop_text_entry(
                            *prop,
                            old(self).next_id,
                            n2,
                            tok,
                        ) by {
                        assert(self.properties_text_word_map.spec_postings(n2, tok)
                            + Seq::<WordFrequency>::empty()
                            =~= self.properties_text_word_map.spec_postings(n2, tok));
                    }
                }
                Ok(())
            },
            PropertyType::Text(text) => {
                self.insert_text_property(prop.name.as_str(), text.as_str());
                proof {
                    assert forall|n2: Seq<char>, v: IntegerT|
                        #[trigger] self.properties_integer_word_map.spec_postings(n2, v) == old(
                            self,
                        ).properties_integer_word_map.spec_postings(n2, v) + prop_integer_entry(
                            *prop,
                            old(self).next_id,
                            n2,
                            v,
                        ) by {
                        assert(self.properties_integer_word_map.spec_postings(n2, v)
                            + Seq::<WordFrequency>::empty()
                            =~= self.properties_integer_word_map.spec_postings(n2, v));
                    }
                }
                Ok(())
            },
            PropertyType::SortableText(_) => Err(SearchError::UnsupportedOperation),
        }
    }

    /// Builds the index from a batch of processed documents, assigning ids
    /// 1, 2, ... in input order. The one construction path: there is no
    /// incremental insert, update or delete. Fails with a typed
    /// `UnsupportedOperation` outcome if any document carries a
    /// `SortableText` property.
    pub fn from_documents(docs: &Vec<ProcessedDocument>) -> (r: Result<Self, SearchError>)
        requires
            docs@.len() < usize::MAX,
        ensures
            match r {
                Ok(index) => docs_supported(docs@) && index.spec_doc_count() == docs@.len()
                    && index.spec_next_id() == docs@.len() + 1 && (forall|
                    name: Seq<char>,
                    tok: Seq<char>,
                |
                    index.spec_text_postings(name, tok) == text_entries(docs@, name, tok)) && (
                forall|name: Seq<char>, val: IntegerT|
                    index.spec_integer_postings(name, val) == integer_entries(docs@, name, val))
                    && (forall|name: Seq<char>|
                    index.spec_has_text(name) == docs_add_text_name(docs@, name)) && (forall|
                    name: Seq<char>,
                |
                    index.spec_has_integer(name) == docs_add_integer_name(docs@, name)),
                Err(e) => e == SearchError::UnsupportedOperation && !docs_supported(docs@),
            },
    {
        let mut result = SearchableIndex::empty();
        let n = docs.len();
        let mut i: usize = 0;
        proof {
            assert(docs@.take(0) =~= Seq::<ProcessedDocument>::empty());
        }
        while i < n
            invariant
                n == docs@.len(),
                n < usize::MAX,
                i <= n,
                result.next_id == i + 1,
                result.spec_doc_count() == i,
                docs_supported(docs@.take(i as int)),
                forall|name: Seq<char>, tok: Seq<char>|
                    #[trigger] result.spec_text_postings(name, tok) == text_entries(
                        docs@.take(i as int),
                        name,
                        tok,
                    ),
                forall|name: Seq<char>, val: IntegerT|
                    #[trigger] result.spec_integer_postings(name, val) == integer_entries(
                        docs@.take(i as int),
                        name,
                        val,
                    ),
                forall|name: Seq<char>|
                    #[trigger] result.spec_has_text(name) == docs_add_text_name(
                        docs@.take(i as int),
                        name,
                    ),
                forall|name: Seq<char>|
                    #[trigger] result.spec_has_integer(name) == docs_add_integer_name(
                        docs@.take(i as int),
                        name,
                    ),
            decreases n - i,
        {
            let doc = &docs[i];
            let ghost docs_prefix = docs@.take(i as int);
            let ghost text_before = result.properties_text_word_map;
            let ghost int_before = result.properties_integer_word_map;
            let ghost d = (i + 1) as DocId;
            let m = doc.properties.len();
            let mut j: usize = 0;
            proof {
                assert(doc.properties@.take(0) =~= Seq::<IndexProperty>::empty());
                assert forall|name: Seq<char>, tok: Seq<char>|
                    #[trigger] result.spec_text_postings(name, tok) == text_entries(
                        docs_prefix,
                        name,
                        tok,
                    ) + doc_text_entries(doc.properties@.take(0), d, name, tok) by {
                    assert(text_entries(docs_prefix, name, tok) + Seq::<WordFrequency>::empty()
                        =~= text_entries(docs_prefix, name, tok));
                }
                assert forall|name: Seq<char>, val: IntegerT|
                    #[trigger] result.spec_integer_postings(name, val) == integer_entries(
                        docs_prefix,
                        name,
                        val,
                    ) + doc_integer_entries(doc.properties@.take(0), d, name, val) by {
                    assert(integer_entries(docs_prefix, name, val) + Seq::<WordFrequency>::empty()
                        =~= integer_entries(docs_prefix, name, val));
                }
            }
            while j < m
                invariant
                    n == docs@.len(),
                    i < n,
                    docs_prefix == docs@.take(i as int),
                    doc == &docs@[i as int],
                    m == doc.properties@.len(),
                    j <= m,
                    d == i + 1,
                    result.next_id == d,
                    result.spec_doc_count() == i,
                    forall|k: int| 0 <= k < j ==> prop_supported(#[trigger] doc.properties@[k]),
                    forall|name: Seq<char>, tok: Seq<char>|
                        #[trigger] result.spec_text_postings(name, tok) == text_entries(
                            docs_prefix,
                            name,
                            tok,
                        ) + doc_text_entries(doc.properties@.take(j as int), d, name, tok),
                    forall|name: Seq<char>, val: IntegerT|
                        #[trigger] result.spec_integer_postings(name, val) == integer_entries(
                            docs_prefix,
                            name,
                            val,
                        ) + doc_integer_entries(doc.properties@.take(j as int), d, name, val),
                    forall|name: Seq<char>|
                        #[trigger] result.spec_has_text(name) == (docs_add_text_name(
                            docs_prefix,
                            name,
                        ) || props_add_text_name(doc.properties@, j as int, name)),
                    forall|name: Seq<char>|
                        #[trigger] result.spec_has_integer(name) == (docs_add_integer_name(
                            docs_prefix,
                            name,
                        ) || props_add_integer_name(doc.properties@, j as int, name)),
                decreases m - j,
            {
                let prop = &doc.properties[j];
                let ghost before = result;
                match result.insert_property(prop) {
                    Ok(_) => {},
                    Err(e) => {
                        proof {
                            assert(!prop_supported(doc.properties@[j as int]));
                            assert(!doc_supported(docs@[i as int]));
                            assert(!docs_supported(docs@));
                        }
                        return Err(e);
                    },
                }
                proof {
                    let props = doc.properties@;
                    assert(*prop == props[j as int]);
                    assert forall|name: Seq<char>, tok: Seq<char>|
                        #[trigger] result.spec_text_postings(name, tok) == text_entries(
                            docs_prefix,
                            name,
                            tok,
                        ) + doc_text_entries(props.take(j as int + 1), d, name, tok) by {
                        assert(result.properties_text_word_map.spec_postings(name, tok)
                            == before.properties_text_word_map.spec_postings(name, tok)
                            + prop_text_entry(props[j as int], d, name, tok));
                        assert(before.spec_text_postings(name, tok) == text_entries(
                            docs_prefix,
                            name,
                            tok,
                        ) + doc_text_entries(props.take(j as int), d, name, tok));
                        assert(props.take(j as int + 1).drop_last() =~= props.take(j as int));
                        assert(props.take(j as int + 1).last() == props[j as int]);
                        assert(doc_text_entries(props.take(j as int + 1), d, name, tok)
                            == doc_text_entries(props.take(j as int), d, name, tok)
                            + prop_text_entry(props[j as int], d, name, tok));
                        assert((text_entries(docs_prefix, name, tok) + doc_text_entries(
                            props.take(j as int),
                            d,
                            name,
                            tok,
                        )) + prop_text_entry(props[j as int], d, name, tok) =~= text_entries(
                            docs_prefix,
                            name,
                            tok,
                        ) + (doc_text_entries(props.take(j as int), d, name, tok)
                            + prop_text_entry(props[j as int], d, name, tok)));
                    }
                    assert forall|name: Seq<char>, val: IntegerT|
                        #[trigger] result.spec_integer_postings(name, val) == integer_entries(
                            docs_prefix,
                            name,
                            val,
                        ) + doc_integer_entries(props.take(j as int + 1), d, name, val) by {
                        assert(result.properties_integer_word_map.spec_postings(name, val)
                            == before.properties_integer_word_map.spec_postings(name, val)
                            + prop_integer_entry(props[j as int], d, name, val));
                        assert(before.spec_integer_postings(name, val) == integer_entries(
                            docs_prefix,
                            name,
                            val,
                        ) + doc_integer_entries(props.take(j as int), d, name, val));
                        assert(props.take(j as int + 1).drop_last() =~= props.take(j as int));
                        assert(props.take(j as int + 1).last() == props[j as int]);
                        assert(doc_integer_entries(props.take(j as int + 1), d, name, val)
                            == doc_integer_entries(props.take(j as int), d, name, val)
                            + prop_integer_entry(props[j as int], d, name, val));
                        assert((integer_entries(docs_prefix, name, val) + doc_integer_entries(
                            props.take(j as int),
                            d,
                            name,
                            val,
                        )) + prop_integer_entry(props[j as int], d, name, val) =~= integer_entries(
                            docs_prefix,
                            name,
                            val,
                        ) + (doc_integer_entries(props.take(j as int), d, name, val)
                            + prop_integer_entry(props[j as int], d, name, val)));
                    }
                    assert forall|name: Seq<char>| #[trigger] result.spec_has_text(name) == (
                    docs_add_text_name(docs_prefix, name) || props_add_text_name(
                        props,
                        j as int + 1,
                        name,
                    )) by {
                        assert(result.properties_text_word_map.spec_has(name) == (
                        before.properties_text_word_map.spec_has(name) || prop_adds_text_name(
                            *prop,
                            name,
                        )));
                        assert(prop_adds_text_name(*prop, name) == prop_adds_text_name(
                            props[j as int],
                            name,
                        ));
                        assert(before.spec_has_text(name) == (docs_add_text_name(
                            docs_prefix,
                            name,
                        ) || props_add_text_name(props, j as int, name)));
                        if props_add_text_name(props, j as int + 1, name) {
                            let jj = choose|jj: int|
                                0 <= jj < j + 1 && prop_adds_text_name(
                                    #[trigger] props[jj],
                                    name,
                                );
                            if jj < j {
                                assert(props_add_text_name(props, j as int, name));
                            }
                        }
                        if props_add_text_name(props, j as int, name) {
                            let jj = choose|jj: int|
                                0 <= jj < j && prop_adds_text_name(#[trigger] props[jj], name);
                            assert(0 <= jj < j + 1 && prop_adds_text_name(props[jj], name));
                        }
                        if prop_adds_text_name(props[j as int], name) {
                            assert(props_add_text_name(props, j as int + 1, name));
                        }
                    }
                    assert forall|name: Seq<char>| #[trigger] result.spec_has_integer(name) == (
                    docs_add_integer_name(docs_prefix, name) || props_add_integer_name(
                        props,
                        j as int + 1,
                        name,
                    )) by {
                        assert(result.properties_integer_word_map.spec_has(name) == (
                        before.properties_integer_word_map.spec_has(name)
                            || prop_adds_integer_name(*prop, name)));
                        assert(prop_adds_integer_name(*prop, name) == prop_adds_integer_name(
                            props[j as int],
                            name,
                        ));
                        assert(before.spec_has_integer(name) == (docs_add_integer_name(
                            docs_prefix,
                            name,
                        ) || props_add_integer_name(props, j as int, name)));
                        if props_add_integer_name(props, j as int + 1, name) {
                            let jj = choose|jj: int|
                                0 <= jj < j + 1 && prop_adds_integer_name(
                                    #[trigger] props[jj],
                                    name,
                                );
                            if jj < j {
                                assert(props_add_integer_name(props, j as int, name));
                            }
                        }
                        if props_add_integer_name(props, j as int, name) {
                            let jj = choose|jj: int|
                                0 <= jj < j && prop_adds_integer_name(#[trigger] props[jj], name);
                            assert(0 <= jj < j + 1 && prop_adds_integer_name(props[jj], name));
                        }
                        if prop_adds_integer_name(props[j as int], name) {
                            assert(props_add_integer_name(props, j as int + 1, name));
                        }
                    }
                }
                j += 1;
            }
            let ghost filled = result;
            result.documents.push(doc.clone());
            result.increment_id();
            proof {
                assert(doc.properties@.take(m as int) =~= doc.properties@);
                assert(docs@.take(i as int + 1).drop_last() =~= docs@.take(i as int));
                assert(docs@.take(i as int + 1).last() == docs@[i as int]);
                assert(docs@.take(i as int + 1).len() == i + 1);
                assert(result.properties_text_word_map == filled.properties_text_word_map);
                assert(result.properties_integer_word_map == filled.properties_integer_word_map);
                assert forall|name: Seq<char>, tok: Seq<char>|
                    #[trigger] result.spec_text_postings(name, tok) == text_entries(
                        docs@.take(i as int + 1),
                        name,
                        tok,
                    ) by {
                    assert(filled.spec_text_postings(name, tok) == text_entries(
                        docs_prefix,
                        name,
                        tok,
                    ) + doc_text_entries(doc.properties@.take(m as int), d, name, tok));
                    assert(doc.properties@ == docs@[i as int].properties@);
                    assert(text_entries(docs@.take(i as int + 1), name, tok) == text_entries(
                        docs_prefix,
                        name,
                        tok,
                    ) + doc_text_entries(docs@[i as int].properties@, (i + 1) as usize, name, tok));
                }
                assert forall|name: Seq<char>, val: IntegerT|
                    #[trigger] result.spec_integer_postings(name, val) == integer_entries(
                        docs@.take(i as int + 1),
                        name,
                        val,
                    ) by {
                    assert(filled.spec_integer_postings(name, val) == integer_entries(
                        docs_prefix,
                        name,
                        val,
                    ) + doc_integer_entries(doc.properties@.take(m as int), d, name, val));
                    assert(doc.properties@ == docs@[i as int].properties@);
                    assert(integer_entries(docs@.take(i as int + 1), name, val) == integer_entries(
                        docs_prefix,
                        name,
                        val,
                    ) + doc_integer_entries(
                        docs@[i as int].properties@,
                        (i + 1) as usize,
                        name,
                        val,
                    ));
                }
                assert forall|k: int| 0 <= k < i + 1 implies doc_supported(
                    #[trigger] docs@.take(i as int + 1)[k],
                ) by {
                    if k < i {
                        assert(docs@.take(i as int + 1)[k] == docs@.take(i as int)[k]);
                    } else {
                        assert(docs@.take(i as int + 1)[k] == docs@[i as int]);
                    }
                }
                let t1 = docs@.take(i as int + 1);
                assert forall|name: Seq<char>| #[trigger] result.spec_has_text(name)
                    == docs_add_text_name(t1, name) by {
                    assert(filled.spec_has_text(name) == (docs_add_text_name(docs_prefix, name)
                        || props_add_text_name(doc.properties@, m as int, name)));
                    if docs_add_text_name(docs_prefix, name) {
                        let (ii, jj) = choose|ii: int, jj: int|
                            0 <= ii < docs_prefix.len() && 0 <= jj < docs_prefix[
                                ii
                            ].properties@.len() && prop_adds_text_name(
                                #[trigger] docs_prefix[ii].properties@[jj],
                                name,
                            );
                        assert(t1[ii] == docs_prefix[ii]);
                        assert(prop_adds_text_name(t1[ii].properties@[jj], name));
                        assert(docs_add_text_name(t1, name));
                    }
                    if props_add_text_name(doc.properties@, m as int, name) {
                        let jj = choose|jj: int|
                            0 <= jj < m && prop_adds_text_name(
                                #[trigger] doc.properties@[jj],
                                name,
                            );
                        assert(t1[i as int] == docs@[i as int]);
                        assert(prop_adds_text_name(t1[i as int].properties@[jj], name));
                        assert(docs_add_text_name(t1, name));
                    }
                    if docs_add_text_name(t1, name) {
                        let (ii, jj) = choose|ii: int, jj: int|
                            0 <= ii < t1.len() && 0 <= jj < t1[ii].properties@.len()
                                && prop_adds_text_name(#[trigger] t1[ii].properties@[jj], name);
                        if ii < i {
                            assert(docs_prefix[ii] == t1[ii]);
                            assert(prop_adds_text_name(docs_prefix[ii].properties@[jj], name));
                            assert(docs_add_text_name(docs_prefix, name));
                        } else {
                            assert(t1[ii] == docs@[i as int]);
                            assert(prop_adds_text_name(doc.properties@[jj], name));
                            assert(props_add_text_name(doc.properties@, m as int, name));
                        }
                    }
                }
                assert forall|name: Seq<char>| #[trigger] result.spec_has_integer(name)
                    == docs_add_integer_name(t1, name) by {
                    assert(filled.spec_has_integer(name) == (docs_add_integer_name(
                        docs_prefix,
                        name,
                    ) || props_add_integer_name(doc.properties@, m as int, name)));
                    if docs_add_integer_name(docs_prefix, name) {
                        let (ii, jj) = choose|ii: int, jj: int|
                            0 <= ii < docs_prefix.len() && 0 <= jj < docs_prefix[
                                ii
                            ].properties@.len() && prop_adds_integer_name(
                                #[trigger] docs_prefix[ii].properties@[jj],
                                name,
                            );
                        assert(t1[ii] == docs_prefix[ii]);
                        assert(prop_adds_integer_name(t1[ii].properties@[jj], name));
                        assert(docs_add_integer_name(t1, name));
                    }
                    if props_add_integer_name(doc.properties@, m as int, name) {
                        let jj = choose|jj: int|
                            0 <= jj < m && prop_adds_integer_name(
                                #[trigger] doc.properties@[jj],
                                name,
                            );
                        assert(t1[i as int] == docs@[i as int]);
                        assert(prop_adds_integer_name(t1[i as int].properties@[jj], name));
                        assert(docs_add_integer_name(t1, name));
                    }
                    if docs_add_integer_name(t1, name) {
                        let (ii, jj) = choose|ii: int, jj: int|
                            0 <= ii < t1.len() && 0 <= jj < t1[ii].properties@.len()
                                && prop_adds_integer_name(
                                #[trigger] t1[ii].properties@[jj],
                                name,
                            );
                        if ii < i {
                            assert(docs_prefix[ii] == t1[ii]);
                            assert(prop_adds_integer_name(docs_prefix[ii].properties@[jj], name));
                            assert(docs_add_integer_name(docs_prefix, name));
                        } else {
                            assert(t1[ii] == docs@[i as int]);
                            assert(prop_adds_integer_name(doc.properties@[jj], name));
                            assert(props_add_integer_name(doc.properties@, m as int, name));
                        }
                    }
                }
            }
            i += 1;
        }
        proof {
            assert(docs@.take(n as int) =~= docs@);
        }
        Ok(result)
    }

    /// Read access to the text posting lists of property `name`; `None`
    /// when no text value was ever indexed under that name.
    pub fn get_property_map_text(&self, name: &str) -> (r: Option<&ValueMap<TextT>>)
        ensures
            match r {
                Some(vm) => self.spec_has_text(name@) && forall|tok: Seq<char>|
                    vm.spec_postings(tok) == self.spec_text_postings(name@, tok),
                None => !self.spec_has_text(name@) && forall|tok: Seq<char>|
                    self.spec_text_postings(name@, tok) == Seq::<WordFrequency>::empty(),
            },
    {
        self.properties_text_word_map.get_map(name)
    }

    /// Read access to the integer posting lists of property `name`; `None`
    /// when no integer value was ever indexed under that name.
    pub fn get_property_map_integer(&self, name: &str) -> (r: Option<&ValueMap<IntegerT>>)
        ensures
            match r {
                Some(vm) => self.spec_has_integer(name@) && forall|val: IntegerT|
                    vm.spec_postings(val) == self.spec_integer_postings(name@, val),
                None => !self.spec_has_integer(name@) && forall|val: IntegerT|
                    self.spec_integer_postings(name@, val) == Seq::<WordFrequency>::empty(),
            },
    {
        self.properties_integer_word_map.get_map(name)
    }

    /// The number of documents stored in the index.
    pub fn document_count(&self) -> (n: usize)
        ensures
            n == self.spec_doc_count(),
    {
        self.documents.len()
    }
}

/// Whether one of the first `upto` token counts carries token `tok`.
spec fn contributed(counts: Seq<TokenCount>, upto: int, tok: Seq<char>) -> bool {
    exists|p: int| 0 <= p < upto && (#[trigger] counts[p]).token@ == tok
}

/// Whether one of the first `upto` properties records something in the text
/// store under `name`.
spec fn props_add_text_name(props: Seq<IndexProperty>, upto: int, name: Seq<char>) -> bool {
    exists|j: int| 0 <= j < upto && prop_adds_text_name(#[trigger] props[j], name)
}

/// Whether one of the first `upto` properties records something in the
/// integer store under `name`.
spec fn props_add_integer_name(props: Seq<IndexProperty>, upto: int, name: Seq<char>) -> bool {
    exists|j: int| 0 <= j < upto && prop_adds_integer_name(#[trigger] props[j], name)
}

} // verus!
