use inverted_index::doc_id_set::DocIdSet;
use inverted_index::index_types::{IndexProperty, PropertyType, SearchError};
use inverted_index::query::{
    query_index, Criterion, FacetQuery, IndexQuery, Operation, PropertyQuery,
};
use inverted_index::searchable_index::{ProcessedDocument, SearchableIndex};

fn create_index() -> SearchableIndex {
    let documents = vec![ProcessedDocument::new(vec![
        IndexProperty {
            name: "content".to_string(),
            data: PropertyType::Text(
                "lorup ipsum content for you needs. With lorup repeats".to_string(),
            ),
        },
        IndexProperty {
            name: "count".to_string(),
            data: PropertyType::Integer(10),
        },
    ])];

    SearchableIndex::from_documents(&documents).unwrap()
}

#[test]
fn get_docs_0() {
    let index = create_index();

    let criterion = Criterion {
        first_property: PropertyQuery {
            name: "content".to_string(),
            query_data: PropertyType::Text("unknown".to_string()),
        },
        additional_properties: None,
        operation: Operation::Or,
    };

    let query = IndexQuery {
        criterion,
        facets: None,
    };

    let res = query_index(&index, &query).unwrap();

    assert_eq!(res.doc_ids.len(), 0);
}

#[test]
fn get_docs_1() {
    let index = create_index();

    let criterion = Criterion {
        first_property: PropertyQuery {
            name: "content".to_string(),
            query_data: PropertyType::Text("lorup".to_string()),
        },
        additional_properties: None,
        operation: Operation::Or,
    };

    let query = IndexQuery {
        criterion,
        facets: None,
    };

    let res = query_index(&index, &query).unwrap();

    assert_eq!(res.doc_ids.len(), 1);
}

#[test]
fn get_docs_facets_0() {
    let index = create_index();

    let criterion = Criterion {
        first_property: PropertyQuery {
            name: "content".to_string(),
            query_data: PropertyType::Text("lorup".to_string()),
        },
        additional_properties: None,
        operation: Operation::Or,
    };

    let facet_criterion = Criterion {
        first_property: PropertyQuery {
            name: "count".to_string(),
            query_data: PropertyType::Integer(1),
        },
        additional_properties: None,
        operation: Operation::Or,
    };

    let facet = FacetQuery {
        criterion: Some(facet_criterion),
        sub_queries: Vec::new(),
        operation: Operation::And,
    };

    let query = IndexQuery {
        criterion,
        facets: Some(facet),
    };

    let res = query_index(&index, &query).unwrap();

    assert_eq!(res.doc_ids.len(), 0);
}

#[test]
fn get_docs_facets_1() {
    let index = create_index();

    let criterion = Criterion {
        first_property: PropertyQuery {
            name: "content".to_string(),
            query_data: PropertyType::Text("lorup".to_string()),
        },
        additional_properties: None,
        operation: Operation::Or,
    };

    let facet_criterion = Criterion {
        first_property: PropertyQuery {
            name: "count".to_string(),
            query_data: PropertyType::Integer(10),
        },
        additional_properties: None,
        operation: Operation::Or,
    };

    let facet = FacetQuery {
        criterion: Some(facet_criterion),
        sub_queries: Vec::new(),
        operation: Operation::And,
    };

    let query = IndexQuery {
        criterion,
        facets: Some(facet),
    };

    let res = query_index(&index, &query).unwrap();

    assert_eq!(res.doc_ids.len(), 1);
    assert!(res.doc_ids.contains(1));
}

#[test]
fn text_query_returns_exact_document_set() {
    let index = create_index();

    let query = IndexQuery {
        criterion: Criterion {
            first_property: PropertyQuery {
                name: "content".to_string(),
                query_data: PropertyType::Text("lorup".to_string()),
            },
            additional_properties: None,
            operation: Operation::Or,
        },
        facets: None,
    };

    let res = query_index(&index, &query).unwrap();
    assert_eq!(res.doc_ids.len(), 1);
    assert!(res.doc_ids.contains(1));
    assert!(!res.doc_ids.contains(2));
}

fn two_doc_index() -> SearchableIndex {
    let documents = vec![
        ProcessedDocument::new(vec![
            IndexProperty {
                name: "content".to_string(),
                data: PropertyType::Text("red green".to_string()),
            },
            IndexProperty {
                name: "count".to_string(),
                data: PropertyType::Integer(10),
            },
        ]),
        ProcessedDocument::new(vec![
            IndexProperty {
                name: "content".to_string(),
                data: PropertyType::Text("green blue".to_string()),
            },
            IndexProperty {
                name: "count".to_string(),
                data: PropertyType::Integer(7),
            },
        ]),
    ];
    SearchableIndex::from_documents(&documents).unwrap()
}

fn text_condition(name: &str, token: &str) -> PropertyQuery {
    PropertyQuery {
        name: name.to_string(),
        query_data: PropertyType::Text(token.to_string()),
    }
}

#[test]
fn integer_query_returns_exact_document_set() {
    let index = two_doc_index();

    let query = IndexQuery {
        criterion: Criterion {
            first_property: PropertyQuery {
                name: "count".to_string(),
                query_data: PropertyType::Integer(10),
            },
            additional_properties: None,
            operation: Operation::Or,
        },
        facets: None,
    };

    let res = query_index(&index, &query).unwrap();
    assert_eq!(res.doc_ids.len(), 1);
    assert!(res.doc_ids.contains(1));
    assert!(!res.doc_ids.contains(2));
}

#[test]
fn integer_postings_accumulate_across_documents() {
    let documents = vec![
        ProcessedDocument::new(vec![IndexProperty {
            name: "count".to_string(),
            data: PropertyType::Integer(5),
        }]),
        ProcessedDocument::new(vec![IndexProperty {
            name: "count".to_string(),
            data: PropertyType::Integer(5),
        }]),
    ];
    let index = SearchableIndex::from_documents(&documents).unwrap();

    let query = IndexQuery {
        criterion: Criterion {
            first_property: PropertyQuery {
                name: "count".to_string(),
                query_data: PropertyType::Integer(5),
            },
            additional_properties: None,
            operation: Operation::Or,
        },
        facets: None,
    };
    let res = query_index(&index, &query).unwrap();
    assert_eq!(res.doc_ids.len(), 2);
    assert!(res.doc_ids.contains(1));
    assert!(res.doc_ids.contains(2));
}

#[test]
fn criterion_and_folds_to_intersection() {
    let index = two_doc_index();

    // "green" matches {1, 2}; "red" matches {1}; AND keeps {1}
    let query = IndexQuery {
        criterion: Criterion {
            first_property: text_condition("content", "green"),
            additional_properties: Some(vec![text_condition("content", "red")]),
            operation: Operation::And,
        },
        facets: None,
    };
    let res = query_index(&index, &query).unwrap();
    assert_eq!(res.doc_ids.len(), 1);
    assert!(res.doc_ids.contains(1));
}

#[test]
fn criterion_or_folds_to_union() {
    let index = two_doc_index();

    // "red" matches {1}; "blue" matches {2}; OR returns {1, 2}
    let query = IndexQuery {
        criterion: Criterion {
            first_property: text_condition("content", "red"),
            additional_properties: Some(vec![text_condition("content", "blue")]),
            operation: Operation::Or,
        },
        facets: None,
    };
    let res = query_index(&index, &query).unwrap();
    assert_eq!(res.doc_ids.len(), 2);
    assert!(res.doc_ids.contains(1));
    assert!(res.doc_ids.contains(2));
}

#[test]
fn and_facet_never_adds_documents() {
    let index = two_doc_index();

    // base "red" matches {1}; facet "green" matches {1, 2}; AND keeps {1}
    let query = IndexQuery {
        criterion: Criterion {
            first_property: text_condition("content", "red"),
            additional_properties: None,
            operation: Operation::Or,
        },
        facets: Some(FacetQuery {
            criterion: Some(Criterion {
                first_property: text_condition("content", "green"),
                additional_properties: None,
                operation: Operation::Or,
            }),
            sub_queries: Vec::new(),
            operation: Operation::And,
        }),
    };
    let res = query_index(&index, &query).unwrap();
    assert_eq!(res.doc_ids.len(), 1);
    assert!(res.doc_ids.contains(1));
    assert!(!res.doc_ids.contains(2));
}

#[test]
fn two_level_facet_nesting_evaluates_by_induction() {
    let index = two_doc_index();

    // base "green" matches {1, 2}
    // outer facet: no criterion of its own (base {}), one sub-facet
    //   sub-facet: criterion "count = 7" matches {2}, combined with OR onto {}
    // outer facet contributes {2}; AND with {1, 2} keeps {2}
    let inner = FacetQuery {
        criterion: Some(Criterion {
            first_property: PropertyQuery {
                name: "count".to_string(),
                query_data: PropertyType::Integer(7),
            },
            additional_properties: None,
            operation: Operation::Or,
        }),
        sub_queries: Vec::new(),
        operation: Operation::Or,
    };
    let outer = FacetQuery {
        criterion: None,
        sub_queries: vec![inner],
        operation: Operation::And,
    };
    let query = IndexQuery {
        criterion: Criterion {
            first_property: text_condition("content", "green"),
            additional_properties: None,
            operation: Operation::Or,
        },
        facets: Some(outer),
    };
    let res = query_index(&index, &query).unwrap();
    assert_eq!(res.doc_ids.len(), 1);
    assert!(res.doc_ids.contains(2));
}

#[test]
fn empty_facet_with_and_clears_the_result() {
    let index = two_doc_index();

    // a facet with no criterion and no sub-queries contributes {};
    // AND with the base set leaves {}
    let query = IndexQuery {
        criterion: Criterion {
            first_property: text_condition("content", "green"),
            additional_properties: None,
            operation: Operation::Or,
        },
        facets: Some(FacetQuery {
            criterion: None,
            sub_queries: Vec::new(),
            operation: Operation::And,
        }),
    };
    let res = query_index(&index, &query).unwrap();
    assert_eq!(res.doc_ids.len(), 0);
}

#[test]
fn unindexed_property_returns_empty_not_error() {
    let index = two_doc_index();

    let query = IndexQuery {
        criterion: Criterion {
            first_property: text_condition("never_indexed", "green"),
            additional_properties: None,
            operation: Operation::Or,
        },
        facets: None,
    };
    let res = query_index(&index, &query).unwrap();
    assert_eq!(res.doc_ids.len(), 0);

    let int_query = IndexQuery {
        criterion: Criterion {
            first_property: PropertyQuery {
                name: "never_indexed".to_string(),
                query_data: PropertyType::Integer(10),
            },
            additional_properties: None,
            operation: Operation::Or,
        },
        facets: None,
    };
    let res = query_index(&index, &int_query).unwrap();
    assert_eq!(res.doc_ids.len(), 0);
}

#[test]
fn sortable_text_condition_gives_unsupported_operation() {
    let index = two_doc_index();

    let query = IndexQuery {
        criterion: Criterion {
            first_property: PropertyQuery {
                name: "content".to_string(),
                query_data: PropertyType::SortableText("green".to_string()),
            },
            additional_properties: None,
            operation: Operation::Or,
        },
        facets: None,
    };
    let res = query_index(&index, &query);
    assert!(matches!(res, Err(SearchError::UnsupportedOperation)));

    // the same outcome when the unsupported condition hides in a facet
    let query = IndexQuery {
        criterion: Criterion {
            first_property: text_condition("content", "green"),
            additional_properties: None,
            operation: Operation::Or,
        },
        facets: Some(FacetQuery {
            criterion: Some(Criterion {
                first_property: PropertyQuery {
                    name: "content".to_string(),
                    query_data: PropertyType::SortableText("green".to_string()),
                },
                additional_properties: None,
                operation: Operation::Or,
            }),
            sub_queries: Vec::new(),
            operation: Operation::And,
        }),
    };
    let res = query_index(&index, &query);
    assert!(matches!(res, Err(SearchError::UnsupportedOperation)));
}

#[test]
fn combine_is_commutative_on_concrete_sets() {
    let mut a = DocIdSet::empty();
    a.insert(1);
    a.insert(2);
    let mut b = DocIdSet::empty();
    b.insert(2);
    b.insert(3);

    let ab = Operation::And.combine(&a, &b);
    let ba = Operation::And.combine(&b, &a);
    assert_eq!(ab.len(), 1);
    assert!(ab.contains(2));
    assert_eq!(ba.len(), 1);
    assert!(ba.contains(2));

    let ab = Operation::Or.combine(&a, &b);
    let ba = Operation::Or.combine(&b, &a);
    for s in [&ab, &ba] {
        assert_eq!(s.len(), 3);
        assert!(s.contains(1) && s.contains(2) && s.contains(3));
    }
}

#[test]
fn combine_with_empty_sets() {
    let empty = DocIdSet::empty();
    let mut a = DocIdSet::empty();
    a.insert(4);

    let and = Operation::And.combine(&a, &empty);
    assert_eq!(and.len(), 0);

    let or = Operation::Or.combine(&a, &empty);
    assert_eq!(or.len(), 1);
    assert!(or.contains(4));
}

#[test]
fn result_ids_can_be_enumerated() {
    let index = two_doc_index();

    let query = IndexQuery {
        criterion: Criterion {
            first_property: text_condition("content", "green"),
            additional_properties: None,
            operation: Operation::Or,
        },
        facets: None,
    };
    let res = query_index(&index, &query).unwrap();
    let mut ids = res.doc_ids.to_vec();
    ids.sort();
    assert_eq!(ids, vec![1, 2]);
}
