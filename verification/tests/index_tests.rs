use inverted_index::index_types::{IndexProperty, PropertyType, SearchError};
use inverted_index::query::query_text_property;
use inverted_index::searchable_index::{ProcessedDocument, SearchableIndex};

fn create_index() -> SearchableIndex {
    let documents = vec![ProcessedDocument {
        properties: vec![
            IndexProperty {
                name: "content".to_string(),
                data: PropertyType::Text(
                    "lorup ipsum content for you needs. With lorup repeats".to_string(),
                ),
            },
            IndexProperty {
                name: "count".to_string(),
                data: PropertyType::Integer(10),
            },
        ],
    }];

    SearchableIndex::from_documents(&documents).unwrap()
}

#[test]
fn document_count() {
    let index = create_index();

    assert_eq!(index.document_count(), 1);
}

#[test]
fn document_count_empty() {
    let index = SearchableIndex::from_documents(&Vec::new()).unwrap();
    assert_eq!(index.document_count(), 0);

    let empty = SearchableIndex::empty();
    assert_eq!(empty.document_count(), 0);
}

#[test]
fn document_count_several() {
    let mut documents = Vec::new();
    for i in 0..3u32 {
        documents.push(ProcessedDocument::new(vec![IndexProperty {
            name: "count".to_string(),
            data: PropertyType::Integer(i),
        }]));
    }
    let index = SearchableIndex::from_documents(&documents).unwrap();
    assert_eq!(index.document_count(), 3);
}

#[test]
fn text_postings_carry_exact_frequencies() {
    let index = create_index();

    let lorup = query_text_property(&index, "content", "lorup");
    assert_eq!(lorup.len(), 1);
    assert_eq!(lorup[0].doc_id, 1);
    assert_eq!(lorup[0].frequency, 2);

    let ipsum = query_text_property(&index, "content", "ipsum");
    assert_eq!(ipsum.len(), 1);
    assert_eq!(ipsum[0].doc_id, 1);
    assert_eq!(ipsum[0].frequency, 1);

    // punctuation is not stripped: the token is "needs." as written
    assert_eq!(query_text_property(&index, "content", "needs").len(), 0);
    assert_eq!(query_text_property(&index, "content", "needs.").len(), 1);
}

#[test]
fn same_token_twice_in_one_document_appends_twice() {
    // two properties of the same document under the same name: the posting
    // list accumulates one entry per property, never overwriting
    let documents = vec![ProcessedDocument::new(vec![
        IndexProperty {
            name: "content".to_string(),
            data: PropertyType::Text("alpha beta".to_string()),
        },
        IndexProperty {
            name: "content".to_string(),
            data: PropertyType::Text("alpha".to_string()),
        },
    ])];
    let index = SearchableIndex::from_documents(&documents).unwrap();

    let alpha = query_text_property(&index, "content", "alpha");
    assert_eq!(alpha.len(), 2);
    assert_eq!(alpha[0].doc_id, 1);
    assert_eq!(alpha[1].doc_id, 1);

    let beta = query_text_property(&index, "content", "beta");
    assert_eq!(beta.len(), 1);
}

#[test]
fn sortable_text_document_is_rejected_with_typed_outcome() {
    let documents = vec![ProcessedDocument::new(vec![IndexProperty {
        name: "title".to_string(),
        data: PropertyType::SortableText("aardvark".to_string()),
    }])];
    let r = SearchableIndex::from_documents(&documents);
    assert!(matches!(r, Err(SearchError::UnsupportedOperation)));
}

#[test]
fn get_property_map_reports_absent_names() {
    let index = create_index();
    assert!(index.get_property_map_text("content").is_some());
    assert!(index.get_property_map_text("unknown_property").is_none());
    assert!(index.get_property_map_integer("count").is_some());
    assert!(index.get_property_map_integer("content").is_none());
}

#[test]
fn unicode_whitespace_separates_tokens() {
    // LINE SEPARATOR (U+2028), NO-BREAK SPACE (U+00A0) and IDEOGRAPHIC
    // SPACE (U+3000) all split tokens, exactly as str::split_whitespace does
    let documents = vec![ProcessedDocument::new(vec![IndexProperty {
        name: "content".to_string(),
        data: PropertyType::Text("a\u{2028}b\u{00A0}c\u{3000}a".to_string()),
    }])];
    let index = SearchableIndex::from_documents(&documents).unwrap();

    let a = query_text_property(&index, "content", "a");
    assert_eq!(a.len(), 1);
    assert_eq!(a[0].doc_id, 1);
    assert_eq!(a[0].frequency, 2);

    assert_eq!(query_text_property(&index, "content", "b").len(), 1);
    assert_eq!(query_text_property(&index, "content", "c").len(), 1);
    // the joined forms are not tokens
    assert_eq!(query_text_property(&index, "content", "a\u{2028}b").len(), 0);
}

#[test]
fn tokenization_agrees_with_std_split_whitespace() {
    let text = "one\u{0085}two\u{1680}three\u{2000}four\u{202F}five\u{205F}six\u{2009}one \t seven\u{000C}\r\n";
    let documents = vec![ProcessedDocument::new(vec![IndexProperty {
        name: "content".to_string(),
        data: PropertyType::Text(text.to_string()),
    }])];
    let index = SearchableIndex::from_documents(&documents).unwrap();

    for tok in text.split_whitespace() {
        let postings = query_text_property(&index, "content", tok);
        assert_eq!(postings.len(), 1);
        assert_eq!(postings[0].doc_id, 1);
        let expected = text.split_whitespace().filter(|w| *w == tok).count();
        assert_eq!(postings[0].frequency, expected);
    }
}
