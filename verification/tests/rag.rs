use nous::rag::{fit_budget, RagCatalog};

#[test]
fn catalog_ingest_names_chunks() {
    let mut catalog = RagCatalog::new();
    let ids = catalog.ingest("doc1", "Title", 3);
    assert_eq!(ids, vec!["doc1:chunk:0", "doc1:chunk:1", "doc1:chunk:2"]);
    assert_eq!(catalog.document_count(), 1);
    assert_eq!(catalog.chunk_count(), 3);
    assert_eq!(catalog.source_of("doc1:chunk:1"), Some(("doc1".to_string(), "Title".to_string())));
    assert_eq!(catalog.source_of("doc2:chunk:0"), None);
}

#[test]
fn catalog_remove_document() {
    let mut catalog = RagCatalog::new();
    catalog.ingest("a", "A", 2);
    catalog.ingest("b", "B", 1);
    assert_eq!(catalog.remove_document("a"), Some(vec!["a:chunk:0".to_string(), "a:chunk:1".to_string()]));
    assert_eq!(catalog.document_count(), 1);
    assert_eq!(catalog.chunk_count(), 1);
    assert_eq!(catalog.remove_document("zzz"), None);
    assert_eq!(catalog.chunk_count(), 1);
}

#[test]
fn budget_stops_at_first_overflow() {
    assert_eq!(fit_budget(&[10, 20, 30], 100), 3);
    assert_eq!(fit_budget(&[10, 20, 30], 35), 2);
    assert_eq!(fit_budget(&[50, 1, 1], 40), 0);
    assert_eq!(fit_budget(&[10, 100, 1], 50), 1);
    assert_eq!(fit_budget(&[], 0), 0);
}
