use nous::search::{count_terms, tokenize, KeywordIndex};

#[test]
fn empty_engine() {
    let index = KeywordIndex::new();
    assert_eq!(index.document_count(), 0);
    assert_eq!(index.term_count(), 0);
}

#[test]
fn index_single_document() {
    let mut index = KeywordIndex::new();
    assert!(index.index("doc1", "hello world", "metadata"));
    assert_eq!(index.document_count(), 1);
    assert!(index.term_count() > 0);
}

#[test]
fn index_multiple_documents() {
    let mut index = KeywordIndex::new();
    index.index("d1", "rust programming language", "");
    index.index("d2", "python programming scripting", "");
    index.index("d3", "javascript web development", "");
    assert_eq!(index.document_count(), 3);
    assert_eq!(index.total_tokens(), 9);
}

#[test]
fn remove_nonexistent() {
    let mut index = KeywordIndex::new();
    assert!(!index.remove("ghost"));
}

#[test]
fn reindex_document() {
    let mut index = KeywordIndex::new();
    index.index("d1", "old content about cats", "v1");
    index.index("d1", "new content about dogs", "v2");
    assert_eq!(index.document_count(), 1);
    assert_eq!(index.document_frequency("dogs"), 1);
    assert_eq!(index.document_frequency("cats"), 0);
    assert_eq!(index.documents()[0].metadata, "v2");
}

#[test]
fn document_frequency() {
    let mut index = KeywordIndex::new();
    index.index("d1", "rust programming", "");
    index.index("d2", "rust systems", "");
    index.index("d3", "python scripting", "");
    assert_eq!(index.document_frequency("rust"), 2);
    assert_eq!(index.document_frequency("python"), 1);
    assert_eq!(index.document_frequency("unknown"), 0);
}

#[test]
fn tokenization_handles_punctuation() {
    assert_eq!(tokenize("Hello, World! This is a test-case."), vec!["hello", "world", "test", "case"]);
}

#[test]
fn tokenization_case_insensitive() {
    assert_eq!(tokenize("Governance VOTING Proposal"), vec!["governance", "voting", "proposal"]);
}

#[test]
fn tokenization_drops_short_pieces_and_stopwords() {
    assert_eq!(tokenize("a b cd the é ét"), vec!["cd", "é", "ét"]);
    assert!(tokenize("").is_empty());
}

#[test]
fn vocabulary_size() {
    let mut index = KeywordIndex::new();
    index.index("d1", "alpha beta gamma", "");
    index.index("d2", "beta gamma delta", "");
    assert_eq!(index.vocabulary_size(), 4);
}

#[test]
fn remove_updates_postings() {
    let mut index = KeywordIndex::new();
    index.index("d1", "unique term alpha", "");
    index.index("d2", "another document beta", "");
    assert_eq!(index.document_frequency("unique"), 1);
    index.remove("d1");
    assert_eq!(index.document_frequency("unique"), 0);
    assert_eq!(index.document_frequency("another"), 1);
    assert_eq!(index.total_tokens(), 3);
}

#[test]
fn term_counts_in_first_appearance_order() {
    let tokens: Vec<String> = vec!["beta".into(), "alpha".into(), "beta".into()];
    let counts = count_terms(&tokens);
    assert_eq!(counts, vec![("beta".to_string(), 2), ("alpha".to_string(), 1)]);
    let mut index = KeywordIndex::new();
    index.index("d", "beta alpha beta", "m");
    let doc = &index.documents()[0];
    assert_eq!(doc.frequency("beta"), 2);
    assert_eq!(doc.frequency("gamma"), 0);
}

#[test]
fn candidates_in_document_order() {
    let mut index = KeywordIndex::new();
    index.index("d1", "rust code", "");
    index.index("d2", "python code", "");
    index.index("d3", "rust python", "");
    let terms = vec!["python".to_string()];
    assert_eq!(index.candidates(&terms), vec![1, 2]);
}

#[test]
fn remove_right_after_index_restores() {
    let mut index = KeywordIndex::new();
    index.index("a", "first words here", "");
    index.index("b", "second words", "");
    index.index("c", "third", "");
    index.remove("c");
    assert_eq!(index.document_count(), 2);
    assert_eq!(index.documents()[1].id, "b");
}
