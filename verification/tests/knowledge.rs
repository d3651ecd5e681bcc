use nous::chunking::{chunk_text, ChunkOptions};
use nous::error::Error;
use nous::knowledge::{check_document, document_chunk, new_chunk_id, new_document_id};

#[test]
fn document_title_and_content_required() {
    match check_document("  ", "content") {
        Err(Error::InvalidInput(m)) => assert_eq!(m, "document title cannot be empty"),
        other => panic!("unexpected: {other:?}"),
    }
    match check_document("Title", "\n\t ") {
        Err(Error::InvalidInput(m)) => assert_eq!(m, "document content cannot be empty"),
        other => panic!("unexpected: {other:?}"),
    }
    assert!(check_document("Title", "Some text").is_ok());
}

#[test]
fn stored_chunks_keep_index_and_offset() {
    let chunks = chunk_text("First part.\n\nSecond part.", &ChunkOptions { max_chars: 12, ..Default::default() });
    let stored = document_chunk("chunk:x".to_string(), "doc:1", &chunks[1]);
    assert_eq!(stored.id, "chunk:x");
    assert_eq!(stored.document_id, "doc:1");
    assert_eq!(stored.text, "Second part.");
    assert_eq!(stored.index, 1);
    assert_eq!(stored.offset, 13);
}

#[test]
fn document_and_chunk_ids() {
    let d = new_document_id();
    assert!(d.starts_with("doc:"));
    assert_eq!(d.len(), 40);
    assert_eq!(&d[4 + 14..4 + 15], "4");
    let c = new_chunk_id();
    assert!(c.starts_with("chunk:"));
    assert_eq!(c.len(), 42);
    assert_ne!(new_chunk_id(), c);
}
