//! The plain parts of the knowledge base: what a stored chunk holds and
//! which documents may be ingested.
use vstd::prelude::*;
use crate::chunking::Chunk;
use crate::error::Error;
use crate::text::trim;
use crate::conversation::{new_uuid, is_uuid_v4_text};
use crate::error::concat_str;

verus! {

/// A chunk stored alongside its embedding vector.
#[derive(Debug, Clone)]
pub struct DocumentChunk {
    pub id: String,
    pub document_id: String,
    pub text: String,
    pub index: usize,
    pub offset: usize,
}

/// A document may be ingested when its title and content hold more than
/// white space; the title is checked first.
pub fn check_document(title: &str, content: &str) -> (r: Result<(), Error>)
    ensures
        trim(title@).len() == 0 ==> (r matches Err(Error::InvalidInput(m)) && m@
            == "document title cannot be empty"@),
        trim(title@).len() > 0 && trim(content@).len() == 0 ==> (r matches Err(Error::InvalidInput(m))
            && m@ == "document content cannot be empty"@),
        trim(title@).len() > 0 && trim(content@).len() > 0 ==> r is Ok,
{
    if crate::text::is_blank_str(title) {
        return Err(Error::InvalidInput("document title cannot be empty".to_owned()));
    }
    if crate::text::is_blank_str(content) {
        return Err(Error::InvalidInput("document content cannot be empty".to_owned()));
    }
    Ok(())
}

/// A fresh id with the given prefix: the prefix, then a random UUID.
fn prefixed_id(prefix: &str) -> (r: String)
    ensures
        r@.len() == prefix@.len() + 36,
        r@.take(prefix@.len() as int) == prefix@,
        is_uuid_v4_text(r@.skip(prefix@.len() as int)),
{
    let fresh = new_uuid();
    let r = concat_str(prefix, fresh.as_str());
    proof {
        assert(r@.take(prefix@.len() as int) =~= prefix@);
        assert(r@.skip(prefix@.len() as int) =~= fresh@);
    }
    r
}

/// A fresh document id: `doc:` followed by a random UUID.
pub fn new_document_id() -> (r: String)
    ensures
        r@.len() == 4 + 36,
        r@.take(4) == "doc:"@,
        is_uuid_v4_text(r@.skip(4)),
{
    proof {
        reveal_strlit("doc:");
    }
    prefixed_id("doc:")
}

/// A fresh chunk id: `chunk:` followed by a random UUID.
pub fn new_chunk_id() -> (r: String)
    ensures
        r@.len() == 6 + 36,
        r@.take(6) == "chunk:"@,
        is_uuid_v4_text(r@.skip(6)),
{
    proof {
        reveal_strlit("chunk:");
    }
    prefixed_id("chunk:")
}

/// The stored form of a chunk of document `document_id`, under `id`.
pub fn document_chunk(id: String, document_id: &str, chunk: &Chunk) -> (r: DocumentChunk)
    ensures
        r.id == id,
        r.document_id@ == document_id@,
        r.text@ == chunk.text@,
        r.index == chunk.index,
        r.offset == chunk.offset,
{
    DocumentChunk {
        id,
        document_id: document_id.to_owned(),
        text: chunk.text.clone(),
        index: chunk.index,
        offset: chunk.offset,
    }
}

} // verus!
