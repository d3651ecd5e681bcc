//! The bookkeeping of retrieval: which documents were ingested, the ids of
//! their chunks and where each chunk came from, and how many ranked chunks
//! fit a context budget.  Scoring is floating-point and lives outside this
//! library.
use vstd::prelude::*;
use crate::error::concat_str;
use crate::text::{decimal, decimal_string};
use vstd::string::StringExecFns;

verus! {

/// How to retrieve documents.
#[derive(Debug, Clone, Copy, PartialEq, Eq, Structural)]
pub enum SearchMode {
    /// BM25 keyword search only.
    Keyword,
    /// Embedding cosine similarity only.
    Semantic,
    /// Weighted combination of keyword and semantic scores.
    Hybrid,
}

/// A document registered for retrieval, with the ids of its chunks.
#[derive(Debug, Clone)]
pub struct RagDocument {
    pub id: String,
    pub title: String,
    pub chunk_ids: Vec<String>,
}

/// Where a chunk came from.
#[derive(Debug, Clone)]
pub struct ChunkSource {
    pub chunk_id: String,
    pub source_id: String,
    pub source_title: String,
}

/// The id of chunk `i` of document `doc`: `<doc>:chunk:<i>`.
pub open spec fn rag_chunk_id(doc: Seq<char>, i: nat) -> Seq<char> {
    doc + ":chunk:"@ + decimal(i)
}

/// The chunk sources of a document's chunks.
pub open spec fn sources_of(ids: Seq<String>, id: Seq<char>, title: Seq<char>) -> Seq<(Seq<char>, Seq<char>, Seq<char>)> {
    ids.map_values(|c: String| (c@, id, title))
}

/// The plain view of chunk sources.
pub open spec fn sources_view(v: Seq<ChunkSource>) -> Seq<(Seq<char>, Seq<char>, Seq<char>)> {
    v.map_values(|c: ChunkSource| (c.chunk_id@, c.source_id@, c.source_title@))
}

/// The chunk sources not from document `id`, in order.
pub open spec fn not_from(v: Seq<(Seq<char>, Seq<char>, Seq<char>)>, id: Seq<char>) -> Seq<(Seq<char>, Seq<char>, Seq<char>)>
    decreases v.len(),
{
    if v.len() == 0 {
        v
    } else if v.last().1 == id {
        not_from(v.drop_last(), id)
    } else {
        not_from(v.drop_last(), id).push(v.last())
    }
}

/// The position of the first document of id `id`.
pub open spec fn first_doc(docs: Seq<RagDocument>, id: Seq<char>) -> Option<int>
    decreases docs.len(),
{
    if docs.len() == 0 {
        None
    } else if docs[0].id@ == id {
        Some(0)
    } else {
        match first_doc(docs.drop_first(), id) {
            Some(k) => Some(k + 1),
            None => None,
        }
    }
}

proof fn lemma_first_doc(docs: Seq<RagDocument>, id: Seq<char>)
    ensures
        first_doc(docs, id) matches Some(k) ==> 0 <= k < docs.len() && docs[k].id@ == id,
    decreases docs.len(),
{
    if docs.len() > 0 && docs[0].id@ != id {
        lemma_first_doc(docs.drop_first(), id);
    }
}

/// The first source of chunk `chunk_id`: its document's id and title.
pub open spec fn source_of_chunk(v: Seq<(Seq<char>, Seq<char>, Seq<char>)>, chunk_id: Seq<char>) -> Option<(Seq<char>, Seq<char>)>
    decreases v.len(),
{
    if v.len() == 0 {
        None
    } else if v[0].0 == chunk_id {
        Some((v[0].1, v[0].2))
    } else {
        source_of_chunk(v.drop_first(), chunk_id)
    }
}

/// The documents and chunks registered for retrieval.
#[derive(Debug, Clone)]
pub struct RagCatalog {
    documents: Vec<RagDocument>,
    chunks: Vec<ChunkSource>,
}

impl RagCatalog {
    /// The registered documents, in order of ingestion.
    pub closed spec fn docs(&self) -> Seq<RagDocument> {
        self.documents@
    }

    /// The sources of the registered chunks, in order of ingestion.
    pub closed spec fn sources(&self) -> Seq<(Seq<char>, Seq<char>, Seq<char>)> {
        sources_view(self.chunks@)
    }

    /// An empty catalog.
    pub fn new() -> (r: Self)
        ensures
            r.docs().len() == 0,
            r.sources().len() == 0,
    {
        RagCatalog { documents: Vec::new(), chunks: Vec::new() }
    }

    /// The number of registered documents.
    pub fn document_count(&self) -> (r: usize)
        ensures
            r == self.docs().len(),
    {
        self.documents.len()
    }

    /// The number of registered chunks.
    pub fn chunk_count(&self) -> (r: usize)
        ensures
            r == self.sources().len(),
    {
        self.chunks.len()
    }

    /// Registers document `id` of `chunk_count` chunks and answers their ids,
    /// `<id>:chunk:0`, `<id>:chunk:1`, ...
    pub fn ingest(&mut self, id: &str, title: &str, chunk_count: usize) -> (r: Vec<String>)
        ensures
            r@.len() == chunk_count,
            forall|i: int| 0 <= i < chunk_count ==> #[trigger] r@[i]@ == rag_chunk_id(id@, i as nat),
            final(self).docs().len() == old(self).docs().len() + 1,
            final(self).docs().drop_last() == old(self).docs(),
            final(self).docs().last().id@ == id@,
            final(self).docs().last().title@ == title@,
            final(self).docs().last().chunk_ids@ == r@,
            final(self).sources() == old(self).sources() + sources_of(r@, id@, title@),
    {
        let mut ids: Vec<String> = Vec::new();
        let ghost start = sources_view(self.chunks@);
        for i in 0..chunk_count
            invariant
                ids@.len() == i,
                forall|k: int| 0 <= k < i ==> #[trigger] ids@[k]@ == rag_chunk_id(id@, k as nat),
                sources_view(self.chunks@) == start + sources_of(ids@, id@, title@),
                self.documents@ == old(self).documents@,
                start == sources_view(old(self).chunks@),
        {
            let mut chunk_id = concat_str(id, ":chunk:");
            let number = decimal_string(i);
            chunk_id.append(number.as_str());
            let ghost before_ids = ids@;
            let ghost before_chunks = self.chunks@;
            self.chunks.push(ChunkSource {
                chunk_id: chunk_id.clone(),
                source_id: id.to_owned(),
                source_title: title.to_owned(),
            });
            ids.push(chunk_id);
            assert(sources_of(ids@, id@, title@) =~= sources_of(before_ids, id@, title@).push(
                (ids@[i as int]@, id@, title@),
            ));
            assert(sources_view(self.chunks@) =~= sources_view(before_chunks).push(
                (ids@[i as int]@, id@, title@),
            ));
        }
        let ghost before_docs = self.documents@;
        self.documents.push(RagDocument {
            id: id.to_owned(),
            title: title.to_owned(),
            chunk_ids: ids.clone(),
        });
        assert(self.documents@.drop_last() =~= before_docs);
        ids
    }

    /// Unregisters the first document of id `id` and every chunk from a
    /// document of that id; answers the ids of that document's chunks, or
    /// nothing (and no change) when no document has that id.
    pub fn remove_document(&mut self, id: &str) -> (r: Option<Vec<String>>)
        ensures
            match first_doc(old(self).docs(), id@) {
                None => r is None && final(self).docs() == old(self).docs() && final(self).sources()
                    == old(self).sources(),
                Some(k) => r matches Some(ids) && ids@ == old(self).docs()[k].chunk_ids@
                    && final(self).docs() == old(self).docs().remove(k) && final(self).sources()
                    == not_from(old(self).sources(), id@),
            },
    {
        let n = self.documents.len();
        let mut pos: Option<usize> = None;
        let mut k: usize = 0;
        let ghost docs = self.documents@;
        assert(docs.skip(0) =~= docs);
        while k < n
            invariant_except_break
                pos is None,
            invariant
                n == docs.len(),
                docs == self.documents@,
                k <= n,
                first_doc(docs, id@) == match first_doc(docs.skip(k as int), id@) {
                    Some(j) => Some(j + k),
                    None => None,
                },
            ensures
                match pos {
                    Some(p) => first_doc(docs, id@) == Some(p as int),
                    None => first_doc(docs, id@) is None,
                },
            decreases n - k,
        {
            assert(docs.skip(k as int)[0] == docs[k as int]);
            assert(docs.skip(k as int).drop_first() =~= docs.skip(k + 1));
            if crate::text::str_eq(self.documents[k].id.as_str(), id) {
                pos = Some(k);
                break;
            }
            k += 1;
        }
        if k == n && pos.is_none() {
            assert(docs.skip(n as int).len() == 0);
        }
        match pos {
            None => None,
            Some(p) => {
                proof {
                    lemma_first_doc(docs, id@);
                }
                let doc = self.documents.remove(p);
                let mut kept: Vec<ChunkSource> = Vec::new();
                let m = self.chunks.len();
                let ghost all = sources_view(self.chunks@);
                assert(all.take(0) =~= Seq::<(Seq<char>, Seq<char>, Seq<char>)>::empty());
                for j in 0..m
                    invariant
                        m == self.chunks@.len(),
                        all == sources_view(self.chunks@),
                        sources_view(kept@) == not_from(all.take(j as int), id@),
                {
                    assert(all.take(j + 1).drop_last() =~= all.take(j as int));
                    assert(all.take(j + 1).last() == all[j as int]);
                    let c = &self.chunks[j];
                    if !crate::text::str_eq(c.source_id.as_str(), id) {
                        let ghost before = kept@;
                        kept.push(ChunkSource {
                            chunk_id: c.chunk_id.clone(),
                            source_id: c.source_id.clone(),
                            source_title: c.source_title.clone(),
                        });
                        assert(sources_view(kept@) =~= sources_view(before).push(all[j as int]));
                    }
                }
                assert(all.take(m as int) =~= all);
                self.chunks = kept;
                Some(doc.chunk_ids)
            },
        }
    }

    /// The document id and title of chunk `chunk_id`, when it is registered.
    pub fn source_of(&self, chunk_id: &str) -> (r: Option<(String, String)>)
        ensures
            match source_of_chunk(self.sources(), chunk_id@) {
                None => r is None,
                Some((sid, title)) => r matches Some((a, b)) && a@ == sid && b@ == title,
            },
    {
        let n = self.chunks.len();
        let ghost v = sources_view(self.chunks@);
        let mut k: usize = 0;
        assert(v.skip(0) =~= v);
        while k < n
            invariant
                n == self.chunks@.len(),
                v == sources_view(self.chunks@),
                k <= n,
                source_of_chunk(v, chunk_id@) == source_of_chunk(v.skip(k as int), chunk_id@),
            decreases n - k,
        {
            assert(v.skip(k as int)[0] == v[k as int]);
            assert(v.skip(k as int).drop_first() =~= v.skip(k + 1));
            let c = &self.chunks[k];
            if crate::text::str_eq(c.chunk_id.as_str(), chunk_id) {
                return Some((c.source_id.clone(), c.source_title.clone()));
            }
            k += 1;
        }
        assert(v.skip(n as int).len() == 0);
        None
    }
}

/// How many of the ranked texts of the given lengths fit a budget of `max`
/// characters, taken in rank order and stopping at the first that does not
/// fit.
pub open spec fn fitting(lengths: Seq<usize>, used: int, max: int) -> nat
    decreases lengths.len(),
{
    if lengths.len() == 0 || used + lengths[0] > max {
        0
    } else {
        1 + fitting(lengths.drop_first(), used + lengths[0], max)
    }
}

/// The number of ranked texts, of lengths `lengths`, that fit in `max`.
pub fn fit_budget(lengths: &[usize], max: usize) -> (r: usize)
    ensures
        r == fitting(lengths@, 0, max as int),
{
    let n = lengths.len();
    let ghost ls = lengths@;
    let mut used: usize = 0;
    let mut k: usize = 0;
    assert(ls.skip(0) =~= ls);
    while k < n
        invariant
            n == ls.len(),
            ls == lengths@,
            k <= n,
            used <= max,
            fitting(ls, 0, max as int) == k + fitting(ls.skip(k as int), used as int, max as int),
        decreases n - k,
    {
        assert(ls.skip(k as int)[0] == ls[k as int]);
        assert(ls.skip(k as int).drop_first() =~= ls.skip(k + 1));
        if lengths[k] > max - used {
            return k;
        }
        used = used + lengths[k];
        k += 1;
    }
    assert(ls.skip(n as int).len() == 0);
    k
}

} // verus!
