//! Keyword search bookkeeping: how text becomes index terms, and the
//! per-document term counts that ranking reads.  Ranking itself (BM25) is
//! floating-point and lives outside this library.
use vstd::prelude::*;
use crate::conversation::str_byte_len;
use crate::prompt::{dedup, lemma_dedup, lemma_dedup_push, strings_view};
use crate::text::{byte_len, chars_of, string_from_range};

verus! {

/// The lower case of `s` as `str::to_lowercase` computes it (Unicode).
pub uninterp spec fn lowercase_text(s: Seq<char>) -> Seq<char>;

/// Whether `char::is_alphanumeric` holds of `c` (Unicode letters and numbers).
pub uninterp spec fn alphanumeric(c: char) -> bool;

/// Wrapper of `str::to_lowercase`; the contract names its result.
#[verifier::external_body]
pub(crate) fn lowercase(s: &str) -> (r: String)
    ensures
        r@ == lowercase_text(s@),
{
    s.to_lowercase()
}

/// Wrapper of `char::is_alphanumeric`; the contract names its result.
#[verifier::external_body]
fn is_alphanumeric(c: char) -> (r: bool)
    ensures
        r == alphanumeric(c),
{
    c.is_alphanumeric()
}

/// The pieces of `s` between characters that are not alphanumeric, in
/// order, empty pieces included.
pub open spec fn word_pieces(s: Seq<char>) -> Seq<Seq<char>>
    decreases s.len(),
{
    if s.len() == 0 {
        seq![Seq::empty()]
    } else {
        let p = word_pieces(s.drop_last());
        if !alphanumeric(s.last()) {
            p.push(Seq::empty())
        } else {
            p.update(p.len() - 1, p.last().push(s.last()))
        }
    }
}

proof fn lemma_word_pieces_nonempty(s: Seq<char>)
    ensures
        word_pieces(s).len() >= 1,
    decreases s.len(),
{
    if s.len() > 0 {
        lemma_word_pieces_nonempty(s.drop_last());
    }
}

/// Words too common to index.
pub open spec fn stopwords() -> Seq<Seq<char>> {
    seq![
        "a"@,
        "an"@,
        "the"@,
        "is"@,
        "it"@,
        "in"@,
        "on"@,
        "of"@,
        "to"@,
        "and"@,
        "or"@,
        "for"@,
        "with"@,
        "at"@,
        "by"@,
        "as"@,
        "be"@,
        "was"@,
        "are"@,
        "has"@,
        "had"@,
        "do"@,
        "did"@,
        "but"@,
        "not"@,
        "this"@,
        "that"@,
        "from"@,
        "they"@,
        "we"@,
        "he"@,
        "she"@,
        "its"@,
        "my"@,
        "his"@,
        "her"@,
        "our"@,
        "your"@,
        "will"@,
        "would"@,
        "can"@,
        "could"@,
        "if"@,
        "so"@,
        "no"@,
        "up"@,
        "out"@,
        "all"@,
        "been"@,
        "have"@,
        "were"@,
        "what"@,
        "when"@,
        "who"@,
        "which"@,
        "their"@,
        "than"@,
        "them"@,
        "then"@,
        "into"@,
        "each"@,
        "also"@
    ]
}

/// A piece is indexed when it has at least two bytes and is no stopword.
pub open spec fn is_term(p: Seq<char>) -> bool {
    byte_len(p) >= 2 && !stopwords().contains(p)
}

/// The pieces that are indexed, in order.
pub open spec fn terms_among(ps: Seq<Seq<char>>) -> Seq<Seq<char>>
    decreases ps.len(),
{
    if ps.len() == 0 {
        Seq::empty()
    } else if is_term(ps.last()) {
        terms_among(ps.drop_last()).push(ps.last())
    } else {
        terms_among(ps.drop_last())
    }
}

/// The terms of a text: its lower case split at non-alphanumeric
/// characters, keeping pieces of two bytes or more that are no stopwords.
pub open spec fn tokens_of(text: Seq<char>) -> Seq<Seq<char>> {
    terms_among(word_pieces(lowercase_text(text)))
}

fn is_stopword(w: &str) -> (r: bool)
    ensures
        r == stopwords().contains(w@),
{
    let words: Vec<&str> = vec![
        "a",
        "an",
        "the",
        "is",
        "it",
        "in",
        "on",
        "of",
        "to",
        "and",
        "or",
        "for",
        "with",
        "at",
        "by",
        "as",
        "be",
        "was",
        "are",
        "has",
        "had",
        "do",
        "did",
        "but",
        "not",
        "this",
        "that",
        "from",
        "they",
        "we",
        "he",
        "she",
        "its",
        "my",
        "his",
        "her",
        "our",
        "your",
        "will",
        "would",
        "can",
        "could",
        "if",
        "so",
        "no",
        "up",
        "out",
        "all",
        "been",
        "have",
        "were",
        "what",
        "when",
        "who",
        "which",
        "their",
        "than",
        "them",
        "then",
        "into",
        "each",
        "also"
    ];
    assert(words@.len() == stopwords().len());
    assert forall|k: int| 0 <= k < words@.len() implies (#[trigger] words@[k])@ == stopwords()[k] by {}
    let n = words.len();
    for i in 0..n
        invariant
            n == words@.len(),
            n == stopwords().len(),
            forall|k: int| 0 <= k < n ==> (#[trigger] words@[k])@ == stopwords()[k],
            forall|k: int| 0 <= k < i ==> stopwords()[k] != w@,
    {
        if crate::text::str_eq(words[i], w) {
            assert(stopwords()[i as int] == w@);
            return true;
        }
    }
    assert(!stopwords().contains(w@)) by {
        if stopwords().contains(w@) {
            let k = choose|k: int| 0 <= k < stopwords().len() && stopwords()[k] == w@;
            assert(stopwords()[k] != w@);
        }
    }
    false
}

fn is_term_exec(p: &str) -> (r: bool)
    ensures
        r == is_term(p@),
{
    str_byte_len(p) >= 2 && !is_stopword(p)
}

/// The terms of `text` (see [`tokens_of`]).
pub fn tokenize(text: &str) -> (r: Vec<String>)
    ensures
        strings_view(r@) == tokens_of(text@),
{
    let lower = lowercase(text);
    terms_of_lowercase(lower.as_str())
}

/// The terms of an already lower-cased text: its pieces between
/// non-alphanumeric characters that have two bytes or more and are no
/// stopwords.
pub fn terms_of_lowercase(lower: &str) -> (r: Vec<String>)
    ensures
        strings_view(r@) == terms_among(word_pieces(lower@)),
{
    let cs = chars_of(lower);
    let n = cs.len();
    let mut out: Vec<String> = Vec::new();
    let mut start: usize = 0;
    let mut i: usize = 0;
    assert(cs@.take(0) =~= Seq::<char>::empty());
    assert(strings_view(out@) =~= Seq::<Seq<char>>::empty());
    while i < n
        invariant
            n == cs@.len(),
            start <= i <= n,
            word_pieces(cs@.take(i as int)).len() >= 1,
            word_pieces(cs@.take(i as int)).last() == cs@.subrange(start as int, i as int),
            strings_view(out@) == terms_among(word_pieces(cs@.take(i as int)).drop_last()),
        decreases n - i,
    {
        let ghost p = word_pieces(cs@.take(i as int));
        assert(cs@.take(i + 1).drop_last() =~= cs@.take(i as int));
        assert(cs@.take(i + 1).last() == cs@[i as int]);
        if !is_alphanumeric(cs[i]) {
            let piece = string_from_range(&cs, start, i);
            let ghost before = out@;
            if is_term_exec(piece.as_str()) {
                out.push(piece);
                assert(strings_view(out@) =~= strings_view(before).push(p.last()));
            }
            assert(p.push(Seq::<char>::empty()).drop_last() =~= p);
            start = i + 1;
            assert(cs@.subrange(start as int, i + 1) =~= Seq::<char>::empty());
        } else {
            assert(p.update(p.len() - 1, p.last().push(cs@[i as int])).drop_last() =~= p.drop_last());
            assert(cs@.subrange(start as int, i + 1) =~= cs@.subrange(start as int, i as int).push(cs@[i as int]));
        }
        i += 1;
    }
    assert(cs@.take(n as int) =~= cs@);
    let piece = string_from_range(&cs, start, n);
    let ghost before = out@;
    let ghost p = word_pieces(cs@);
    proof {
        lemma_word_pieces_nonempty(cs@);
        assert(p =~= p.drop_last().push(p.last()));
    }
    if is_term_exec(piece.as_str()) {
        out.push(piece);
        assert(strings_view(out@) =~= strings_view(before).push(p.last()));
    }
    out
}

// ── Term counts ───────────────────────────────────────────────────────

/// The number of times `t` occurs in `ts`.
pub open spec fn occurrences(ts: Seq<Seq<char>>, t: Seq<char>) -> nat
    decreases ts.len(),
{
    if ts.len() == 0 {
        0
    } else {
        occurrences(ts.drop_last(), t) + if ts.last() == t {
            1nat
        } else {
            0nat
        }
    }
}

/// Each distinct term of `ts`, in order of first appearance, with the
/// number of times it occurs.
pub open spec fn term_counts(ts: Seq<Seq<char>>) -> Seq<(Seq<char>, nat)> {
    dedup(ts).map_values(|t: Seq<char>| (t, occurrences(ts, t)))
}

/// The plain view of a list of term counts.
pub open spec fn freqs_view(v: Seq<(String, u32)>) -> Seq<(Seq<char>, nat)> {
    v.map_values(|p: (String, u32)| (p.0@, p.1 as nat))
}

proof fn lemma_occurrences_bound(ts: Seq<Seq<char>>, t: Seq<char>)
    ensures
        occurrences(ts, t) <= ts.len(),
    decreases ts.len(),
{
    if ts.len() > 0 {
        lemma_occurrences_bound(ts.drop_last(), t);
    }
}

fn find_term(r: &Vec<(String, u32)>, t: &String) -> (found: Option<usize>)
    ensures
        match found {
            Some(k) => k < r@.len() && r@[k as int].0@ == t@,
            None => forall|j: int| 0 <= j < r@.len() ==> r@[j].0@ != t@,
        },
{
    let m = r.len();
    for k in 0..m
        invariant
            m == r@.len(),
            forall|j: int| 0 <= j < k ==> r@[j].0@ != t@,
    {
        if r[k].0 == *t {
            return Some(k);
        }
    }
    None
}

proof fn lemma_occurrences_absent(ts: Seq<Seq<char>>, t: Seq<char>)
    requires
        !ts.contains(t),
    ensures
        occurrences(ts, t) == 0,
    decreases ts.len(),
{
    if ts.len() > 0 {
        assert(!ts.drop_last().contains(t)) by {
            if ts.drop_last().contains(t) {
                let j = choose|j: int| 0 <= j < ts.drop_last().len() && ts.drop_last()[j] == t;
                assert(ts[j] == t);
            }
        }
        lemma_occurrences_absent(ts.drop_last(), t);
        assert(ts.last() != t) by {
            if ts.last() == t {
                assert(ts[ts.len() - 1] == t);
            }
        }
    }
}

/// Counts the terms of a token list.
pub fn count_terms(tokens: &Vec<String>) -> (r: Vec<(String, u32)>)
    requires
        tokens@.len() <= u32::MAX,
    ensures
        freqs_view(r@) == term_counts(strings_view(tokens@)),
{
    let ghost all = strings_view(tokens@);
    let mut r: Vec<(String, u32)> = Vec::new();
    let n = tokens.len();
    assert(all.take(0) =~= Seq::<Seq<char>>::empty());
    for i in 0..n
        invariant
            n == tokens@.len(),
            n <= u32::MAX,
            all == strings_view(tokens@),
            r@.len() == dedup(all.take(i as int)).len(),
            forall|k: int|
                #![trigger r@[k]]
                0 <= k < r@.len() ==> r@[k].0@ == dedup(all.take(i as int))[k] && r@[k].1
                    == occurrences(all.take(i as int), dedup(all.take(i as int))[k]),
    {
        let ghost ts = all.take(i as int);
        let ghost x = tokens@[i as int]@;
        assert(all.take(i + 1) =~= ts.push(x));
        assert(all.take(i + 1).drop_last() =~= ts);
        proof {
            lemma_dedup(ts);
            lemma_dedup_push(ts, x);
        }
        let found = find_term(&r, &tokens[i]);
        proof {
            lemma_occurrences_bound(ts, x);
        }
        match found {
            Some(k) => {
                assert(dedup(ts)[k as int] == x);
                assert(dedup(ts).contains(x));
                let name = r[k].0.clone();
                let c = r[k].1;
                assert(name@ == x);
                assert forall|j: int| 0 <= j < r@.len() && j != k implies dedup(ts)[j] != x by {
                    assert(dedup(ts).no_duplicates());
                }
                let ghost old_r = r@;
                r.set(k, (name, c + 1));
                assert forall|j: int| 0 <= j < r@.len() implies #[trigger] r@[j].0@ == dedup(all.take(i + 1))[j]
                    && r@[j].1 == occurrences(all.take(i + 1), dedup(all.take(i + 1))[j]) by {
                    assert(occurrences(all.take(i + 1), dedup(ts)[j]) == occurrences(ts, dedup(ts)[j])
                        + if x == dedup(ts)[j] { 1nat } else { 0nat });
                    if j != k {
                        assert(old_r[j] == r@[j]);
                    }
                }
            },
            None => {
                assert(!dedup(ts).contains(x)) by {
                    if dedup(ts).contains(x) {
                        let j = choose|j: int| 0 <= j < dedup(ts).len() && dedup(ts)[j] == x;
                        assert(r@[j].0@ == x);
                    }
                }
                let ghost old_r = r@;
                r.push((tokens[i].clone(), 1));
                assert forall|j: int| 0 <= j < r@.len() implies #[trigger] r@[j].0@ == dedup(all.take(i + 1))[j]
                    && r@[j].1 == occurrences(all.take(i + 1), dedup(all.take(i + 1))[j]) by {
                    let y = dedup(all.take(i + 1))[j];
                    assert(occurrences(all.take(i + 1), y) == occurrences(ts, y)
                        + if x == y { 1nat } else { 0nat });
                    if j < old_r.len() {
                        assert(old_r[j] == r@[j]);
                        assert(y == dedup(ts)[j]);
                        assert(y != x);
                    } else {
                        assert(y == x);
                        assert(!ts.contains(x)) by {
                            lemma_dedup(ts);
                        }
                        lemma_occurrences_absent(ts, x);
                    }
                }
            },
        }
    }
    assert(all.take(n as int) =~= all);
    assert(freqs_view(r@) =~= term_counts(all));
    r
}

// ── The index ─────────────────────────────────────────────────────────

/// A document in the keyword index: its id, how many terms it has, how
/// often each distinct term occurs (in order of first appearance), and the
/// metadata returned with it.
#[derive(Debug, Clone)]
pub struct IndexedDocument {
    pub id: String,
    pub token_count: usize,
    pub term_freqs: Vec<(String, u32)>,
    pub metadata: String,
}

/// The count listed for `t`, or zero.
pub open spec fn freq_of(f: Seq<(Seq<char>, nat)>, t: Seq<char>) -> nat
    decreases f.len(),
{
    if f.len() == 0 {
        0
    } else if f[0].0 == t {
        f[0].1
    } else {
        freq_of(f.drop_first(), t)
    }
}

impl IndexedDocument {
    /// How often `term` occurs in the document (zero when it does not).
    pub fn frequency(&self, term: &str) -> (r: u32)
        ensures
            r == freq_of(freqs_view(self.term_freqs@), term@),
    {
        let n = self.term_freqs.len();
        let ghost f = freqs_view(self.term_freqs@);
        let mut i: usize = 0;
        assert(f.skip(0) =~= f);
        while i < n
            invariant
                n == self.term_freqs@.len(),
                f == freqs_view(self.term_freqs@),
                i <= n,
                freq_of(f, term@) == freq_of(f.skip(i as int), term@),
            decreases n - i,
        {
            assert(f.skip(i as int)[0] == f[i as int]);
            assert(f.skip(i as int).drop_first() =~= f.skip(i + 1));
            if crate::text::str_eq(self.term_freqs[i].0.as_str(), term) {
                return self.term_freqs[i].1;
            }
            i += 1;
        }
        assert(f.skip(n as int).len() == 0);
        0
    }
}

/// The ids of `docs`, in order.
pub open spec fn ids_of(docs: Seq<IndexedDocument>) -> Seq<Seq<char>> {
    docs.map_values(|d: IndexedDocument| d.id@)
}

/// The terms counted over `docs`.
pub open spec fn tokens_total(docs: Seq<IndexedDocument>) -> int
    decreases docs.len(),
{
    if docs.len() == 0 {
        0
    } else {
        tokens_total(docs.drop_last()) + docs.last().token_count
    }
}

/// `docs` without the document named `id`.
pub open spec fn without_id(docs: Seq<IndexedDocument>, id: Seq<char>) -> Seq<IndexedDocument>
    decreases docs.len(),
{
    if docs.len() == 0 {
        docs
    } else if docs.last().id@ == id {
        without_id(docs.drop_last(), id)
    } else {
        without_id(docs.drop_last(), id).push(docs.last())
    }
}

/// `d` lists the term `t`.
pub open spec fn has_term(d: IndexedDocument, t: Seq<char>) -> bool {
    exists|k: int| 0 <= k < d.term_freqs@.len() && (#[trigger] d.term_freqs@[k]).0@ == t
}

/// How many of `docs` list the term `t`.
pub open spec fn doc_frequency(docs: Seq<IndexedDocument>, t: Seq<char>) -> nat
    decreases docs.len(),
{
    if docs.len() == 0 {
        0
    } else {
        doc_frequency(docs.drop_last(), t) + if has_term(docs.last(), t) {
            1nat
        } else {
            0nat
        }
    }
}

/// Every term listed by `docs`, document after document.
pub open spec fn all_terms(docs: Seq<IndexedDocument>) -> Seq<Seq<char>>
    decreases docs.len(),
{
    if docs.len() == 0 {
        Seq::empty()
    } else {
        all_terms(docs.drop_last()) + strings_view(docs.last().term_freqs@.map_values(|p: (String, u32)| p.0))
    }
}

/// The distinct terms of the index.
pub open spec fn vocabulary(docs: Seq<IndexedDocument>) -> Seq<Seq<char>> {
    dedup(all_terms(docs))
}

proof fn lemma_tokens_total_concat(a: Seq<IndexedDocument>, b: Seq<IndexedDocument>)
    ensures
        tokens_total(a + b) == tokens_total(a) + tokens_total(b),
    decreases b.len(),
{
    if b.len() == 0 {
        assert(a + b =~= a);
    } else {
        lemma_tokens_total_concat(a, b.drop_last());
        assert((a + b).drop_last() =~= a + b.drop_last());
    }
}

proof fn lemma_tokens_total_nonneg(a: Seq<IndexedDocument>)
    ensures
        tokens_total(a) >= 0,
    decreases a.len(),
{
    if a.len() > 0 {
        lemma_tokens_total_nonneg(a.drop_last());
    }
}

proof fn lemma_without_absent(docs: Seq<IndexedDocument>, id: Seq<char>)
    requires
        !ids_of(docs).contains(id),
    ensures
        without_id(docs, id) == docs,
    decreases docs.len(),
{
    if docs.len() > 0 {
        let init = docs.drop_last();
        assert(!ids_of(init).contains(id)) by {
            if ids_of(init).contains(id) {
                let j = choose|j: int| 0 <= j < ids_of(init).len() && ids_of(init)[j] == id;
                assert(ids_of(docs)[j] == id);
            }
        }
        lemma_without_absent(init, id);
        assert(ids_of(docs)[docs.len() - 1] == docs.last().id@);
        assert(docs =~= init.push(docs.last()));
    }
}

proof fn lemma_without_at(docs: Seq<IndexedDocument>, id: Seq<char>, k: int)
    requires
        ids_of(docs).no_duplicates(),
        0 <= k < docs.len(),
        docs[k].id@ == id,
    ensures
        without_id(docs, id) == docs.remove(k),
    decreases docs.len(),
{
    let init = docs.drop_last();
    if k == docs.len() - 1 {
        assert(!ids_of(init).contains(id)) by {
            if ids_of(init).contains(id) {
                let j = choose|j: int| 0 <= j < ids_of(init).len() && ids_of(init)[j] == id;
                assert(ids_of(docs)[j] == ids_of(docs)[k]);
            }
        }
        lemma_without_absent(init, id);
        assert(docs.remove(k) =~= init);
    } else {
        assert(ids_of(init).no_duplicates()) by {
            assert forall|a: int, b: int| 0 <= a < ids_of(init).len() && 0 <= b < ids_of(init).len() && a != b
                implies ids_of(init)[a] != ids_of(init)[b] by {
                assert(ids_of(init)[a] == ids_of(docs)[a]);
                assert(ids_of(init)[b] == ids_of(docs)[b]);
            }
        }
        assert(init[k] == docs[k]);
        lemma_without_at(init, id, k);
        assert(docs.last().id@ != id) by {
            assert(ids_of(docs)[docs.len() - 1] != ids_of(docs)[k]);
        }
        assert(docs.remove(k) =~= init.remove(k).push(docs.last()));
    }
}

proof fn lemma_remove_total(docs: Seq<IndexedDocument>, k: int)
    requires
        0 <= k < docs.len(),
    ensures
        tokens_total(docs.remove(k)) == tokens_total(docs) - docs[k].token_count,
{
    let a = docs.take(k);
    let b = docs.skip(k + 1);
    assert(docs =~= a + seq![docs[k]] + b);
    assert(docs.remove(k) =~= a + b);
    lemma_tokens_total_concat(a, b);
    lemma_tokens_total_concat(a + seq![docs[k]], b);
    lemma_tokens_total_concat(a, seq![docs[k]]);
    assert(seq![docs[k]].drop_last() =~= Seq::<IndexedDocument>::empty());
    assert(tokens_total(Seq::<IndexedDocument>::empty()) == 0);
    assert(tokens_total(seq![docs[k]]) == docs[k].token_count);
}

proof fn lemma_ids_remove(docs: Seq<IndexedDocument>, k: int)
    requires
        ids_of(docs).no_duplicates(),
        0 <= k < docs.len(),
    ensures
        ids_of(docs.remove(k)).no_duplicates(),
        !ids_of(docs.remove(k)).contains(docs[k].id@),
{
    let r = docs.remove(k);
    assert forall|a: int, b: int| 0 <= a < ids_of(r).len() && 0 <= b < ids_of(r).len() && a != b
        implies ids_of(r)[a] != ids_of(r)[b] by {
        let a2 = if a < k { a } else { a + 1 };
        let b2 = if b < k { b } else { b + 1 };
        assert(ids_of(r)[a] == ids_of(docs)[a2]);
        assert(ids_of(r)[b] == ids_of(docs)[b2]);
    }
    if ids_of(r).contains(docs[k].id@) {
        let j = choose|j: int| 0 <= j < ids_of(r).len() && ids_of(r)[j] == docs[k].id@;
        let j2 = if j < k { j } else { j + 1 };
        assert(ids_of(r)[j] == ids_of(docs)[j2]);
        assert(ids_of(docs)[k] == docs[k].id@);
    }
}

/// The documents of a keyword index and the number of terms they hold.
#[derive(Debug, Clone)]
pub struct KeywordIndex {
    documents: Vec<IndexedDocument>,
    total_tokens: u64,
}

impl KeywordIndex {
    /// The indexed documents, in the order they were (last) indexed.
    pub closed spec fn docs(&self) -> Seq<IndexedDocument> {
        self.documents@
    }

    /// Document ids are distinct and the term total is kept.
    pub closed spec fn wf(&self) -> bool {
        &&& ids_of(self.documents@).no_duplicates()
        &&& self.total_tokens == tokens_total(self.documents@)
    }

    /// An empty index.
    pub fn new() -> (r: Self)
        ensures
            r.wf(),
            r.docs().len() == 0,
    {
        KeywordIndex { documents: Vec::new(), total_tokens: 0 }
    }

    /// The indexed documents.
    pub fn documents(&self) -> (r: &Vec<IndexedDocument>)
        ensures
            r@ == self.docs(),
    {
        &self.documents
    }

    /// The number of indexed documents.
    pub fn document_count(&self) -> (r: usize)
        ensures
            r == self.docs().len(),
    {
        self.documents.len()
    }

    /// The number of terms over all documents.
    pub fn total_tokens(&self) -> (r: u64)
        requires
            self.wf(),
        ensures
            r == tokens_total(self.docs()),
    {
        self.total_tokens
    }

    fn position(&self, id: &str) -> (r: Option<usize>)
        ensures
            match r {
                Some(k) => k < self.docs().len() && self.docs()[k as int].id@ == id@,
                None => !ids_of(self.docs()).contains(id@),
            },
    {
        let n = self.documents.len();
        for k in 0..n
            invariant
                n == self.documents@.len(),
                forall|j: int| 0 <= j < k ==> self.documents@[j].id@ != id@,
        {
            if crate::text::str_eq(self.documents[k].id.as_str(), id) {
                return Some(k);
            }
        }
        assert(!ids_of(self.docs()).contains(id@)) by {
            if ids_of(self.docs()).contains(id@) {
                let j = choose|j: int| 0 <= j < ids_of(self.docs()).len() && ids_of(self.docs())[j] == id@;
                assert(self.documents@[j].id@ == id@);
            }
        }
        None
    }

    /// Removes the document named `id`; whether there was one.
    pub fn remove(&mut self, id: &str) -> (r: bool)
        requires
            old(self).wf(),
        ensures
            final(self).wf(),
            r == ids_of(old(self).docs()).contains(id@),
            final(self).docs() == without_id(old(self).docs(), id@),
    {
        match self.position(id) {
            None => {
                proof {
                    lemma_without_absent(self.documents@, id@);
                }
                false
            },
            Some(k) => {
                let ghost before = self.documents@;
                proof {
                    lemma_without_at(before, id@, k as int);
                    lemma_remove_total(before, k as int);
                    lemma_ids_remove(before, k as int);
                    lemma_tokens_total_nonneg(before.remove(k as int));
                    assert(ids_of(before)[k as int] == id@);
                }
                let doc = self.documents.remove(k);
                self.total_tokens = self.total_tokens - doc.token_count as u64;
                true
            },
        }
    }

    /// Indexes a document of the given terms under `id`, replacing any
    /// document of that id.
    pub fn index_tokens(&mut self, id: &str, tokens: Vec<String>, metadata: &str)
        requires
            old(self).wf(),
            tokens@.len() <= u32::MAX,
            tokens_total(without_id(old(self).docs(), id@)) + tokens@.len() <= u64::MAX,
        ensures
            final(self).wf(),
            final(self).docs().len() >= 1,
            final(self).docs().drop_last() == without_id(old(self).docs(), id@),
            ({
                let d = final(self).docs().last();
                &&& d.id@ == id@
                &&& d.token_count == tokens@.len()
                &&& freqs_view(d.term_freqs@) == term_counts(strings_view(tokens@))
                &&& d.metadata@ == metadata@
            }),
    {
        self.remove(id);
        let term_freqs = count_terms(&tokens);
        let doc = IndexedDocument {
            id: id.to_owned(),
            token_count: tokens.len(),
            term_freqs,
            metadata: metadata.to_owned(),
        };
        let ghost before = self.documents@;
        proof {
            assert(!ids_of(before).contains(id@)) by {
                lemma_without_id_lacks(old(self).documents@, id@);
            }
            assert(before.push(doc).drop_last() =~= before);
            assert(ids_of(before.push(doc)) =~= ids_of(before).push(id@));
        }
        self.total_tokens = self.total_tokens + tokens.len() as u64;
        self.documents.push(doc);
    }
}

/// `d` lists one of the terms `ts`.
pub open spec fn matches_any(d: IndexedDocument, ts: Seq<Seq<char>>) -> bool {
    exists|j: int| 0 <= j < ts.len() && has_term(d, #[trigger] ts[j])
}

/// The positions of the documents among `docs` that list one of `ts`, in
/// order.
pub open spec fn matching(docs: Seq<IndexedDocument>, ts: Seq<Seq<char>>) -> Seq<int>
    decreases docs.len(),
{
    if docs.len() == 0 {
        Seq::empty()
    } else if matches_any(docs.last(), ts) {
        matching(docs.drop_last(), ts).push(docs.len() - 1)
    } else {
        matching(docs.drop_last(), ts)
    }
}

fn has_term_exec(d: &IndexedDocument, t: &str) -> (r: bool)
    ensures
        r == has_term(*d, t@),
{
    let n = d.term_freqs.len();
    for k in 0..n
        invariant
            n == d.term_freqs@.len(),
            forall|j: int| 0 <= j < k ==> d.term_freqs@[j].0@ != t@,
    {
        if crate::text::str_eq(d.term_freqs[k].0.as_str(), t) {
            assert(d.term_freqs@[k as int].0@ == t@);
            return true;
        }
    }
    false
}

fn matches_any_exec(d: &IndexedDocument, ts: &[String]) -> (r: bool)
    ensures
        r == matches_any(*d, strings_view(ts@)),
{
    let n = ts.len();
    for j in 0..n
        invariant
            n == ts@.len(),
            forall|i: int| 0 <= i < j ==> !has_term(*d, ts@[i]@),
    {
        if has_term_exec(d, ts[j].as_str()) {
            assert(strings_view(ts@)[j as int] == ts@[j as int]@);
            return true;
        }
    }
    assert(!matches_any(*d, strings_view(ts@))) by {
        if matches_any(*d, strings_view(ts@)) {
            let i = choose|i: int| 0 <= i < strings_view(ts@).len() && has_term(*d, #[trigger] strings_view(ts@)[i]);
            assert(strings_view(ts@)[i] == ts@[i]@);
        }
    }
    false
}

impl KeywordIndex {
    /// Tokenizes `text` and indexes it under `id`, replacing any document of
    /// that id; nothing changes, and `false` is answered, when the text has
    /// more terms than a term count holds or the index's term total would
    /// overflow.
    pub fn index(&mut self, id: &str, text: &str, metadata: &str) -> (r: bool)
        requires
            old(self).wf(),
        ensures
            final(self).wf(),
            r == (tokens_of(text@).len() <= u32::MAX && tokens_total(without_id(old(self).docs(), id@))
                + tokens_of(text@).len() <= u64::MAX),
            !r ==> final(self).docs() == old(self).docs(),
            r ==> final(self).docs().len() >= 1 && final(self).docs().drop_last() == without_id(
                old(self).docs(),
                id@,
            ) && ({
                let d = final(self).docs().last();
                &&& d.id@ == id@
                &&& d.token_count == tokens_of(text@).len()
                &&& freqs_view(d.term_freqs@) == term_counts(tokens_of(text@))
                &&& d.metadata@ == metadata@
            }),
    {
        let tokens = tokenize(text);
        if tokens.len() > 4294967295usize {
            return false;
        }
        let removed: u64 = match self.position(id) {
            Some(k) => {
                proof {
                    lemma_without_at(self.documents@, id@, k as int);
                    lemma_remove_total(self.documents@, k as int);
                    lemma_tokens_total_nonneg(self.documents@.remove(k as int));
                }
                self.documents[k].token_count as u64
            },
            None => {
                proof {
                    lemma_without_absent(self.documents@, id@);
                }
                0
            },
        };
        let remaining = self.total_tokens - removed;
        if tokens.len() as u64 > u64::MAX - remaining {
            return false;
        }
        self.index_tokens(id, tokens, metadata);
        true
    }

    /// How many documents list `term`.
    pub fn document_frequency(&self, term: &str) -> (r: usize)
        ensures
            r == doc_frequency(self.docs(), term@),
    {
        let n = self.documents.len();
        let mut count: usize = 0;
        let ghost docs = self.documents@;
        assert(docs.take(0) =~= Seq::<IndexedDocument>::empty());
        for i in 0..n
            invariant
                n == docs.len(),
                docs == self.documents@,
                count == doc_frequency(docs.take(i as int), term@),
                count <= i,
        {
            assert(docs.take(i + 1).drop_last() =~= docs.take(i as int));
            if has_term_exec(&self.documents[i], term) {
                count += 1;
            }
        }
        assert(docs.take(n as int) =~= docs);
        count
    }

    /// The positions of the documents that list one of `terms`, in order.
    pub fn candidates(&self, terms: &[String]) -> (r: Vec<usize>)
        ensures
            r@.len() == matching(self.docs(), strings_view(terms@)).len(),
            forall|k: int| 0 <= k < r@.len() ==> #[trigger] r@[k] == matching(self.docs(), strings_view(terms@))[k],
    {
        let n = self.documents.len();
        let ghost docs = self.documents@;
        let ghost ts = strings_view(terms@);
        let mut out: Vec<usize> = Vec::new();
        assert(docs.take(0) =~= Seq::<IndexedDocument>::empty());
        for i in 0..n
            invariant
                n == docs.len(),
                docs == self.documents@,
                ts == strings_view(terms@),
                out@.len() == matching(docs.take(i as int), ts).len(),
                forall|k: int| 0 <= k < out@.len() ==> #[trigger] out@[k] == matching(docs.take(i as int), ts)[k],
        {
            assert(docs.take(i + 1).drop_last() =~= docs.take(i as int));
            assert(docs.take(i + 1).last() == docs[i as int]);
            if matches_any_exec(&self.documents[i], terms) {
                out.push(i);
            }
        }
        assert(docs.take(n as int) =~= docs);
        out
    }

    /// The number of distinct terms in the index.
    pub fn vocabulary_size(&self) -> (r: usize)
        ensures
            r == vocabulary(self.docs()).len(),
    {
        let n = self.documents.len();
        let ghost docs = self.documents@;
        let mut seen: Vec<String> = Vec::new();
        assert(docs.take(0) =~= Seq::<IndexedDocument>::empty());
        assert(strings_view(seen@) =~= dedup(all_terms(docs.take(0))));
        for i in 0..n
            invariant
                n == docs.len(),
                docs == self.documents@,
                strings_view(seen@) == dedup(all_terms(docs.take(i as int))),
        {
            let d = &self.documents[i];
            let ghost base = all_terms(docs.take(i as int));
            let ghost terms = strings_view(d.term_freqs@.map_values(|p: (String, u32)| p.0));
            assert(docs.take(i + 1).drop_last() =~= docs.take(i as int));
            assert(docs.take(i + 1).last() == *d);
            assert(all_terms(docs.take(i + 1)) == base + terms);
            let m = d.term_freqs.len();
            assert(base + terms.take(0) =~= base);
            for j in 0..m
                invariant
                    m == d.term_freqs@.len(),
                    terms.len() == m,
                    terms == strings_view(d.term_freqs@.map_values(|p: (String, u32)| p.0)),
                    strings_view(seen@) == dedup(base + terms.take(j as int)),
            {
                let name = &d.term_freqs[j].0;
                assert(terms[j as int] == name@);
                assert(base + terms.take(j + 1) =~= (base + terms.take(j as int)).push(name@));
                proof {
                    lemma_dedup_push(base + terms.take(j as int), name@);
                }
                let present = crate::prompt::contains_string(&seen, name);
                if !present {
                    let ghost before = seen@;
                    seen.push(name.clone());
                    assert(strings_view(seen@) =~= strings_view(before).push(name@));
                }
            }
            assert(terms.take(m as int) =~= terms);
        }
        assert(docs.take(n as int) =~= docs);
        seen.len()
    }

    /// The number of distinct terms in the index (as [`Self::vocabulary_size`]).
    pub fn term_count(&self) -> (r: usize)
        ensures
            r == vocabulary(self.docs()).len(),
    {
        self.vocabulary_size()
    }
}

proof fn lemma_without_id_lacks(docs: Seq<IndexedDocument>, id: Seq<char>)
    ensures
        !ids_of(without_id(docs, id)).contains(id),
    decreases docs.len(),
{
    if docs.len() > 0 {
        lemma_without_id_lacks(docs.drop_last(), id);
        let w = without_id(docs.drop_last(), id);
        if docs.last().id@ != id {
            assert(ids_of(w.push(docs.last())) =~= ids_of(w).push(docs.last().id@));
        }
    }
}

/// Indexing replaces and removal undoes: removing a document right after
/// indexing it leaves exactly the documents that were there before, less
/// any earlier version of it.
pub proof fn law_remove_undoes_index(before: Seq<IndexedDocument>, after: Seq<IndexedDocument>, id: Seq<char>)
    requires
        after.len() >= 1,
        after.drop_last() == without_id(before, id),
        after.last().id@ == id,
    ensures
        without_id(after, id) == without_id(before, id),
{
    lemma_without_id_lacks(before, id);
    lemma_without_absent(without_id(before, id), id);
}


/// The common English words that keyword search leaves out: "a", "an",
/// "the", "is", "it", "in", "on", "of", "to", "and", "or", ... .
pub open spec fn common_english_words() -> Seq<Seq<char>> {
    seq![
        "a"@, "an"@, "the"@, "is"@, "it"@, "in"@, "on"@, "of"@,
        "to"@, "and"@, "or"@, "for"@, "with"@, "at"@, "by"@, "as"@,
        "be"@, "was"@, "are"@, "has"@, "had"@, "do"@, "did"@, "but"@,
        "not"@, "this"@, "that"@, "from"@, "they"@, "we"@, "he"@, "she"@,
        "its"@, "my"@, "his"@, "her"@, "our"@, "your"@, "will"@, "would"@,
        "can"@, "could"@, "if"@, "so"@, "no"@, "up"@, "out"@, "all"@,
        "been"@, "have"@, "were"@, "what"@, "when"@, "who"@, "which"@, "their"@,
        "than"@, "them"@, "then"@, "into"@, "each"@, "also"@,
    ]
}

proof fn lemma_terms_among(ps: Seq<Seq<char>>)
    ensures
        forall|k: int| 0 <= k < terms_among(ps).len() ==> ps.contains(#[trigger] terms_among(ps)[k]) && is_term(terms_among(ps)[k]),
        forall|k: int| 0 <= k < ps.len() && is_term(#[trigger] ps[k]) ==> terms_among(ps).contains(ps[k]),
    decreases ps.len(),
{
    if ps.len() > 0 {
        let init = ps.drop_last();
        lemma_terms_among(init);
        let t = terms_among(ps);
        assert forall|k: int| 0 <= k < t.len() implies ps.contains(#[trigger] t[k]) && is_term(t[k]) by {
            if k < terms_among(init).len() {
                assert(t[k] == terms_among(init)[k]);
                let i = choose|i: int| 0 <= i < init.len() && init[i] == t[k];
                assert(ps[i] == init[i]);
            } else {
                assert(ps[ps.len() - 1] == t[k]);
            }
        }
        assert forall|k: int| 0 <= k < ps.len() && is_term(#[trigger] ps[k]) implies t.contains(ps[k]) by {
            if k < ps.len() - 1 {
                assert(init[k] == ps[k]);
                let i = choose|i: int| 0 <= i < terms_among(init).len() && terms_among(init)[i] == ps[k];
                assert(t[i] == terms_among(init)[i]);
            } else {
                assert(t[t.len() - 1] == ps[k]);
            }
        }
    }
}

proof fn lemma_terms_among_filter(ps: Seq<Seq<char>>)
    ensures
        terms_among(ps) == ps.filter(|p: Seq<char>| byte_len(p) >= 2 && !common_english_words().contains(p)),
    decreases ps.len(),
{
    reveal(Seq::filter);
    assert(common_english_words() == stopwords());
    if ps.len() > 0 {
        lemma_terms_among_filter(ps.drop_last());
    }
}

/// Keyword search indexes exactly the words of a text that are no common
/// English word: the terms of `text` are the pieces of its lower case
/// (between characters that are not alphanumeric), in order, that have two
/// bytes or more and are none of the common English words.
pub proof fn law_tokens_skip_common_words(text: Seq<char>)
    ensures
        tokens_of(text) == word_pieces(lowercase_text(text)).filter(
            |p: Seq<char>| byte_len(p) >= 2 && !common_english_words().contains(p),
        ),
        forall|k: int|
            0 <= k < tokens_of(text).len() ==> word_pieces(lowercase_text(text)).contains(#[trigger] tokens_of(text)[k])
                && byte_len(tokens_of(text)[k]) >= 2 && !common_english_words().contains(tokens_of(text)[k]),
        forall|k: int|
            0 <= k < word_pieces(lowercase_text(text)).len() && byte_len(#[trigger] word_pieces(lowercase_text(text))[k]) >= 2
                && !common_english_words().contains(word_pieces(lowercase_text(text))[k]) ==> tokens_of(text).contains(
                word_pieces(lowercase_text(text))[k],
            ),
{
    assert(common_english_words() == stopwords());
    lemma_terms_among(word_pieces(lowercase_text(text)));
    lemma_terms_among_filter(word_pieces(lowercase_text(text)));
}


/// Keyword candidates are the documents that list at least one query term:
/// a position is a candidate exactly when its document lists one of the
/// terms, and candidates come in increasing order.
pub proof fn law_candidates_list_a_query_term(docs: Seq<IndexedDocument>, ts: Seq<Seq<char>>)
    ensures
        forall|p: int|
            matching(docs, ts).contains(p) <==> 0 <= p < docs.len() && exists|j: int|
                0 <= j < ts.len() && has_term(docs[p], #[trigger] ts[j]),
        forall|a: int, b: int| 0 <= a < b < matching(docs, ts).len() ==> matching(docs, ts)[a] < matching(docs, ts)[b],
    decreases docs.len(),
{
    if docs.len() > 0 {
        let init = docs.drop_last();
        let last = docs.len() - 1;
        law_candidates_list_a_query_term(init, ts);
        let m0 = matching(init, ts);
        let m = matching(docs, ts);
        assert forall|p: int|
            m.contains(p) <==> 0 <= p < docs.len() && exists|j: int| 0 <= j < ts.len() && has_term(docs[p], #[trigger] ts[j]) by {
            if 0 <= p < last {
                assert(docs[p] == init[p]);
            }
            if m.contains(p) {
                let i = choose|i: int| 0 <= i < m.len() && m[i] == p;
                if i < m0.len() {
                    assert(m[i] == m0[i]);
                    assert(m0.contains(p));
                }
            }
            if m0.contains(p) {
                let i = choose|i: int| 0 <= i < m0.len() && m0[i] == p;
                assert(m[i] == m0[i]);
            }
            if p == last && (exists|j: int| 0 <= j < ts.len() && has_term(docs[p], #[trigger] ts[j])) {
                assert(matches_any(docs.last(), ts));
                assert(m[m.len() - 1] == p);
            }
            if p == last && m.contains(p) {
                let i = choose|i: int| 0 <= i < m.len() && m[i] == p;
                if i < m0.len() {
                    assert(m0.contains(p));
                }
            }
        }
        assert forall|a: int, b: int| 0 <= a < b < m.len() implies m[a] < m[b] by {
            if b < m0.len() {
                assert(m[a] == m0[a]);
                assert(m[b] == m0[b]);
            } else {
                assert(m[a] == m0[a]);
                assert(m0.contains(m0[a]));
            }
        }
    }
}


proof fn lemma_word_pieces_shape(s: Seq<char>)
    ensures
        forall|k: int, m: int|
            0 <= k < word_pieces(s).len() && 0 <= m < word_pieces(s)[k].len() ==> alphanumeric(
                #[trigger] word_pieces(s)[k][m],
            ),
        word_pieces(s).len() == s.filter(|c: char| !alphanumeric(c)).len() + 1,
        word_pieces(s).flatten_alt() == s.filter(|c: char| alphanumeric(c)),
    decreases s.len(),
{
    reveal(Seq::filter);
    if s.len() > 0 {
        let init = s.drop_last();
        let c = s.last();
        lemma_word_pieces_shape(init);
        lemma_word_pieces_nonempty(init);
        let p = word_pieces(init);
        let w = word_pieces(s);
        if !alphanumeric(c) {
            assert(w == p.push(Seq::<char>::empty()));
            assert(w.drop_last() =~= p);
            assert(w.flatten_alt() =~= p.flatten_alt());
            assert forall|k: int, m: int| 0 <= k < w.len() && 0 <= m < w[k].len() implies alphanumeric(#[trigger] w[k][m]) by {
                assert(w[k] == p[k]);
            }
        } else {
            let l = p.len() - 1;
            let x = p.last().push(c);
            assert(w == p.update(l, x));
            assert(w.drop_last() =~= p.drop_last());
            assert(p.drop_last().push(p.last()) =~= p);
            assert(p.flatten_alt() == p.drop_last().flatten_alt() + p.last());
            assert(w.flatten_alt() == w.drop_last().flatten_alt() + w.last());
            assert(w.flatten_alt() =~= p.flatten_alt().push(c));
            assert(s.filter(|c: char| alphanumeric(c)) == init.filter(|c: char| alphanumeric(c)).push(c));
            assert forall|k: int, m: int| 0 <= k < w.len() && 0 <= m < w[k].len() implies alphanumeric(#[trigger] w[k][m]) by {
                if k < l {
                    assert(w[k] == p[k]);
                } else if m < p.last().len() {
                    assert(w[k][m] == p[l][m]);
                }
            }
        }
    } else {
        let w = word_pieces(s);
        assert(w =~= seq![Seq::<char>::empty()]);
        assert(w.drop_last() =~= Seq::<Seq<char>>::empty());
        assert(w.drop_last().flatten_alt() == Seq::<char>::empty());
        assert(w.last() == Seq::<char>::empty());
        assert(w.flatten_alt() == w.drop_last().flatten_alt() + w.last());
        assert(w.flatten_alt() =~= Seq::<char>::empty());
    }
}

/// A text's words are its runs of alphanumeric characters: every piece
/// holds only alphanumeric characters, there is one piece more than there
/// are other characters (each of them ends a piece), and the pieces, in
/// order, hold exactly the text's alphanumeric characters.
pub proof fn law_word_pieces_split_at_other_characters(s: Seq<char>)
    ensures
        forall|k: int, m: int|
            0 <= k < word_pieces(s).len() && 0 <= m < word_pieces(s)[k].len() ==> alphanumeric(
                #[trigger] word_pieces(s)[k][m],
            ),
        word_pieces(s).len() == s.filter(|c: char| !alphanumeric(c)).len() + 1,
        word_pieces(s).flatten() == s.filter(|c: char| alphanumeric(c)),
{
    lemma_word_pieces_shape(s);
    word_pieces(s).lemma_flatten_and_flatten_alt_are_equivalent();
}

} // verus!
