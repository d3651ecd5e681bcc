//! Splitting text into chunks suitable for embedding.
//!
//! Offsets and size limits are counted in UTF-8 bytes, as `str::len` counts
//! them; chunk boundaries always fall between characters.
use vstd::prelude::*;
use crate::text::{
    byte_len, char_width, char_width_exec, chars_of, is_blank, is_whitespace, is_ws,
    lemma_byte_len_concat, lemma_byte_len_subrange, lemma_byte_len_take_mono,
    lemma_trim_empty_iff_blank, lemma_trim_idempotent, string_from_chars, string_from_range, trim, trim_range,
};

verus! {

/// Strategy for splitting text into chunks suitable for embedding.
#[derive(Debug, Clone, Copy, PartialEq, Eq, Structural)]
pub enum ChunkStrategy {
    /// Fixed character count with overlap.
    FixedSize,
    /// Split on paragraph boundaries (double newline).
    Paragraph,
    /// Split on sentence boundaries.
    Sentence,
}

/// Options controlling how text is chunked.
#[derive(Debug, Clone)]
pub struct ChunkOptions {
    /// Maximum bytes per chunk.
    pub max_chars: usize,
    /// Bytes of overlap between consecutive chunks (FixedSize only).
    pub overlap: usize,
    /// Strategy to use.
    pub strategy: ChunkStrategy,
}

impl Default for ChunkOptions {
    fn default() -> (r: Self)
        ensures
            r.max_chars == 512,
            r.overlap == 64,
            r.strategy == ChunkStrategy::Paragraph,
    {
        ChunkOptions { max_chars: 512, overlap: 64, strategy: ChunkStrategy::Paragraph }
    }
}

/// A single chunk of text extracted from a larger document.
#[derive(Debug, Clone)]
pub struct Chunk {
    /// The chunk text.
    pub text: String,
    /// Byte offset of this chunk in the chunked text.
    pub offset: usize,
    /// Zero-based index of this chunk.
    pub index: usize,
}

impl View for Chunk {
    type V = (Seq<char>, int, int);

    open spec fn view(&self) -> (Seq<char>, int, int) {
        (self.text@, self.offset as int, self.index as int)
    }
}

/// The abstract contents of a list of chunks.
pub open spec fn chunks_view(v: Seq<Chunk>) -> Seq<(Seq<char>, int, int)> {
    v.map_values(|c: Chunk| c@)
}

// ---------------------------------------------------------------------------
// Byte positions

/// Byte offset of the character at index `k` of `s`.
pub open spec fn prefix_bytes(s: Seq<char>, k: int) -> nat {
    byte_len(s.take(k))
}

/// The boundary `snap` moves a byte position back to, one character at a time.
pub open spec fn snap_rec(s: Seq<char>, p: int, k: int) -> int
    decreases k,
{
    if k <= 0 {
        0
    } else if prefix_bytes(s, k) <= p {
        k
    } else {
        snap_rec(s, p, k - 1)
    }
}

/// Index of the last character boundary at or before byte position `p`.
pub open spec fn snap(s: Seq<char>, p: int) -> int {
    snap_rec(s, p, s.len() as int)
}

/// Byte offsets grow strictly with character positions.
pub proof fn lemma_prefix_strict(s: Seq<char>, i: int, j: int)
    requires
        0 <= i <= j <= s.len(),
    ensures
        prefix_bytes(s, i) + (j - i) <= prefix_bytes(s, j),
{
    lemma_byte_len_take_mono(s, i, j);
}

/// The byte offset of the next character.
pub proof fn lemma_prefix_step(s: Seq<char>, k: int)
    requires
        0 <= k < s.len(),
    ensures
        prefix_bytes(s, k + 1) == prefix_bytes(s, k) + char_width(s[k]),
{
    assert(s.take(k + 1).drop_last() =~= s.take(k));
}

/// The byte offset past the last character is the byte length.
pub proof fn lemma_prefix_total(s: Seq<char>)
    ensures
        prefix_bytes(s, s.len() as int) == byte_len(s),
{
    assert(s.take(s.len() as int) =~= s);
}

/// `snap` picks the unique boundary `k` with `prefix(k) <= p < prefix(k + 1)`.
pub proof fn lemma_snap_at(s: Seq<char>, p: int, k: int)
    requires
        0 <= k <= s.len(),
        prefix_bytes(s, k) <= p,
        k == s.len() || prefix_bytes(s, k + 1) > p,
    ensures
        snap(s, p) == k,
{
    lemma_snap_rec_at(s, p, k, s.len() as int);
}

proof fn lemma_snap_rec_at(s: Seq<char>, p: int, k: int, j: int)
    requires
        0 <= k <= j <= s.len(),
        prefix_bytes(s, k) <= p,
        k == s.len() || prefix_bytes(s, k + 1) > p,
    ensures
        snap_rec(s, p, j) == k,
    decreases j,
{
    if j > k {
        lemma_prefix_strict(s, k + 1, j);
        lemma_snap_rec_at(s, p, k, j - 1);
    }
}

// ---------------------------------------------------------------------------
// Fixed-size strategy

/// Fixed-size chunks starting at character index `k`, appended to `acc`.
pub open spec fn fixed_rec(
    s: Seq<char>,
    max: int,
    step: int,
    k: int,
    acc: Seq<(Seq<char>, int, int)>,
) -> Seq<(Seq<char>, int, int)>
    decreases s.len() - k,
{
    if k < 0 || k >= s.len() {
        acc
    } else {
        let pos = prefix_bytes(s, k) as int;
        let total = byte_len(s) as int;
        let end = snap(s, if pos + max < total { pos + max } else { total });
        let piece = s.subrange(k, end);
        let acc2 = if is_blank(piece) {
            acc
        } else {
            acc.push((piece, pos, acc.len() as int))
        };
        let next = pos + step;
        if next >= total {
            acc2
        } else {
            let k2 = snap(s, next);
            if k2 <= k || k2 >= s.len() {
                acc2
            } else {
                fixed_rec(s, max, step, k2, acc2)
            }
        }
    }
}

/// Distance between the starts of consecutive fixed-size chunks.
pub open spec fn fixed_step(max_chars: usize, overlap: usize) -> int {
    let max = if max_chars == 0 { 1int } else { max_chars as int };
    let ov = if overlap < max - 1 { overlap as int } else { max - 1 };
    max - ov
}

/// `offs[k]` is the byte offset of character `k`, for every `k <= cs.len()`.
pub open spec fn offsets_of(s: Seq<char>, offs: Seq<usize>) -> bool {
    &&& offs.len() == s.len() + 1
    &&& forall|k: int| 0 <= k <= s.len() ==> #[trigger] offs[k] == prefix_bytes(s, k)
}

fn byte_offsets(cs: &Vec<char>) -> (offs: Vec<usize>)
    requires
        byte_len(cs@) <= usize::MAX,
    ensures
        offsets_of(cs@, offs@),
{
    let mut offs: Vec<usize> = Vec::new();
    offs.push(0);
    assert(cs@.take(0) =~= Seq::<char>::empty());
    let mut acc: usize = 0;
    let mut k: usize = 0;
    while k < cs.len()
        invariant
            k <= cs.len(),
            byte_len(cs@) <= usize::MAX,
            offs@.len() == k + 1,
            acc == prefix_bytes(cs@, k as int),
            forall|j: int| 0 <= j <= k ==> #[trigger] offs@[j] == prefix_bytes(cs@, j),
        decreases cs.len() - k,
    {
        proof {
            lemma_prefix_step(cs@, k as int);
            lemma_prefix_strict(cs@, k + 1, cs@.len() as int);
            lemma_prefix_total(cs@);
        }
        acc = acc + char_width_exec(cs[k]);
        offs.push(acc);
        k += 1;
    }
    offs
}

/// Whether `cs[a..b]` is all whitespace.
fn blank_range(cs: &Vec<char>, a: usize, b: usize) -> (r: bool)
    requires
        a <= b <= cs.len(),
    ensures
        r == is_blank(cs@.subrange(a as int, b as int)),
{
    let mut i = a;
    while i < b
        invariant
            a <= i <= b <= cs.len(),
            forall|j: int| a <= j < i ==> is_ws(#[trigger] cs@[j]),
        decreases b - i,
    {
        if !is_whitespace(cs[i]) {
            assert(cs@.subrange(a as int, b as int)[i - a] == cs@[i as int]);
            return false;
        }
        i += 1;
    }
    assert forall|j: int| 0 <= j < b - a implies is_ws(
        #[trigger] cs@.subrange(a as int, b as int)[j],
    ) by {
        assert(cs@.subrange(a as int, b as int)[j] == cs@[a + j]);
    }
    true
}

/// The boundary `snap(p)`, searched forward from a boundary `k` at or before `p`.
fn snap_from(cs: &Vec<char>, offs: &Vec<usize>, k: usize, p: usize) -> (r: usize)
    requires
        offsets_of(cs@, offs@),
        k <= cs.len(),
        offs@[k as int] <= p,
    ensures
        k <= r <= cs.len(),
        r == snap(cs@, p as int),
        r < cs.len() ==> offs@[r + 1] > p,
{
    let mut r = k;
    while r < cs.len() && offs[r + 1] <= p
        invariant
            offsets_of(cs@, offs@),
            k <= r <= cs.len(),
            offs@[r as int] <= p,
        decreases cs.len() - r,
    {
        r += 1;
    }
    proof {
        lemma_snap_at(cs@, p as int, r as int);
    }
    r
}

fn chunk_fixed(cs: &Vec<char>, offs: &Vec<usize>, max_chars: usize, overlap: usize) -> (chunks: Vec<Chunk>)
    requires
        offsets_of(cs@, offs@),
        max_chars >= 1,
        forall|i: int| 0 <= i < cs@.len() ==> char_width(#[trigger] cs@[i]) <= fixed_step(max_chars, overlap),
    ensures
        chunks_view(chunks@) == fixed_rec(cs@, max_chars as int, fixed_step(max_chars, overlap), 0, seq![]),
{
    let n = cs.len();
    let total = offs[n];
    proof { lemma_prefix_total(cs@); }
    let ov = if overlap < max_chars - 1 { overlap } else { max_chars - 1 };
    let step = max_chars - ov;
    let ghost s = cs@;
    let ghost goal = fixed_rec(s, max_chars as int, step as int, 0, seq![]);
    assert(step == fixed_step(max_chars, overlap));
    assert(goal == fixed_rec(cs@, max_chars as int, fixed_step(max_chars, overlap), 0, seq![]));
    let mut chunks: Vec<Chunk> = Vec::new();
    if n == 0 {
        return chunks;
    }
    let mut k: usize = 0;
    assert(chunks_view(chunks@) =~= Seq::<(Seq<char>, int, int)>::empty());
    loop
        invariant
            s == cs@,
            offsets_of(s, offs@),
            n == s.len(),
            total == byte_len(s),
            step == fixed_step(max_chars, overlap),
            1 <= step <= max_chars,
            forall|i: int| 0 <= i < s.len() ==> char_width(#[trigger] s[i]) <= step,
            k < n,
            fixed_rec(s, max_chars as int, step as int, k as int, chunks_view(chunks@)) == goal,
            goal == fixed_rec(cs@, max_chars as int, fixed_step(max_chars, overlap), 0, seq![]),
        ensures
            chunks_view(chunks@) == goal,
        decreases n - k,
    {
        let pos = offs[k];
        proof {
            lemma_prefix_strict(s, k as int, n as int);
            lemma_prefix_total(s);
            assert(offs@[n as int] == prefix_bytes(s, n as int));
        }
        let target = if max_chars < total - pos { pos + max_chars } else { total };
        let end = snap_from(cs, offs, k, target);
        let ghost before = chunks_view(chunks@);
        if !blank_range(cs, k, end) {
            let text = string_from_range(cs, k, end);
            let idx = chunks.len();
            chunks.push(Chunk { text, offset: pos, index: idx });
            assert(chunks_view(chunks@) =~= before.push((s.subrange(k as int, end as int), pos as int, before.len() as int)));
        }
        let ghost acc2 = chunks_view(chunks@);
        assert(end == snap(s, if pos + max_chars < total { pos + max_chars } else { total as int }));
        assert(fixed_rec(s, max_chars as int, step as int, k as int, before) == if pos + step
            >= total {
            acc2
        } else {
            let k2 = snap(s, pos + step);
            if k2 <= k || k2 >= s.len() {
                acc2
            } else {
                fixed_rec(s, max_chars as int, step as int, k2, acc2)
            }
        });
        if step >= total - pos {
            assert(acc2 == fixed_rec(s, max_chars as int, step as int, k as int, before));
            assert(chunks_view(chunks@) == goal);
            return chunks;
        }
        let next = pos + step;
        proof {
            lemma_prefix_step(s, k as int);
        }
        let k2 = snap_from(cs, offs, k, next);
        assert(k2 > k) by {
            if k2 == k {
                assert(offs@[k + 1] == prefix_bytes(s, k + 1));
            }
        }
        if k2 >= n {
            proof { lemma_prefix_total(s); }
            return chunks;
        }
        k = k2;
    }
}


// ---------------------------------------------------------------------------
// Segments

/// The texts of the character ranges `r` of `s`.
pub open spec fn ranges_text(s: Seq<char>, r: Seq<(usize, usize)>) -> Seq<Seq<char>> {
    r.map_values(|p: (usize, usize)| s.subrange(p.0 as int, p.1 as int))
}

/// Every range of `r` lies inside `s`.
pub open spec fn ranges_valid(s: Seq<char>, r: Seq<(usize, usize)>) -> bool {
    forall|i: int| 0 <= i < r.len() ==> #[trigger] r[i].0 <= r[i].1 <= s.len()
}

/// Sum over the segments of their byte length plus `jb`.
pub open spec fn raw_total(segs: Seq<Seq<char>>, jb: int) -> int
    decreases segs.len(),
{
    if segs.len() == 0 {
        0
    } else {
        raw_total(segs.drop_last(), jb) + byte_len(segs.last()) + jb
    }
}

proof fn lemma_raw_total_push(segs: Seq<Seq<char>>, t: Seq<char>, jb: int)
    ensures
        raw_total(segs.push(t), jb) == raw_total(segs, jb) + byte_len(t) + jb,
{
    assert(segs.push(t).drop_last() =~= segs);
}

proof fn lemma_raw_total_take(segs: Seq<Seq<char>>, i: int, jb: int)
    requires
        0 <= i <= segs.len(),
        jb >= 0,
    ensures
        raw_total(segs.take(i), jb) <= raw_total(segs, jb),
        i < segs.len() ==> raw_total(segs.take(i + 1), jb) == raw_total(segs.take(i), jb)
            + byte_len(segs[i]) + jb,
    decreases segs.len() - i,
{
    if i < segs.len() {
        assert(segs.take(i + 1).drop_last() =~= segs.take(i));
        lemma_raw_total_take(segs, i + 1, jb);
    } else {
        assert(segs.take(i) =~= segs);
    }
}

/// Pieces of `s[start..]` separated by `"\n\n"`, scanning from `i`
/// (what `str::split("\n\n")` yields).
pub open spec fn par_rec(s: Seq<char>, start: int, i: int) -> Seq<Seq<char>>
    decreases s.len() - i,
{
    if i + 1 >= s.len() {
        seq![s.subrange(start, s.len() as int)]
    } else if s[i] == '\n' && s[i + 1] == '\n' {
        seq![s.subrange(start, i)] + par_rec(s, i + 2, i + 2)
    } else {
        par_rec(s, start, i + 1)
    }
}

/// The paragraphs of `s`: its pieces between occurrences of `"\n\n"`.
pub open spec fn split_paragraphs(s: Seq<char>) -> Seq<Seq<char>> {
    par_rec(s, 0, 0)
}

/// Characters that end a sentence.
pub open spec fn is_terminal(c: char) -> bool {
    c == '.' || c == '?' || c == '!'
}

/// `seq![t]` when `t` is not empty.
pub open spec fn keep_nonempty(t: Seq<char>) -> Seq<Seq<char>> {
    if t.len() > 0 {
        seq![t]
    } else {
        seq![]
    }
}

/// Trimmed sentences of `s`, the current one starting at `c`, scanning from `i`.
pub open spec fn sent_rec(s: Seq<char>, c: int, i: int) -> Seq<Seq<char>>
    decreases s.len() - i,
{
    if i >= s.len() {
        keep_nonempty(trim(s.subrange(c, s.len() as int)))
    } else if is_terminal(s[i]) && i + 1 < s.len() && s[i + 1] == ' ' {
        keep_nonempty(trim(s.subrange(c, i + 1))) + sent_rec(s, i + 2, i + 2)
    } else {
        sent_rec(s, c, i + 1)
    }
}

/// Sentences of `s`: split after `.`, `?` or `!` followed by a space (which
/// is dropped), each trimmed, empty ones left out.
pub open spec fn split_sentences(s: Seq<char>) -> Seq<Seq<char>> {
    sent_rec(s, 0, 0)
}

fn paragraph_ranges(cs: &Vec<char>) -> (r: Vec<(usize, usize)>)
    requires
        byte_len(cs@) + 2 <= usize::MAX,
    ensures
        ranges_valid(cs@, r@),
        ranges_text(cs@, r@) == split_paragraphs(cs@),
        raw_total(ranges_text(cs@, r@), 2) == byte_len(cs@) + 2,
{
    let ghost s = cs@;
    let n = cs.len();
    let mut r: Vec<(usize, usize)> = Vec::new();
    let mut start: usize = 0;
    let mut i: usize = 0;
    assert(ranges_text(s, r@) =~= Seq::<Seq<char>>::empty());
    assert(s.take(0) =~= Seq::<char>::empty());
    proof {
        lemma_prefix_strict(s, 0, n as int);
        lemma_prefix_total(s);
    }
    while i + 1 < n
        invariant
            s == cs@,
            n == s.len(),
            n + 2 <= usize::MAX,
            start <= i <= n,
            ranges_valid(s, r@),
            ranges_text(s, r@) + par_rec(s, start as int, i as int) == split_paragraphs(s),
            raw_total(ranges_text(s, r@), 2) == prefix_bytes(s, start as int),
        decreases n - i,
    {
        if cs[i] == '\n' && cs[i + 1] == '\n' {
            let ghost old_r = r@;
            r.push((start, i));
            proof {
                assert(ranges_text(s, r@) =~= ranges_text(s, old_r).push(
                    s.subrange(start as int, i as int),
                ));
                assert(ranges_text(s, r@) + par_rec(s, (i + 2) as int, (i + 2) as int)
                    =~= ranges_text(s, old_r) + par_rec(s, start as int, i as int));
                lemma_raw_total_push(ranges_text(s, old_r), s.subrange(start as int, i as int), 2);
                lemma_byte_len_subrange(s, start as int, i as int);
                lemma_prefix_step(s, i as int);
                lemma_prefix_step(s, i + 1);
                lemma_prefix_strict(s, start as int, i as int);
            }
            i = i + 2;
            start = i;
        } else {
            i = i + 1;
        }
    }
    let ghost old_r = r@;
    r.push((start, n));
    proof {
        assert(ranges_text(s, r@) =~= ranges_text(s, old_r).push(
            s.subrange(start as int, n as int),
        ));
        lemma_raw_total_push(ranges_text(s, old_r), s.subrange(start as int, n as int), 2);
        lemma_byte_len_subrange(s, start as int, n as int);
        lemma_prefix_total(s);
        lemma_prefix_strict(s, start as int, n as int);
    }
    r
}

fn sentence_ranges(cs: &Vec<char>) -> (r: Vec<(usize, usize)>)
    requires
        byte_len(cs@) + 2 <= usize::MAX,
    ensures
        ranges_valid(cs@, r@),
        ranges_text(cs@, r@) == split_sentences(cs@),
        raw_total(ranges_text(cs@, r@), 1) <= byte_len(cs@) + 1,
{
    let ghost s = cs@;
    let n = cs.len();
    let mut r: Vec<(usize, usize)> = Vec::new();
    let mut c: usize = 0;
    let mut i: usize = 0;
    assert(ranges_text(s, r@) =~= Seq::<Seq<char>>::empty());
    assert(s.take(0) =~= Seq::<char>::empty());
    while i < n
        invariant
            s == cs@,
            n == s.len(),
            c <= i <= n,
            ranges_valid(s, r@),
            ranges_text(s, r@) + sent_rec(s, c as int, i as int) == split_sentences(s),
            raw_total(ranges_text(s, r@), 1) <= prefix_bytes(s, c as int),
        decreases n - i,
    {
        let ch = cs[i];
        if (ch == '.' || ch == '?' || ch == '!') && i + 1 < n && cs[i + 1] == ' ' {
            let (a, b) = trim_range(cs, c, i + 1);
            let ghost old_r = r@;
            let ghost t = s.subrange(c as int, i + 1);
            proof {
                lemma_trim_empty_iff_blank(t);
                lemma_byte_len_subrange(s, c as int, i + 1);
                lemma_prefix_step(s, i + 1);
                lemma_prefix_strict(s, c as int, i + 1);
            }
            if a < b {
                r.push((a, b));
                proof {
                    assert forall|k: int| 0 <= k < r@.len() implies #[trigger] r@[k].0 <= r@[k].1 <= s.len() by {
                        if k < old_r.len() {
                            assert(r@[k] == old_r[k]);
                        }
                    }
                    assert(ranges_text(s, r@) =~= ranges_text(s, old_r).push(trim(t)));
                    lemma_raw_total_push(ranges_text(s, old_r), trim(t), 1);
                }
            }
            assert(ranges_text(s, r@) + sent_rec(s, (i + 2) as int, (i + 2) as int)
                =~= ranges_text(s, old_r) + sent_rec(s, c as int, i as int));
            i = i + 2;
            c = i;
        } else {
            i = i + 1;
        }
    }
    let (a, b) = trim_range(cs, c, n);
    let ghost old_r = r@;
    let ghost t = s.subrange(c as int, n as int);
    proof {
        lemma_trim_empty_iff_blank(t);
        lemma_byte_len_subrange(s, c as int, n as int);
        lemma_prefix_total(s);
        lemma_prefix_strict(s, c as int, n as int);
    }
    if a < b {
        r.push((a, b));
        proof {
            assert(ranges_text(s, r@) =~= ranges_text(s, old_r).push(trim(t)));
            lemma_raw_total_push(ranges_text(s, old_r), trim(t), 1);
        }
    }
    assert(ranges_text(s, r@) =~= ranges_text(s, old_r) + sent_rec(s, c as int, i as int));
    r
}


// ---------------------------------------------------------------------------
// Merging segments

/// Merge state: finished chunks, the chunk being built, its offset, and the
/// running byte position.
pub type MergeState = (Seq<(Seq<char>, int, int)>, Seq<char>, int, int);

/// One segment folded into the merge state.
pub open spec fn merge_step(st: MergeState, seg: Seq<char>, max: int, j: Seq<char>) -> MergeState {
    let t = trim(seg);
    let next_pos = st.3 + byte_len(seg) + byte_len(j);
    if t.len() == 0 {
        (st.0, st.1, st.2, next_pos)
    } else {
        let would_be = if st.1.len() == 0 {
            byte_len(t) as int
        } else {
            (byte_len(st.1) + byte_len(j) + byte_len(t)) as int
        };
        let flush = would_be > max && st.1.len() > 0;
        let chunks = if flush {
            st.0.push((st.1, st.2, st.0.len() as int))
        } else {
            st.0
        };
        if flush || st.1.len() == 0 {
            (chunks, t, st.3, next_pos)
        } else {
            (chunks, st.1 + j + t, st.2, next_pos)
        }
    }
}

/// The merge state after the first `n` segments.
pub open spec fn merge_fold(segs: Seq<Seq<char>>, n: int, max: int, j: Seq<char>) -> MergeState
    decreases n,
{
    if n <= 0 {
        (seq![], seq![], 0, 0)
    } else {
        merge_step(merge_fold(segs, n - 1, max, j), segs[n - 1], max, j)
    }
}

/// Small segments merged until they fill a chunk of `max` bytes, joined by
/// `j`; a single segment larger than `max` becomes a chunk of its own.
pub open spec fn merge_segments(segs: Seq<Seq<char>>, max: int, j: Seq<char>) -> Seq<
    (Seq<char>, int, int),
> {
    let st = merge_fold(segs, segs.len() as int, max, j);
    if !is_blank(st.1) {
        st.0.push((st.1, st.2, st.0.len() as int))
    } else {
        st.0
    }
}

/// Appends `cs[a..b]` to `v`.
fn extend_range(v: &mut Vec<char>, cs: &Vec<char>, a: usize, b: usize)
    requires
        a <= b <= cs.len(),
    ensures
        final(v)@ == old(v)@ + cs@.subrange(a as int, b as int),
{
    let mut i = a;
    while i < b
        invariant
            a <= i <= b <= cs.len(),
            v@ == old(v)@ + cs@.subrange(a as int, i as int),
        decreases b - i,
    {
        v.push(cs[i]);
        assert(cs@.subrange(a as int, i + 1) =~= cs@.subrange(a as int, i as int).push(cs@[i as int]));
        i += 1;
    }
}

fn merge_ranges(
    cs: &Vec<char>,
    offs: &Vec<usize>,
    r: &Vec<(usize, usize)>,
    max: usize,
    joiner: &Vec<char>,
    jb: usize,
) -> (chunks: Vec<Chunk>)
    requires
        offsets_of(cs@, offs@),
        ranges_valid(cs@, r@),
        jb == byte_len(joiner@),
        raw_total(ranges_text(cs@, r@), jb as int) <= usize::MAX,
    ensures
        chunks_view(chunks@) == merge_segments(ranges_text(cs@, r@), max as int, joiner@),
{
    let ghost s = cs@;
    let ghost segs = ranges_text(s, r@);
    let ghost j = joiner@;
    let mut chunks: Vec<Chunk> = Vec::new();
    let mut current: Vec<char> = Vec::new();
    let mut cur_bytes: usize = 0;
    let mut cur_off: usize = 0;
    let mut byte_pos: usize = 0;
    let mut idx: usize = 0;
    assert(chunks_view(chunks@) =~= Seq::<(Seq<char>, int, int)>::empty());
    assert(segs.take(0) =~= Seq::<Seq<char>>::empty());
    while idx < r.len()
        invariant
            s == cs@,
            j == joiner@,
            segs == ranges_text(s, r@),
            offsets_of(s, offs@),
            ranges_valid(s, r@),
            jb == byte_len(j),
            raw_total(segs, jb as int) <= usize::MAX,
            idx <= r.len(),
            (chunks_view(chunks@), current@, cur_off as int, byte_pos as int) == merge_fold(
                segs,
                idx as int,
                max as int,
                j,
            ),
            byte_pos == raw_total(segs.take(idx as int), jb as int),
            cur_bytes == byte_len(current@),
            cur_bytes <= byte_pos,
        decreases r.len() - idx,
    {
        let (a, b) = r[idx];
        let ghost seg = s.subrange(a as int, b as int);
        assert(segs[idx as int] == seg);
        proof {
            lemma_raw_total_take(segs, idx as int, jb as int);
            lemma_raw_total_take(segs, idx + 1, jb as int);
            lemma_byte_len_subrange(s, a as int, b as int);
            lemma_trim_empty_iff_blank(seg);
            lemma_prefix_strict(s, a as int, b as int);
        }
        let seg_bytes = offs[b] - offs[a];
        let (ta, tb) = trim_range(cs, a, b);
        let ghost t = trim(seg);
        let ghost before = chunks_view(chunks@);
        proof {
            lemma_byte_len_subrange(s, ta as int, tb as int);
        }
        if ta == tb {
            byte_pos = byte_pos + seg_bytes + jb;
        } else {
            let t_bytes = offs[tb] - offs[ta];
            let would_be = if current.len() == 0 {
                t_bytes
            } else {
                cur_bytes + jb + t_bytes
            };
            let flush = would_be > max && current.len() > 0;
            if flush {
                let text = string_from_chars(&current);
                let index = chunks.len();
                chunks.push(Chunk { text, offset: cur_off, index });
                assert(chunks_view(chunks@) =~= before.push((current@, cur_off as int, before.len() as int)));
                current = Vec::new();
                cur_bytes = 0;
            }
            if current.len() == 0 {
                cur_off = byte_pos;
                extend_range(&mut current, cs, ta, tb);
                assert(current@ =~= t);
                cur_bytes = t_bytes;
            } else {
                let ghost old_cur = current@;
                extend_range(&mut current, joiner, 0, joiner.len());
                assert(joiner@.subrange(0, joiner@.len() as int) =~= j);
                extend_range(&mut current, cs, ta, tb);
                proof {
                    lemma_byte_len_concat(old_cur, j);
                    lemma_byte_len_concat(old_cur + j, t);
                }
                cur_bytes = cur_bytes + jb + t_bytes;
            }
            byte_pos = byte_pos + seg_bytes + jb;
        }
        idx += 1;
    }
    assert(segs.take(r.len() as int) =~= segs);
    let ghost before = chunks_view(chunks@);
    if !blank_range(&current, 0, current.len()) {
        assert(current@.subrange(0, current@.len() as int) =~= current@);
        let text = string_from_chars(&current);
        let index = chunks.len();
        chunks.push(Chunk { text, offset: cur_off, index });
        assert(chunks_view(chunks@) =~= before.push((current@, cur_off as int, before.len() as int)));
    } else {
        assert(current@.subrange(0, current@.len() as int) =~= current@);
    }
    chunks
}

// ---------------------------------------------------------------------------
// Entry point

/// What `chunk_text` returns for the characters `s` under the given options.
pub open spec fn chunk_spec(s: Seq<char>, max_chars: usize, overlap: usize, strategy: ChunkStrategy) -> Seq<
    (Seq<char>, int, int),
> {
    if is_blank(s) {
        seq![]
    } else {
        let max = if max_chars == 0 { 1int } else { max_chars as int };
        match strategy {
            ChunkStrategy::FixedSize => fixed_rec(s, max, fixed_step(max_chars, overlap), 0, seq![]),
            ChunkStrategy::Paragraph => merge_segments(split_paragraphs(s), max, seq!['\n', '\n']),
            ChunkStrategy::Sentence => merge_segments(split_sentences(s), max, seq![' ']),
        }
    }
}

/// Inputs on which `chunk_text` returns: the fixed-size strategy only
/// advances when no character is wider than its step (otherwise it would
/// stay on that character forever).
pub open spec fn chunk_text_terminates(s: Seq<char>, options: ChunkOptions) -> bool {
    options.strategy == ChunkStrategy::FixedSize && !is_blank(s) ==> forall|i: int|
        0 <= i < s.len() ==> char_width(#[trigger] s[i]) <= fixed_step(
            options.max_chars,
            options.overlap,
        )
}

/// Whether `chunk_text` returns on `text` with `options` (see
/// [`chunk_text_terminates`]).
pub fn chunking_terminates(text: &str, options: &ChunkOptions) -> (r: bool)
    ensures
        r == chunk_text_terminates(text@, *options),
{
    if options.strategy != ChunkStrategy::FixedSize {
        return true;
    }
    let cs = chars_of(text);
    if blank_range(&cs, 0, cs.len()) {
        assert(cs@.subrange(0, cs@.len() as int) =~= cs@);
        return true;
    }
    assert(cs@.subrange(0, cs@.len() as int) =~= cs@);
    let max: usize = if options.max_chars == 0 { 1 } else { options.max_chars };
    let ov: usize = if options.overlap < max - 1 { options.overlap } else { max - 1 };
    let step = max - ov;
    let n = cs.len();
    for i in 0..n
        invariant
            n == cs@.len(),
            cs@ == text@,
            !is_blank(text@),
            options.strategy == ChunkStrategy::FixedSize,
            step == fixed_step(options.max_chars, options.overlap),
            forall|k: int| 0 <= k < i ==> char_width(#[trigger] cs@[k]) <= step,
    {
        if char_width_exec(cs[i]) > step {
            assert(char_width(text@[i as int]) > fixed_step(options.max_chars, options.overlap));
            return false;
        }
    }
    true
}

/// Split `text` into chunks according to `options`.
///
/// Returns an empty vec for blank input. Every returned chunk has at least
/// one non-whitespace character.
pub fn chunk_text(text: &str, options: &ChunkOptions) -> (chunks: Vec<Chunk>)
    requires
        byte_len(text@) + 2 <= usize::MAX,
        chunk_text_terminates(text@, *options),
    ensures
        chunks_view(chunks@) == chunk_spec(
            text@,
            options.max_chars,
            options.overlap,
            options.strategy,
        ),
{
    let cs = chars_of(text);
    if blank_range(&cs, 0, cs.len()) {
        assert(cs@.subrange(0, cs@.len() as int) =~= cs@);
        let empty: Vec<Chunk> = Vec::new();
        assert(chunks_view(empty@) =~= Seq::<(Seq<char>, int, int)>::empty());
        return empty;
    }
    assert(cs@.subrange(0, cs@.len() as int) =~= cs@);
    let max = if options.max_chars == 0 { 1 } else { options.max_chars };
    let offs = byte_offsets(&cs);
    match options.strategy {
        ChunkStrategy::FixedSize => {
            assert(fixed_step(max, options.overlap) == fixed_step(options.max_chars, options.overlap));
            chunk_fixed(&cs, &offs, max, options.overlap)
        },
        ChunkStrategy::Paragraph => {
            let r = paragraph_ranges(&cs);
            let mut joiner: Vec<char> = Vec::new();
            joiner.push('\n');
            joiner.push('\n');
            assert(joiner@ =~= seq!['\n', '\n']);
            proof {
                reveal_with_fuel(byte_len, 3);
                assert(seq!['\n', '\n'].drop_last() =~= seq!['\n']);
                assert(seq!['\n'].drop_last() =~= Seq::<char>::empty());
            }
            merge_ranges(&cs, &offs, &r, max, &joiner, 2)
        },
        ChunkStrategy::Sentence => {
            let r = sentence_ranges(&cs);
            let mut joiner: Vec<char> = Vec::new();
            joiner.push(' ');
            assert(joiner@ =~= seq![' ']);
            proof {
                reveal_with_fuel(byte_len, 2);
                assert(seq![' '].drop_last() =~= Seq::<char>::empty());
            }
            merge_ranges(&cs, &offs, &r, max, &joiner, 1)
        },
    }
}


// ---------------------------------------------------------------------------
// Laws

/// Facts about `snap`: it is a boundary at or before `p`, and no later
/// boundary is at or before `p`.
pub proof fn lemma_snap_props(s: Seq<char>, p: int)
    requires
        p >= 0,
    ensures
        0 <= snap(s, p) <= s.len(),
        prefix_bytes(s, snap(s, p)) <= p,
        forall|k: int| 0 <= k <= s.len() && prefix_bytes(s, k) <= p ==> k <= snap(s, p),
{
    lemma_snap_rec_props(s, p, s.len() as int);
}

proof fn lemma_snap_rec_props(s: Seq<char>, p: int, j: int)
    requires
        p >= 0,
        0 <= j <= s.len(),
    ensures
        0 <= snap_rec(s, p, j) <= j,
        prefix_bytes(s, snap_rec(s, p, j)) <= p,
        forall|k: int| 0 <= k <= j && prefix_bytes(s, k) <= p ==> k <= snap_rec(s, p, j),
    decreases j,
{
    assert(s.take(0) =~= Seq::<char>::empty());
    if j > 0 && prefix_bytes(s, j) > p {
        lemma_snap_rec_props(s, p, j - 1);
    }
}

/// Chunk `i` of a list carries index `i` and text that is not blank.
pub open spec fn well_indexed_nonblank(v: Seq<(Seq<char>, int, int)>) -> bool {
    forall|i: int| 0 <= i < v.len() ==> (#[trigger] v[i]).2 == i && !is_blank(v[i].0)
}

/// `c` is a verbatim slice of `s`, no longer than `max` bytes, whose offset
/// is the byte position where the slice starts.
pub open spec fn is_slice_at_offset(s: Seq<char>, max: int, c: (Seq<char>, int, int)) -> bool {
    &&& byte_len(c.0) <= max
    &&& exists|k: int, e: int|
        0 <= k <= e <= s.len() && c.0 == s.subrange(k, e) && c.1 == prefix_bytes(s, k)
}

proof fn lemma_fixed_rec_laws(
    s: Seq<char>,
    max: int,
    step: int,
    k: int,
    acc: Seq<(Seq<char>, int, int)>,
)
    requires
        max >= 1,
        well_indexed_nonblank(acc),
        forall|i: int| 0 <= i < acc.len() ==> is_slice_at_offset(s, max, #[trigger] acc[i]),
    ensures
        well_indexed_nonblank(fixed_rec(s, max, step, k, acc)),
        forall|i: int|
            0 <= i < fixed_rec(s, max, step, k, acc).len() ==> is_slice_at_offset(
                s,
                max,
                #[trigger] fixed_rec(s, max, step, k, acc)[i],
            ),
    decreases s.len() - k,
{
    if 0 <= k < s.len() {
        let pos = prefix_bytes(s, k) as int;
        let total = byte_len(s) as int;
        let target = if pos + max < total { pos + max } else { total };
        let end = snap(s, target);
        lemma_prefix_strict(s, k, s.len() as int);
        lemma_prefix_total(s);
        lemma_snap_props(s, target);
        let piece = s.subrange(k, end);
        lemma_byte_len_subrange(s, k, end);
        let acc2 = if is_blank(piece) {
            acc
        } else {
            acc.push((piece, pos, acc.len() as int))
        };
        assert forall|i: int| 0 <= i < acc2.len() implies is_slice_at_offset(
            s,
            max,
            #[trigger] acc2[i],
        ) by {
            if i == acc.len() {
                assert(acc2[i].0 == s.subrange(k, end));
            } else {
                assert(acc2[i] == acc[i]);
            }
        }
        assert(well_indexed_nonblank(acc2)) by {
            assert forall|i: int| 0 <= i < acc2.len() implies (#[trigger] acc2[i]).2 == i
                && !is_blank(acc2[i].0) by {
                if i < acc.len() {
                    assert(acc2[i] == acc[i]);
                }
            }
        }
        let next = pos + step;
        if next < total {
            let k2 = snap(s, next);
            if !(k2 <= k || k2 >= s.len()) {
                lemma_fixed_rec_laws(s, max, step, k2, acc2);
            }
        }
    }
}

/// The chunker's guarantees for every strategy: chunk `i` has index `i`,
/// and no chunk is blank.
pub proof fn law_chunks_indexed_and_nonblank(
    s: Seq<char>,
    max_chars: usize,
    overlap: usize,
    strategy: ChunkStrategy,
)
    ensures
        well_indexed_nonblank(chunk_spec(s, max_chars, overlap, strategy)),
{
    if !is_blank(s) {
        let max = if max_chars == 0 { 1int } else { max_chars as int };
        match strategy {
            ChunkStrategy::FixedSize => {
                lemma_fixed_rec_laws(s, max, fixed_step(max_chars, overlap), 0, seq![]);
            },
            ChunkStrategy::Paragraph => {
                lemma_merge_laws(split_paragraphs(s), max, seq!['\n', '\n']);
            },
            ChunkStrategy::Sentence => {
                lemma_merge_laws(split_sentences(s), max, seq![' ']);
            },
        }
    }
}

/// Blank input (empty or all whitespace) gives no chunks.
pub proof fn law_blank_input_no_chunks(
    s: Seq<char>,
    max_chars: usize,
    overlap: usize,
    strategy: ChunkStrategy,
)
    requires
        is_blank(s),
    ensures
        chunk_spec(s, max_chars, overlap, strategy).len() == 0,
{
}

/// Fixed-size chunks are verbatim slices of the text at their byte offset,
/// each at most `max_chars` bytes long (at most one byte when `max_chars`
/// is zero).
pub proof fn law_fixed_chunks_are_slices(s: Seq<char>, max_chars: usize, overlap: usize)
    ensures
        forall|i: int|
            0 <= i < chunk_spec(s, max_chars, overlap, ChunkStrategy::FixedSize).len()
                ==> is_slice_at_offset(
                s,
                if max_chars == 0 { 1int } else { max_chars as int },
                #[trigger] chunk_spec(s, max_chars, overlap, ChunkStrategy::FixedSize)[i],
            ),
{
    if !is_blank(s) {
        let max = if max_chars == 0 { 1int } else { max_chars as int };
        lemma_fixed_rec_laws(s, max, fixed_step(max_chars, overlap), 0, seq![]);
    }
}

/// `c` is the trimmed text of one of the segments.
pub open spec fn is_trimmed_segment(segs: Seq<Seq<char>>, c: Seq<char>) -> bool {
    exists|i: int| 0 <= i < segs.len() && c == trim(#[trigger] segs[i])
}

/// A merged chunk fits in `max` bytes, or it is one oversize segment.
pub open spec fn fits_or_single(segs: Seq<Seq<char>>, max: int, c: Seq<char>) -> bool {
    byte_len(c) <= max || is_trimmed_segment(segs, c)
}

/// The merge state is consistent with the segments merged so far.
pub open spec fn merge_state_ok(segs: Seq<Seq<char>>, max: int, st: MergeState) -> bool {
    &&& well_indexed_nonblank(st.0)
    &&& forall|i: int| 0 <= i < st.0.len() ==> fits_or_single(segs, max, (#[trigger] st.0[i]).0)
    &&& st.1.len() == 0 || (!is_blank(st.1) && fits_or_single(segs, max, st.1))
}

proof fn lemma_not_blank_concat(a: Seq<char>, b: Seq<char>)
    requires
        !is_blank(b),
    ensures
        !is_blank(a + b),
{
    let i = choose|i: int| 0 <= i < b.len() && !is_ws(b[i]);
    assert((a + b)[a.len() + i] == b[i]);
}

proof fn lemma_merge_fold_ok(segs: Seq<Seq<char>>, n: int, max: int, j: Seq<char>)
    requires
        0 <= n <= segs.len(),
    ensures
        merge_state_ok(segs, max, merge_fold(segs, n, max, j)),
    decreases n,
{
    if n > 0 {
        lemma_merge_fold_ok(segs, n - 1, max, j);
        let st = merge_fold(segs, n - 1, max, j);
        let seg = segs[n - 1];
        let t = trim(seg);
        lemma_trim_empty_iff_blank(seg);
        if t.len() > 0 {
            assert(is_trimmed_segment(segs, t));
            assert(!is_blank(t)) by {
                assert(!is_ws(t[0]));
            }
            let would_be = if st.1.len() == 0 {
                byte_len(t) as int
            } else {
                (byte_len(st.1) + byte_len(j) + byte_len(t)) as int
            };
            let flush = would_be > max && st.1.len() > 0;
            let chunks = if flush {
                st.0.push((st.1, st.2, st.0.len() as int))
            } else {
                st.0
            };
            assert forall|i: int| 0 <= i < chunks.len() implies (#[trigger] chunks[i]).2 == i
                && !is_blank(chunks[i].0) && fits_or_single(segs, max, chunks[i].0) by {
                if i < st.0.len() {
                    assert(chunks[i] == st.0[i]);
                }
            }
            if !(flush || st.1.len() == 0) {
                lemma_not_blank_concat(st.1 + j, t);
                lemma_byte_len_concat(st.1, j);
                lemma_byte_len_concat(st.1 + j, t);
            }
        }
    }
}

proof fn lemma_merge_laws(segs: Seq<Seq<char>>, max: int, j: Seq<char>)
    ensures
        well_indexed_nonblank(merge_segments(segs, max, j)),
        forall|i: int|
            0 <= i < merge_segments(segs, max, j).len() ==> fits_or_single(
                segs,
                max,
                (#[trigger] merge_segments(segs, max, j)[i]).0,
            ),
{
    lemma_merge_fold_ok(segs, segs.len() as int, max, j);
    let st = merge_fold(segs, segs.len() as int, max, j);
    let out = merge_segments(segs, max, j);
    assert forall|i: int| 0 <= i < out.len() implies (#[trigger] out[i]).2 == i && !is_blank(
        out[i].0,
    ) && fits_or_single(segs, max, out[i].0) by {
        if i < st.0.len() {
            assert(out[i] == st.0[i]);
        }
    }
}

/// Paragraph and sentence chunks stay within `max_chars` bytes, except a
/// chunk made of one segment that alone is longer.
pub proof fn law_merged_chunks_fit_or_single(s: Seq<char>, max_chars: usize, overlap: usize)
    ensures
        forall|i: int|
            0 <= i < chunk_spec(s, max_chars, overlap, ChunkStrategy::Paragraph).len()
                ==> fits_or_single(
                split_paragraphs(s),
                if max_chars == 0 { 1int } else { max_chars as int },
                (#[trigger] chunk_spec(s, max_chars, overlap, ChunkStrategy::Paragraph)[i]).0,
            ),
        forall|i: int|
            0 <= i < chunk_spec(s, max_chars, overlap, ChunkStrategy::Sentence).len()
                ==> fits_or_single(
                split_sentences(s),
                if max_chars == 0 { 1int } else { max_chars as int },
                (#[trigger] chunk_spec(s, max_chars, overlap, ChunkStrategy::Sentence)[i]).0,
            ),
{
    if !is_blank(s) {
        let max = if max_chars == 0 { 1int } else { max_chars as int };
        lemma_merge_laws(split_paragraphs(s), max, seq!['\n', '\n']);
        lemma_merge_laws(split_sentences(s), max, seq![' ']);
    }
}


/// Texts joined by the separator `j`.
pub open spec fn join_with(v: Seq<Seq<char>>, j: Seq<char>) -> Seq<char>
    decreases v.len(),
{
    if v.len() == 0 {
        seq![]
    } else if v.len() == 1 {
        v[0]
    } else {
        join_with(v.drop_last(), j) + j + v.last()
    }
}

/// The segments that carry text, trimmed, in order.
pub open spec fn kept_segments(segs: Seq<Seq<char>>) -> Seq<Seq<char>>
    decreases segs.len(),
{
    if segs.len() == 0 {
        seq![]
    } else if trim(segs.last()).len() == 0 {
        kept_segments(segs.drop_last())
    } else {
        kept_segments(segs.drop_last()).push(trim(segs.last()))
    }
}

/// The texts of chunks, in order.
pub open spec fn chunk_texts(v: Seq<(Seq<char>, int, int)>) -> Seq<Seq<char>> {
    v.map_values(|c: (Seq<char>, int, int)| c.0)
}

/// The texts a merge state stands for: its finished chunks, then the chunk
/// being built when there is one.
pub open spec fn merge_pieces(st: MergeState) -> Seq<Seq<char>> {
    if st.1.len() == 0 {
        chunk_texts(st.0)
    } else {
        chunk_texts(st.0).push(st.1)
    }
}

/// Every text of the list is non-empty.
pub open spec fn all_nonempty(v: Seq<Seq<char>>) -> bool {
    forall|i: int| 0 <= i < v.len() ==> (#[trigger] v[i]).len() > 0
}

proof fn lemma_join_push(v: Seq<Seq<char>>, y: Seq<char>, j: Seq<char>)
    ensures
        join_with(v.push(y), j) == if v.len() == 0 {
            y
        } else {
            join_with(v, j) + j + y
        },
{
    assert(v.push(y).drop_last() =~= v);
}

proof fn lemma_join_empty(v: Seq<Seq<char>>, j: Seq<char>)
    requires
        all_nonempty(v),
    ensures
        join_with(v, j).len() == 0 <==> v.len() == 0,
{
    if v.len() > 1 {
        assert(v.last().len() > 0);
    } else if v.len() == 1 {
        assert(v[0].len() > 0);
    }
}

proof fn lemma_kept_nonempty(segs: Seq<Seq<char>>)
    ensures
        all_nonempty(kept_segments(segs)),
    decreases segs.len(),
{
    if segs.len() > 0 {
        lemma_kept_nonempty(segs.drop_last());
    }
}

proof fn lemma_merge_fold_join(segs: Seq<Seq<char>>, n: int, max: int, j: Seq<char>)
    requires
        0 <= n <= segs.len(),
    ensures
        all_nonempty(merge_pieces(merge_fold(segs, n, max, j))),
        join_with(merge_pieces(merge_fold(segs, n, max, j)), j) == join_with(kept_segments(segs.take(n)), j),
        merge_pieces(merge_fold(segs, n, max, j)).len() == 0 <==> kept_segments(segs.take(n)).len() == 0,
    decreases n,
{
    if n == 0 {
        assert(segs.take(0) =~= Seq::<Seq<char>>::empty());
        assert(chunk_texts(seq![]) =~= Seq::<Seq<char>>::empty());
    } else {
        lemma_merge_fold_join(segs, n - 1, max, j);
        lemma_merge_fold_ok(segs, n - 1, max, j);
        lemma_kept_nonempty(segs.take(n - 1));
        let st = merge_fold(segs, n - 1, max, j);
        let seg = segs[n - 1];
        let t = trim(seg);
        let k0 = kept_segments(segs.take(n - 1));
        assert(segs.take(n).drop_last() =~= segs.take(n - 1));
        assert(segs.take(n).last() == seg);
        let p0 = merge_pieces(st);
        let ct = chunk_texts(st.0);
        assert(forall|i: int| 0 <= i < st.0.len() ==> !is_blank(#[trigger] st.0[i].0));
        assert forall|i: int| 0 <= i < ct.len() implies (#[trigger] ct[i]).len() > 0 by {
            assert(ct[i] == st.0[i].0);
            assert(!is_blank(st.0[i].0));
        }
        lemma_join_empty(p0, j);
        lemma_join_empty(k0, j);
        if t.len() > 0 {
            let st2 = merge_fold(segs, n, max, j);
            let would_be = if st.1.len() == 0 {
                byte_len(t) as int
            } else {
                (byte_len(st.1) + byte_len(j) + byte_len(t)) as int
            };
            let flush = would_be > max && st.1.len() > 0;
            lemma_join_push(k0, t, j);
            if flush {
                let c = (st.1, st.2, st.0.len() as int);
                assert(chunk_texts(st.0.push(c)) =~= ct.push(st.1));
                assert(merge_pieces(st2) =~= p0.push(t));
                lemma_join_push(p0, t, j);
            } else if st.1.len() == 0 {
                assert(merge_pieces(st2) =~= p0.push(t));
                lemma_join_push(p0, t, j);
            } else {
                assert(merge_pieces(st2) =~= ct.push(st.1 + j + t));
                lemma_join_push(ct, st.1 + j + t, j);
                lemma_join_push(ct, st.1, j);
                if ct.len() > 0 {
                    assert(join_with(ct, j) + j + (st.1 + j + t) =~= (join_with(ct, j) + j + st.1) + j + t);
                } else {
                    assert(st.1 + j + t =~= (st.1) + j + t);
                }
            }
            assert(all_nonempty(merge_pieces(st2))) by {
                assert forall|i: int| 0 <= i < merge_pieces(st2).len() implies (#[trigger] merge_pieces(st2)[i]).len() > 0 by {
                    if i < ct.len() {
                        assert(merge_pieces(st2)[i] == ct[i]);
                    } else if !flush && st.1.len() > 0 {
                        assert(merge_pieces(st2)[i] == st.1 + j + t);
                        assert((st.1 + j + t).len() >= t.len());
                    } else if flush && i == ct.len() {
                        assert(merge_pieces(st2)[i] == st.1);
                    }
                }
            }
        } else {
            assert(merge_fold(segs, n, max, j) == (st.0, st.1, st.2, st.3 + byte_len(seg) + byte_len(j)));
        }
    }
}

/// Merging loses, reorders and cuts no segment: the chunks joined by the
/// separator are the trimmed segments that carry text, joined by it.
pub proof fn law_merge_keeps_segments(segs: Seq<Seq<char>>, max: int, j: Seq<char>)
    ensures
        join_with(chunk_texts(merge_segments(segs, max, j)), j) == join_with(kept_segments(segs), j),
        merge_segments(segs, max, j).len() == 0 <==> kept_segments(segs).len() == 0,
{
    let n = segs.len() as int;
    lemma_merge_fold_join(segs, n, max, j);
    lemma_merge_fold_ok(segs, n, max, j);
    assert(segs.take(n) =~= segs);
    let st = merge_fold(segs, n, max, j);
    if !is_blank(st.1) {
        assert(chunk_texts(st.0.push((st.1, st.2, st.0.len() as int))) =~= chunk_texts(st.0).push(st.1));
        assert(st.1.len() > 0);
    } else {
        assert(st.1.len() == 0);
    }
}


/// `next` starts with a whole trimmed segment `t` that would not have fit
/// after `c`: `c`, the separator and `t` exceed `max` bytes together.
pub open spec fn starts_too_big(segs: Seq<Seq<char>>, max: int, j: Seq<char>, c: Seq<char>, next: Seq<char>) -> bool {
    exists|t: Seq<char>|
        #[trigger] is_trimmed_segment(segs, t) && t.len() > 0 && t.len() <= next.len() && next.take(t.len() as int) == t
            && byte_len(c) + byte_len(j) + byte_len(t) > max
}

/// Each finished chunk is followed, in the chunks and then the chunk being
/// built, by one that starts with a segment too big to have joined it.
pub open spec fn merge_greedy(segs: Seq<Seq<char>>, max: int, j: Seq<char>, st: MergeState) -> bool {
    &&& forall|i: int| 0 <= i < st.0.len() - 1 ==> starts_too_big(segs, max, j, (#[trigger] st.0[i]).0, st.0[i + 1].0)
    &&& st.0.len() > 0 ==> st.1.len() > 0 && starts_too_big(segs, max, j, st.0.last().0, st.1)
}

proof fn lemma_merge_fold_greedy(segs: Seq<Seq<char>>, n: int, max: int, j: Seq<char>)
    requires
        0 <= n <= segs.len(),
    ensures
        merge_greedy(segs, max, j, merge_fold(segs, n, max, j)),
    decreases n,
{
    if n > 0 {
        lemma_merge_fold_greedy(segs, n - 1, max, j);
        let st = merge_fold(segs, n - 1, max, j);
        let seg = segs[n - 1];
        let t = trim(seg);
        if t.len() > 0 {
            assert(is_trimmed_segment(segs, t));
            let st2 = merge_fold(segs, n, max, j);
            let would_be = if st.1.len() == 0 {
                byte_len(t) as int
            } else {
                (byte_len(st.1) + byte_len(j) + byte_len(t)) as int
            };
            let flush = would_be > max && st.1.len() > 0;
            if flush {
                let c = (st.1, st.2, st.0.len() as int);
                assert(st2.0 == st.0.push(c));
                assert(t.take(t.len() as int) =~= t);
                assert(starts_too_big(segs, max, j, st.1, t));
                assert forall|i: int| 0 <= i < st2.0.len() - 1 implies starts_too_big(segs, max, j, (#[trigger] st2.0[i]).0, st2.0[i + 1].0) by {
                    if i < st.0.len() - 1 {
                        assert(st2.0[i] == st.0[i]);
                        assert(st2.0[i + 1] == st.0[i + 1]);
                    } else {
                        assert(st2.0[i] == st.0.last());
                        assert(st2.0[i + 1].0 == st.1);
                    }
                }
            } else if st.1.len() > 0 {
                assert(st2.1 == st.1 + j + t);
                if st.0.len() > 0 {
                    let t0 = choose|t0: Seq<char>|
                        #[trigger] is_trimmed_segment(segs, t0) && t0.len() > 0 && t0.len() <= st.1.len()
                            && st.1.take(t0.len() as int) == t0 && byte_len(st.0.last().0) + byte_len(j) + byte_len(t0) > max;
                    assert((st.1 + j + t).take(t0.len() as int) =~= st.1.take(t0.len() as int));
                    assert(is_trimmed_segment(segs, t0));
                }
            }
        } else {
            assert(merge_fold(segs, n, max, j) == (st.0, st.1, st.2, st.3 + byte_len(seg) + byte_len(j)));
        }
    }
}

/// Merging is greedy: every chunk but the last is followed by a chunk that
/// starts with a whole segment which, with the separator, would not have fit
/// after it within `max` bytes.
pub proof fn law_merge_is_greedy(segs: Seq<Seq<char>>, max: int, j: Seq<char>)
    ensures
        forall|i: int|
            0 <= i < merge_segments(segs, max, j).len() - 1 ==> starts_too_big(
                segs,
                max,
                j,
                (#[trigger] merge_segments(segs, max, j)[i]).0,
                merge_segments(segs, max, j)[i + 1].0,
            ),
{
    let n = segs.len() as int;
    lemma_merge_fold_greedy(segs, n, max, j);
    lemma_merge_fold_ok(segs, n, max, j);
    let st = merge_fold(segs, n, max, j);
    let out = merge_segments(segs, max, j);
    if !is_blank(st.1) {
        assert forall|i: int| 0 <= i < out.len() - 1 implies starts_too_big(segs, max, j, (#[trigger] out[i]).0, out[i + 1].0) by {
            if i < st.0.len() - 1 {
                assert(out[i] == st.0[i]);
                assert(out[i + 1] == st.0[i + 1]);
            } else {
                assert(out[i] == st.0.last());
                assert(out[i + 1].0 == st.1);
            }
        }
    } else {
        assert(st.1.len() == 0);
    }
}


/// A range of `s` that is not blank has a non-blank part on one side of any
/// cut; a blank range is blank on both sides.
proof fn lemma_blank_cut(s: Seq<char>, a: int, b: int, c: int)
    requires
        0 <= a <= b <= c <= s.len(),
    ensures
        is_blank(s.subrange(a, c)) <==> is_blank(s.subrange(a, b)) && is_blank(s.subrange(b, c)),
{
    if !is_blank(s.subrange(a, c)) {
        let k = choose|k: int| 0 <= k < c - a && !is_ws(#[trigger] s.subrange(a, c)[k]);
        if a + k < b {
            assert(s.subrange(a, b)[k] == s.subrange(a, c)[k]);
        } else {
            assert(s.subrange(b, c)[a + k - b] == s.subrange(a, c)[k]);
        }
    }
    if !is_blank(s.subrange(a, b)) {
        let k = choose|k: int| 0 <= k < b - a && !is_ws(#[trigger] s.subrange(a, b)[k]);
        assert(s.subrange(a, c)[k] == s.subrange(a, b)[k]);
    }
    if !is_blank(s.subrange(b, c)) {
        let k = choose|k: int| 0 <= k < c - b && !is_ws(#[trigger] s.subrange(b, c)[k]);
        assert(s.subrange(a, c)[b - a + k] == s.subrange(b, c)[k]);
    }
}

/// The kept segments are empty exactly when every segment is blank.
proof fn lemma_kept_empty_iff_blank(segs: Seq<Seq<char>>)
    ensures
        kept_segments(segs).len() == 0 <==> forall|k: int| 0 <= k < segs.len() ==> is_blank(#[trigger] segs[k]),
    decreases segs.len(),
{
    if segs.len() > 0 {
        lemma_kept_empty_iff_blank(segs.drop_last());
        lemma_trim_empty_iff_blank(segs.last());
        if kept_segments(segs).len() == 0 {
            assert forall|k: int| 0 <= k < segs.len() implies is_blank(#[trigger] segs[k]) by {
                if k < segs.len() - 1 {
                    assert(segs[k] == segs.drop_last()[k]);
                }
            }
        } else if trim(segs.last()).len() == 0 {
            let k = choose|k: int| 0 <= k < segs.drop_last().len() && !is_blank(#[trigger] segs.drop_last()[k]);
            assert(segs[k] == segs.drop_last()[k]);
        }
    }
}

/// The paragraphs from `start` hold a non-blank one exactly when the text
/// from `start` is not blank.
proof fn lemma_paragraphs_blank(s: Seq<char>, start: int, i: int)
    requires
        0 <= start <= i,
        start <= s.len(),
    ensures
        (forall|k: int| 0 <= k < par_rec(s, start, i).len() ==> is_blank(#[trigger] par_rec(s, start, i)[k]))
            <==> is_blank(s.subrange(start, s.len() as int)),
    decreases s.len() - i,
{
    let n = s.len() as int;
    let v = par_rec(s, start, i);
    if i + 1 >= n {
        assert(v =~= seq![s.subrange(start, n)]);
        assert(v[0] == s.subrange(start, n));
        assert(v.len() == 1);
    } else if s[i] == '\n' && s[i + 1] == '\n' {
        lemma_paragraphs_blank(s, i + 2, i + 2);
        let rest = par_rec(s, i + 2, i + 2);
        assert(v =~= seq![s.subrange(start, i)] + rest);
        lemma_blank_cut(s, start, i, n);
        lemma_blank_cut(s, i, i + 2, n);
        assert(is_blank(s.subrange(i, i + 2))) by {
            assert(s.subrange(i, i + 2)[0] == s[i]);
            assert(s.subrange(i, i + 2)[1] == s[i + 1]);
        }
        if forall|k: int| 0 <= k < v.len() ==> is_blank(#[trigger] v[k]) {
            assert(is_blank(v[0]));
            assert forall|k: int| 0 <= k < rest.len() implies is_blank(#[trigger] rest[k]) by {
                assert(v[k + 1] == rest[k]);
            }
        }
        if is_blank(s.subrange(start, n)) {
            assert forall|k: int| 0 <= k < v.len() implies is_blank(#[trigger] v[k]) by {
                if k > 0 {
                    assert(v[k] == rest[k - 1]);
                }
            }
        }
    } else {
        lemma_paragraphs_blank(s, start, i + 1);
        assert(v == par_rec(s, start, i + 1));
    }
}

/// The sentences from `c` are empty exactly when the text from `c` is blank.
proof fn lemma_sentences_blank(s: Seq<char>, c: int, i: int)
    requires
        0 <= c <= i,
        c <= s.len(),
    ensures
        sent_rec(s, c, i).len() == 0 <==> is_blank(s.subrange(c, s.len() as int)),
        forall|k: int| 0 <= k < sent_rec(s, c, i).len() ==> (#[trigger] sent_rec(s, c, i)[k]).len() > 0
            && trim(sent_rec(s, c, i)[k]) == sent_rec(s, c, i)[k],
    decreases s.len() - i,
{
    let n = s.len() as int;
    if i >= n {
        lemma_trim_empty_iff_blank(s.subrange(c, n));
        lemma_trim_idempotent(s.subrange(c, n));
    } else if is_terminal(s[i]) && i + 1 < n && s[i + 1] == ' ' {
        lemma_sentences_blank(s, i + 2, i + 2);
        let first = keep_nonempty(trim(s.subrange(c, i + 1)));
        let rest = sent_rec(s, i + 2, i + 2);
        let v = sent_rec(s, c, i);
        assert(v == first + rest);
        lemma_trim_empty_iff_blank(s.subrange(c, i + 1));
        lemma_trim_idempotent(s.subrange(c, i + 1));
        lemma_blank_cut(s, c, i + 1, n);
        lemma_blank_cut(s, i + 1, i + 2, n);
        assert(is_blank(s.subrange(i + 1, i + 2))) by {
            assert(s.subrange(i + 1, i + 2)[0] == s[i + 1]);
        }
        assert forall|k: int| 0 <= k < v.len() implies (#[trigger] v[k]).len() > 0 && trim(v[k]) == v[k] by {
            if k < first.len() {
                assert(v[k] == first[k]);
            } else {
                assert(v[k] == rest[k - first.len()]);
            }
        }
    } else {
        lemma_sentences_blank(s, c, i + 1);
    }
}

/// A list of segments with a non-empty trimmed one has kept segments.
proof fn lemma_kept_of_trimmed(segs: Seq<Seq<char>>)
    requires
        segs.len() > 0,
        forall|k: int| 0 <= k < segs.len() ==> (#[trigger] segs[k]).len() > 0 && trim(segs[k]) == segs[k],
    ensures
        kept_segments(segs).len() > 0,
{
    lemma_kept_empty_iff_blank(segs);
    lemma_trim_empty_iff_blank(segs[0]);
}

/// Paragraph chunking keeps every paragraph whole and in order: the chunks
/// joined by a blank line are the trimmed paragraphs that carry text,
/// joined the same way.
pub proof fn law_paragraphs_kept_whole(s: Seq<char>, max_chars: usize, overlap: usize)
    ensures
        join_with(chunk_texts(chunk_spec(s, max_chars, overlap, ChunkStrategy::Paragraph)), seq!['\n', '\n'])
            == join_with(kept_segments(split_paragraphs(s)), seq!['\n', '\n']),
{
    let max = if max_chars == 0 { 1int } else { max_chars as int };
    let segs = split_paragraphs(s);
    if is_blank(s) {
        assert(s.subrange(0, s.len() as int) =~= s);
        lemma_paragraphs_blank(s, 0, 0);
        lemma_kept_empty_iff_blank(segs);
        assert(chunk_texts(Seq::<(Seq<char>, int, int)>::empty()) =~= Seq::<Seq<char>>::empty());
    } else {
        law_merge_keeps_segments(segs, max, seq!['\n', '\n']);
    }
}

/// Sentence chunking keeps every sentence whole and in order: the chunks
/// joined by a space are the sentences joined the same way.
pub proof fn law_sentences_kept_whole(s: Seq<char>, max_chars: usize, overlap: usize)
    ensures
        join_with(chunk_texts(chunk_spec(s, max_chars, overlap, ChunkStrategy::Sentence)), seq![' '])
            == join_with(kept_segments(split_sentences(s)), seq![' ']),
{
    let max = if max_chars == 0 { 1int } else { max_chars as int };
    let segs = split_sentences(s);
    assert(s.subrange(0, s.len() as int) =~= s);
    lemma_sentences_blank(s, 0, 0);
    if is_blank(s) {
        assert(kept_segments(segs) =~= Seq::<Seq<char>>::empty());
        assert(chunk_texts(Seq::<(Seq<char>, int, int)>::empty()) =~= Seq::<Seq<char>>::empty());
    } else {
        law_merge_keeps_segments(segs, max, seq![' ']);
    }
}

/// For paragraphs and sentences, a text gives no chunks exactly when it is
/// blank.
pub proof fn law_no_chunks_iff_blank(s: Seq<char>, max_chars: usize, overlap: usize)
    ensures
        chunk_spec(s, max_chars, overlap, ChunkStrategy::Paragraph).len() == 0 <==> is_blank(s),
        chunk_spec(s, max_chars, overlap, ChunkStrategy::Sentence).len() == 0 <==> is_blank(s),
{
    let max = if max_chars == 0 { 1int } else { max_chars as int };
    if !is_blank(s) {
        assert(s.subrange(0, s.len() as int) =~= s);
        let ps = split_paragraphs(s);
        lemma_paragraphs_blank(s, 0, 0);
        lemma_kept_empty_iff_blank(ps);
        law_merge_keeps_segments(ps, max, seq!['\n', '\n']);
        let ss = split_sentences(s);
        lemma_sentences_blank(s, 0, 0);
        lemma_kept_of_trimmed(ss);
        law_merge_keeps_segments(ss, max, seq![' ']);
    }
}


/// Every character of `s` takes one byte.
pub open spec fn is_ascii_text(s: Seq<char>) -> bool {
    forall|i: int| 0 <= i < s.len() ==> char_width(#[trigger] s[i]) == 1
}

/// The fixed-size window of at most `m` characters starting at `k`.
pub open spec fn window(s: Seq<char>, m: int, k: int) -> Seq<char> {
    s.subrange(k, if k + m < s.len() { k + m } else { s.len() as int })
}

proof fn lemma_ascii_prefix(s: Seq<char>, k: int)
    requires
        is_ascii_text(s),
        0 <= k <= s.len(),
    ensures
        prefix_bytes(s, k) == k,
    decreases k,
{
    if k > 0 {
        lemma_ascii_prefix(s, k - 1);
        lemma_prefix_step(s, k - 1);
    } else {
        assert(s.take(0) =~= Seq::<char>::empty());
    }
}

proof fn lemma_ascii_snap(s: Seq<char>, p: int)
    requires
        is_ascii_text(s),
        0 <= p <= s.len(),
    ensures
        snap(s, p) == p,
{
    lemma_ascii_prefix(s, p);
    if p < s.len() {
        lemma_ascii_prefix(s, p + 1);
    }
    lemma_snap_at(s, p, p);
}

proof fn lemma_same_multiple(k: int, q: int, st: int)
    requires
        st > 0,
        0 <= k <= q < k + st,
        k % st == 0,
        q % st == 0,
    ensures
        q == k,
{
    vstd::arithmetic::div_mod::lemma_fundamental_div_mod(k, st);
    vstd::arithmetic::div_mod::lemma_fundamental_div_mod(q, st);
    let a = k / st;
    let b = q / st;
    assert(b == a) by (nonlinear_arith)
        requires
            st > 0,
            q == st * b,
            k == st * a,
            0 <= q - k < st,
    ;
}

proof fn lemma_next_multiple(k: int, st: int)
    requires
        st > 0,
        k % st == 0,
    ensures
        (k + st) % st == 0,
{
    vstd::arithmetic::div_mod::lemma_mod_add_multiples_vanish(k, st);
}

proof fn lemma_fixed_rec_ascii(
    s: Seq<char>,
    m: int,
    st: int,
    k: int,
    acc: Seq<(Seq<char>, int, int)>,
)
    requires
        is_ascii_text(s),
        m >= 1,
        st >= 1,
        0 <= k,
        k % st == 0,
        forall|i: int| 0 <= i < acc.len() ==> (#[trigger] acc[i]).1 < k,
        forall|i: int, j: int| 0 <= i < j < acc.len() ==> acc[i].1 < acc[j].1,
    ensures
        ({
            let r = fixed_rec(s, m, st, k, acc);
            &&& r.len() >= acc.len()
            &&& r.take(acc.len() as int) == acc
            &&& forall|i: int|
                acc.len() <= i < r.len() ==> (#[trigger] r[i]).1 % st == 0 && k <= r[i].1 < s.len()
                    && r[i].0 == window(s, m, r[i].1)
            &&& forall|i: int, j: int| 0 <= i < j < r.len() ==> r[i].1 < r[j].1
            &&& forall|q: int|
                k <= q < s.len() && q % st == 0 && !is_blank(#[trigger] window(s, m, q)) ==> exists|i: int|
                    acc.len() <= i < r.len() && (#[trigger] r[i]).1 == q
        }),
    decreases s.len() - k,
{
    let r = fixed_rec(s, m, st, k, acc);
    if k >= s.len() {
        assert(r.take(acc.len() as int) =~= acc);
    } else {
        let n = s.len() as int;
        lemma_ascii_prefix(s, k);
        lemma_ascii_prefix(s, n);
        lemma_prefix_total(s);
        let target = if k + m < n { k + m } else { n };
        lemma_ascii_snap(s, target);
        let piece = s.subrange(k, target);
        assert(piece == window(s, m, k));
        let acc2 = if is_blank(piece) {
            acc
        } else {
            acc.push((piece, k, acc.len() as int))
        };
        let next = k + st;
        if next >= n {
            assert(r == acc2);
            assert(r.take(acc.len() as int) =~= acc);
            assert forall|q: int| k <= q < s.len() && q % st == 0 && !is_blank(#[trigger] window(s, m, q)) implies exists|i: int|
                acc.len() <= i < r.len() && (#[trigger] r[i]).1 == q by {
                lemma_same_multiple(k, q, st);
                assert(r[acc.len() as int].1 == q);
            }
        } else {
            lemma_ascii_snap(s, next);
            lemma_next_multiple(k, st);
            assert(r == fixed_rec(s, m, st, next, acc2));
            assert forall|i: int| 0 <= i < acc2.len() implies (#[trigger] acc2[i]).1 < next by {
                if i < acc.len() {
                    assert(acc2[i] == acc[i]);
                }
            }
            assert forall|i: int, j: int| 0 <= i < j < acc2.len() implies acc2[i].1 < acc2[j].1 by {
                if j < acc.len() {
                    assert(acc2[i] == acc[i]);
                    assert(acc2[j] == acc[j]);
                } else {
                    assert(acc2[i] == acc[i]);
                }
            }
            lemma_fixed_rec_ascii(s, m, st, next, acc2);
            assert(r.take(acc2.len() as int) == acc2);
            assert(r.take(acc.len() as int) =~= acc) by {
                assert forall|i: int| 0 <= i < acc.len() implies r[i] == acc[i] by {
                    assert(r.take(acc2.len() as int)[i] == acc2[i]);
                    assert(acc2[i] == acc[i]);
                }
            }
            if !is_blank(piece) {
                assert(r[acc.len() as int] == acc2[acc.len() as int]) by {
                    assert(r.take(acc2.len() as int)[acc.len() as int] == acc2[acc.len() as int]);
                }
            }
            assert forall|i: int| acc.len() <= i < r.len() implies (#[trigger] r[i]).1 % st == 0 && k <= r[i].1 < s.len()
                && r[i].0 == window(s, m, r[i].1) by {
                if i < acc2.len() {
                    assert(r[i] == acc2[i]) by {
                        assert(r.take(acc2.len() as int)[i] == acc2[i]);
                    }
                }
            }
            assert forall|q: int| k <= q < s.len() && q % st == 0 && !is_blank(#[trigger] window(s, m, q)) implies exists|i: int|
                acc.len() <= i < r.len() && (#[trigger] r[i]).1 == q by {
                if q < next {
                    lemma_same_multiple(k, q, st);
                    assert(r[acc.len() as int].1 == q);
                } else {
                    let i = choose|i: int| acc2.len() <= i < r.len() && (#[trigger] r[i]).1 == q;
                    assert(r[i].1 == q);
                }
            }
        }
    }
}

/// On text of one-byte characters, fixed-size chunks are the non-blank
/// windows: with `m` the window size and `st` the step between windows,
/// each chunk is the window of at most `m` characters at its offset, a
/// multiple of `st`; offsets strictly increase; and every window at a
/// multiple of `st` that is not blank gives a chunk.
pub proof fn law_fixed_windows(s: Seq<char>, max_chars: usize, overlap: usize)
    requires
        is_ascii_text(s),
    ensures
        ({
            let m = if max_chars == 0 { 1int } else { max_chars as int };
            let st = fixed_step(max_chars, overlap);
            let r = chunk_spec(s, max_chars, overlap, ChunkStrategy::FixedSize);
            &&& forall|i: int|
                0 <= i < r.len() ==> (#[trigger] r[i]).1 % st == 0 && 0 <= r[i].1 < s.len()
                    && r[i].0 == window(s, m, r[i].1)
            &&& forall|i: int, j: int| 0 <= i < j < r.len() ==> r[i].1 < r[j].1
            &&& forall|q: int|
                0 <= q < s.len() && q % st == 0 && !is_blank(#[trigger] window(s, m, q)) ==> exists|i: int|
                    0 <= i < r.len() && (#[trigger] r[i]).1 == q
        }),
{
    let m = if max_chars == 0 { 1int } else { max_chars as int };
    let st = fixed_step(max_chars, overlap);
    if is_blank(s) {
        assert forall|q: int| 0 <= q < s.len() implies is_blank(#[trigger] window(s, m, q)) by {
            let w = window(s, m, q);
            assert forall|i: int| 0 <= i < w.len() implies is_ws(#[trigger] w[i]) by {
                assert(w[i] == s[q + i]);
            }
        }
    } else {
        lemma_fixed_rec_ascii(s, m, st, 0, seq![]);
    }
}


proof fn lemma_fixed_rec_nonempty(
    s: Seq<char>,
    max: int,
    step: int,
    k: int,
    acc: Seq<(Seq<char>, int, int)>,
)
    requires
        1 <= step <= max,
        0 <= k <= s.len(),
        forall|i: int| 0 <= i < s.len() ==> char_width(#[trigger] s[i]) <= step,
    ensures
        fixed_rec(s, max, step, k, acc).len() >= acc.len(),
        !is_blank(s.subrange(k, s.len() as int)) ==> fixed_rec(s, max, step, k, acc).len() > acc.len(),
    decreases s.len() - k,
{
    let n = s.len() as int;
    if k < n {
        let pos = prefix_bytes(s, k) as int;
        let total = byte_len(s) as int;
        lemma_prefix_total(s);
        lemma_prefix_step(s, k);
        lemma_prefix_strict(s, k + 1, n);
        let target = if pos + max < total { pos + max } else { total };
        lemma_snap_props(s, target);
        let end = snap(s, target);
        assert(k + 1 <= end);
        if target == total {
            assert(end == n);
        }
        let piece = s.subrange(k, end);
        let acc2 = if is_blank(piece) {
            acc
        } else {
            acc.push((piece, pos, acc.len() as int))
        };
        let next = pos + step;
        let r = fixed_rec(s, max, step, k, acc);
        lemma_blank_cut(s, k, end, n);
        if next >= total {
            assert(r == acc2);
        } else {
            lemma_snap_props(s, next);
            let k2 = snap(s, next);
            assert(k + 1 <= k2);
            assert(k2 <= end);
            if k2 >= n {
                assert(r == acc2);
            } else {
                assert(r == fixed_rec(s, max, step, k2, acc2));
                lemma_fixed_rec_nonempty(s, max, step, k2, acc2);
                lemma_blank_cut(s, k2, end, n);
            }
        }
    }
}

/// Fixed-size chunking gives no chunks exactly when the text is blank, on
/// every text it returns on (no character wider than the step between
/// windows).
pub proof fn law_fixed_no_chunks_iff_blank(s: Seq<char>, max_chars: usize, overlap: usize)
    requires
        is_blank(s) || forall|i: int| 0 <= i < s.len() ==> char_width(#[trigger] s[i]) <= fixed_step(max_chars, overlap),
    ensures
        chunk_spec(s, max_chars, overlap, ChunkStrategy::FixedSize).len() == 0 <==> is_blank(s),
{
    if !is_blank(s) {
        let max = if max_chars == 0 { 1int } else { max_chars as int };
        assert(s.subrange(0, s.len() as int) =~= s);
        lemma_fixed_rec_nonempty(s, max, fixed_step(max_chars, overlap), 0, seq![]);
    }
}


/// For every strategy, `chunk_text` gives no chunks exactly when the text is
/// blank, on every text it returns on.
pub proof fn law_chunks_empty_iff_blank(s: Seq<char>, options: ChunkOptions)
    requires
        chunk_text_terminates(s, options),
    ensures
        chunk_spec(s, options.max_chars, options.overlap, options.strategy).len() == 0 <==> is_blank(s),
{
    law_no_chunks_iff_blank(s, options.max_chars, options.overlap);
    if options.strategy == ChunkStrategy::FixedSize {
        law_fixed_no_chunks_iff_blank(s, options.max_chars, options.overlap);
    }
}


/// `texts` are the runs of `s` cut at `g`: run `i` is `s[g[i]..g[i + 1]]`
/// joined by `j`, the cuts strictly increase from 0 to the end of `s`.
pub open spec fn runs_of(s: Seq<Seq<char>>, j: Seq<char>, texts: Seq<Seq<char>>, g: Seq<int>) -> bool {
    &&& g.len() == texts.len() + 1
    &&& g[0] == 0
    &&& g.last() == s.len()
    &&& forall|a: int, c: int| 0 <= a < c < g.len() ==> g[a] < g[c]
    &&& forall|i: int| 0 <= i < texts.len() ==> #[trigger] texts[i] == join_with(s.subrange(g[i], g[i + 1]), j)
}

/// A division of `s` into consecutive runs, cut at `b`, in which every run
/// of two or more segments fits in `max` bytes once joined by `j`.
pub open spec fn valid_runs(s: Seq<Seq<char>>, max: int, j: Seq<char>, b: Seq<int>) -> bool {
    &&& b.len() >= 1
    &&& b[0] == 0
    &&& b.last() == s.len()
    &&& forall|a: int, c: int| 0 <= a < c < b.len() ==> b[a] < b[c]
    &&& forall|i: int|
        0 <= i < b.len() - 1 && b[i + 1] - b[i] >= 2 ==> byte_len(join_with(#[trigger] s.subrange(b[i], b[i + 1]), j))
            <= max
}

/// Each run but the last could not have taken the next run's first segment.
pub open spec fn runs_greedy(s: Seq<Seq<char>>, max: int, j: Seq<char>, texts: Seq<Seq<char>>, g: Seq<int>) -> bool {
    forall|i: int|
        0 <= i < texts.len() - 1 ==> byte_len(#[trigger] texts[i]) + byte_len(j) + byte_len(s[g[i + 1]]) > max
}

/// Each run of two or more segments fits in `max` bytes.
pub open spec fn runs_fit(max: int, texts: Seq<Seq<char>>, g: Seq<int>) -> bool {
    forall|i: int| 0 <= i < texts.len() && g[i + 1] - g[i] >= 2 ==> byte_len(#[trigger] texts[i]) <= max
}

proof fn lemma_join_split(v: Seq<Seq<char>>, m: int, j: Seq<char>)
    requires
        0 < m < v.len(),
    ensures
        join_with(v, j) == join_with(v.take(m), j) + j + join_with(v.skip(m), j),
    decreases v.len(),
{
    let dl = v.drop_last();
    if m == v.len() - 1 {
        assert(v.take(m) =~= dl);
        assert(v.skip(m) =~= seq![v.last()]);
    } else {
        lemma_join_split(dl, m, j);
        assert(dl.take(m) =~= v.take(m));
        assert(v.skip(m) =~= dl.skip(m).push(v.last()));
        lemma_join_push(dl.skip(m), v.last(), j);
        assert(v.skip(m).drop_last() =~= dl.skip(m));
        assert(join_with(dl.take(m), j) + j + join_with(dl.skip(m), j) + j + v.last()
            =~= join_with(dl.take(m), j) + j + (join_with(dl.skip(m), j) + j + v.last()));
    }
}

/// A run inside another joins to no more bytes.
proof fn lemma_join_sub_bytes(s: Seq<Seq<char>>, a: int, a2: int, c2: int, c: int, j: Seq<char>)
    requires
        0 <= a <= a2 < c2 <= c <= s.len(),
    ensures
        byte_len(join_with(s.subrange(a2, c2), j)) <= byte_len(join_with(s.subrange(a, c), j)),
{
    let v = s.subrange(a, c);
    let w = s.subrange(a2, c);
    if a < a2 {
        lemma_join_split(v, a2 - a, j);
        assert(v.skip(a2 - a) =~= w);
        lemma_byte_len_concat(join_with(v.take(a2 - a), j) + j, join_with(w, j));
    } else {
        assert(v =~= w);
    }
    if c2 < c {
        lemma_join_split(w, c2 - a2, j);
        assert(w.take(c2 - a2) =~= s.subrange(a2, c2));
        lemma_byte_len_concat(join_with(s.subrange(a2, c2), j), j);
        lemma_byte_len_concat(join_with(s.subrange(a2, c2), j) + j, join_with(w.skip(c2 - a2), j));
    } else {
        assert(w =~= s.subrange(a2, c2));
    }
}

/// The greedy cuts stay at or ahead of the cuts of any valid division.
proof fn lemma_greedy_ahead(
    s: Seq<Seq<char>>,
    max: int,
    j: Seq<char>,
    texts: Seq<Seq<char>>,
    g: Seq<int>,
    b: Seq<int>,
    i: int,
)
    requires
        runs_of(s, j, texts, g),
        runs_greedy(s, max, j, texts, g),
        valid_runs(s, max, j, b),
        0 <= i < g.len(),
        i < b.len(),
    ensures
        g[i] >= b[i],
    decreases i,
{
    if i > 0 {
        lemma_greedy_ahead(s, max, j, texts, g, b, i - 1);
        assert(g[i - 1] < g[i]);
        if g[i - 1] < b[i] && g[i] < b[i] {
            let m = texts.len() as int;
            assert(g[m] == s.len());
            assert(b[i] <= s.len()) by {
                if i < b.len() - 1 {
                    assert(b[i] < b[b.len() - 1]);
                }
            }
            assert(i < m);
            assert(0 <= g[0] <= g[i - 1]) by {
                if i - 1 > 0 {
                    assert(g[0] < g[i - 1]);
                }
            }
            assert(g[i] < g[m]);
            assert(byte_len(texts[i - 1]) + byte_len(j) + byte_len(s[g[i]]) > max);
            let run = s.subrange(g[i - 1], g[i]);
            assert(texts[i - 1] == join_with(run, j));
            assert(s.subrange(g[i - 1], g[i] + 1) =~= run.push(s[g[i]]));
            lemma_join_push(run, s[g[i]], j);
            lemma_byte_len_concat(join_with(run, j), j);
            lemma_byte_len_concat(join_with(run, j) + j, s[g[i]]);
            assert(0 <= b[i - 1]) by {
                if i - 1 > 0 {
                    assert(b[0] < b[i - 1]);
                }
            }
            assert(byte_len(join_with(s.subrange(b[i - 1], b[i]), j)) <= max);
            lemma_join_sub_bytes(s, b[i - 1], g[i - 1], g[i] + 1, b[i], j);
        }
    }
}

/// Greedy runs are the fewest: no valid division has fewer runs.
proof fn lemma_greedy_fewest(
    s: Seq<Seq<char>>,
    max: int,
    j: Seq<char>,
    texts: Seq<Seq<char>>,
    g: Seq<int>,
    b: Seq<int>,
)
    requires
        runs_of(s, j, texts, g),
        runs_greedy(s, max, j, texts, g),
        valid_runs(s, max, j, b),
    ensures
        texts.len() <= b.len() - 1,
{
    let k = b.len() - 1;
    let m = texts.len() as int;
    if k < m {
        lemma_greedy_ahead(s, max, j, texts, g, b, k);
        assert(g[k] < g[m]);
    }
}


/// The merge state after `n` segments holds greedy runs of the segments kept
/// so far, each run of two or more fitting in `max` bytes.
pub open spec fn merge_runs_ok(segs: Seq<Seq<char>>, max: int, j: Seq<char>, n: int, st: MergeState) -> bool {
    exists|g: Seq<int>|
        #[trigger] runs_of(kept_segments(segs.take(n)), j, merge_pieces(st), g)
            && runs_greedy(kept_segments(segs.take(n)), max, j, merge_pieces(st), g)
            && runs_fit(max, merge_pieces(st), g)
            && runs_start(kept_starts(segs.take(n), byte_len(j) as int), merge_offsets(st), g)
}

/// Where each segment that carries text starts: the bytes of the segments
/// before it, each followed by the separator's `jb` bytes.
pub open spec fn kept_starts(segs: Seq<Seq<char>>, jb: int) -> Seq<int>
    decreases segs.len(),
{
    if segs.len() == 0 {
        Seq::empty()
    } else if trim(segs.last()).len() == 0 {
        kept_starts(segs.drop_last(), jb)
    } else {
        kept_starts(segs.drop_last(), jb).push(raw_total(segs.drop_last(), jb))
    }
}

proof fn lemma_kept_starts_len(segs: Seq<Seq<char>>, jb: int)
    ensures
        kept_starts(segs, jb).len() == kept_segments(segs).len(),
    decreases segs.len(),
{
    if segs.len() > 0 {
        lemma_kept_starts_len(segs.drop_last(), jb);
    }
}

/// The offsets a merge state stands for: its finished chunks', then the
/// offset of the chunk being built when there is one.
pub open spec fn merge_offsets(st: MergeState) -> Seq<int> {
    let o = st.0.map_values(|c: (Seq<char>, int, int)| c.1);
    if st.1.len() == 0 {
        o
    } else {
        o.push(st.2)
    }
}

/// Run `i` is placed at the start of its first segment.
pub open spec fn runs_start(starts: Seq<int>, offs: Seq<int>, g: Seq<int>) -> bool {
    &&& offs.len() + 1 == g.len()
    &&& forall|i: int| 0 <= i < offs.len() ==> #[trigger] offs[i] == starts[g[i]]
}

proof fn lemma_merge_fold_pos(segs: Seq<Seq<char>>, n: int, max: int, j: Seq<char>)
    requires
        0 <= n <= segs.len(),
    ensures
        merge_fold(segs, n, max, j).3 == raw_total(segs.take(n), byte_len(j) as int),
    decreases n,
{
    if n == 0 {
        assert(segs.take(0) =~= Seq::<Seq<char>>::empty());
    } else {
        lemma_merge_fold_pos(segs, n - 1, max, j);
        assert(segs.take(n).drop_last() =~= segs.take(n - 1));
    }
}

proof fn lemma_merge_fold_runs(segs: Seq<Seq<char>>, n: int, max: int, j: Seq<char>)
    requires
        0 <= n <= segs.len(),
    ensures
        merge_runs_ok(segs, max, j, n, merge_fold(segs, n, max, j)),
    decreases n,
{
    if n == 0 {
        assert(segs.take(0) =~= Seq::<Seq<char>>::empty());
        let p = merge_pieces(merge_fold(segs, 0, max, j));
        assert(p =~= Seq::<Seq<char>>::empty());
        let g = seq![0int];
        assert(runs_of(kept_segments(segs.take(0)), j, p, g));
        assert(merge_offsets(merge_fold(segs, 0, max, j)) =~= Seq::<int>::empty());
        assert(runs_start(kept_starts(segs.take(0), byte_len(j) as int), merge_offsets(merge_fold(segs, 0, max, j)), g));
    } else {
        lemma_merge_fold_runs(segs, n - 1, max, j);
        lemma_merge_fold_greedy(segs, n - 1, max, j);
        lemma_merge_fold_ok(segs, n - 1, max, j);
        let st = merge_fold(segs, n - 1, max, j);
        let st2 = merge_fold(segs, n, max, j);
        let seg = segs[n - 1];
        let t = trim(seg);
        let k = kept_segments(segs.take(n - 1));
        assert(segs.take(n).drop_last() =~= segs.take(n - 1));
        assert(segs.take(n).last() == seg);
        let p = merge_pieces(st);
        let ct = chunk_texts(st.0);
        let jb = byte_len(j) as int;
        let ks = kept_starts(segs.take(n - 1), jb);
        let o = merge_offsets(st);
        lemma_kept_starts_len(segs.take(n - 1), jb);
        lemma_merge_fold_pos(segs, n - 1, max, j);
        let g = choose|g: Seq<int>|
            #[trigger] runs_of(k, j, p, g) && runs_greedy(k, max, j, p, g) && runs_fit(max, p, g)
                && runs_start(ks, o, g);
        if t.len() == 0 {
            assert(st2 == (st.0, st.1, st.2, st.3 + byte_len(seg) + byte_len(j)));
            assert(kept_segments(segs.take(n)) == k);
            assert(kept_starts(segs.take(n), jb) == ks);
            assert(merge_pieces(st2) == p);
            assert(merge_offsets(st2) == o);
            assert(runs_of(kept_segments(segs.take(n)), j, merge_pieces(st2), g));
        } else {
            let k2 = k.push(t);
            assert(kept_segments(segs.take(n)) == k2);
            let ks2 = ks.push(st.3);
            assert(kept_starts(segs.take(n), jb) == ks2);
            let kl = k.len() as int;
            assert forall|a: int, c: int| 0 <= a <= c <= kl implies #[trigger] k2.subrange(a, c) == k.subrange(a, c) by {
                assert(k2.subrange(a, c) =~= k.subrange(a, c));
            }
            assert(k2.subrange(kl, kl + 1) =~= seq![t]);
            let would_be = if st.1.len() == 0 {
                byte_len(t) as int
            } else {
                (byte_len(st.1) + byte_len(j) + byte_len(t)) as int
            };
            let flush = would_be > max && st.1.len() > 0;
            let pl = p.len() as int;
            assert(g[pl] == kl);
            if st.1.len() == 0 {
                assert(st.0.len() == 0);
                assert(ct =~= Seq::<Seq<char>>::empty());
                assert(p.len() == 0);
                let p2 = merge_pieces(st2);
                assert(p2 =~= seq![t]);
                let g2 = seq![0int, kl + 1];
                assert(kl == 0);
                assert(p2[0] == join_with(k2.subrange(g2[0], g2[1]), j));
                assert(runs_of(k2, j, p2, g2));
                assert(runs_fit(max, p2, g2));
                assert(runs_greedy(k2, max, j, p2, g2));
                assert(merge_offsets(st2) =~= seq![st.3]);
                assert(runs_start(ks2, merge_offsets(st2), g2));
            } else if flush {
                let c = (st.1, st.2, st.0.len() as int);
                assert(chunk_texts(st.0.push(c)) =~= ct.push(st.1));
                let p2 = merge_pieces(st2);
                assert(p2 =~= p.push(t));
                let g2 = g.push(kl + 1);
                assert(p[pl - 1] == st.1);
                assert forall|a: int, c2: int| 0 <= a < c2 < g2.len() implies g2[a] < g2[c2] by {
                    if c2 < g.len() {
                        assert(g[a] < g[c2]);
                    } else if a < pl {
                        assert(g[a] < g[pl]);
                    }
                }
                assert forall|i: int| 0 <= i < p2.len() implies #[trigger] p2[i] == join_with(k2.subrange(g2[i], g2[i + 1]), j) by {
                    if i < pl {
                        assert(p2[i] == p[i]);
                        assert(0 <= g[i]) by {
                            if i > 0 {
                                assert(g[0] < g[i]);
                            }
                        }
                        assert(g[i + 1] <= kl) by {
                            if i + 1 < pl {
                                assert(g[i + 1] < g[pl]);
                            }
                        }
                        assert(k2.subrange(g[i], g[i + 1]) == k.subrange(g[i], g[i + 1]));
                    }
                }
                assert(runs_of(k2, j, p2, g2));
                assert forall|i: int| 0 <= i < p2.len() - 1 implies byte_len(#[trigger] p2[i]) + byte_len(j) + byte_len(k2[g2[i + 1]]) > max by {
                    assert(p2[i] == p[i]);
                    if i < pl - 1 {
                        assert(g[i + 1] < g[pl]);
                        assert(k2[g[i + 1]] == k[g[i + 1]]);
                        assert(byte_len(p[i]) + byte_len(j) + byte_len(k[g[i + 1]]) > max);
                    } else {
                        assert(k2[g2[i + 1]] == t);
                    }
                }
                assert(runs_greedy(k2, max, j, p2, g2));
                assert forall|i: int| 0 <= i < p2.len() && g2[i + 1] - g2[i] >= 2 implies byte_len(#[trigger] p2[i]) <= max by {
                    if i < pl {
                        assert(p2[i] == p[i]);
                    } else {
                        assert(g2[i] == kl);
                    }
                }
                assert(runs_fit(max, p2, g2));
                let o2 = merge_offsets(st2);
                assert(o2 =~= o.push(st.3));
                assert forall|i: int| 0 <= i < o2.len() implies #[trigger] o2[i] == ks2[g2[i]] by {
                    if i < pl {
                        assert(o2[i] == o[i]);
                        assert(o[i] == ks[g[i]]);
                        assert(g[i] < g[pl]);
                        assert(0 <= g[i]) by {
                            if i > 0 {
                                assert(g[0] < g[i]);
                            }
                        }
                        assert(ks2[g[i]] == ks[g[i]]);
                    } else {
                        assert(g2[i] == kl);
                    }
                }
                assert(runs_start(ks2, o2, g2));
            } else {
                let p2 = merge_pieces(st2);
                let last = st.1 + j + t;
                assert(p2 =~= ct.push(last));
                assert(p =~= ct.push(st.1));
                let g2 = g.update(pl, kl + 1);
                assert(pl >= 1);
                assert(0 <= g[pl - 1] < kl) by {
                    assert(g[pl - 1] < g[pl]);
                    if pl - 1 > 0 {
                        assert(g[0] < g[pl - 1]);
                    }
                }
                assert forall|a: int, c2: int| 0 <= a < c2 < g2.len() implies g2[a] < g2[c2] by {
                    if c2 < pl {
                        assert(g[a] < g[c2]);
                    } else if a < pl {
                        assert(g[a] < g[pl]);
                    }
                }
                let run = k.subrange(g[pl - 1], kl);
                assert(p[pl - 1] == join_with(run, j));
                assert(k2.subrange(g[pl - 1], kl + 1) =~= run.push(t));
                lemma_join_push(run, t, j);
                assert forall|i: int| 0 <= i < p2.len() implies #[trigger] p2[i] == join_with(k2.subrange(g2[i], g2[i + 1]), j) by {
                    if i < pl - 1 {
                        assert(p2[i] == p[i]);
                        assert(0 <= g[i]) by {
                            if i > 0 {
                                assert(g[0] < g[i]);
                            }
                        }
                        assert(g[i + 1] < g[pl]);
                        assert(k2.subrange(g[i], g[i + 1]) == k.subrange(g[i], g[i + 1]));
                    }
                }
                assert(runs_of(k2, j, p2, g2));
                assert forall|i: int| 0 <= i < p2.len() - 1 implies byte_len(#[trigger] p2[i]) + byte_len(j) + byte_len(k2[g2[i + 1]]) > max by {
                    assert(p2[i] == p[i]);
                    assert(g[i + 1] < g[pl]);
                    assert(k2[g[i + 1]] == k[g[i + 1]]);
                    assert(byte_len(p[i]) + byte_len(j) + byte_len(k[g[i + 1]]) > max);
                }
                assert(runs_greedy(k2, max, j, p2, g2));
                lemma_byte_len_concat(st.1, j);
                lemma_byte_len_concat(st.1 + j, t);
                assert forall|i: int| 0 <= i < p2.len() && g2[i + 1] - g2[i] >= 2 implies byte_len(#[trigger] p2[i]) <= max by {
                    if i < pl - 1 {
                        assert(p2[i] == p[i]);
                    }
                }
                assert(runs_fit(max, p2, g2));
                let o2 = merge_offsets(st2);
                assert(o2 == o);
                assert forall|i: int| 0 <= i < o2.len() implies #[trigger] o2[i] == ks2[g2[i]] by {
                    assert(o[i] == ks[g[i]]);
                    assert(g[i] < g[pl]);
                    assert(0 <= g[i]) by {
                        if i > 0 {
                            assert(g[0] < g[i]);
                        }
                    }
                    assert(ks2[g[i]] == ks[g[i]]);
                }
                assert(runs_start(ks2, o2, g2));
            }
        }
    }
}

/// Merging cuts the trimmed segments that carry text into consecutive runs:
/// chunk `i` is run `i` joined by the separator, every run of two or more
/// segments fits in `max` bytes, each run but the last could not have taken
/// the next run's first segment, and a chunk's offset is where its first
/// segment starts (the bytes of all segments before it, each followed by
/// the separator).
pub proof fn law_merge_runs(segs: Seq<Seq<char>>, max: int, j: Seq<char>)
    ensures
        exists|g: Seq<int>|
            #[trigger] runs_of(kept_segments(segs), j, chunk_texts(merge_segments(segs, max, j)), g)
                && valid_runs(kept_segments(segs), max, j, g)
                && runs_greedy(kept_segments(segs), max, j, chunk_texts(merge_segments(segs, max, j)), g)
                && forall|i: int|
                0 <= i < merge_segments(segs, max, j).len() ==> (#[trigger] merge_segments(segs, max, j)[i]).1
                    == kept_starts(segs, byte_len(j) as int)[g[i]],
{
    let n = segs.len() as int;
    lemma_merge_fold_runs(segs, n, max, j);
    lemma_merge_fold_ok(segs, n, max, j);
    assert(segs.take(n) =~= segs);
    let st = merge_fold(segs, n, max, j);
    let k = kept_segments(segs);
    let p = merge_pieces(st);
    if !is_blank(st.1) {
        assert(chunk_texts(st.0.push((st.1, st.2, st.0.len() as int))) =~= chunk_texts(st.0).push(st.1));
        assert(st.1.len() > 0);
    } else {
        assert(st.1.len() == 0);
    }
    assert(chunk_texts(merge_segments(segs, max, j)) == p);
    let ks = kept_starts(segs, byte_len(j) as int);
    let g = choose|g: Seq<int>|
        #[trigger] runs_of(k, j, p, g) && runs_greedy(k, max, j, p, g) && runs_fit(max, p, g)
            && runs_start(ks, merge_offsets(st), g);
    let out = merge_segments(segs, max, j);
    assert forall|i: int| 0 <= i < out.len() implies (#[trigger] out[i]).1 == ks[g[i]] by {
        assert(merge_offsets(st)[i] == ks[g[i]]);
        if i < st.0.len() {
            assert(out[i] == st.0[i]);
        }
    }
    assert forall|i: int| 0 <= i < g.len() - 1 && g[i + 1] - g[i] >= 2 implies byte_len(
        join_with(#[trigger] k.subrange(g[i], g[i + 1]), j),
    ) <= max by {
        assert(p[i] == join_with(k.subrange(g[i], g[i + 1]), j));
    }
    assert(valid_runs(k, max, j, g));
}

/// Merging makes the fewest chunks: every division of the trimmed segments
/// that carry text into consecutive runs, each run of two or more segments
/// fitting in `max` bytes once joined, has at least as many runs.
pub proof fn law_merge_fewest_runs(segs: Seq<Seq<char>>, max: int, j: Seq<char>, b: Seq<int>)
    requires
        valid_runs(kept_segments(segs), max, j, b),
    ensures
        merge_segments(segs, max, j).len() <= b.len() - 1,
{
    law_merge_runs(segs, max, j);
    let k = kept_segments(segs);
    let texts = chunk_texts(merge_segments(segs, max, j));
    let g = choose|g: Seq<int>| #[trigger] runs_of(k, j, texts, g) && valid_runs(k, max, j, g) && runs_greedy(k, max, j, texts, g);
    lemma_greedy_fewest(k, max, j, texts, g, b);
}


/// No sentence ends inside `s` from `i` to `k`: no '.', '?' or '!' there
/// is followed by a space.
pub open spec fn no_sentence_break(s: Seq<char>, i: int, k: int) -> bool {
    forall|m: int|
        i <= m < k && m + 1 < s.len() ==> !((#[trigger] s[m] == '.' || s[m] == '?' || s[m] == '!') && s[m + 1] == ' ')
}

proof fn lemma_sent_skip(s: Seq<char>, c0: int, i: int, k: int)
    requires
        0 <= c0 <= i <= k <= s.len(),
        no_sentence_break(s, i, k),
    ensures
        sent_rec(s, c0, i) == sent_rec(s, c0, k),
    decreases k - i,
{
    if i < k {
        assert(!(is_terminal(s[i]) && i + 1 < s.len() && s[i + 1] == ' '));
        lemma_sent_skip(s, c0, i + 1, k);
    }
}

/// A text in which no '.', '?' or '!' is followed by a space is one
/// sentence: itself, trimmed (none when it is blank).
pub proof fn law_text_without_breaks_is_one_sentence(q: Seq<char>)
    requires
        no_sentence_break(q, 0, q.len() as int),
    ensures
        split_sentences(q) == if is_blank(q) {
            Seq::<Seq<char>>::empty()
        } else {
            seq![trim(q)]
        },
{
    lemma_sent_skip(q, 0, 0, q.len() as int);
    assert(q.subrange(0, q.len() as int) =~= q);
    lemma_trim_empty_iff_blank(q);
}

/// A sentence ends after each '.', '?' or '!' followed by a space: the text
/// `p`, the mark, a space and `q` (neither of them holding a mark followed
/// by a space, `q` not blank) splits into `p` with its mark and `q`, each
/// trimmed.
pub proof fn law_sentence_ends_at_mark_and_space(p: Seq<char>, c: char, q: Seq<char>)
    requires
        c == '.' || c == '?' || c == '!',
        no_sentence_break(p, 0, p.len() as int),
        no_sentence_break(q, 0, q.len() as int),
        !is_blank(q),
    ensures
        split_sentences(p + seq![c, ' '] + q) == seq![trim(p.push(c)), trim(q)],
{
    let s = p + seq![c, ' '] + q;
    let n = p.len() as int;
    let len = s.len() as int;
    assert(no_sentence_break(s, 0, n)) by {
        assert forall|m: int| 0 <= m < n && m + 1 < s.len() implies !((#[trigger] s[m] == '.' || s[m] == '?' || s[m] == '!')
            && s[m + 1] == ' ') by {
            assert(s[m] == p[m]);
            if m + 1 < n {
                assert(s[m + 1] == p[m + 1]);
            } else {
                assert(s[m + 1] == c);
            }
        }
    }
    lemma_sent_skip(s, 0, 0, n);
    assert(s[n] == c);
    assert(s[n + 1] == ' ');
    assert(is_terminal(s[n]));
    assert(s.subrange(0, n + 1) =~= p.push(c));
    assert(no_sentence_break(s, n + 2, len)) by {
        assert forall|m: int| n + 2 <= m < len && m + 1 < s.len() implies !((#[trigger] s[m] == '.' || s[m] == '?' || s[m] == '!')
            && s[m + 1] == ' ') by {
            assert(s[m] == q[m - n - 2]);
            assert(s[m + 1] == q[m + 1 - n - 2]);
        }
    }
    lemma_sent_skip(s, n + 2, n + 2, len);
    assert(s.subrange(n + 2, len) =~= q);
    lemma_trim_empty_iff_blank(q);
    lemma_trim_empty_iff_blank(p.push(c));
    assert(!is_ws(c));
    assert(!is_blank(p.push(c))) by {
        assert(p.push(c)[n] == c);
    }
    assert(keep_nonempty(trim(p.push(c))) + keep_nonempty(trim(q)) =~= seq![trim(p.push(c)), trim(q)]);
}


/// `p` holds no blank line: no two newlines in a row.
pub open spec fn has_no_blank_line(p: Seq<char>) -> bool {
    forall|m: int| 0 <= m < p.len() - 1 ==> !(#[trigger] p[m] == '\n' && p[m + 1] == '\n')
}

proof fn lemma_par_rec_split(s: Seq<char>, start: int, i: int)
    requires
        0 <= start <= i,
        start <= s.len(),
        forall|m: int| start <= m < i && m + 1 < s.len() ==> !(#[trigger] s[m] == '\n' && s[m + 1] == '\n'),
    ensures
        join_with(par_rec(s, start, i), seq!['\n', '\n']) == s.subrange(start, s.len() as int),
        forall|k: int| 0 <= k < par_rec(s, start, i).len() ==> has_no_blank_line(#[trigger] par_rec(s, start, i)[k]),
    decreases s.len() - i,
{
    let n = s.len() as int;
    let v = par_rec(s, start, i);
    let nl = seq!['\n', '\n'];
    if i + 1 >= n {
        assert(v =~= seq![s.subrange(start, n)]);
        let piece = s.subrange(start, n);
        assert(has_no_blank_line(piece)) by {
            assert forall|m: int| 0 <= m < piece.len() - 1 implies !(#[trigger] piece[m] == '\n' && piece[m + 1] == '\n') by {
                assert(piece[m] == s[start + m]);
                assert(piece[m + 1] == s[start + m + 1]);
            }
        }
    } else if s[i] == '\n' && s[i + 1] == '\n' {
        lemma_par_rec_split(s, i + 2, i + 2);
        lemma_par_rec_nonempty(s, i + 2, i + 2);
        let rest = par_rec(s, i + 2, i + 2);
        let piece = s.subrange(start, i);
        assert(v == seq![piece] + rest);
        assert(has_no_blank_line(piece)) by {
            assert forall|m: int| 0 <= m < piece.len() - 1 implies !(#[trigger] piece[m] == '\n' && piece[m + 1] == '\n') by {
                assert(piece[m] == s[start + m]);
                assert(piece[m + 1] == s[start + m + 1]);
            }
        }
        assert forall|k: int| 0 <= k < v.len() implies has_no_blank_line(#[trigger] v[k]) by {
            if k > 0 {
                assert(v[k] == rest[k - 1]);
            }
        }
        lemma_join_prepend(piece, rest, nl);
        assert(piece + nl + s.subrange(i + 2, n) =~= s.subrange(start, n));
    } else {
        lemma_par_rec_split(s, start, i + 1);
        assert(v == par_rec(s, start, i + 1));
    }
}

proof fn lemma_par_rec_nonempty(s: Seq<char>, start: int, i: int)
    ensures
        par_rec(s, start, i).len() >= 1,
    decreases s.len() - i,
{
    if i + 1 >= s.len() {
    } else if s[i] == '\n' && s[i + 1] == '\n' {
        lemma_par_rec_nonempty(s, i + 2, i + 2);
    } else {
        lemma_par_rec_nonempty(s, start, i + 1);
    }
}

proof fn lemma_join_prepend(x: Seq<char>, rest: Seq<Seq<char>>, j: Seq<char>)
    requires
        rest.len() > 0,
    ensures
        join_with(seq![x] + rest, j) == x + j + join_with(rest, j),
    decreases rest.len(),
{
    let v = seq![x] + rest;
    if rest.len() == 1 {
        assert(v.drop_last() =~= seq![x]);
        assert(v.last() == rest[0]);
        assert(join_with(seq![x], j) == x);
        assert(join_with(rest, j) == rest[0]);
        assert(join_with(v, j) == join_with(v.drop_last(), j) + j + v.last());
    } else {
        lemma_join_prepend(x, rest.drop_last(), j);
        assert(v.drop_last() =~= seq![x] + rest.drop_last());
        assert(v.last() == rest.last());
        assert(x + j + join_with(rest.drop_last(), j) + j + rest.last() =~= x + j + (join_with(rest.drop_last(), j) + j + rest.last()));
    }
}

/// Paragraphs are the pieces of the text between blank lines: joined back
/// with a blank line they give the text, and none of them holds a blank
/// line itself.
pub proof fn law_paragraphs_split_at_blank_lines(s: Seq<char>)
    ensures
        join_with(split_paragraphs(s), seq!['\n', '\n']) == s,
        forall|k: int| 0 <= k < split_paragraphs(s).len() ==> has_no_blank_line(#[trigger] split_paragraphs(s)[k]),
{
    lemma_par_rec_split(s, 0, 0);
    assert(s.subrange(0, s.len() as int) =~= s);
}

} // verus!
