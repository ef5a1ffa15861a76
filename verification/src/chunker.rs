//! Splitting a text into overlapping spans that prefer to end after a
//! sentence, and the chunks made from those spans.

use crate::error::EngineError;
use crate::text::{
    decimal, is_sentence_end, is_terminator, push_decimal, to_chars, trim_range, trim_to_string,
};
use vstd::prelude::*;

verus! {

/// How far back from the end of a window a sentence end is looked for.
pub const LOOKBACK: usize = 100;

/// Chunk size and overlap, both in characters, with the overlap strictly
/// smaller than the size.
#[derive(Debug, Clone, Copy)]
pub struct ChunkConfig {
    chunk_size: usize,
    overlap_size: usize,
}

impl ChunkConfig {
    #[verifier::type_invariant]
    spec fn valid(self) -> bool {
        self.overlap_size < self.chunk_size
    }

    /// The chunk size, in characters.
    pub closed spec fn size(&self) -> int {
        self.chunk_size as int
    }

    /// The overlap of neighbouring chunks, in characters.
    pub closed spec fn overlap(&self) -> int {
        self.overlap_size as int
    }

    /// A configuration with the given sizes; refused unless
    /// `overlap_size < chunk_size`.
    pub fn new(chunk_size: usize, overlap_size: usize) -> (r: Result<ChunkConfig, EngineError>)
        ensures
            overlap_size < chunk_size <==> r is Ok,
            r matches Ok(c) ==> c.size() == chunk_size && c.overlap() == overlap_size,
            r matches Err(e) ==> e == EngineError::Configuration,
    {
        if overlap_size < chunk_size {
            Ok(ChunkConfig { chunk_size, overlap_size })
        } else {
            Err(EngineError::Configuration)
        }
    }

    /// Chunks of 512 characters that overlap by 64.
    pub fn standard() -> (c: ChunkConfig)
        ensures
            c.size() == 512,
            c.overlap() == 64,
    {
        ChunkConfig { chunk_size: 512, overlap_size: 64 }
    }

    /// The chunk size, in characters.
    pub fn chunk_size(&self) -> (n: usize)
        ensures
            n == self.size(),
    {
        self.chunk_size
    }

    /// The overlap, in characters; smaller than the chunk size.
    pub fn overlap_size(&self) -> (n: usize)
        ensures
            n == self.overlap(),
            n < self.size(),
    {
        proof {
            use_type_invariant(self);
        }
        self.overlap_size
    }
}

/// Position of the last sentence end in `s[lo..hi]`, if there is one.
pub open spec fn last_sentence_end(s: Seq<char>, lo: int, hi: int) -> Option<int>
    decreases hi - lo,
{
    if hi <= lo {
        None
    } else if 0 < hi <= s.len() && is_sentence_end(s[hi - 1]) {
        Some(hi - 1)
    } else {
        last_sentence_end(s, lo, hi - 1)
    }
}

/// Where the chunk that starts at `start` ends. The window of `size`
/// characters is clipped to the text. A window that stops short of the end
/// of the text is cut back to just after its last sentence end, looked for
/// in its last `LOOKBACK` characters and never before `start`.
pub open spec fn chunk_end(s: Seq<char>, start: int, size: int) -> int {
    if start + size < s.len() {
        let end = start + size;
        let lo = if end - LOOKBACK > start {
            end - LOOKBACK
        } else {
            start
        };
        match last_sentence_end(s, lo, end) {
            Some(i) => i + 1,
            None => end,
        }
    } else {
        s.len() as int
    }
}

/// Where the chunk after one that spans `start..end` starts: `overlap`
/// characters before `end`, unless that fails to move past `start`; then at
/// `end`.
pub open spec fn next_start(start: int, end: int, overlap: int) -> int {
    if end - overlap > start {
        end - overlap
    } else {
        end
    }
}

/// What `last_sentence_end` finds is a sentence end of the range with none
/// behind it; it finds none only where the range has none.
pub proof fn lemma_last_sentence_end(s: Seq<char>, lo: int, hi: int)
    requires
        0 <= lo <= hi <= s.len(),
    ensures
        match last_sentence_end(s, lo, hi) {
            Some(i) => lo <= i < hi && is_sentence_end(s[i]) && forall|k: int|
                i < k < hi ==> !is_sentence_end(#[trigger] s[k]),
            None => forall|k: int| lo <= k < hi ==> !is_sentence_end(#[trigger] s[k]),
        },
    decreases hi - lo,
{
    if hi > lo && !is_sentence_end(s[hi - 1]) {
        lemma_last_sentence_end(s, lo, hi - 1);
    }
}

/// A chunk is not empty, not longer than the chunk size and within the
/// text.
pub proof fn lemma_chunk_end(s: Seq<char>, start: int, size: int)
    requires
        0 <= start < s.len(),
        0 < size,
    ensures
        start < chunk_end(s, start, size) <= s.len(),
        chunk_end(s, start, size) <= start + size,
{
    if start + size < s.len() {
        let end = start + size;
        let lo = if end - LOOKBACK > start {
            end - LOOKBACK
        } else {
            start
        };
        lemma_last_sentence_end(s, lo, end);
    }
}

/// The spans of the chunks of `s` from position `start` on, as pairs of
/// start and end.
pub open spec fn spans_from(s: Seq<char>, start: int, size: int, overlap: int) -> Seq<(int, int)>
    decreases s.len() - start,
    when 0 <= start && 0 <= overlap < size
    via spans_from_decreases
{
    if start >= s.len() {
        Seq::empty()
    } else {
        let end = chunk_end(s, start, size);
        seq![(start, end)] + spans_from(s, next_start(start, end, overlap), size, overlap)
    }
}

#[via_fn]
proof fn spans_from_decreases(s: Seq<char>, start: int, size: int, overlap: int) {
    if start < s.len() {
        lemma_chunk_end(s, start, size);
    }
}

/// The spans of the chunks of the whole of `s`.
pub open spec fn spans(s: Seq<char>, size: int, overlap: int) -> Seq<(int, int)> {
    spans_from(s, 0, size, overlap)
}

/// Spans that start at `first`, lie within a text of `len` characters, start
/// strictly later one after the other, leave no gap, overlap by at most
/// `overlap` and end with the text.
pub open spec fn covers(sp: Seq<(int, int)>, first: int, len: int, overlap: int) -> bool {
    &&& first >= len <==> sp.len() == 0
    &&& sp.len() > 0 ==> sp[0].0 == first && sp[sp.len() - 1].1 == len
    &&& forall|i: int| 0 <= i < sp.len() ==> 0 <= (#[trigger] sp[i]).0 < sp[i].1 <= len
    &&& forall|i: int|
        0 <= i && i + 1 < sp.len() ==> (#[trigger] sp[i]).0 < sp[i + 1].0 <= sp[i].1 && sp[i].1
            - sp[i + 1].0 <= overlap
}

/// Chunking from any position covers the rest of the text.
pub proof fn lemma_spans_from_cover(s: Seq<char>, start: int, size: int, overlap: int)
    requires
        0 <= start <= s.len(),
        0 <= overlap < size,
    ensures
        covers(spans_from(s, start, size, overlap), start, s.len() as int, overlap),
    decreases s.len() - start,
{
    if start < s.len() {
        lemma_chunk_end(s, start, size);
        let end = chunk_end(s, start, size);
        let next = next_start(start, end, overlap);
        lemma_spans_from_cover(s, next, size, overlap);
        let rest = spans_from(s, next, size, overlap);
        let sp = spans_from(s, start, size, overlap);
        assert(sp == seq![(start, end)] + rest);
        assert(sp[0] == (start, end));
        assert forall|i: int| 1 <= i < sp.len() implies sp[i] == rest[i - 1] by {}
        assert forall|i: int| 0 <= i < sp.len() implies 0 <= (#[trigger] sp[i]).0 < sp[i].1
            <= s.len() by {
            if i > 0 {
                assert(sp[i] == rest[i - 1]);
            }
        }
        assert forall|i: int| 0 <= i && i + 1 < sp.len() implies (#[trigger] sp[i]).0 < sp[i
            + 1].0 <= sp[i].1 && sp[i].1 - sp[i + 1].0 <= overlap by {
            assert(sp[i + 1] == rest[i]);
            if i > 0 {
                assert(sp[i] == rest[i - 1]);
            }
        }
        if rest.len() > 0 {
            assert(sp[sp.len() - 1] == rest[rest.len() - 1]);
        }
    }
}

/// For any text and any overlap smaller than the chunk size, the chunks
/// start strictly later one after the other and together cover the whole
/// text without a gap.
pub proof fn lemma_spans_cover(s: Seq<char>, size: int, overlap: int)
    requires
        0 <= overlap < size,
    ensures
        covers(spans(s, size, overlap), 0, s.len() as int, overlap),
{
    lemma_spans_from_cover(s, 0, size, overlap);
}

/// Spans as pairs of mathematical integers.
pub open spec fn span_ints(sp: Seq<(usize, usize)>) -> Seq<(int, int)> {
    sp.map_values(|p: (usize, usize)| (p.0 as int, p.1 as int))
}

fn find_last_sentence_end(v: &Vec<char>, lo: usize, hi: usize) -> (r: Option<usize>)
    requires
        lo <= hi <= v.len(),
    ensures
        match r {
            Some(i) => last_sentence_end(v@, lo as int, hi as int) == Some(i as int),
            None => last_sentence_end(v@, lo as int, hi as int) is None,
        },
{
    let mut j: usize = hi;
    while j > lo
        invariant
            lo <= j <= hi <= v.len(),
            last_sentence_end(v@, lo as int, hi as int) == last_sentence_end(
                v@,
                lo as int,
                j as int,
            ),
        decreases j - lo,
    {
        if is_terminator(v[j - 1]) {
            return Some(j - 1);
        }
        j -= 1;
    }
    None
}

fn end_of_chunk(v: &Vec<char>, start: usize, size: usize) -> (end: usize)
    requires
        start < v.len(),
        0 < size,
    ensures
        end == chunk_end(v@, start as int, size as int),
        start < end <= v.len(),
{
    proof {
        lemma_chunk_end(v@, start as int, size as int);
    }
    let len = v.len();
    if size < len - start {
        let end: usize = start + size;
        let lo: usize = if end >= LOOKBACK && end - LOOKBACK > start {
            end - LOOKBACK
        } else {
            start
        };
        match find_last_sentence_end(v, lo, end) {
            Some(i) => i + 1,
            None => end,
        }
    } else {
        len
    }
}

/// Splits `content` into the spans of its chunks. The result is a function
/// of the text and the configuration alone; its spans start strictly later
/// one after the other and cover the text without a gap.
pub fn split_spans(content: &Vec<char>, config: &ChunkConfig) -> (r: Vec<(usize, usize)>)
    ensures
        span_ints(r@) == spans(content@, config.size(), config.overlap()),
        covers(span_ints(r@), 0, content.len() as int, config.overlap()),
{
    let size = config.chunk_size();
    let overlap = config.overlap_size();
    let len = content.len();
    let mut r: Vec<(usize, usize)> = Vec::new();
    let mut start: usize = 0;
    while start < len
        invariant
            len == content.len(),
            start <= len,
            overlap < size,
            span_ints(r@) + spans_from(content@, start as int, size as int, overlap as int)
                == spans(content@, size as int, overlap as int),
        decreases len - start,
    {
        let end = end_of_chunk(content, start, size);
        let next: usize = if end >= overlap && end - overlap > start {
            end - overlap
        } else {
            end
        };
        proof {
            let rest = spans_from(content@, next as int, size as int, overlap as int);
            assert(spans_from(content@, start as int, size as int, overlap as int) == seq![
                (start as int, end as int),
            ] + rest);
            assert(span_ints(r@.push((start, end))) == span_ints(r@) + seq![
                (start as int, end as int),
            ]);
            assert((span_ints(r@) + seq![(start as int, end as int)]) + rest == span_ints(r@) + (
            seq![(start as int, end as int)] + rest));
        }
        r.push((start, end));
        start = next;
    }
    proof {
        assert(span_ints(r@) + Seq::<(int, int)>::empty() == span_ints(r@));
        lemma_spans_cover(content@, size as int, overlap as int);
    }
    r
}

/// One chunk of a document.
#[derive(Debug)]
pub struct DocumentChunk {
    /// The document's id, an underscore and the chunk's position among the
    /// document's chunks, counted from zero.
    pub id: String,
    /// The id of the document that the chunk was cut from.
    pub document_id: String,
    /// The text of the span, without leading and trailing white space.
    pub content: String,
    /// First character of the span in the document's text.
    pub start_pos: usize,
    /// One past the last character of the span.
    pub end_pos: usize,
}

/// What a chunk holds, as mathematical values.
pub struct ChunkView {
    pub id: Seq<char>,
    pub document_id: Seq<char>,
    pub content: Seq<char>,
    pub start_pos: int,
    pub end_pos: int,
}

impl View for DocumentChunk {
    type V = ChunkView;

    open spec fn view(&self) -> ChunkView {
        ChunkView {
            id: self.id@,
            document_id: self.document_id@,
            content: self.content@,
            start_pos: self.start_pos as int,
            end_pos: self.end_pos as int,
        }
    }
}

impl Clone for DocumentChunk {
    fn clone(&self) -> (r: Self)
        ensures
            r@ == self@,
    {
        DocumentChunk {
            id: self.id.clone(),
            document_id: self.document_id.clone(),
            content: self.content.clone(),
            start_pos: self.start_pos,
            end_pos: self.end_pos,
        }
    }
}

/// The chunks as mathematical values.
pub open spec fn chunk_views(chunks: Seq<DocumentChunk>) -> Seq<ChunkView> {
    chunks.map_values(|c: DocumentChunk| c@)
}

/// The id of the `n`-th chunk of a document.
pub open spec fn chunk_id(document_id: Seq<char>, n: nat) -> Seq<char> {
    document_id + seq!['_'] + decimal(n)
}

/// The `n`-th chunk of a document, cut from `content` at `span`.
pub open spec fn chunk_of(
    content: Seq<char>,
    document_id: Seq<char>,
    span: (int, int),
    n: nat,
) -> ChunkView {
    ChunkView {
        id: chunk_id(document_id, n),
        document_id,
        content: trim_range(content, span.0, span.1),
        start_pos: span.0,
        end_pos: span.1,
    }
}

/// The chunks of a document with the given text.
pub open spec fn chunks_of(
    content: Seq<char>,
    document_id: Seq<char>,
    size: int,
    overlap: int,
) -> Seq<ChunkView> {
    let sp = spans(content, size, overlap);
    Seq::new(sp.len(), |i: int| chunk_of(content, document_id, sp[i], i as nat))
}

/// Cuts the text of a document into its chunks.
pub fn create_chunks(content: &str, document_id: &str, config: &ChunkConfig) -> (r: Vec<
    DocumentChunk,
>)
    ensures
        chunk_views(r@) == chunks_of(content@, document_id@, config.size(), config.overlap()),
        covers(
            spans(content@, config.size(), config.overlap()),
            0,
            content@.len() as int,
            config.overlap(),
        ),
{
    let chars = to_chars(content);
    let sp = split_spans(&chars, config);
    let mut r: Vec<DocumentChunk> = Vec::new();
    let mut i: usize = 0;
    while i < sp.len()
        invariant
            i <= sp.len(),
            chars@ == content@,
            span_ints(sp@) == spans(content@, config.size(), config.overlap()),
            covers(span_ints(sp@), 0, chars.len() as int, config.overlap()),
            r.len() == i,
            forall|k: int|
                0 <= k < i ==> (#[trigger] r[k])@ == chunk_of(
                    content@,
                    document_id@,
                    span_ints(sp@)[k],
                    k as nat,
                ),
        decreases sp.len() - i,
    {
        let (start, end) = sp[i];
        assert(span_ints(sp@)[i as int] == (start as int, end as int));
        let mut id = document_id.to_owned();
        id.push('_');
        push_decimal(&mut id, i);
        let chunk = DocumentChunk {
            id,
            document_id: document_id.to_owned(),
            content: trim_to_string(&chars, start, end),
            start_pos: start,
            end_pos: end,
        };
        assert(chunk@.id == chunk_id(document_id@, i as nat));
        r.push(chunk);
        i += 1;
    }
    assert(chunk_views(r@) =~= chunks_of(
        content@,
        document_id@,
        config.size(),
        config.overlap(),
    ));
    r
}

} // verus!
