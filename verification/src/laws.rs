//! What holds of chunking, indexing and retrieval taken together.

use crate::chunker::{
    chunk_id, chunk_views, chunks_of, covers, lemma_spans_cover, spans, DocumentChunk,
};
use crate::engine::{all_staged, indexed};
use crate::normalizer::{
    lemma_kept_empty, lemma_kept_members, lowercase, only_stop_words, query_tokens, tokens,
    StopWords,
};
use crate::ranking::{lemma_ranking, rank};
use crate::retriever::{
    capped, fallback_results, first_with_id, indexed_results, lemma_first_with_id,
    lemma_resolved, lowered, occurrences, resolved, result_of, retrieval, row_scores, score,
    term_frequency, Relevance,
};
use crate::store::{
    distinct_ids, document_rows, first_n, lemma_rows_members, lemma_with_document, rows,
    with_document, without, DocumentView, RowView,
};
use crate::text::{
    decimal, digit_char, is_whitespace_char, lemma_trim_range, skip_whitespace,
    skip_whitespace_back,
};
use vstd::prelude::*;

verus! {

/// Without tokens nothing scores: the scored scan gives no result.
pub proof fn lemma_no_tokens_no_results(candidates: Seq<RowView>, limit: int)
    ensures
        fallback_results(candidates, Seq::<Seq<char>>::empty(), limit).len() == 0,
{
    let none = Seq::<Seq<char>>::empty();
    let scores = row_scores(candidates, none);
    lemma_ranking(scores, scores.len() as int);
    let order = rank(scores);
    if order.len() > 0 {
        assert(scores[order[0]] > 0);
        assert(lowered(none) =~= none);
    }
}

/// A query made of stop words alone gets no result: its match expression is
/// empty, so the index gives no hit, and the scan scores nothing.
pub proof fn lemma_stop_words_only(rows: Seq<RowView>, query: Seq<char>, stop: StopWords, limit: int)
    requires
        only_stop_words(query, stop),
    ensures
        retrieval(rows, query_tokens(query, stop), Seq::<Seq<char>>::empty(), limit).len() == 0,
{
    lemma_kept_empty(tokens(query), stop);
    assert(query_tokens(query, stop) =~= Seq::<Seq<char>>::empty());
    lemma_no_tokens_no_results(first_n(rows, 5 * limit), limit);
    let none = Seq::<Seq<char>>::empty();
    assert(first_n(none, limit) =~= none);
    assert(indexed_results(rows, none, limit).len() == 0);
}

/// No query gets more results than the limit it was asked with, whatever
/// the store holds and whatever the index has given.
pub proof fn lemma_limit_respected(
    rows: Seq<RowView>,
    tokens: Seq<Seq<char>>,
    hits: Seq<Seq<char>>,
    limit: int,
)
    requires
        0 <= limit,
    ensures
        retrieval(rows, tokens, hits, limit).len() <= limit,
{
    lemma_resolved(rows, first_n(hits, limit));
}

/// Every result is made from a row of the store.
pub proof fn lemma_results_from_rows(
    rows: Seq<RowView>,
    tokens: Seq<Seq<char>>,
    hits: Seq<Seq<char>>,
    limit: int,
    i: int,
)
    requires
        0 <= i < retrieval(rows, tokens, hits, limit).len(),
    ensures
        exists|k: int, relevance: Relevance|
            0 <= k < rows.len() && retrieval(rows, tokens, hits, limit)[i] == #[trigger] result_of(
                rows[k],
                relevance,
            ),
{
    let indexed = indexed_results(rows, hits, limit);
    if indexed.len() > 0 {
        let found = resolved(rows, first_n(hits, limit));
        lemma_resolved(rows, first_n(hits, limit));
        let k = found[i];
        assert(indexed[i] == result_of(rows[k], Relevance::Rank(i as usize)));
    } else {
        let candidates = first_n(rows, 5 * limit);
        let scores = row_scores(candidates, tokens);
        lemma_ranking(scores, scores.len() as int);
        let order = first_n(rank(scores), limit);
        assert(order[i] == rank(scores)[i]);
        let k = order[i];
        assert(0 <= k < candidates.len());
        assert(candidates[k] == rows[k]);
        assert(fallback_results(candidates, tokens, limit)[i] == result_of(
            rows[k],
            Relevance::Score(scores[k] as u64),
        ));
    }
}

/// Once a document has taken the place of another with its id, every row
/// that names the id is a chunk of the new document.
pub proof fn lemma_replaced_rows(docs: Seq<DocumentView>, d: DocumentView, k: int)
    requires
        distinct_ids(docs),
        0 <= k < rows(with_document(docs, d)).len(),
        rows(with_document(docs, d))[k].document.id == d.id,
    ensures
        rows(with_document(docs, d))[k].document == d,
        d.chunks.contains(rows(with_document(docs, d))[k].chunk),
{
    lemma_with_document(docs, d);
    let others = without(docs, d.id);
    let all = rows(with_document(docs, d));
    if k < rows(others).len() {
        lemma_rows_members(others, k);
        assert(all[k] == rows(others)[k]);
    } else {
        let j = k - rows(others).len();
        assert(all[k] == document_rows(d)[j]);
        assert(d.chunks[j] == all[k].chunk);
    }
}

/// Indexing a document again replaces its chunks: whatever is asked
/// afterwards and whatever the index gives, a result that names the
/// document is one of the chunks of its new content.
pub proof fn lemma_reindexing_replaces(
    docs: Seq<DocumentView>,
    d: DocumentView,
    size: int,
    overlap: int,
    tokens: Seq<Seq<char>>,
    hits: Seq<Seq<char>>,
    limit: int,
    i: int,
)
    requires
        distinct_ids(docs),
        0 <= i < retrieval(
            rows(with_document(docs, indexed(d, size, overlap))),
            tokens,
            hits,
            limit,
        ).len(),
        retrieval(
            rows(with_document(docs, indexed(d, size, overlap))),
            tokens,
            hits,
            limit,
        )[i].document_id == d.id,
    ensures
        ({
            let result = retrieval(
                rows(with_document(docs, indexed(d, size, overlap))),
                tokens,
                hits,
                limit,
            )[i];
            let chunks = chunks_of(d.content, d.id, size, overlap);
            &&& result.title == d.title
            &&& result.metadata == d.metadata
            &&& exists|j: int|
                0 <= j < chunks.len() && result.chunk_id == (#[trigger] chunks[j]).id
                    && result.content == chunks[j].content
        }),
{
    let new = indexed(d, size, overlap);
    let all = rows(with_document(docs, new));
    lemma_results_from_rows(all, tokens, hits, limit, i);
    let (k, relevance) = choose|k: int, relevance: Relevance|
        0 <= k < all.len() && retrieval(all, tokens, hits, limit)[i] == #[trigger] result_of(
            all[k],
            relevance,
        );
    lemma_replaced_rows(docs, new, k);
    let j = choose|j: int| 0 <= j < new.chunks.len() && new.chunks[j] == all[k].chunk;
    assert(new.chunks[j].id == all[k].chunk.id);
}

/// The sum over the words is at least what one of them gives.
pub proof fn lemma_term_frequency_bound(words: Seq<Seq<char>>, text: Seq<char>, j: int)
    requires
        0 <= j < words.len(),
    ensures
        term_frequency(words, text) >= occurrences(text, words[j]),
    decreases words.len(),
{
    if j < words.len() - 1 {
        lemma_term_frequency_bound(words.drop_last(), text, j);
    }
}

/// A chunk in which a token of the query occurs can be found: if the chunk
/// is among the first `5 * limit` of the store and the token is no stop
/// word, a query with a positive limit has a result; and if the index gives
/// nothing and no more than `limit` candidates score, the chunk is one of
/// the results, with the id and the title of its document.
pub proof fn lemma_matching_chunk_is_found(
    rows: Seq<RowView>,
    query: Seq<char>,
    stop: StopWords,
    hits: Seq<Seq<char>>,
    limit: int,
    i: int,
    t: Seq<char>,
)
    requires
        0 < limit,
        0 <= i < rows.len(),
        i < 5 * limit,
        tokens(query).contains(t),
        !stop.drops(t),
        occurrences(lowercase(rows[i].chunk.content), lowercase(t)) > 0,
    ensures
        ({
            let kept = query_tokens(query, stop);
            let results = retrieval(rows, kept, hits, limit);
            let scores = row_scores(first_n(rows, 5 * limit), kept);
            &&& results.len() > 0
            &&& scores[i] > 0
            &&& scores[i] == capped(score(kept, rows[i].chunk.content))
            &&& indexed_results(rows, hits, limit).len() == 0 && rank(scores).len() <= limit
                ==> exists|k: int|
                0 <= k < results.len() && #[trigger] results[k] == result_of(
                    rows[i],
                    Relevance::Score(scores[i] as u64),
                )
        }),
{
    let kept = query_tokens(query, stop);
    lemma_kept_members(tokens(query), stop, t);
    let j = choose|j: int| 0 <= j < kept.len() && kept[j] == t;
    let candidates = first_n(rows, 5 * limit);
    assert(candidates[i] == rows[i]);
    let scores = row_scores(candidates, kept);
    let content = rows[i].chunk.content;
    assert(lowered(kept)[j] == lowercase(t));
    lemma_term_frequency_bound(lowered(kept), lowercase(content), j);
    assert(score(kept, content) > 0);
    assert(scores[i] == capped(score(kept, content)));
    lemma_ranking(scores, scores.len() as int);
    let order = rank(scores);
    assert(order.contains(i));
    let k = choose|k: int| 0 <= k < order.len() && order[k] == i;
    let results = fallback_results(candidates, kept, limit);
    assert(first_n(order, limit).len() > 0);
    if order.len() <= limit {
        assert(first_n(order, limit) == order);
        assert(results[k] == result_of(rows[i], Relevance::Score(scores[i] as u64)));
    }
}

/// The chunks of a text lie one after the other over the whole of it: each
/// starts strictly later than the one before, none leaves a gap, two
/// neighbours share at most `overlap` characters, and the last ends with
/// the text.
pub proof fn lemma_chunks_cover(
    content: Seq<char>,
    document_id: Seq<char>,
    size: int,
    overlap: int,
)
    requires
        0 <= overlap < size,
    ensures
        ({
            let chunks = chunks_of(content, document_id, size, overlap);
            covers(
                Seq::new(chunks.len(), |k: int| (chunks[k].start_pos, chunks[k].end_pos)),
                0,
                content.len() as int,
                overlap,
            )
        }),
{
    lemma_spans_cover(content, size, overlap);
    let chunks = chunks_of(content, document_id, size, overlap);
    assert(Seq::new(chunks.len(), |k: int| (chunks[k].start_pos, chunks[k].end_pos)) =~= spans(
        content,
        size,
        overlap,
    ));
}

/// Chunking is deterministic: what `create_chunks` gives is a function of
/// the text, the document id and the sizes, so two runs on the same of
/// these give the same chunks.
pub proof fn lemma_chunking_is_deterministic(
    first: Seq<DocumentChunk>,
    second: Seq<DocumentChunk>,
    content: Seq<char>,
    document_id: Seq<char>,
    size: int,
    overlap: int,
)
    requires
        chunk_views(first) == chunks_of(content, document_id, size, overlap),
        chunk_views(second) == chunks_of(content, document_id, size, overlap),
    ensures
        chunk_views(first) == chunk_views(second),
        first.len() == second.len(),
        forall|k: int| 0 <= k < first.len() ==> (#[trigger] first[k])@ == second[k]@,
{
    assert(chunk_views(first).len() == first.len());
    assert(chunk_views(second).len() == second.len());
    assert forall|k: int| 0 <= k < first.len() implies (#[trigger] first[k])@ == second[k]@ by {
        assert(chunk_views(first)[k] == first[k]@);
        assert(chunk_views(second)[k] == second[k]@);
    }
}

/// Every chunk names its document and its place, and its text is the part
/// of the document between two positions of its span, with nothing but
/// white space cut off and no white space left at either end.
pub proof fn lemma_chunk_text(
    content: Seq<char>,
    document_id: Seq<char>,
    size: int,
    overlap: int,
    k: int,
)
    requires
        0 <= overlap < size,
        0 <= k < chunks_of(content, document_id, size, overlap).len(),
    ensures
        ({
            let c = chunks_of(content, document_id, size, overlap)[k];
            &&& c.id == chunk_id(document_id, k as nat)
            &&& c.document_id == document_id
            &&& 0 <= c.start_pos < c.end_pos <= content.len()
            &&& exists|a: int, b: int|
                {
                    &&& c.start_pos <= a <= b <= c.end_pos
                    &&& #[trigger] content.subrange(a, b) == c.content
                    &&& forall|j: int| c.start_pos <= j < a ==> is_whitespace_char(content[j])
                    &&& forall|j: int| b <= j < c.end_pos ==> is_whitespace_char(content[j])
                    &&& a < b ==> !is_whitespace_char(content[a]) && !is_whitespace_char(
                        content[b - 1],
                    )
                }
        }),
{
    lemma_spans_cover(content, size, overlap);
    let sp = spans(content, size, overlap);
    let c = chunks_of(content, document_id, size, overlap)[k];
    assert(c.start_pos == sp[k].0 && c.end_pos == sp[k].1);
    lemma_trim_range(content, sp[k].0, sp[k].1);
    let a = skip_whitespace(content, sp[k].0, sp[k].1);
    let b = skip_whitespace_back(content, a, sp[k].1);
    assert(content.subrange(a, b) == c.content);
    if a < b {
        assert(c.content[0] == content[a]);
        assert(c.content[c.content.len() - 1] == content[b - 1]);
    }
}

/// A numeral is made of digits, at least one of them.
pub proof fn lemma_decimal_digits(n: nat)
    ensures
        decimal(n).len() >= 1,
        n < 10 <==> decimal(n).len() == 1,
        forall|i: int| 0 <= i < decimal(n).len() ==> (#[trigger] decimal(n)[i]) != '_',
        decimal(n).last() == digit_char((n % 10) as int),
    decreases n,
{
    if n >= 10 {
        lemma_decimal_digits(n / 10);
    }
}

/// Different numbers have different numerals.
pub proof fn lemma_decimal_injective(a: nat, b: nat)
    requires
        decimal(a) == decimal(b),
    ensures
        a == b,
    decreases a,
{
    lemma_decimal_digits(a);
    lemma_decimal_digits(b);
    assert(a % 10 == b % 10);
    if a >= 10 {
        assert(decimal(a).drop_last() == decimal(a / 10));
        assert(decimal(b).drop_last() == decimal(b / 10));
        lemma_decimal_injective(a / 10, b / 10);
    }
}

/// A chunk id names one document and one place in it: chunks of different
/// documents, or at different places of one document, have different ids.
pub proof fn lemma_chunk_ids_distinct(d1: Seq<char>, n1: nat, d2: Seq<char>, n2: nat)
    requires
        chunk_id(d1, n1) == chunk_id(d2, n2),
    ensures
        d1 == d2,
        n1 == n2,
{
    lemma_decimal_digits(n1);
    lemma_decimal_digits(n2);
    let id1 = chunk_id(d1, n1);
    let id2 = chunk_id(d2, n2);
    let k1 = decimal(n1).len() as int;
    let k2 = decimal(n2).len() as int;
    let total = id1.len() as int;
    assert(total == d1.len() + 1 + k1);
    assert(id2.len() == d2.len() + 1 + k2);
    if k1 < k2 {
        let p = total - k1 - 1;
        assert(id1[p] == '_');
        assert(id2[p] == decimal(n2)[p - d2.len() - 1]);
    } else if k2 < k1 {
        let p = total - k2 - 1;
        assert(id2[p] == '_');
        assert(id1[p] == decimal(n1)[p - d1.len() - 1]);
    } else {
        assert(d1 =~= id1.subrange(0, d1.len() as int));
        assert(d2 =~= id2.subrange(0, d2.len() as int));
        assert(decimal(n1) =~= id1.subrange(d1.len() as int + 1, total));
        assert(decimal(n2) =~= id2.subrange(d2.len() as int + 1, total));
        lemma_decimal_injective(n1, n2);
    }
}

/// Among documents with distinct ids that each have the chunks of their
/// content, no two chunks have the same id.
pub proof fn lemma_stored_chunk_ids_distinct(
    docs: Seq<DocumentView>,
    size: int,
    overlap: int,
    k1: int,
    k2: int,
)
    requires
        distinct_ids(docs),
        all_staged(docs, size, overlap),
        0 <= k1 < rows(docs).len(),
        0 <= k2 < rows(docs).len(),
        k1 != k2,
    ensures
        rows(docs)[k1].chunk.id != rows(docs)[k2].chunk.id,
{
    lemma_rows_members(docs, k1);
    lemma_rows_members(docs, k2);
    let (i1, j1) = choose|i: int, j: int|
        0 <= i < docs.len() && 0 <= j < docs[i].chunks.len() && k1 == rows(docs.take(i)).len() + j
            && rows(docs)[k1] == (RowView {
            document: #[trigger] docs[i],
            chunk: #[trigger] docs[i].chunks[j],
        });
    let (i2, j2) = choose|i: int, j: int|
        0 <= i < docs.len() && 0 <= j < docs[i].chunks.len() && k2 == rows(docs.take(i)).len() + j
            && rows(docs)[k2] == (RowView {
            document: #[trigger] docs[i],
            chunk: #[trigger] docs[i].chunks[j],
        });
    assert(docs[i1].chunks[j1].id == chunk_id(docs[i1].id, j1 as nat));
    assert(docs[i2].chunks[j2].id == chunk_id(docs[i2].id, j2 as nat));
    if rows(docs)[k1].chunk.id == rows(docs)[k2].chunk.id {
        lemma_chunk_ids_distinct(docs[i1].id, j1 as nat, docs[i2].id, j2 as nat);
        assert(i1 == i2);
    }
}

/// In such a store a chunk id finds the chunk that has it: the index and
/// the store cannot disagree on which chunk a hit names.
pub proof fn lemma_hit_names_one_chunk(
    docs: Seq<DocumentView>,
    size: int,
    overlap: int,
    k: int,
)
    requires
        distinct_ids(docs),
        all_staged(docs, size, overlap),
        0 <= k < rows(docs).len(),
    ensures
        first_with_id(rows(docs), rows(docs)[k].chunk.id, 0) == Some(k),
{
    let all = rows(docs);
    lemma_first_with_id(all, all[k].chunk.id, 0);
    let found = first_with_id(all, all[k].chunk.id, 0);
    assert(found is Some);
    if found != Some(k) {
        lemma_stored_chunk_ids_distinct(docs, size, overlap, found->0, k);
    }
}

} // verus!
