//! When the index and the store agree: the index has been asked to hold,
//! and has acknowledged, exactly the text of every chunk of the store.

use crate::chunker::{chunk_id, ChunkView};
use crate::engine::all_staged;
use crate::laws::lemma_chunk_ids_distinct;
use crate::store::{
    distinct_ids, document_rows, lemma_rows_members, lemma_rows_split, rows, DocumentView, RowView,
};
use vstd::prelude::*;

verus! {

/// The entries after each of the chunks, in turn, has been ingested.
pub open spec fn with_chunks(
    entries: Map<Seq<char>, Seq<char>>,
    chunks: Seq<ChunkView>,
) -> Map<Seq<char>, Seq<char>>
    decreases chunks.len(),
{
    if chunks.len() == 0 {
        entries
    } else {
        with_chunks(entries, chunks.drop_last()).insert(chunks.last().id, chunks.last().content)
    }
}

/// The entries after each of the chunks, in turn, has been removed.
pub open spec fn without_chunks(
    entries: Map<Seq<char>, Seq<char>>,
    chunks: Seq<ChunkView>,
) -> Map<Seq<char>, Seq<char>>
    decreases chunks.len(),
{
    if chunks.len() == 0 {
        entries
    } else {
        without_chunks(entries, chunks.drop_last()).remove(chunks.last().id)
    }
}

/// The text of every chunk of the rows, by the id of the chunk.
pub open spec fn chunk_texts(rows: Seq<RowView>) -> Map<Seq<char>, Seq<char>>
    decreases rows.len(),
{
    if rows.len() == 0 {
        Map::empty()
    } else {
        chunk_texts(rows.drop_last()).insert(rows.last().chunk.id, rows.last().chunk.content)
    }
}

/// No two rows have chunks of the same id.
pub open spec fn unique_chunk_ids(rows: Seq<RowView>) -> bool {
    forall|a: int, b: int|
        0 <= a < rows.len() && 0 <= b < rows.len() && a != b ==> (#[trigger] rows[a]).chunk.id != (
        #[trigger] rows[b]).chunk.id
}

/// A row is one of the rows of the documents exactly when it is a chunk of
/// one of them beside that document.
pub proof fn lemma_rows_contain(docs: Seq<DocumentView>, i: int, j: int)
    requires
        0 <= i < docs.len(),
        0 <= j < docs[i].chunks.len(),
    ensures
        rows(docs).contains(RowView { document: docs[i], chunk: docs[i].chunks[j] }),
{
    lemma_rows_split(docs, i);
    let k = rows(docs.take(i)).len() + j;
    assert(rows(docs)[k] == document_rows(docs[i])[j]);
}

/// The ids of the chunk texts are the ids of the chunks of the rows.
pub proof fn lemma_chunk_texts_keys(rows: Seq<RowView>, x: Seq<char>)
    ensures
        chunk_texts(rows).contains_key(x) <==> exists|k: int|
            0 <= k < rows.len() && (#[trigger] rows[k]).chunk.id == x,
    decreases rows.len(),
{
    if rows.len() > 0 {
        let init = rows.drop_last();
        let last = rows.last();
        lemma_chunk_texts_keys(init, x);
        if chunk_texts(rows).contains_key(x) {
            if x == last.chunk.id {
                assert(rows[rows.len() - 1].chunk.id == x);
            } else {
                assert(chunk_texts(init).contains_key(x));
                let k = choose|k: int| 0 <= k < init.len() && (#[trigger] init[k]).chunk.id == x;
                assert(rows[k].chunk.id == x);
            }
        }
        if exists|k: int| 0 <= k < rows.len() && (#[trigger] rows[k]).chunk.id == x {
            let k = choose|k: int| 0 <= k < rows.len() && (#[trigger] rows[k]).chunk.id == x;
            if k < init.len() {
                assert(init[k].chunk.id == x);
            } else {
                assert(x == last.chunk.id);
            }
        }
    }
}

/// Where no two rows share an id, each id has the text of its chunk.
pub proof fn lemma_chunk_texts_value(rows: Seq<RowView>, k: int)
    requires
        unique_chunk_ids(rows),
        0 <= k < rows.len(),
    ensures
        chunk_texts(rows).contains_key(rows[k].chunk.id),
        chunk_texts(rows)[rows[k].chunk.id] == rows[k].chunk.content,
    decreases rows.len(),
{
    let init = rows.drop_last();
    if k < init.len() {
        assert(unique_chunk_ids(init)) by {
            assert forall|a: int, b: int|
                0 <= a < init.len() && 0 <= b < init.len() && a != b implies (
            #[trigger] init[a]).chunk.id != (#[trigger] init[b]).chunk.id by {
                assert(init[a] == rows[a] && init[b] == rows[b]);
            }
        }
        assert(init[k] == rows[k]);
        lemma_chunk_texts_value(init, k);
        assert(rows[k].chunk.id != rows[rows.len() - 1].chunk.id);
    }
}

/// Ingesting the chunks of a document after the rows gives the chunk texts
/// of the rows with the rows of the document behind them.
pub proof fn lemma_chunk_texts_append(rs: Seq<RowView>, d: DocumentView, n: int)
    requires
        0 <= n <= d.chunks.len(),
    ensures
        chunk_texts(rs + document_rows(d).take(n)) == with_chunks(
            chunk_texts(rs),
            d.chunks.take(n),
        ),
    decreases n,
{
    let all = rs + document_rows(d).take(n);
    if n == 0 {
        assert(all == rs);
    } else {
        lemma_chunk_texts_append(rs, d, n - 1);
        assert(all.drop_last() == rs + document_rows(d).take(n - 1));
        assert(all.last().chunk == d.chunks[n - 1]);
        assert(d.chunks.take(n).drop_last() == d.chunks.take(n - 1));
        assert(d.chunks.take(n).last() == d.chunks[n - 1]);
    }
}

/// Removing chunks takes their ids out of the entries and leaves the
/// other entries as they were.
pub proof fn lemma_without_chunks(
    entries: Map<Seq<char>, Seq<char>>,
    chunks: Seq<ChunkView>,
    x: Seq<char>,
)
    ensures
        without_chunks(entries, chunks).contains_key(x) <==> entries.contains_key(x) && forall|
            j: int,
        |
            0 <= j < chunks.len() ==> (#[trigger] chunks[j]).id != x,
        without_chunks(entries, chunks).contains_key(x) ==> without_chunks(entries, chunks)[x]
            == entries[x],
    decreases chunks.len(),
{
    if chunks.len() > 0 {
        let init = chunks.drop_last();
        lemma_without_chunks(entries, init, x);
        if without_chunks(entries, chunks).contains_key(x) {
            assert(without_chunks(entries, init).contains_key(x));
            assert forall|j: int| 0 <= j < chunks.len() implies (#[trigger] chunks[j]).id != x by {
                if j < init.len() {
                    assert(init[j] == chunks[j]);
                }
            }
        }
        if entries.contains_key(x) && forall|j: int|
            0 <= j < chunks.len() ==> (#[trigger] chunks[j]).id != x {
            assert forall|j: int| 0 <= j < init.len() implies (#[trigger] init[j]).id != x by {
                assert(init[j] == chunks[j]);
            }
            assert(chunks[chunks.len() - 1].id != x);
        }
    }
}

/// Among documents with distinct ids that each have the chunks of their
/// content, no two rows have chunks of the same id.
pub proof fn lemma_unique_chunk_ids(docs: Seq<DocumentView>, size: int, overlap: int)
    requires
        distinct_ids(docs),
        all_staged(docs, size, overlap),
    ensures
        unique_chunk_ids(rows(docs)),
{
    assert forall|a: int, b: int|
        0 <= a < rows(docs).len() && 0 <= b < rows(docs).len() && a != b implies (
    #[trigger] rows(docs)[a]).chunk.id != (#[trigger] rows(docs)[b]).chunk.id by {
        crate::laws::lemma_stored_chunk_ids_distinct(docs, size, overlap, a, b);
    }
}

/// Taking the chunks of one document out of the chunk texts of a store
/// leaves the chunk texts of the store without that document.
pub proof fn lemma_chunk_texts_without(docs: Seq<DocumentView>, size: int, overlap: int, p: int)
    requires
        distinct_ids(docs),
        all_staged(docs, size, overlap),
        0 <= p < docs.len(),
    ensures
        without_chunks(chunk_texts(rows(docs)), docs[p].chunks) == chunk_texts(
            rows(docs.remove(p)),
        ),
{
    let all = rows(docs);
    let rest_docs = docs.remove(p);
    let rest = rows(rest_docs);
    let gone = docs[p].chunks;
    let left = without_chunks(chunk_texts(all), gone);
    let right = chunk_texts(rest);
    assert(distinct_ids(rest_docs) && all_staged(rest_docs, size, overlap)) by {
        assert forall|i: int| 0 <= i < rest_docs.len() implies rest_docs[i] == docs[if i < p {
            i
        } else {
            i + 1
        }] by {}
        assert forall|i: int, j: int|
            0 <= i < rest_docs.len() && 0 <= j < rest_docs.len() && i != j implies (
        #[trigger] rest_docs[i]).id != (#[trigger] rest_docs[j]).id by {
            let ii = if i < p {
                i
            } else {
                i + 1
            };
            let jj = if j < p {
                j
            } else {
                j + 1
            };
            assert(rest_docs[i] == docs[ii] && rest_docs[j] == docs[jj]);
        }
        assert forall|i: int| 0 <= i < rest_docs.len() implies (#[trigger] rest_docs[i]).chunks
            == crate::chunker::chunks_of(
            rest_docs[i].content,
            rest_docs[i].id,
            size,
            overlap,
        ) by {
            let ii = if i < p {
                i
            } else {
                i + 1
            };
            assert(rest_docs[i] == docs[ii]);
        }
    }
    lemma_unique_chunk_ids(docs, size, overlap);
    lemma_unique_chunk_ids(rest_docs, size, overlap);
    assert forall|x: Seq<char>| left.contains_key(x) <==> right.contains_key(x) by {
        lemma_chunk_texts_keys(all, x);
        lemma_chunk_texts_keys(rest, x);
        lemma_without_chunks(chunk_texts(all), gone, x);
        if left.contains_key(x) {
            assert(chunk_texts(all).contains_key(x));
            let k = choose|k: int| 0 <= k < all.len() && (#[trigger] all[k]).chunk.id == x;
            lemma_rows_members(docs, k);
            let (i, j) = choose|i: int, j: int|
                0 <= i < docs.len() && 0 <= j < docs[i].chunks.len() && k == rows(
                    docs.take(i),
                ).len() + j && all[k] == (RowView {
                    document: #[trigger] docs[i],
                    chunk: #[trigger] docs[i].chunks[j],
                });
            if i == p {
                assert(gone[j].id == x);
            }
            let ii = if i < p {
                i
            } else {
                i - 1
            };
            assert(rest_docs[ii] == docs[i]);
            lemma_rows_contain(rest_docs, ii, j);
            let kk = choose|kk: int| 0 <= kk < rest.len() && rest[kk] == all[k];
            assert(rest[kk].chunk.id == x);
        }
        if right.contains_key(x) {
            let kk = choose|kk: int| 0 <= kk < rest.len() && (#[trigger] rest[kk]).chunk.id == x;
            lemma_rows_members(rest_docs, kk);
            let (i, j) = choose|i: int, j: int|
                0 <= i < rest_docs.len() && 0 <= j < rest_docs[i].chunks.len() && kk == rows(
                    rest_docs.take(i),
                ).len() + j && rest[kk] == (RowView {
                    document: #[trigger] rest_docs[i],
                    chunk: #[trigger] rest_docs[i].chunks[j],
                });
            let ii = if i < p {
                i
            } else {
                i + 1
            };
            assert(rest_docs[i] == docs[ii]);
            lemma_rows_contain(docs, ii, j);
            let k = choose|k: int| 0 <= k < all.len() && all[k] == rest[kk];
            assert(all[k].chunk.id == x);
            assert forall|g: int| 0 <= g < gone.len() implies (#[trigger] gone[g]).id != x by {
                assert(gone[g].id == chunk_id(docs[p].id, g as nat));
                assert(docs[ii].chunks[j].id == chunk_id(docs[ii].id, j as nat));
                if gone[g].id == x {
                    lemma_chunk_ids_distinct(docs[p].id, g as nat, docs[ii].id, j as nat);
                }
            }
        }
    }
    assert forall|x: Seq<char>| left.contains_key(x) implies left[x] == right[x] by {
        lemma_chunk_texts_keys(rest, x);
        lemma_without_chunks(chunk_texts(all), gone, x);
        let kk = choose|kk: int| 0 <= kk < rest.len() && (#[trigger] rest[kk]).chunk.id == x;
        lemma_rows_members(rest_docs, kk);
        let (i, j) = choose|i: int, j: int|
            0 <= i < rest_docs.len() && 0 <= j < rest_docs[i].chunks.len() && kk == rows(
                rest_docs.take(i),
            ).len() + j && rest[kk] == (RowView {
                document: #[trigger] rest_docs[i],
                chunk: #[trigger] rest_docs[i].chunks[j],
            });
        let ii = if i < p {
            i
        } else {
            i + 1
        };
        assert(rest_docs[i] == docs[ii]);
        lemma_rows_contain(docs, ii, j);
        let k = choose|k: int| 0 <= k < all.len() && all[k] == rest[kk];
        lemma_chunk_texts_value(all, k);
        lemma_chunk_texts_value(rest, kk);
    }
    assert(left =~= right);
}

} // verus!
