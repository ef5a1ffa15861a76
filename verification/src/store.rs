//! Documents and the keyed store that holds them with their chunks.

use crate::chunker::{chunk_views, ChunkView, DocumentChunk};
use crate::error::EngineError;
use std::collections::HashMap;
use vstd::prelude::*;

verus! {

/// A document as a caller hands it in and as the store gives it back.
#[derive(Debug)]
pub struct Document {
    /// The key of the document.
    pub id: String,
    pub title: String,
    /// The text that the chunks are cut from.
    pub content: String,
    /// Kept and handed back as it is; never read by the engine.
    pub metadata: HashMap<String, String>,
    /// Derived from `content` when the document is indexed.
    pub chunks: Vec<DocumentChunk>,
}

/// What a document holds, as mathematical values.
pub struct DocumentView {
    pub id: Seq<char>,
    pub title: Seq<char>,
    pub content: Seq<char>,
    pub metadata: Map<String, String>,
    pub chunks: Seq<ChunkView>,
}

impl View for Document {
    type V = DocumentView;

    open spec fn view(&self) -> DocumentView {
        DocumentView {
            id: self.id@,
            title: self.title@,
            content: self.content@,
            metadata: self.metadata@,
            chunks: chunk_views(self.chunks@),
        }
    }
}

fn clone_chunks(chunks: &Vec<DocumentChunk>) -> (r: Vec<DocumentChunk>)
    ensures
        chunk_views(r@) == chunk_views(chunks@),
{
    let mut r: Vec<DocumentChunk> = Vec::new();
    let mut i: usize = 0;
    while i < chunks.len()
        invariant
            i <= chunks.len(),
            r.len() == i,
            forall|k: int| 0 <= k < i ==> (#[trigger] r[k])@ == chunks[k]@,
        decreases chunks.len() - i,
    {
        r.push(chunks[i].clone());
        i += 1;
    }
    assert(chunk_views(r@) =~= chunk_views(chunks@));
    r
}

impl Clone for Document {
    fn clone(&self) -> (r: Self)
        ensures
            r@ == self@,
    {
        Document {
            id: self.id.clone(),
            title: self.title.clone(),
            content: self.content.clone(),
            metadata: self.metadata.clone(),
            chunks: clone_chunks(&self.chunks),
        }
    }
}

/// The documents as mathematical values.
pub open spec fn document_views(docs: Seq<Document>) -> Seq<DocumentView> {
    docs.map_values(|d: Document| d@)
}

/// A chunk beside the document that it belongs to.
pub struct RowView {
    pub document: DocumentView,
    pub chunk: ChunkView,
}

/// A chunk of the store beside its parent document.
#[derive(Debug, Clone, Copy)]
pub struct Row<'a> {
    pub document: &'a Document,
    pub chunk: &'a DocumentChunk,
}

impl<'a> View for Row<'a> {
    type V = RowView;

    open spec fn view(&self) -> RowView {
        RowView { document: self.document@, chunk: self.chunk@ }
    }
}

/// The rows as mathematical values.
pub open spec fn row_views(rows: Seq<Row>) -> Seq<RowView> {
    rows.map_values(|r: Row| r@)
}

/// The chunks of one document, each beside the document.
pub open spec fn document_rows(d: DocumentView) -> Seq<RowView> {
    Seq::new(d.chunks.len(), |i: int| RowView { document: d, chunk: d.chunks[i] })
}

/// All chunks of the documents, in the order of the documents and, within a
/// document, of its chunks.
pub open spec fn rows(docs: Seq<DocumentView>) -> Seq<RowView>
    decreases docs.len(),
{
    if docs.len() == 0 {
        Seq::empty()
    } else {
        rows(docs.drop_last()) + document_rows(docs.last())
    }
}

/// No two documents have the same id.
pub open spec fn distinct_ids(docs: Seq<DocumentView>) -> bool {
    forall|i: int, j: int|
        0 <= i < docs.len() && 0 <= j < docs.len() && i != j ==> (#[trigger] docs[i]).id != (
        #[trigger] docs[j]).id
}

/// Where the document with the given id stands, if there is one.
pub open spec fn position(docs: Seq<DocumentView>, id: Seq<char>) -> Option<int>
    decreases docs.len(),
{
    if docs.len() == 0 {
        None
    } else if docs.last().id == id {
        Some(docs.len() - 1)
    } else {
        position(docs.drop_last(), id)
    }
}

/// The document with the given id, if there is one.
pub open spec fn lookup(docs: Seq<DocumentView>, id: Seq<char>) -> Option<DocumentView> {
    match position(docs, id) {
        Some(i) => Some(docs[i]),
        None => None,
    }
}

/// The documents without the one that has the given id.
pub open spec fn without(docs: Seq<DocumentView>, id: Seq<char>) -> Seq<DocumentView> {
    match position(docs, id) {
        Some(i) => docs.remove(i),
        None => docs,
    }
}

/// The documents after `d` has taken the place of any document with its id.
pub open spec fn with_document(docs: Seq<DocumentView>, d: DocumentView) -> Seq<DocumentView> {
    without(docs, d.id).push(d)
}

/// The first `n` items of `s`, or all of them if there are fewer.
pub open spec fn first_n<A>(s: Seq<A>, n: int) -> Seq<A> {
    if n >= s.len() {
        s
    } else if n <= 0 {
        Seq::empty()
    } else {
        s.take(n)
    }
}

/// What `position` finds has the id; it finds nothing only where no
/// document has it.
pub proof fn lemma_position(docs: Seq<DocumentView>, id: Seq<char>)
    ensures
        match position(docs, id) {
            Some(i) => 0 <= i < docs.len() && docs[i].id == id,
            None => forall|k: int| 0 <= k < docs.len() ==> (#[trigger] docs[k]).id != id,
        },
    decreases docs.len(),
{
    if docs.len() > 0 && docs.last().id != id {
        let init = docs.drop_last();
        lemma_position(init, id);
        if position(init, id) is None {
            assert forall|k: int| 0 <= k < docs.len() implies (#[trigger] docs[k]).id != id by {
                if k < init.len() {
                    assert(init[k] == docs[k]);
                }
            }
        }
    }
}

/// Among documents with distinct ids, a document that has the id is the
/// one that `position` finds.
pub proof fn lemma_position_unique(docs: Seq<DocumentView>, id: Seq<char>, i: int)
    requires
        distinct_ids(docs),
        0 <= i < docs.len(),
        docs[i].id == id,
    ensures
        position(docs, id) == Some(i),
{
    lemma_position(docs, id);
}

/// The rows of documents put together are the rows of the one part and
/// then those of the other.
pub proof fn lemma_rows_concat(a: Seq<DocumentView>, b: Seq<DocumentView>)
    ensures
        rows(a + b) == rows(a) + rows(b),
    decreases b.len(),
{
    if b.len() == 0 {
        assert(a + b == a);
        assert(rows(a) + rows(b) == rows(a));
    } else {
        lemma_rows_concat(a, b.drop_last());
        assert((a + b).drop_last() == a + b.drop_last());
        assert((a + b).last() == b.last());
        assert((rows(a) + rows(b.drop_last())) + document_rows(b.last()) == rows(a) + (rows(
            b.drop_last(),
        ) + document_rows(b.last())));
    }
}

/// One document alone has the rows of its chunks.
pub proof fn lemma_rows_single(d: DocumentView)
    ensures
        rows(seq![d]) == document_rows(d),
{
    assert(seq![d].drop_last() == Seq::<DocumentView>::empty());
    assert(rows(seq![d].drop_last()) + document_rows(d) == document_rows(d));
}

/// The rows of the documents, split around the document at `i`.
pub proof fn lemma_rows_split(docs: Seq<DocumentView>, i: int)
    requires
        0 <= i < docs.len(),
    ensures
        rows(docs) == rows(docs.take(i)) + document_rows(docs[i]) + rows(docs.skip(i + 1)),
        rows(docs.remove(i)) == rows(docs.take(i)) + rows(docs.skip(i + 1)),
        rows(docs.take(i + 1)) == rows(docs.take(i)) + document_rows(docs[i]),
{
    lemma_rows_single(docs[i]);
    lemma_rows_concat(docs.take(i), seq![docs[i]]);
    lemma_rows_concat(docs.take(i) + seq![docs[i]], docs.skip(i + 1));
    lemma_rows_concat(docs.take(i), docs.skip(i + 1));
    assert(docs == (docs.take(i) + seq![docs[i]]) + docs.skip(i + 1));
    assert(docs.remove(i) == docs.take(i) + docs.skip(i + 1));
    assert(docs.take(i + 1) == docs.take(i) + seq![docs[i]]);
}

/// Every row stands beside the document that its chunk is one of, behind
/// the rows of the documents before it and the chunks before its own.
pub proof fn lemma_rows_members(docs: Seq<DocumentView>, k: int)
    requires
        0 <= k < rows(docs).len(),
    ensures
        exists|i: int, j: int|
            0 <= i < docs.len() && 0 <= j < docs[i].chunks.len() && k == rows(docs.take(i)).len()
                + j && rows(docs)[k] == (RowView {
                document: #[trigger] docs[i],
                chunk: #[trigger] docs[i].chunks[j],
            }),
    decreases docs.len(),
{
    let init = docs.drop_last();
    if k < rows(init).len() {
        lemma_rows_members(init, k);
        let (i, j) = choose|i: int, j: int|
            0 <= i < init.len() && 0 <= j < init[i].chunks.len() && k == rows(init.take(i)).len()
                + j && rows(init)[k] == (RowView {
                document: #[trigger] init[i],
                chunk: #[trigger] init[i].chunks[j],
            });
        assert(docs[i] == init[i]);
        assert(docs.take(i) == init.take(i));
    } else {
        let i = docs.len() - 1;
        let j = k - rows(init).len();
        assert(docs.take(i) == init);
        assert(rows(docs)[k] == RowView { document: docs[i], chunk: docs[i].chunks[j] });
    }
}

/// Replacing a document keeps the ids distinct and leaves the other
/// documents as they were.
pub proof fn lemma_with_document(docs: Seq<DocumentView>, d: DocumentView)
    requires
        distinct_ids(docs),
    ensures
        distinct_ids(with_document(docs, d)),
        position(with_document(docs, d), d.id) == Some(with_document(docs, d).len() - 1),
        lookup(with_document(docs, d), d.id) == Some(d),
        forall|k: int|
            0 <= k < without(docs, d.id).len() ==> (#[trigger] without(docs, d.id)[k]).id != d.id,
        forall|k: int|
            0 <= k < without(docs, d.id).len() ==> docs.contains(#[trigger] without(docs, d.id)[k]),
        rows(with_document(docs, d)) == rows(without(docs, d.id)) + document_rows(d),
{
    lemma_position(docs, d.id);
    let w = without(docs, d.id);
    assert forall|k: int| 0 <= k < w.len() implies docs.contains(#[trigger] w[k]) by {
        match position(docs, d.id) {
            Some(p) => {
                if k < p {
                    assert(w[k] == docs[k]);
                } else {
                    assert(w[k] == docs[k + 1]);
                }
            },
            None => {
                assert(w[k] == docs[k]);
            },
        }
    }
    assert(distinct_ids(w) && forall|k: int| 0 <= k < w.len() ==> (#[trigger] w[k]).id != d.id)
        by {
        match position(docs, d.id) {
            Some(p) => {
                assert forall|k: int| 0 <= k < w.len() implies (#[trigger] w[k]).id != d.id by {
                    if k < p {
                        assert(w[k] == docs[k]);
                    } else {
                        assert(w[k] == docs[k + 1]);
                    }
                }
                assert forall|i: int, j: int|
                    0 <= i < w.len() && 0 <= j < w.len() && i != j implies (#[trigger] w[i]).id
                    != (#[trigger] w[j]).id by {
                    let ii = if i < p {
                        i
                    } else {
                        i + 1
                    };
                    let jj = if j < p {
                        j
                    } else {
                        j + 1
                    };
                    assert(w[i] == docs[ii]);
                    assert(w[j] == docs[jj]);
                }
            },
            None => {},
        }
    }
    let n = w.push(d);
    assert(n.drop_last() == w);
    assert(n.last() == d);
    assert forall|i: int, j: int|
        0 <= i < n.len() && 0 <= j < n.len() && i != j implies (#[trigger] n[i]).id != (
    #[trigger] n[j]).id by {
        if i < w.len() {
            assert(n[i] == w[i]);
        }
        if j < w.len() {
            assert(n[j] == w[j]);
        }
    }
}

/// A keyed store of documents with their chunks. One document per id; a
/// document is held whole, with all of its chunks, or not at all.
pub struct DocumentStore {
    docs: Vec<Document>,
    chunk_total: usize,
}

impl View for DocumentStore {
    type V = Seq<DocumentView>;

    closed spec fn view(&self) -> Seq<DocumentView> {
        document_views(self.docs@)
    }
}

impl DocumentStore {
    /// The number of chunks that the store has counted.
    pub closed spec fn counted(&self) -> int {
        self.chunk_total as int
    }

    /// The ids are distinct and the chunks are counted.
    pub open spec fn wf(&self) -> bool {
        &&& distinct_ids(self@)
        &&& self.counted() == rows(self@).len()
    }

    /// The chunks of a well-formed store can be counted in a `usize`.
    pub proof fn lemma_count_fits(&self)
        requires
            self.wf(),
        ensures
            rows(self@).len() <= usize::MAX,
    {
    }

    /// A store without documents.
    pub fn new() -> (r: DocumentStore)
        ensures
            r.wf(),
            r@ == Seq::<DocumentView>::empty(),
    {
        let r = DocumentStore { docs: Vec::new(), chunk_total: 0 };
        assert(r@ =~= Seq::<DocumentView>::empty());
        r
    }

    fn find(&self, id: &str) -> (r: Option<usize>)
        requires
            self.wf(),
        ensures
            match r {
                Some(i) => position(self@, id@) == Some(i as int) && i < self.docs.len(),
                None => position(self@, id@) is None,
            },
    {
        let key = id.to_owned();
        let mut i: usize = 0;
        while i < self.docs.len()
            invariant
                i <= self.docs.len(),
                key@ == id@,
                self.wf(),
                forall|k: int| 0 <= k < i ==> (#[trigger] self@[k]).id != id@,
            decreases self.docs.len() - i,
        {
            if self.docs[i].id == key {
                proof {
                    lemma_position_unique(self@, id@, i as int);
                }
                return Some(i);
            }
            i += 1;
        }
        proof {
            lemma_position(self@, id@);
        }
        None
    }

    /// Whether the store can take `document`: whether its chunks can still be
    /// counted once it has taken the place of any document with its id.
    pub open spec fn has_room(&self, document: DocumentView) -> bool {
        rows(with_document(self@, document)).len() <= usize::MAX
    }

    /// Whether [`put`](Self::put) would take `document`.
    pub fn can_put(&self, document: &Document) -> (b: bool)
        requires
            self.wf(),
        ensures
            b == self.has_room(document@),
    {
        let kept: usize = match self.find(document.id.as_str()) {
            Some(i) => {
                proof {
                    lemma_rows_split(self@, i as int);
                }
                self.chunk_total - self.docs[i].chunks.len()
            },
            None => self.chunk_total,
        };
        proof {
            lemma_with_document(self@, document@);
        }
        document.chunks.len() <= usize::MAX - kept
    }

    /// Puts `document` in the place of any document with the same id, with
    /// all its chunks in the place of all of the other's. Refused, with the
    /// store unchanged, when the store has no room for it.
    pub fn put(&mut self, document: Document) -> (r: Result<(), EngineError>)
        requires
            old(self).wf(),
        ensures
            final(self).wf(),
            match r {
                Ok(()) => final(self)@ == with_document(old(self)@, document@),
                Err(e) => e == EngineError::Storage && final(self)@ == old(self)@,
            },
            r is Ok <==> old(self).has_room(document@),
    {
        let found = self.find(document.id.as_str());
        let kept: usize = match found {
            Some(i) => {
                proof {
                    lemma_rows_split(self@, i as int);
                }
                self.chunk_total - self.docs[i].chunks.len()
            },
            None => self.chunk_total,
        };
        proof {
            lemma_with_document(self@, document@);
        }
        if document.chunks.len() > usize::MAX - kept {
            return Err(EngineError::Storage);
        }
        match found {
            Some(i) => {
                self.docs.remove(i);
                assert(self@ =~= old(self)@.remove(i as int));
            },
            None => {},
        }
        let ghost w = self@;
        self.chunk_total = kept + document.chunks.len();
        self.docs.push(document);
        assert(self@ =~= w.push(document@));
        Ok(())
    }

    /// The document with the given id.
    pub fn get(&self, id: &str) -> (r: Option<&Document>)
        requires
            self.wf(),
        ensures
            match r {
                Some(d) => lookup(self@, id@) == Some(d@),
                None => lookup(self@, id@) is None,
            },
    {
        match self.find(id) {
            Some(i) => Some(&self.docs[i]),
            None => None,
        }
    }

    /// The first `limit` chunks of the store, each beside its document, in
    /// the order in which the store holds them.
    pub fn scan(&self, limit: usize) -> (r: Vec<Row<'_>>)
        requires
            self.wf(),
        ensures
            row_views(r@) == first_n(rows(self@), limit as int),
    {
        let mut out: Vec<Row<'_>> = Vec::new();
        let mut di: usize = 0;
        while di < self.docs.len() && out.len() < limit
            invariant
                di <= self.docs.len(),
                out.len() <= limit,
                row_views(out@) == rows(self@.take(di as int)),
            decreases self.docs.len() - di,
        {
            let d = &self.docs[di];
            let mut ci: usize = 0;
            while ci < d.chunks.len() && out.len() < limit
                invariant
                    di < self.docs.len(),
                    *d == self.docs[di as int],
                    ci <= d.chunks.len(),
                    out.len() <= limit,
                    row_views(out@) == rows(self@.take(di as int)) + document_rows(d@).take(
                        ci as int,
                    ),
                decreases d.chunks.len() - ci,
            {
                let row = Row { document: d, chunk: &d.chunks[ci] };
                assert(row_views(out@.push(row)) == row_views(out@).push(row@));
                assert(document_rows(d@).take(ci + 1) == document_rows(d@).take(ci as int).push(
                    row@,
                ));
                out.push(row);
                ci += 1;
            }
            proof {
                lemma_rows_split(self@, di as int);
            }
            if ci < d.chunks.len() {
                assert(row_views(out@) == rows(self@).take(limit as int));
                return out;
            }
            assert(document_rows(d@).take(ci as int) == document_rows(d@));
            di += 1;
        }
        proof {
            if di < self.docs.len() {
                lemma_rows_split(self@, di as int);
                assert(row_views(out@) == rows(self@).take(limit as int));
            } else {
                assert(self@.take(di as int) == self@);
            }
        }
        out
    }

    /// How many documents the store holds.
    pub fn count_documents(&self) -> (n: usize)
        ensures
            n == self@.len(),
    {
        self.docs.len()
    }

    /// How many chunks the store holds.
    pub fn count_chunks(&self) -> (n: usize)
        requires
            self.wf(),
        ensures
            n == rows(self@).len(),
    {
        self.chunk_total
    }
}

} // verus!
