//! The engine: documents go in through the chunker into the store and the
//! index; queries come back as ranked passages.

use crate::agreement::{
    chunk_texts, lemma_chunk_texts_append, lemma_chunk_texts_without, with_chunks, without_chunks,
};
use crate::chunker::{
    chunk_views, chunks_of, covers, create_chunks, spans, ChunkConfig, ChunkView, DocumentChunk,
};
use crate::error::EngineError;
use crate::index::FullTextIndex;
use crate::normalizer::{
    match_expression, only_stop_words, process_query, query_tokens, significant_tokens,
    standard_stop_words, string_views, StopWords,
};
use crate::retriever::{
    fallback_results, passages, rank_candidates, resolve_hits, result_views, retrieval,
    to_passages, ResultView, SearchResult,
};
use crate::store::{
    distinct_ids, document_rows, document_views, first_n, lemma_position, lemma_with_document,
    lookup, position, rows, with_document, without, Document, DocumentStore, DocumentView,
};
use std::collections::HashMap;
use vstd::prelude::*;

verus! {

/// The sizes of an engine and of what it holds.
#[derive(Debug, Clone, Copy, PartialEq, Eq, Structural)]
pub struct RAGStats {
    pub document_count: usize,
    pub chunk_count: usize,
    pub chunk_size: usize,
    pub overlap_size: usize,
}

/// An engine with its store, its index and its settings. The settings do
/// not change once the engine is made.
pub struct RAGEngine {
    store: DocumentStore,
    index: FullTextIndex,
    config: ChunkConfig,
    stop_words: StopWords,
}

/// The document as the engine keeps it: with the chunks of its content in
/// the place of any chunks it came with.
pub open spec fn indexed(d: DocumentView, size: int, overlap: int) -> DocumentView {
    DocumentView {
        id: d.id,
        title: d.title,
        content: d.content,
        metadata: d.metadata,
        chunks: chunks_of(d.content, d.id, size, overlap),
    }
}

/// Every document has the chunks of its content, and no others.
pub open spec fn all_staged(docs: Seq<DocumentView>, size: int, overlap: int) -> bool {
    forall|i: int|
        0 <= i < docs.len() ==> (#[trigger] docs[i]).chunks == chunks_of(
            docs[i].content,
            docs[i].id,
            size,
            overlap,
        )
}

/// The index agrees with the documents: it has been asked to hold, and
/// has acknowledged, the text of every chunk of theirs and nothing else,
/// and no group of changes is open. An index in doubt is held to nothing.
pub open spec fn agrees(index: FullTextIndex, docs: Seq<DocumentView>) -> bool {
    index.in_doubt() || (!index.in_transaction() && index.entries() == chunk_texts(rows(docs)))
}

/// The chunks of the document with the given id; none if there is no such
/// document.
pub open spec fn former_chunks(docs: Seq<DocumentView>, id: Seq<char>) -> Seq<ChunkView> {
    match lookup(docs, id) {
        Some(d) => d.chunks,
        None => Seq::empty(),
    }
}

/// Removing the chunks that a document had and ingesting those it has now
/// makes the index follow the store.
pub proof fn lemma_index_follows(docs: Seq<DocumentView>, d: DocumentView, size: int, overlap: int)
    requires
        distinct_ids(docs),
        all_staged(docs, size, overlap),
    ensures
        with_chunks(without_chunks(chunk_texts(rows(docs)), former_chunks(docs, d.id)), d.chunks)
            == chunk_texts(rows(with_document(docs, d))),
{
    lemma_position(docs, d.id);
    lemma_with_document(docs, d);
    let others = without(docs, d.id);
    match position(docs, d.id) {
        Some(p) => {
            lemma_chunk_texts_without(docs, size, overlap, p);
        },
        None => {},
    }
    lemma_chunk_texts_append(rows(others), d, d.chunks.len() as int);
    assert(document_rows(d).take(d.chunks.len() as int) == document_rows(d));
    assert(d.chunks.take(d.chunks.len() as int) == d.chunks);
}

/// The documents after each of `new`, in turn, has been indexed with the
/// given chunk size and overlap.
pub open spec fn with_all(
    docs: Seq<DocumentView>,
    new: Seq<DocumentView>,
    size: int,
    overlap: int,
) -> Seq<DocumentView>
    decreases new.len(),
{
    if new.len() == 0 {
        docs
    } else {
        with_document(
            with_all(docs, new.drop_last(), size, overlap),
            indexed(new.last(), size, overlap),
        )
    }
}

/// The text of the document on the core principles.
pub const PRINCIPLES_TEXT: &'static str =
    "Void-first design emphasizes absence as foundational architectural principle. Swarm intelligence enables collective behavior from individual agents. Emergence over engineering allows complex behaviors from simple rules. Reality bootstrap means implementation creates its own truth through hyperstitious computing.";

/// The text of the document on the coordination of agents.
pub const COORDINATION_TEXT: &'static str =
    "Agent orchestration involves tactical coordination through strategic analysis, scientific investigation through pattern recognition, operational implementation through systematic execution, and engineering solutions through technical architecture. Creative synthesis generates innovative approaches while research provides knowledge synthesis.";

/// The text of the document on care ethics.
pub const CARE_ETHICS_TEXT: &'static str =
    "Care ethics prioritizes relational wellbeing and stakeholder agency. Moral recentering applies care-focused perspectives to technical decisions. Ethical considerations include social impact assessment, accessibility priorities, and sustainable design principles that center collective flourishing.";

/// The three documents of the knowledge base, by id, title and content.
pub open spec fn is_knowledge_base(docs: Seq<DocumentView>) -> bool {
    &&& docs.len() == 3
    &&& docs[0].id == "void_shrine_principles"@
    &&& docs[0].title == "Void Shrine Core Principles"@
    &&& docs[0].content
        == PRINCIPLES_TEXT@
    &&& docs[1].id == "agent_coordination"@
    &&& docs[1].title == "Multi-Agent Coordination Patterns"@
    &&& docs[1].content
        == COORDINATION_TEXT@
    &&& docs[2].id == "care_ethics"@
    &&& docs[2].title == "Care Ethics Framework"@
    &&& docs[2].content
        == CARE_ETHICS_TEXT@
}

fn knowledge_document(id: &str, title: &str, content: &str, category: &str, source: &str) -> (d:
    Document)
    ensures
        d@.id == id@,
        d@.title == title@,
        d@.content == content@,
{
    let mut metadata: HashMap<String, String> = HashMap::new();
    metadata.insert("category".to_owned(), category.to_owned());
    metadata.insert("source".to_owned(), source.to_owned());
    Document {
        id: id.to_owned(),
        title: title.to_owned(),
        content: content.to_owned(),
        metadata,
        chunks: Vec::new(),
    }
}

/// The documents of the knowledge base that an engine can start with.
pub fn knowledge_base() -> (docs: Vec<Document>)
    ensures
        is_knowledge_base(document_views(docs@)),
{
    let mut docs: Vec<Document> = Vec::new();
    docs.push(
        knowledge_document(
            "void_shrine_principles",
            "Void Shrine Core Principles",
            PRINCIPLES_TEXT,
            "philosophy",
            "void_shrine_constitution",
        ),
    );
    docs.push(
        knowledge_document(
            "agent_coordination",
            "Multi-Agent Coordination Patterns",
            COORDINATION_TEXT,
            "technical",
            "orchestration_manual",
        ),
    );
    docs.push(
        knowledge_document(
            "care_ethics",
            "Care Ethics Framework",
            CARE_ETHICS_TEXT,
            "ethics",
            "moral_framework",
        ),
    );
    docs
}

impl RAGEngine {
    /// The document store of the engine.
    pub closed spec fn store(&self) -> DocumentStore {
        self.store
    }

    /// The chunk size and the overlap of the engine.
    pub closed spec fn settings(&self) -> ChunkConfig {
        self.config
    }

    /// The stop words of the engine.
    pub closed spec fn stop(&self) -> StopWords {
        self.stop_words
    }

    /// The documents that the engine holds.
    pub open spec fn documents(&self) -> Seq<DocumentView> {
        self.store()@
    }

    /// The full-text index of the engine.
    pub closed spec fn index(&self) -> FullTextIndex {
        self.index
    }

    /// The overlap is smaller than the chunk size, the store is in order,
    /// and every document in it has the chunks of its content by the
    /// settings of the engine.
    pub open spec fn store_in_order(&self) -> bool {
        &&& 0 <= self.settings().overlap() < self.settings().size()
        &&& self.store().wf()
        &&& all_staged(self.documents(), self.settings().size(), self.settings().overlap())
    }

    /// The store is in order and the index agrees with it.
    pub open spec fn wf(&self) -> bool {
        &&& self.store_in_order()
        &&& agrees(self.index(), self.documents())
    }

    /// The tokens of a query that the engine matches with.
    pub open spec fn tokens_of(&self, query: Seq<char>) -> Seq<Seq<char>> {
        query_tokens(query, self.stop())
    }

    /// What the engine answers to a query when the index has given `hits`.
    pub open spec fn outcome(&self, query: Seq<char>, limit: int, hits: Seq<Seq<char>>) -> Seq<
        ResultView,
    > {
        retrieval(rows(self.documents()), self.tokens_of(query), hits, limit)
    }

    /// The document as this engine would keep it.
    pub open spec fn staged(&self, d: DocumentView) -> DocumentView {
        indexed(d, self.settings().size(), self.settings().overlap())
    }

    fn assemble(config: ChunkConfig) -> (r: Result<RAGEngine, EngineError>)
        requires
            0 <= config.overlap() < config.size(),
        ensures
            match r {
                Ok(e) => e.wf() && e.documents() == Seq::<DocumentView>::empty() && e.settings()
                    == config && e.stop()@ == standard_stop_words() && !e.index().in_doubt(),
                Err(e) => e == EngineError::Index,
            },
    {
        match FullTextIndex::new() {
            Ok(index) => Ok(
                RAGEngine {
                    store: DocumentStore::new(),
                    index,
                    config,
                    stop_words: StopWords::standard(),
                },
            ),
            Err(e) => Err(e),
        }
    }

    /// An empty engine with chunks of 512 characters that overlap by 64 and
    /// with the standard stop words.
    pub fn new() -> (r: Result<RAGEngine, EngineError>)
        ensures
            match r {
                Ok(e) => e.wf() && e.documents() == Seq::<DocumentView>::empty()
                    && e.settings().size() == 512 && e.settings().overlap() == 64 && e.stop()@
                    == standard_stop_words() && !e.index().in_doubt(),
                Err(e) => e == EngineError::Index,
            },
    {
        RAGEngine::assemble(ChunkConfig::standard())
    }

    /// An empty engine with the given chunk size and overlap. Refused with
    /// `Configuration` unless `overlap_size < chunk_size`.
    pub fn with_config(chunk_size: usize, overlap_size: usize) -> (r: Result<
        RAGEngine,
        EngineError,
    >)
        ensures
            match r {
                Ok(e) => overlap_size < chunk_size && e.wf() && e.documents() == Seq::<
                    DocumentView,
                >::empty() && e.settings().size() == chunk_size && e.settings().overlap()
                    == overlap_size && e.stop()@ == standard_stop_words() && !e.index().in_doubt(),
                Err(e) => if overlap_size < chunk_size {
                    e == EngineError::Index
                } else {
                    e == EngineError::Configuration
                },
            },
    {
        match ChunkConfig::new(chunk_size, overlap_size) {
            Ok(config) => RAGEngine::assemble(config),
            Err(e) => Err(e),
        }
    }

    /// Cuts a text into the chunks of the document with the given id, by
    /// the chunk size and the overlap of the engine.
    pub fn create_chunks(&self, content: &str, document_id: &str) -> (r: Vec<DocumentChunk>)
        ensures
            chunk_views(r@) == chunks_of(
                content@,
                document_id@,
                self.settings().size(),
                self.settings().overlap(),
            ),
            covers(
                spans(content@, self.settings().size(), self.settings().overlap()),
                0,
                content@.len() as int,
                self.settings().overlap(),
            ),
    {
        create_chunks(content, document_id, &self.config)
    }

    /// The match expression of a query, by the stop words of the engine.
    pub fn process_query(&self, query: &str) -> (r: String)
        ensures
            r@ == match_expression(self.tokens_of(query@)),
            r@.len() == 0 <==> only_stop_words(query@, self.stop()),
    {
        process_query(query, &self.stop_words)
    }

    /// The scored scan: the first `5 * limit` chunks of the store are
    /// scored by how often the tokens of the query occur in them; of those
    /// that score, the `limit` best are the results.
    pub fn fallback_search(&self, query: &str, limit: usize) -> (r: Vec<SearchResult>)
        requires
            self.wf(),
        ensures
            result_views(r@) == fallback_results(
                first_n(rows(self.documents()), 5 * limit),
                self.tokens_of(query@),
                limit as int,
            ),
            r.len() <= limit,
    {
        proof {
            self.store.lemma_count_fits();
        }
        let tokens = significant_tokens(query, &self.stop_words);
        let bound: usize = if limit > usize::MAX / 5 {
            usize::MAX
        } else {
            limit * 5
        };
        let candidates = self.store.scan(bound);
        assert(first_n(rows(self.documents()), bound as int) == first_n(
            rows(self.documents()),
            5 * limit,
        ));
        rank_candidates(&candidates, &tokens, limit)
    }

    fn write_index(&mut self, staged: &Document) -> (r: Result<(), EngineError>)
        requires
            old(self).store_in_order(),
        ensures
            final(self).store() == old(self).store(),
            final(self).settings() == old(self).settings(),
            final(self).stop() == old(self).stop(),
            final(self).index().saved_entries() == old(self).index().saved_entries(),
            final(self).index().in_doubt() == old(self).index().in_doubt(),
            match r {
                Ok(()) => final(self).index().entries() == with_chunks(
                    without_chunks(
                        old(self).index().entries(),
                        former_chunks(old(self).documents(), staged@.id),
                    ),
                    staged@.chunks,
                ),
                Err(e) => e == EngineError::Index,
            },
    {
        let ghost before = self.index.entries();
        match self.store.get(staged.id.as_str()) {
            Some(former) => {
                let mut i: usize = 0;
                while i < former.chunks.len()
                    invariant
                        i <= former.chunks.len(),
                        self.store() == old(self).store(),
                        self.settings() == old(self).settings(),
                        self.stop() == old(self).stop(),
                        self.index().saved_entries() == old(self).index().saved_entries(),
                        self.index().in_doubt() == old(self).index().in_doubt(),
                        self.index().entries() == without_chunks(
                            before,
                            former@.chunks.take(i as int),
                        ),
                    decreases former.chunks.len() - i,
                {
                    assert(former@.chunks.take(i + 1).drop_last() == former@.chunks.take(
                        i as int,
                    ));
                    assert(former@.chunks.take(i + 1).last() == former.chunks[i as int]@);
                    match self.index.remove(former.chunks[i].id.as_str()) {
                        Ok(()) => {},
                        Err(e) => {
                            return Err(e);
                        },
                    }
                    i += 1;
                }
                assert(former@.chunks.take(former.chunks.len() as int) == former@.chunks);
            },
            None => {},
        }
        let ghost cleared = self.index.entries();
        assert(cleared == without_chunks(before, former_chunks(self.documents(), staged@.id)));
        let mut i: usize = 0;
        while i < staged.chunks.len()
            invariant
                i <= staged.chunks.len(),
                self.store() == old(self).store(),
                self.settings() == old(self).settings(),
                self.stop() == old(self).stop(),
                self.index().saved_entries() == old(self).index().saved_entries(),
                self.index().in_doubt() == old(self).index().in_doubt(),
                self.index().entries() == with_chunks(cleared, staged@.chunks.take(i as int)),
            decreases staged.chunks.len() - i,
        {
            assert(staged@.chunks.take(i + 1).drop_last() == staged@.chunks.take(i as int));
            assert(staged@.chunks.take(i + 1).last() == staged.chunks[i as int]@);
            match self.index.ingest(
                staged.chunks[i].id.as_str(),
                staged.chunks[i].content.as_str(),
            ) {
                Ok(()) => {},
                Err(e) => {
                    return Err(e);
                },
            }
            i += 1;
        }
        assert(staged@.chunks.take(staged.chunks.len() as int) == staged@.chunks);
        Ok(())
    }

    fn update_index(&mut self, staged: &Document) -> (r: Result<(), EngineError>)
        requires
            old(self).store_in_order(),
            old(self).index().in_doubt() || !old(self).index().in_transaction(),
        ensures
            final(self).store() == old(self).store(),
            final(self).settings() == old(self).settings(),
            final(self).stop() == old(self).stop(),
            old(self).index().in_doubt() ==> final(self).index().in_doubt(),
            match r {
                Ok(()) => final(self).index().in_doubt() == old(self).index().in_doubt()
                    && !final(self).index().in_transaction() && final(self).index().entries()
                    == with_chunks(
                    without_chunks(
                        old(self).index().entries(),
                        former_chunks(old(self).documents(), staged@.id),
                    ),
                    staged@.chunks,
                ),
                Err(e) => e == EngineError::Index && (final(self).index().in_doubt() || (
                final(self).index().entries() == old(self).index().entries()
                    && !final(self).index().in_transaction())),
            },
    {
        match self.index.begin() {
            Ok(()) => {},
            Err(e) => {
                return Err(e);
            },
        }
        assert(self.documents() == old(self).documents());
        let written = self.write_index(staged);
        let ghost entries = self.index.entries();
        let finished = match written {
            Ok(()) => self.index.commit(),
            Err(e) => Err(e),
        };
        match finished {
            Ok(()) => {
                assert(written is Ok);
                assert(self.index.entries() == entries);
                Ok(())
            },
            Err(e) => {
                let _ = self.index.rollback();
                Err(e)
            },
        }
    }

    /// Takes a staged document, one that has the chunks of its content and
    /// that the store has room for, into the store once the index has been
    /// brought up to date: not at all if the index failed, whole if it did
    /// not.
    pub fn complete_indexing(&mut self, staged: Document, index_outcome: Result<
        (),
        EngineError,
    >) -> (r: Result<(), EngineError>)
        requires
            old(self).store_in_order(),
            match index_outcome {
                Ok(()) => staged@ == old(self).staged(staged@) && old(self).store().has_room(
                    staged@,
                ) && agrees(old(self).index(), with_document(old(self).documents(), staged@)),
                Err(_) => agrees(old(self).index(), old(self).documents()),
            },
        ensures
            final(self).wf(),
            final(self).settings() == old(self).settings(),
            final(self).stop() == old(self).stop(),
            final(self).index() == old(self).index(),
            match index_outcome {
                Err(e) => r == Err::<(), EngineError>(e)
                    && final(self).documents() == old(self).documents(),
                Ok(()) => r is Ok && final(self).documents() == with_document(
                    old(self).documents(),
                    staged@,
                ),
            },
    {
        match index_outcome {
            Ok(()) => {
                proof {
                    lemma_with_document(self.documents(), staged@);
                }
                let r = self.store.put(staged);
                proof {
                    if r is Ok {
                        let before = old(self).documents();
                        let after = self.documents();
                        let size = self.settings().size();
                        let overlap = self.settings().overlap();
                        assert forall|i: int| 0 <= i < after.len() implies (
                        #[trigger] after[i]).chunks == chunks_of(
                            after[i].content,
                            after[i].id,
                            size,
                            overlap,
                        ) by {
                            if i < after.len() - 1 {
                                let others = without(before, staged@.id);
                                assert(after[i] == others[i]);
                                assert(before.contains(others[i]));
                            }
                        }
                    }
                }
                r
            },
            Err(e) => Err(e),
        }
    }

    /// Indexes a document: cuts its content into chunks, brings the index
    /// up to date and puts the document, with those chunks, in the place of
    /// any document with the same id. On failure the store is as it was.
    /// Unless the index is in doubt, it agrees with the store afterwards as
    /// it did before.
    pub fn index_document(&mut self, document: Document) -> (r: Result<(), EngineError>)
        requires
            old(self).wf(),
        ensures
            final(self).wf(),
            final(self).settings() == old(self).settings(),
            final(self).stop() == old(self).stop(),
            match r {
                Ok(()) => final(self).documents() == with_document(
                    old(self).documents(),
                    old(self).staged(document@),
                ) && final(self).index().in_doubt() == old(self).index().in_doubt(),
                Err(e) => final(self).documents() == old(self).documents() && (e
                    == EngineError::Storage || e == EngineError::Index),
            },
            !old(self).store().has_room(old(self).staged(document@)) ==> r == Err::<
                (),
                EngineError,
            >(EngineError::Storage) && final(self).index() == old(self).index(),
            r matches Err(e) && e == EngineError::Storage ==> !old(self).store().has_room(
                old(self).staged(document@),
            ),
            covers(
                spans(
                    document@.content,
                    old(self).settings().size(),
                    old(self).settings().overlap(),
                ),
                0,
                document@.content.len() as int,
                old(self).settings().overlap(),
            ),
    {
        let chunks = self.create_chunks(document.content.as_str(), document.id.as_str());
        let staged = Document {
            id: document.id,
            title: document.title,
            content: document.content,
            metadata: document.metadata,
            chunks,
        };
        assert(staged@ == self.staged(document@));
        if !self.store.can_put(&staged) {
            return Err(EngineError::Storage);
        }
        let index_outcome = self.update_index(&staged);
        proof {
            lemma_index_follows(
                self.documents(),
                staged@,
                self.settings().size(),
                self.settings().overlap(),
            );
        }
        self.complete_indexing(staged, index_outcome)
    }

    /// Indexes the documents one after the other and stops at the first
    /// that fails; those before it stay indexed.
    pub fn index_documents(&mut self, documents: &Vec<Document>) -> (r: Result<(), EngineError>)
        requires
            old(self).wf(),
        ensures
            final(self).wf(),
            final(self).settings() == old(self).settings(),
            final(self).stop() == old(self).stop(),
            match r {
                Ok(()) => final(self).documents() == with_all(
                    old(self).documents(),
                    document_views(documents@),
                    old(self).settings().size(),
                    old(self).settings().overlap(),
                ),
                Err(e) => (e == EngineError::Storage || e == EngineError::Index) && exists|n: int|
                    0 <= n < documents.len() && final(self).documents() == #[trigger] with_all(
                        old(self).documents(),
                        document_views(documents@).take(n),
                        old(self).settings().size(),
                        old(self).settings().overlap(),
                    ),
            },
    {
        let ghost views = document_views(documents@);
        let ghost size = self.settings().size();
        let ghost overlap = self.settings().overlap();
        let mut i: usize = 0;
        while i < documents.len()
            invariant
                i <= documents.len(),
                self.wf(),
                views == document_views(documents@),
                self.settings() == old(self).settings(),
                self.stop() == old(self).stop(),
                size == self.settings().size(),
                overlap == self.settings().overlap(),
                self.documents() == with_all(
                    old(self).documents(),
                    views.take(i as int),
                    size,
                    overlap,
                ),
            decreases documents.len() - i,
        {
            assert(views.take(i + 1).drop_last() == views.take(i as int));
            assert(views.take(i + 1).last() == documents[i as int]@);
            match self.index_document(documents[i].clone()) {
                Ok(()) => {},
                Err(e) => {
                    return Err(e);
                },
            }
            i += 1;
        }
        assert(views.take(documents.len() as int) == views);
        Ok(())
    }

    /// Indexes the knowledge base.
    pub fn index_void_shrine_knowledge(&mut self) -> (r: Result<(), EngineError>)
        requires
            old(self).wf(),
        ensures
            final(self).wf(),
            final(self).settings() == old(self).settings(),
            final(self).stop() == old(self).stop(),
            exists|base: Seq<DocumentView>, n: int|
                is_knowledge_base(base) && 0 <= n <= 3 && (r is Ok <==> n == 3)
                    && final(self).documents() == #[trigger] with_all(
                    old(self).documents(),
                    base.take(n),
                    old(self).settings().size(),
                    old(self).settings().overlap(),
                ),
            r matches Err(e) ==> e == EngineError::Storage || e == EngineError::Index,
    {
        let base = knowledge_base();
        let r = self.index_documents(&base);
        proof {
            let views = document_views(base@);
            if r is Ok {
                assert(views.take(3) == views);
            }
        }
        r
    }

    /// The document with the given id as the engine keeps it.
    pub fn get_document(&self, id: &str) -> (r: Result<Document, EngineError>)
        requires
            self.wf(),
        ensures
            match r {
                Ok(d) => lookup(self.documents(), id@) == Some(d@),
                Err(e) => e == EngineError::NotFound && lookup(self.documents(), id@) is None,
            },
    {
        match self.store.get(id) {
            Some(d) => Ok(d.clone()),
            None => Err(EngineError::NotFound),
        }
    }

    /// Answers a query from what the index has given for it.
    pub fn retrieve_with_hits(&self, query: &str, limit: usize, hits: &Vec<String>) -> (r: Vec<
        SearchResult,
    >)
        requires
            self.wf(),
        ensures
            result_views(r@) == self.outcome(query@, limit as int, string_views(hits@)),
            r.len() <= limit,
    {
        proof {
            self.store.lemma_count_fits();
        }
        let all = self.store.scan(usize::MAX);
        let found = resolve_hits(&all, hits, limit);
        if found.len() > 0 {
            return found;
        }
        self.fallback_search(query, limit)
    }

    /// The chunks that answer a query, best first, at most `limit` of them.
    /// The index is asked first; if none of its hits is a chunk of the
    /// store, the first chunks of the store are scored against the query.
    pub fn retrieve(&self, query: &str, limit: usize) -> (r: Result<
        Vec<SearchResult>,
        EngineError,
    >)
        requires
            self.wf(),
        ensures
            match r {
                Ok(results) => results.len() <= limit && exists|hits: Seq<Seq<char>>|
                    result_views(results@) == #[trigger] self.outcome(
                        query@,
                        limit as int,
                        hits,
                    ),
                Err(e) => e == EngineError::Index && !only_stop_words(query@, self.stop()),
            },
            only_stop_words(query@, self.stop()) ==> (r matches Ok(results) && results.len()
                == 0),
    {
        let expression = self.process_query(query);
        match self.index.search(expression.as_str(), limit) {
            Ok(hits) => {
                let results = self.retrieve_with_hits(query, limit, &hits);
                proof {
                    if only_stop_words(query@, self.stop()) {
                        crate::laws::lemma_stop_words_only(
                            rows(self.documents()),
                            query@,
                            self.stop(),
                            limit as int,
                        );
                        assert(string_views(hits@) =~= Seq::<Seq<char>>::empty());
                    }
                }
                Ok(results)
            },
            Err(e) => Err(e),
        }
    }

    /// The passages that answer a query, best first, at most `limit` of
    /// them: [`retrieve`](Self::retrieve), each result as one line.
    pub fn query(&self, query: &str, limit: usize) -> (r: Result<Vec<String>, EngineError>)
        requires
            self.wf(),
        ensures
            match r {
                Ok(lines) => lines.len() <= limit && exists|hits: Seq<Seq<char>>|
                    string_views(lines@) == passages(
                        #[trigger] self.outcome(query@, limit as int, hits),
                    ),
                Err(e) => e == EngineError::Index && !only_stop_words(query@, self.stop()),
            },
            only_stop_words(query@, self.stop()) ==> (r matches Ok(lines) && lines.len() == 0),
    {
        match self.retrieve(query, limit) {
            Ok(results) => {
                let lines = to_passages(&results);
                assert(lines.len() == results.len()) by {
                    assert(string_views(lines@).len() == passages(result_views(results@)).len());
                }
                Ok(lines)
            },
            Err(e) => Err(e),
        }
    }

    /// The sizes of the engine and of what it holds.
    pub fn get_stats(&self) -> (r: Result<RAGStats, EngineError>)
        requires
            self.wf(),
        ensures
            r matches Ok(s) && s.document_count == self.documents().len() && s.chunk_count
                == rows(self.documents()).len() && s.chunk_size == self.settings().size()
                && s.overlap_size == self.settings().overlap(),
    {
        Ok(
            RAGStats {
                document_count: self.store.count_documents(),
                chunk_count: self.store.count_chunks(),
                chunk_size: self.config.chunk_size(),
                overlap_size: self.config.overlap_size(),
            },
        )
    }
}

} // verus!
