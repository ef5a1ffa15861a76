use rag_engine::chunker::{create_chunks, ChunkConfig};
use rag_engine::error::EngineError;
use rag_engine::store::{Document, DocumentStore};
use std::collections::HashMap;

fn document(id: &str, title: &str, content: &str) -> Document {
    let config = ChunkConfig::new(10, 0).unwrap();
    let mut metadata = HashMap::new();
    metadata.insert("k".to_string(), id.to_string());
    Document {
        id: id.to_string(),
        title: title.to_string(),
        content: content.to_string(),
        metadata,
        chunks: create_chunks(content, id, &config),
    }
}

#[test]
fn a_new_store_is_empty() {
    let store = DocumentStore::new();
    assert_eq!(store.count_documents(), 0);
    assert_eq!(store.count_chunks(), 0);
    assert!(store.get("x").is_none());
    assert!(store.scan(10).is_empty());
}

#[test]
fn put_then_get() {
    let mut store = DocumentStore::new();
    assert_eq!(store.put(document("a", "A", "0123456789abcdefghij0")), Ok(()));
    assert_eq!(store.put(document("b", "B", "xyz")), Ok(()));
    assert_eq!(store.count_documents(), 2);
    assert_eq!(store.count_chunks(), 4);
    let a = store.get("a").unwrap();
    assert_eq!(a.title, "A");
    assert_eq!(a.chunks.len(), 3);
    assert_eq!(a.metadata.get("k"), Some(&"a".to_string()));
    assert_eq!(store.get("b").unwrap().content, "xyz");
    assert!(store.get("c").is_none());
    assert!(store.get("").is_none());
}

#[test]
fn put_replaces_the_document_and_all_its_chunks() {
    let mut store = DocumentStore::new();
    store.put(document("a", "A", "0123456789abcdefghij0")).unwrap();
    store.put(document("b", "B", "xyz")).unwrap();
    assert!(store.can_put(&document("a", "A2", "new")));
    store.put(document("a", "A2", "new")).unwrap();
    assert_eq!(store.count_documents(), 2);
    assert_eq!(store.count_chunks(), 2);
    let a = store.get("a").unwrap();
    assert_eq!(a.title, "A2");
    assert_eq!(a.chunks.len(), 1);
    assert_eq!(a.chunks[0].content, "new");
    let rows = store.scan(10);
    let got: Vec<(String, String)> =
        rows.iter().map(|r| (r.document.id.clone(), r.chunk.content.clone())).collect();
    assert_eq!(got, vec![("b".to_string(), "xyz".to_string()), ("a".to_string(), "new".to_string())]);
}

#[test]
fn scan_gives_the_first_chunks_in_store_order() {
    let mut store = DocumentStore::new();
    store.put(document("a", "A", "0123456789abcdefghij0")).unwrap();
    store.put(document("e", "E", "")).unwrap();
    store.put(document("b", "B", "xyz")).unwrap();
    let ids = |limit: usize| -> Vec<String> {
        store.scan(limit).iter().map(|r| r.chunk.id.clone()).collect()
    };
    assert_eq!(ids(0), Vec::<String>::new());
    assert_eq!(ids(1), vec!["a_0"]);
    assert_eq!(ids(2), vec!["a_0", "a_1"]);
    assert_eq!(ids(3), vec!["a_0", "a_1", "a_2"]);
    assert_eq!(ids(4), vec!["a_0", "a_1", "a_2", "b_0"]);
    assert_eq!(ids(5), vec!["a_0", "a_1", "a_2", "b_0"]);
    assert_eq!(ids(usize::MAX), vec!["a_0", "a_1", "a_2", "b_0"]);
    let rows = store.scan(4);
    assert_eq!(rows[3].document.title, "B");
    assert_eq!(rows[0].document.title, "A");
}

#[test]
fn put_is_ok_when_there_is_room() {
    let mut store = DocumentStore::new();
    let r: Result<(), EngineError> = store.put(document("a", "A", "text"));
    assert!(r.is_ok());
}

#[test]
fn a_clone_of_a_document_is_the_same() {
    let d = document("a", "A", "0123456789abcdefghij0");
    let c = d.clone();
    assert_eq!(c.id, d.id);
    assert_eq!(c.title, d.title);
    assert_eq!(c.content, d.content);
    assert_eq!(c.metadata, d.metadata);
    assert_eq!(c.chunks.len(), d.chunks.len());
    assert_eq!(c.chunks[2].id, "a_2");
    assert_eq!(c.chunks[2].content, d.chunks[2].content);
    assert_eq!(c.chunks[2].start_pos, 20);
    assert_eq!(c.chunks[2].end_pos, 21);
}
