use rag_engine::chunker::{create_chunks, ChunkConfig};
use rag_engine::ranking::rank_scores;
use rag_engine::retriever::{
    count_occurrences, count_terms, lower_tokens, rank_candidates, resolve_hits, to_passages,
    Relevance, SearchResult,
};
use rag_engine::store::{Document, DocumentStore};
use rag_engine::text::to_chars;
use std::collections::HashMap;

fn document(id: &str, title: &str, content: &str) -> Document {
    let config = ChunkConfig::new(12, 0).unwrap();
    let mut metadata = HashMap::new();
    metadata.insert("origin".to_string(), title.to_string());
    Document {
        id: id.to_string(),
        title: title.to_string(),
        content: content.to_string(),
        metadata,
        chunks: create_chunks(content, id, &config),
    }
}

fn store() -> DocumentStore {
    let mut store = DocumentStore::new();
    // Chunks: "cat cat dog", "bird", then "Dog dog DOG", "cat"
    store.put(document("p", "Pets", "cat cat dog bird")).unwrap();
    store.put(document("q", "More", "Dog dog DOG cat")).unwrap();
    store
}

fn strings(v: &[&str]) -> Vec<String> {
    v.iter().map(|s| s.to_string()).collect()
}

#[test]
fn occurrences_agree_with_std() {
    let cases = [
        ("", "a"),
        ("a", "a"),
        ("aaa", "a"),
        ("aaaa", "aa"),
        ("aaaaa", "aa"),
        ("abcabcab", "abc"),
        ("abababab", "aba"),
        ("hello world", "o"),
        ("hello", "hello!"),
        ("\u{e9}t\u{e9} \u{e9}t\u{e9}", "\u{e9}t"),
        ("abc", ""),
        ("", ""),
        ("mississippi", "issi"),
        ("mississippi", "ss"),
    ];
    for (hay, needle) in cases {
        let want = hay.matches(needle).count() as u64;
        assert_eq!(count_occurrences(&to_chars(hay), &to_chars(needle)), want, "{:?} in {:?}", needle, hay);
    }
}

#[test]
fn terms_are_summed() {
    let words = vec![to_chars("cat"), to_chars("dog"), to_chars("emu")];
    assert_eq!(count_terms(&words, &to_chars("cat dog cat catalog")), 4);
    assert_eq!(count_terms(&Vec::new(), &to_chars("cat dog")), 0);
    assert_eq!(count_terms(&words, &to_chars("")), 0);
}

#[test]
fn tokens_are_lowered() {
    assert_eq!(
        lower_tokens(&strings(&["Gamma", "DELTA", "\u{c9}t\u{e9}", "x1"])),
        vec![to_chars("gamma"), to_chars("delta"), to_chars("\u{e9}t\u{e9}"), to_chars("x1")]
    );
}

#[test]
fn ranking_is_by_score_and_keeps_the_order_of_equals() {
    assert_eq!(rank_scores(&vec![]), Vec::<usize>::new());
    assert_eq!(rank_scores(&vec![0, 0, 0]), Vec::<usize>::new());
    assert_eq!(rank_scores(&vec![1, 2, 3]), vec![2, 1, 0]);
    assert_eq!(rank_scores(&vec![3, 2, 1]), vec![0, 1, 2]);
    assert_eq!(rank_scores(&vec![2, 0, 2, 5, 0, 2, 1]), vec![3, 0, 2, 5, 6]);
    assert_eq!(rank_scores(&vec![1, 1, 1, 1]), vec![0, 1, 2, 3]);
    assert_eq!(rank_scores(&vec![0, u64::MAX, 7]), vec![1, 2]);
}

#[test]
fn candidates_are_scored_without_regard_to_case() {
    let store = store();
    let rows = store.scan(10);
    let results = rank_candidates(&rows, &strings(&["DOG"]), 10);
    let got: Vec<(String, Relevance)> =
        results.iter().map(|r| (r.chunk_id.clone(), r.similarity_score)).collect();
    assert_eq!(
        got,
        vec![("q_0".to_string(), Relevance::Score(3)), ("p_0".to_string(), Relevance::Score(1))]
    );
    assert_eq!(results[0].content, "Dog dog DOG");
    assert_eq!(results[0].document_id, "q");
    assert_eq!(results[0].title, "More");
    assert_eq!(results[0].metadata.get("origin"), Some(&"More".to_string()));
}

#[test]
fn scores_add_up_over_the_tokens_and_ties_keep_store_order() {
    let store = store();
    let rows = store.scan(10);
    let results = rank_candidates(&rows, &strings(&["cat", "dog"]), 10);
    let got: Vec<(String, Relevance)> =
        results.iter().map(|r| (r.chunk_id.clone(), r.similarity_score)).collect();
    assert_eq!(
        got,
        vec![
            ("p_0".to_string(), Relevance::Score(3)),
            ("q_0".to_string(), Relevance::Score(3)),
            ("q_1".to_string(), Relevance::Score(1)),
        ]
    );
}

#[test]
fn candidates_without_a_score_are_left_out() {
    let store = store();
    let rows = store.scan(10);
    assert!(rank_candidates(&rows, &strings(&["emu"]), 10).is_empty());
    assert!(rank_candidates(&rows, &Vec::new(), 10).is_empty());
    assert!(rank_candidates(&Vec::new(), &strings(&["cat"]), 10).is_empty());
}

#[test]
fn the_limit_cuts_the_ranking() {
    let store = store();
    let rows = store.scan(10);
    let tokens = strings(&["cat", "dog"]);
    assert_eq!(rank_candidates(&rows, &tokens, 0).len(), 0);
    assert_eq!(rank_candidates(&rows, &tokens, 1).len(), 1);
    assert_eq!(rank_candidates(&rows, &tokens, 2).len(), 2);
    assert_eq!(rank_candidates(&rows, &tokens, 3).len(), 3);
    assert_eq!(rank_candidates(&rows, &tokens, 4).len(), 3);
    assert_eq!(rank_candidates(&rows, &tokens, 1)[0].chunk_id, "p_0");
}

#[test]
fn hits_are_joined_to_the_store_in_their_order() {
    let store = store();
    let rows = store.scan(10);
    let results = resolve_hits(&rows, &strings(&["q_1", "gone_0", "p_0", "q_1"]), 10);
    let got: Vec<(String, Relevance)> =
        results.iter().map(|r| (r.chunk_id.clone(), r.similarity_score)).collect();
    assert_eq!(
        got,
        vec![
            ("q_1".to_string(), Relevance::Rank(0)),
            ("p_0".to_string(), Relevance::Rank(1)),
            ("q_1".to_string(), Relevance::Rank(2)),
        ]
    );
    assert_eq!(results[0].content, "cat");
    assert_eq!(results[1].title, "Pets");
}

#[test]
fn only_the_first_hits_up_to_the_limit_are_joined() {
    let store = store();
    let rows = store.scan(10);
    let hits = strings(&["q_1", "gone_0", "p_0", "q_0"]);
    assert_eq!(resolve_hits(&rows, &hits, 0).len(), 0);
    assert_eq!(resolve_hits(&rows, &hits, 1).len(), 1);
    assert_eq!(resolve_hits(&rows, &hits, 2).len(), 1);
    assert_eq!(resolve_hits(&rows, &hits, 3).len(), 2);
    assert_eq!(resolve_hits(&rows, &hits, 4).len(), 3);
    assert!(resolve_hits(&rows, &Vec::new(), 4).is_empty());
}

#[test]
fn a_passage_names_title_and_id_before_the_text() {
    let r = SearchResult {
        document_id: "d1".to_string(),
        title: "T".to_string(),
        chunk_id: "d1_0".to_string(),
        content: "Alpha beta.".to_string(),
        similarity_score: Relevance::Score(2),
        metadata: HashMap::new(),
    };
    assert_eq!(r.passage(), "[Document: T (d1)] Alpha beta.");
    assert_eq!(to_passages(&vec![r]), vec!["[Document: T (d1)] Alpha beta."]);
    assert_eq!(to_passages(&Vec::new()), Vec::<String>::new());
}
