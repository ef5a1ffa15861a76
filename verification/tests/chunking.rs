use rag_engine::chunker::{create_chunks, split_spans, ChunkConfig, LOOKBACK};
use rag_engine::error::EngineError;
use rag_engine::text::to_chars;

fn config(size: usize, overlap: usize) -> ChunkConfig {
    ChunkConfig::new(size, overlap).unwrap()
}

fn spans(text: &str, size: usize, overlap: usize) -> Vec<(usize, usize)> {
    split_spans(&to_chars(text), &config(size, overlap))
}

fn check_cover(text: &str, size: usize, overlap: usize) {
    let len = text.chars().count();
    let sp = spans(text, size, overlap);
    if len == 0 {
        assert!(sp.is_empty());
        return;
    }
    assert!(!sp.is_empty());
    assert_eq!(sp[0].0, 0);
    assert_eq!(sp[sp.len() - 1].1, len);
    for &(start, end) in &sp {
        assert!(start < end && end <= len);
        assert!(end - start <= size);
    }
    for pair in sp.windows(2) {
        assert!(pair[0].0 < pair[1].0, "starts must rise: {:?}", sp);
        assert!(pair[1].0 <= pair[0].1, "no gap: {:?}", sp);
        assert!(pair[0].1 - pair[1].0 <= overlap, "overlap: {:?}", sp);
    }
}

#[test]
fn overlap_must_be_smaller_than_the_chunk_size() {
    assert!(ChunkConfig::new(10, 9).is_ok());
    assert!(ChunkConfig::new(1, 0).is_ok());
    assert_eq!(ChunkConfig::new(10, 10).err(), Some(EngineError::Configuration));
    assert_eq!(ChunkConfig::new(10, 11).err(), Some(EngineError::Configuration));
    assert_eq!(ChunkConfig::new(0, 0).err(), Some(EngineError::Configuration));
}

#[test]
fn config_keeps_its_sizes() {
    let c = config(20, 5);
    assert_eq!(c.chunk_size(), 20);
    assert_eq!(c.overlap_size(), 5);
    let s = ChunkConfig::standard();
    assert_eq!(s.chunk_size(), 512);
    assert_eq!(s.overlap_size(), 64);
    assert_eq!(LOOKBACK, 100);
}

#[test]
fn empty_text_has_no_chunk() {
    assert!(spans("", 20, 5).is_empty());
    assert!(create_chunks("", "d", &config(20, 5)).is_empty());
}

#[test]
fn short_text_is_one_chunk_and_its_tail() {
    assert_eq!(spans("hello", 20, 0), vec![(0, 5)]);
    assert_eq!(spans("hello", 20, 2), vec![(0, 5), (3, 5)]);
    assert_eq!(spans("hello", 5, 4), vec![(0, 5), (1, 5)]);
    assert_eq!(spans("hello", 2, 1), vec![(0, 2), (1, 3), (2, 4), (3, 5), (4, 5)]);
}

#[test]
fn windows_without_sentence_ends_are_cut_at_the_size() {
    let text = "abcdefghijklmnopqrstuvwxyz";
    assert_eq!(spans(text, 10, 0), vec![(0, 10), (10, 20), (20, 26)]);
    assert_eq!(spans(text, 10, 3), vec![(0, 10), (7, 17), (14, 24), (21, 26), (23, 26)]);
}

#[test]
fn a_window_is_cut_back_to_its_last_sentence_end() {
    let text = "One. Two! Three? Four five six seven";
    //          0123456789012345678901234567890123456
    assert_eq!(spans(text, 12, 0), vec![(0, 9), (9, 16), (16, 28), (28, 36)]);
}

#[test]
fn the_sentence_end_is_looked_for_in_the_last_hundred_characters_only() {
    let mut text = String::from("Start.");
    while text.len() < 300 {
        text.push('x');
    }
    let sp = spans(&text, 200, 0);
    assert_eq!(sp[0], (0, 200));
    let sp = spans(&text, 100, 0);
    assert_eq!(sp[0], (0, 6));
    let sp = spans(&text, 106, 0);
    assert_eq!(sp[0], (0, 106));
    let sp = spans(&text, 105, 0);
    assert_eq!(sp[0], (0, 6));
}

#[test]
fn a_sentence_end_that_would_stall_gives_way_to_the_plain_advance() {
    // The second window finds the same period again: the overlap is given up
    // and the next chunk starts where this one ends.
    let text = "Alpha beta. Gamma delta epsilon.";
    assert_eq!(spans(text, 20, 5), vec![(0, 11), (6, 11), (11, 31), (26, 32), (27, 32)]);
}

#[test]
fn chunking_covers_the_text() {
    let texts = [
        "a",
        "Alpha beta. Gamma delta epsilon.",
        "....................",
        "No terminator here at all just words and words and words",
        "A. B. C. D. E. F. G. H. I. J. K. L. M. N. O. P.",
        "   leading and trailing   ",
        "x!y?z.",
    ];
    for text in texts {
        for (size, overlap) in [(1, 0), (2, 1), (3, 0), (5, 4), (7, 3), (20, 5), (512, 64)] {
            check_cover(text, size, overlap);
        }
    }
    let long: String = "Sentence number one is here. ".repeat(100);
    for (size, overlap) in [(50, 10), (120, 119), (512, 64), (64, 0)] {
        check_cover(&long, size, overlap);
    }
}

#[test]
fn chunking_is_deterministic() {
    let text: String = "Some text. More text! Even more? ".repeat(40);
    let a = create_chunks(&text, "doc", &ChunkConfig::standard());
    let b = create_chunks(&text, "doc", &ChunkConfig::standard());
    assert_eq!(a.len(), b.len());
    for (x, y) in a.iter().zip(b.iter()) {
        assert_eq!(x.id, y.id);
        assert_eq!(x.document_id, y.document_id);
        assert_eq!(x.content, y.content);
        assert_eq!(x.start_pos, y.start_pos);
        assert_eq!(x.end_pos, y.end_pos);
    }
}

#[test]
fn chunks_carry_ids_positions_and_trimmed_text() {
    let chunks = create_chunks("Alpha beta. Gamma delta epsilon.", "d1", &config(20, 5));
    let got: Vec<(String, String, String, usize, usize)> = chunks
        .iter()
        .map(|c| (c.id.clone(), c.document_id.clone(), c.content.clone(), c.start_pos, c.end_pos))
        .collect();
    let want = vec![
        ("d1_0", "d1", "Alpha beta.", 0, 11),
        ("d1_1", "d1", "beta.", 6, 11),
        ("d1_2", "d1", "Gamma delta epsilon", 11, 31),
        ("d1_3", "d1", "silon.", 26, 32),
        ("d1_4", "d1", "ilon.", 27, 32),
    ];
    assert_eq!(got.len(), want.len());
    for (g, w) in got.iter().zip(want.iter()) {
        assert_eq!(g.0, w.0);
        assert_eq!(g.1, w.1);
        assert_eq!(g.2, w.2);
        assert_eq!(g.3, w.3);
        assert_eq!(g.4, w.4);
    }
}

#[test]
fn chunk_ids_count_past_nine() {
    let text = "abcdefghijklmnopqrstuvwxyz";
    let chunks = create_chunks(text, "doc", &config(2, 0));
    assert_eq!(chunks.len(), 13);
    assert_eq!(chunks[9].id, "doc_9");
    assert_eq!(chunks[10].id, "doc_10");
    assert_eq!(chunks[12].id, "doc_12");
    assert_eq!(chunks[12].content, "yz");
}

#[test]
fn positions_count_characters_not_bytes() {
    let text = "\u{e9}\u{e9}\u{e9}. \u{4e2d}\u{6587}\u{4e2d}\u{6587}";
    let chunks = create_chunks(text, "u", &config(6, 0));
    assert_eq!(chunks[0].start_pos, 0);
    assert_eq!(chunks[0].end_pos, 4);
    assert_eq!(chunks[0].content, "\u{e9}\u{e9}\u{e9}.");
    assert_eq!(chunks[1].start_pos, 4);
    assert_eq!(chunks[1].end_pos, 9);
    assert_eq!(chunks[1].content, "\u{4e2d}\u{6587}\u{4e2d}\u{6587}");
}
