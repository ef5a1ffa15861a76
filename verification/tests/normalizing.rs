use rag_engine::normalizer::{
    build_match_expression, process_query, significant_tokens, split_whitespace, StopWords,
};

#[test]
fn split_whitespace_agrees_with_std() {
    let samples = [
        "",
        "   ",
        "one",
        " one  two\tthree\n",
        "a\u{a0}b\u{3000}c",
        "What are the core principles of void shrine?",
        "\u{2003}tab\u{2003}",
    ];
    for s in samples {
        let want: Vec<String> = s.split_whitespace().map(|w| w.to_string()).collect();
        assert_eq!(split_whitespace(s), want, "{:?}", s);
    }
}

#[test]
fn the_standard_stop_words_are_dropped_whatever_their_case() {
    let stop = StopWords::standard();
    let words = [
        "a", "an", "and", "are", "as", "at", "be", "by", "for", "from", "has", "he", "in", "is",
        "it", "its", "of", "on", "that", "the", "to", "was", "will", "with",
    ];
    for w in words {
        assert!(stop.is_stop_word(w), "{}", w);
        assert!(stop.is_stop_word(&w.to_uppercase()), "{}", w);
    }
    assert!(stop.is_stop_word("The"));
    assert!(stop.is_stop_word("WiTh"));
    assert!(!stop.is_stop_word("shrine"));
    assert!(!stop.is_stop_word("the."));
    assert!(!stop.is_stop_word(""));
    assert!(!stop.is_stop_word("them"));
}

#[test]
fn contains_goes_by_the_letter() {
    let stop = StopWords::standard();
    assert!(stop.contains("the"));
    assert!(stop.contains("with"));
    assert!(!stop.contains("The"));
    assert!(!stop.contains("THE"));
    assert!(!stop.contains(""));
    assert!(!stop.contains("th"));
}

#[test]
fn significant_tokens_keep_their_case_and_order() {
    let stop = StopWords::standard();
    assert_eq!(
        significant_tokens("What are the core principles of void shrine?", &stop),
        vec!["What", "core", "principles", "void", "shrine?"]
    );
    assert_eq!(significant_tokens("The AND of It", &stop), Vec::<String>::new());
    assert_eq!(significant_tokens("", &stop), Vec::<String>::new());
}

#[test]
fn process_query_quotes_and_joins() {
    let stop = StopWords::standard();
    assert_eq!(process_query("How do agents coordinate?", &stop), "\"How\" OR \"do\" OR \"agents\" OR \"coordinate?\"");
    assert_eq!(process_query("gamma", &stop), "\"gamma\"");
    assert_eq!(process_query("  the   gamma  ", &stop), "\"gamma\"");
}

#[test]
fn a_query_of_stop_words_gives_the_empty_expression() {
    let stop = StopWords::standard();
    assert_eq!(process_query("the of and", &stop), "");
    assert_eq!(process_query("THE Of aNd", &stop), "");
    assert_eq!(process_query("", &stop), "");
    assert_eq!(process_query(" \t\n", &stop), "");
}

#[test]
fn double_quotes_in_a_token_are_doubled() {
    let stop = StopWords::standard();
    assert_eq!(process_query("say \"hi\"", &stop), "\"say\" OR \"\"\"hi\"\"\"");
    assert_eq!(build_match_expression(&vec!["a\"b".to_string()]), "\"a\"\"b\"");
}

#[test]
fn build_match_expression_of_nothing_is_empty() {
    assert_eq!(build_match_expression(&Vec::new()), "");
    assert_eq!(build_match_expression(&vec!["x".to_string(), "y".to_string(), "z".to_string()]), "\"x\" OR \"y\" OR \"z\"");
}
