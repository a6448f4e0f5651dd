use kb_app::bm25::{field_terms, tokenize};

#[test]
fn tokenizes_ascii_words_and_cjk_ngrams() {
    assert_eq!(tokenize("Local-first KB"), ["local", "first", "kb"]);
    let terms = tokenize("知识库");
    for expected in ["知", "识", "库", "知识", "识库", "知识库"] {
        assert!(terms.iter().any(|term| term == expected));
    }
}

#[test]
fn tokenize_orders_mixed_runs_and_flushes_on_switch() {
    assert_eq!(
        tokenize("ab知识cd"),
        ["ab", "知", "识", "知识", "cd"]
    );
    assert!(tokenize("  ,;  ").is_empty());
}

#[test]
fn field_terms_counts_repeated_terms() {
    let stats = field_terms("Rust rust RUST borrow");
    assert_eq!(stats.length, 4);
    assert_eq!(stats.frequencies.len(), 2);
    assert_eq!(stats.frequencies[0].term, "rust");
    assert_eq!(stats.frequencies[0].count, 3);
    assert_eq!(stats.frequencies[1].term, "borrow");
    assert_eq!(stats.frequencies[1].count, 1);
}
