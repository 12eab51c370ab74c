use audiobook_pipeline::chunk::split_into_chunks;

fn words_of(s: &str) -> Vec<String> {
    s.split_whitespace().map(|w| w.to_string()).collect()
}

#[test]
fn greedy_packing_flushes_at_target() {
    let chunks = split_into_chunks("One. Two. Three.", 8);
    assert_eq!(chunks, vec!["One Two".to_string(), "Three.".to_string()]);
}

#[test]
fn oversized_sentence_emitted_whole() {
    let text = "Averyveryverylongsentence without breaks";
    let chunks = split_into_chunks(text, 5);
    assert_eq!(chunks, vec![text.to_string()]);
}

#[test]
fn segments_keep_source_order() {
    let chunks = split_into_chunks("A. B. C. D.", 3);
    assert_eq!(chunks, vec!["A B".to_string(), "C".to_string(), "D.".to_string()]);
}

#[test]
fn concatenation_preserves_sentence_content() {
    // the words of the joined segments equal the words of the input with
    // sentence terminators dropped at the separators
    let text = "The cat sat. The dog ran!  The bird flew? End";
    let chunks = split_into_chunks(text, 12);
    let rejoined = chunks.join(" ");
    assert_eq!(
        words_of(&rejoined),
        words_of("The cat sat The dog ran The bird flew End"),
    );
}

#[test]
fn empty_text_gives_no_segments() {
    assert_eq!(split_into_chunks("", 100), Vec::<String>::new());
}

#[test]
fn whitespace_only_gives_no_segments() {
    assert_eq!(split_into_chunks("   \t  ", 10), Vec::<String>::new());
}

#[test]
fn no_segment_is_blank() {
    let chunks = split_into_chunks("Hi.  There.   Again. ", 4);
    assert!(!chunks.is_empty());
    for c in &chunks {
        assert!(!c.trim().is_empty());
        assert_eq!(c.trim(), c);
    }
}
