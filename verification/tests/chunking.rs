use nous::chunking::{chunk_text, ChunkOptions, ChunkStrategy};

#[test]
fn empty_input_returns_empty() {
    let opts = ChunkOptions::default();
    assert!(chunk_text("", &opts).is_empty());
    assert!(chunk_text("   ", &opts).is_empty());
    assert!(chunk_text("\n\n", &opts).is_empty());
}

#[test]
fn single_short_paragraph() {
    let opts = ChunkOptions {
        max_chars: 1000,
        strategy: ChunkStrategy::Paragraph,
        ..Default::default()
    };
    let chunks = chunk_text("Hello world.", &opts);
    assert_eq!(chunks.len(), 1);
    assert_eq!(chunks[0].text, "Hello world.");
    assert_eq!(chunks[0].index, 0);
}

#[test]
fn paragraph_splitting() {
    let text = "First paragraph.\n\nSecond paragraph.\n\nThird paragraph.";
    let opts = ChunkOptions {
        max_chars: 18,
        strategy: ChunkStrategy::Paragraph,
        ..Default::default()
    };
    let chunks = chunk_text(text, &opts);
    assert_eq!(chunks.len(), 3);
    assert_eq!(chunks[0].text, "First paragraph.");
    assert_eq!(chunks[1].text, "Second paragraph.");
    assert_eq!(chunks[2].text, "Third paragraph.");
}

#[test]
fn paragraphs_merge_when_small() {
    let text = "Short.\n\nAlso short.";
    let opts = ChunkOptions {
        max_chars: 100,
        strategy: ChunkStrategy::Paragraph,
        ..Default::default()
    };
    let chunks = chunk_text(text, &opts);
    assert_eq!(chunks.len(), 1);
    assert!(chunks[0].text.contains("Short."));
    assert!(chunks[0].text.contains("Also short."));
}

#[test]
fn sentence_splitting() {
    let text = "First sentence. Second sentence. Third sentence.";
    let opts = ChunkOptions {
        max_chars: 20,
        strategy: ChunkStrategy::Sentence,
        ..Default::default()
    };
    let chunks = chunk_text(text, &opts);
    assert!(chunks.len() >= 2);
    assert!(chunks[0].text.contains("First sentence."));
}

#[test]
fn sentences_merge_when_small() {
    let text = "Short. Also short.";
    let opts = ChunkOptions {
        max_chars: 100,
        strategy: ChunkStrategy::Sentence,
        ..Default::default()
    };
    let chunks = chunk_text(text, &opts);
    assert_eq!(chunks.len(), 1);
}

#[test]
fn fixed_size_basic() {
    let text = "a".repeat(100);
    let opts = ChunkOptions {
        max_chars: 30,
        overlap: 0,
        strategy: ChunkStrategy::FixedSize,
    };
    let chunks = chunk_text(&text, &opts);
    assert!(chunks.len() >= 3);
    for chunk in &chunks {
        assert!(chunk.text.len() <= 30);
    }
}

#[test]
fn fixed_size_with_overlap() {
    let text = "abcdefghijklmnopqrstuvwxyz";
    let opts = ChunkOptions {
        max_chars: 10,
        overlap: 3,
        strategy: ChunkStrategy::FixedSize,
    };
    let chunks = chunk_text(text, &opts);
    assert!(chunks.len() >= 2);
    if chunks.len() >= 2 {
        let c0_end = &chunks[0].text[chunks[0].text.len() - 3..];
        let c1_start = &chunks[1].text[..3];
        assert_eq!(c0_end, c1_start);
    }
}

#[test]
fn chunk_indices_sequential() {
    let text = "One.\n\nTwo.\n\nThree.\n\nFour.";
    let opts = ChunkOptions {
        max_chars: 10,
        strategy: ChunkStrategy::Paragraph,
        ..Default::default()
    };
    let chunks = chunk_text(text, &opts);
    for (i, chunk) in chunks.iter().enumerate() {
        assert_eq!(chunk.index, i);
    }
}

#[test]
fn unicode_safe() {
    let text = "\u{1F600}".repeat(50);
    let opts = ChunkOptions {
        max_chars: 20,
        overlap: 0,
        strategy: ChunkStrategy::FixedSize,
    };
    let chunks = chunk_text(&text, &opts);
    assert!(!chunks.is_empty());
    for chunk in &chunks {
        assert!(!chunk.text.is_empty());
    }
}

#[test]
fn question_marks_split_sentences() {
    let text = "What is Nous? It is everything. Why? Because.";
    let opts = ChunkOptions {
        max_chars: 20,
        strategy: ChunkStrategy::Sentence,
        ..Default::default()
    };
    let chunks = chunk_text(text, &opts);
    assert!(chunks.len() >= 2);
}

#[test]
fn oversized_single_segment() {
    let text = "a".repeat(200);
    let opts = ChunkOptions {
        max_chars: 50,
        strategy: ChunkStrategy::Paragraph,
        ..Default::default()
    };
    let chunks = chunk_text(&text, &opts);
    assert_eq!(chunks.len(), 1);
    assert_eq!(chunks[0].text.len(), 200);
}

#[test]
fn chunk_options_default_values() {
    let opts = ChunkOptions::default();
    assert_eq!(opts.max_chars, 512);
    assert_eq!(opts.overlap, 64);
    assert_eq!(opts.strategy, ChunkStrategy::Paragraph);
}

#[test]
fn fixed_chunks_are_slices_at_their_offsets() {
    let text = "héllo wörld, ünïcode text";
    let opts = ChunkOptions { max_chars: 7, overlap: 2, strategy: ChunkStrategy::FixedSize };
    let chunks = chunk_text(text, &opts);
    assert!(!chunks.is_empty());
    for (i, c) in chunks.iter().enumerate() {
        assert_eq!(c.index, i);
        assert!(c.text.len() <= 7);
        assert_eq!(&text[c.offset..c.offset + c.text.len()], c.text);
    }
}

#[test]
fn merged_chunks_fit_or_stand_alone() {
    let text = "Alpha beta.\n\nGamma delta epsilon.\n\nZeta.\n\nEta theta iota kappa lambda mu.";
    let opts = ChunkOptions { max_chars: 24, overlap: 0, strategy: ChunkStrategy::Paragraph };
    let chunks = chunk_text(text, &opts);
    for c in &chunks {
        assert!(!c.text.trim().is_empty());
        assert!(c.text.len() <= 24 || !c.text.contains("\n\n"));
    }
    assert_eq!(chunks[0].text, "Alpha beta.");
    assert_eq!(chunks[1].text, "Gamma delta epsilon.");
}

#[test]
fn sentence_chunks_exact() {
    let text = "One two. Three four. Five.";
    let opts = ChunkOptions { max_chars: 12, overlap: 0, strategy: ChunkStrategy::Sentence };
    let chunks = chunk_text(text, &opts);
    let texts: Vec<&str> = chunks.iter().map(|c| c.text.as_str()).collect();
    assert_eq!(texts, vec!["One two.", "Three four.", "Five."]);
}

#[test]
fn paragraphs_kept_whole_and_greedy() {
    let text = "One.\n\nTwo.\n\nThree.\n\nFour.";
    let opts = ChunkOptions { max_chars: 10, strategy: ChunkStrategy::Paragraph, ..Default::default() };
    let chunks = chunk_text(text, &opts);
    let texts: Vec<&str> = chunks.iter().map(|c| c.text.as_str()).collect();
    assert_eq!(texts, vec!["One.\n\nTwo.", "Three.", "Four."]);
    assert_eq!(texts.join("\n\n"), text);
    for pair in texts.windows(2) {
        let first_segment = pair[1].split("\n\n").next().unwrap();
        assert!(pair[0].len() + 2 + first_segment.len() > 10);
    }
}

#[test]
fn non_blank_text_gives_chunks() {
    for strategy in [ChunkStrategy::Paragraph, ChunkStrategy::Sentence] {
        let opts = ChunkOptions { max_chars: 5, strategy, ..Default::default() };
        assert!(!chunk_text("  x  ", &opts).is_empty());
        assert!(!chunk_text("\n\n\n\nHello there. Friend!", &opts).is_empty());
    }
}

#[test]
fn fixed_windows_skip_blank_ones() {
    let text = format!("a{}b", " ".repeat(40));
    let opts = ChunkOptions { max_chars: 10, overlap: 0, strategy: ChunkStrategy::FixedSize };
    let chunks = chunk_text(&text, &opts);
    let offsets: Vec<usize> = chunks.iter().map(|c| c.offset).collect();
    assert_eq!(offsets, vec![0, 40]);
    assert_eq!(chunks[0].text, format!("a{}", " ".repeat(9)));
    assert_eq!(chunks[1].text, " b");
}

#[test]
fn fixed_size_non_blank_gives_chunks() {
    let opts = ChunkOptions { max_chars: 4, overlap: 1, strategy: ChunkStrategy::FixedSize };
    assert!(chunk_text("   ", &opts).is_empty());
    assert!(!chunk_text("            x", &opts).is_empty());
    assert!(!chunk_text("ééé x", &opts).is_empty());
}

#[test]
fn merge_makes_fewest_chunks() {
    // Sentences of 5, 5 and 5 bytes with a one-byte separator and a limit of
    // 11: two chunks, and no division into fewer runs fits.
    let opts = ChunkOptions { max_chars: 11, strategy: ChunkStrategy::Sentence, ..Default::default() };
    let chunks = chunk_text("Aaaa. Bbbb. Cccc.", &opts);
    let texts: Vec<&str> = chunks.iter().map(|c| c.text.as_str()).collect();
    assert_eq!(texts, vec!["Aaaa. Bbbb.", "Cccc."]);
}
