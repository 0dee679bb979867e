use momotaro::ingest::markdown::{BlockKind, MdEvent};
use momotaro::ingest::chunker::blocks_from_events;
use momotaro::contracts::IndexPolicy;
use momotaro::ingest::chunker::{chunk_markdown, overlap_suffix};

fn policy_with(max: u32, overlap: u32) -> IndexPolicy {
    IndexPolicy {
        max_chunk_tokens: max,
        chunk_overlap_tokens: overlap,
        ..IndexPolicy::default()
    }
}

#[test]
fn zh_headings_carry_heading_path() {
    let doc = "# 标题\n\n引言段落。\n\n## 章节\n\n正文第一段。\n\n正文第二段。\n";
    let chunks = chunk_markdown("zh.md", "rh", doc, &IndexPolicy::default());
    assert_eq!(chunks.len(), 2);
    assert_eq!(chunks[0].heading_path.as_deref(), Some("标题"));
    assert_eq!(chunks[0].text, "引言段落。\n");
    assert_eq!(chunks[1].heading_path.as_deref(), Some("标题 > 章节"));
    assert_eq!(chunks[1].text, "正文第一段。\n\n\n正文第二段。\n");
}

#[test]
fn oversized_code_block_is_atomic_and_truncated() {
    let code = "x".repeat(200);
    let doc = format!("```rust\n{code}\n```\n");
    let chunks = chunk_markdown("code.md", "rh", &doc, &policy_with(50, 8));
    assert_eq!(chunks.len(), 1);
    assert!(chunks[0].text.contains(&code));
    assert!(chunks[0].text.starts_with("```rust"));
    assert!(chunks[0].locator_json.contains("\"truncated\":true"));
    assert!(chunks[0].token_estimate > 50);
}

#[test]
fn oversized_table_is_atomic_and_truncated() {
    let mut doc = String::from("| col | value |\n|---|---|\n");
    for i in 0..12 {
        let filler = "x".repeat(20);
        doc.push_str(&format!("| r{i} | {filler} |\n"));
    }
    let chunks = chunk_markdown("table.md", "rh", &doc, &policy_with(50, 8));
    assert_eq!(chunks.len(), 1);
    assert!(chunks[0].text.starts_with("| col |"));
    assert!(chunks[0].locator_json.contains("\"truncated\":true"));
}

#[test]
fn long_doc_packs_within_budget_with_overlap() {
    let mut doc = String::from("# 综述\n\n");
    for i in 0..40 {
        doc.push_str(&format!(
            "第{i}段：矩阵分解为特征值与特征向量，eigen decomposition of the matrix，谱定理成立。\n\n"
        ));
    }
    let chunks = chunk_markdown("long.md", "rh", &doc, &IndexPolicy::default());
    assert!(chunks.len() >= 3, "expected multiple chunks");
    for (i, chunk) in chunks.iter().enumerate() {
        assert_eq!(chunk.ordinal as usize, i);
        assert!(
            chunk.token_estimate <= 512,
            "chunk {i} exceeds budget: {}",
            chunk.token_estimate
        );
    }
    for i in 0..chunks.len() - 1 {
        let prev = &chunks[i].text;
        let last_block_start = prev.rfind("\n\n").map(|p| p + 2).unwrap_or(0);
        let last_block = &prev[last_block_start..];
        let seed = overlap_suffix(last_block, 64);
        assert!(
            !seed.is_empty() && chunks[i + 1].text.starts_with(&seed),
            "chunk {} must start with a suffix of chunk {}",
            i + 1,
            i
        );
    }
}

#[test]
fn empty_and_heading_only_docs_yield_no_chunks() {
    assert!(chunk_markdown("e.md", "rh", "", &IndexPolicy::default()).is_empty());
    assert!(chunk_markdown("w.md", "rh", "  \n\n\t\n", &IndexPolicy::default()).is_empty());
    assert!(chunk_markdown("h.md", "rh", "# Only a heading\n", &IndexPolicy::default()).is_empty());
}

#[test]
fn single_paragraph_chunk_is_verbatim() {
    let doc = "Hello world, this is verbatim.";
    let chunks = chunk_markdown("v.md", "rh", doc, &IndexPolicy::default());
    assert_eq!(chunks.len(), 1);
    assert_eq!(chunks[0].text, doc);
    assert!(chunks[0].heading_path.is_none());
    assert!(chunks[0].locator_json.contains("\"start_byte\":0"));
    assert!(chunks[0].locator_json.contains("\"end_byte\":30"));
    assert!(chunks[0].locator_json.contains("\"start_line\":1"));
    assert!(chunks[0].locator_json.contains("\"end_line\":1"));
    assert!(chunks[0].locator_json.contains("\"truncated\":false"));
}

#[test]
fn identical_content_different_keys_differ_in_chunk_id() {
    let doc = "same text\n\nmore text\n";
    let a = chunk_markdown("a.md", "rh", doc, &IndexPolicy::default());
    let b = chunk_markdown("b.md", "rh", doc, &IndexPolicy::default());
    assert_eq!(a.len(), b.len());
    assert_ne!(a[0].chunk_id, b[0].chunk_id);
}

#[test]
fn code_block_never_shares_a_chunk_with_neighbors() {
    let doc = "para one\n\n```txt\ncode\n```\n\npara two\n";
    let chunks = chunk_markdown("m.md", "rh", doc, &policy_with(500, 64));
    assert_eq!(chunks.len(), 1);
    assert!(chunks[0].text.starts_with("para one"));
    assert!(chunks[0].text.contains("```txt\ncode\n```"));
    assert!(chunks[0].text.trim_end().ends_with("para two"));
}

#[test]
fn locator_bytes_stay_within_source_document() {
    let mut doc = String::from("# 越界回归\n\n");
    for i in 0..30 {
        doc.push_str(&format!(
            "第{i}段：矩阵分解为特征值与特征向量，spectral theorem holds for symmetric matrices。\n\n"
        ));
    }
    let chunks = chunk_markdown("bounds.md", "rh", &doc, &IndexPolicy::default());
    assert!(chunks.len() >= 2);
    for chunk in &chunks {
        let locator: serde_json::Value =
            serde_json::from_str(&chunk.locator_json).expect("locator is valid JSON");
        let start_byte = locator["start_byte"].as_u64().expect("start_byte") as usize;
        let end_byte = locator["end_byte"].as_u64().expect("end_byte") as usize;
        assert!(end_byte <= doc.len(), "end_byte {end_byte} exceeds doc len {}", doc.len());
        assert!(start_byte < end_byte);
        let doc_slice = &doc[start_byte..end_byte];
        let probe: String = doc_slice.chars().take(20).collect();
        assert!(
            chunk.text.contains(&probe),
            "locator span does not address the chunk body (probe {probe:?})"
        );
    }
}

#[test]
fn overlap_suffix_keeps_the_largest_fitting_tail() {
    // Four latin characters per token: a budget of one token keeps four.
    assert_eq!(overlap_suffix("abcdefgh", 1), "efgh");
    assert_eq!(overlap_suffix("abc", 0), "");
    // CJK characters cost one token each.
    assert_eq!(overlap_suffix("谱定理成立", 2), "成立");
}

#[test]
fn chunks_carry_source_and_revision_and_sequential_ordinals() {
    let doc = "# A\n\none\n\n# B\n\ntwo\n";
    let chunks = chunk_markdown("note:x.md", "rev", doc, &IndexPolicy::default());
    assert_eq!(chunks.len(), 2);
    for (i, chunk) in chunks.iter().enumerate() {
        assert_eq!(chunk.source_key, "note:x.md");
        assert_eq!(chunk.revision_hash, "rev");
        assert_eq!(chunk.ordinal as usize, i);
    }
    assert_eq!(chunks[0].heading_path.as_deref(), Some("A"));
    assert_eq!(chunks[1].heading_path.as_deref(), Some("B"));
}

#[test]
fn an_overlap_seed_can_carry_a_chunk_past_the_budget() {
    // The seed is prepended to a block that alone fits: the budget bounds the
    // blocks, not the seeded text.
    let doc = "aaaa\n\nbbbbbbbbbbbbbbbb";
    let chunks = chunk_markdown("s.md", "rh", doc, &policy_with(4, 2));
    assert_eq!(chunks.len(), 2);
    assert_eq!(chunks[0].text, "aaaa\n");
    assert_eq!(chunks[1].text, "aaaa\n\n\nbbbbbbbbbbbbbbbb");
    assert!(chunks[1].token_estimate > 4);
    assert!(chunks[1].locator_json.contains("\"truncated\":false"));
}

#[test]
fn blocks_fold_from_a_given_event_stream() {
    let doc = "# A\n\npara\n";
    let events = vec![
        MdEvent::HeadingStart(1),
        MdEvent::Text("A".to_owned()),
        MdEvent::HeadingEnd(1),
        MdEvent::BlockEnd(BlockKind::Paragraph, 5, 10),
        MdEvent::BlockEnd(BlockKind::Paragraph, 5, 99),
    ];
    let blocks = blocks_from_events(doc, &events);
    assert_eq!(blocks.len(), 1, "a span outside the text is skipped");
    assert_eq!(blocks[0].kind, BlockKind::Paragraph);
    assert_eq!((blocks[0].start, blocks[0].end), (5, 10));
    assert_eq!(blocks[0].text.iter().collect::<String>(), "para\n");
    assert_eq!(blocks[0].heading, vec![vec!['A']]);
}
