use momotaro::contracts::Chunk;
use momotaro::retrieve::schema::indexed_text;

fn sample_chunk() -> Chunk {
    Chunk {
        chunk_id: "chunk-1".to_string(),
        source_key: "ml/fourier.md".to_string(),
        revision_hash: "rev-abc".to_string(),
        ordinal: 3,
        heading_path: Some("Fourier > 性质".to_string()),
        text: "傅里叶变换 is a transform".to_string(),
        locator_json: r#"{"start_byte":0}"#.to_string(),
        chunk_hash: "hash-1".to_string(),
        token_estimate: 12,
    }
}

#[test]
fn missing_title_or_heading_degrade_in_one_direction() {
    let chunk = sample_chunk();
    let bare = Chunk {
        heading_path: None,
        ..sample_chunk()
    };
    assert_eq!(
        indexed_text("傅里叶变换", &bare),
        "《傅里叶变换》：傅里叶变换 is a transform"
    );
    assert_eq!(indexed_text("", &chunk), "Fourier > 性质：傅里叶变换 is a transform");
    assert_eq!(
        indexed_text("", &bare),
        "傅里叶变换 is a transform",
        "no title and no heading is the pre-prefix form"
    );
}

#[test]
fn title_and_heading_prefix_the_indexed_text() {
    let chunk = Chunk {
        heading_path: Some("傅里叶 > 性质".to_string()),
        text: "线性性质。".to_string(),
        ..sample_chunk()
    };
    let indexed = indexed_text("傅里叶变换", &chunk);
    assert_eq!(indexed, "《傅里叶变换》 > 傅里叶 > 性质：线性性质。");
    assert_eq!(chunk.text, "线性性质。", "canonical text unchanged");
}

#[test]
fn an_empty_heading_path_is_no_heading() {
    let chunk = Chunk {
        heading_path: Some(String::new()),
        ..sample_chunk()
    };
    assert_eq!(indexed_text("", &chunk), "傅里叶变换 is a transform");
}
