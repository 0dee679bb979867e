use momotaro::retrieve::cjk::{tokenize, CjkToken, CjkTokenizer};

fn texts(tokens: &[CjkToken]) -> Vec<&str> {
    tokens.iter().map(|t| t.text.as_str()).collect()
}

#[test]
fn cjk_run_becomes_overlapping_bigrams() {
    let tokens = tokenize("傅里叶变换");
    assert_eq!(texts(&tokens), ["傅里", "里叶", "叶变", "变换"]);
    for (i, token) in tokens.iter().enumerate() {
        assert_eq!(token.position, i);
    }
    assert_eq!(tokens[0].offset_from, 0);
    assert_eq!(tokens[0].offset_to, 6);
    assert_eq!(tokens[3].offset_from, 9);
    assert_eq!(tokens[3].offset_to, 15);
}

#[test]
fn isolated_cjk_char_is_unigram() {
    let tokens = tokenize("中");
    assert_eq!(texts(&tokens), ["中"]);
    assert_eq!(tokens[0].position, 0);
    assert_eq!(tokens[0].offset_from, 0);
    assert_eq!(tokens[0].offset_to, 3);
}

#[test]
fn mixed_latin_and_cjk() {
    let tokens = CjkTokenizer.tokens("BERT模型");
    assert_eq!(texts(&tokens), ["bert", "模型"]);
    assert_eq!(tokens[0].position, 0);
    assert_eq!(tokens[1].position, 1);
    assert_eq!(tokens[1].offset_from, 4);
    assert_eq!(tokens[1].offset_to, 10);
}

#[test]
fn latin_words_split_on_punctuation_and_lowercase() {
    let tokens = tokenize("hello, world");
    assert_eq!(texts(&tokens), ["hello", "world"]);
    assert_eq!(tokens[1].offset_from, 7);
    assert_eq!(tokens[1].offset_to, 12);
}

#[test]
fn overlong_latin_token_is_dropped() {
    let dropped = tokenize(&format!("{} tail", "a".repeat(50)));
    assert_eq!(texts(&dropped), ["tail"]);
    // The dropped word still consumes a position.
    assert_eq!(dropped[0].position, 1);
    let kept = tokenize(&"a".repeat(40));
    assert_eq!(texts(&kept).len(), 1);
}

#[test]
fn offsets_are_valid_byte_ranges() {
    let text = "Hi你好世界 ok!";
    for token in tokenize(text) {
        assert!(token.offset_from < token.offset_to);
        assert!(token.offset_to <= text.len());
        assert!(text.get(token.offset_from..token.offset_to).is_some());
        assert!(!token.text.is_empty());
    }
}

#[test]
fn empty_input_produces_no_tokens() {
    assert!(tokenize("").is_empty());
    assert!(tokenize(" !?. ").is_empty());
}

#[test]
fn positions_strictly_increase_across_runs() {
    let tokens = tokenize("谱定理 holds 对称矩阵");
    assert_eq!(texts(&tokens), ["谱定", "定理", "holds", "对称", "称矩", "矩阵"]);
    for pair in tokens.windows(2) {
        assert!(pair[0].position < pair[1].position);
    }
}
