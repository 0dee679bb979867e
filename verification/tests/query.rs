use momotaro::retrieve::query::is_searchable;
use momotaro::retrieve::query::quoted_query;
use momotaro::retrieve::query::{escape_query, normalize_query};

#[test]
fn escape_prefixes_every_special_char() {
    assert_eq!(escape_query(r#"a+b-c"d"#), r#"a\+b\-c\"d"#);
    assert_eq!(escape_query("x:y"), r#"x\:y"#);
    assert_eq!(escape_query(r"back\slash"), r#"back\\slash"#);
    assert_eq!(escape_query("plain"), "plain");
    assert_eq!(escape_query(""), "");
}

#[test]
fn escape_keeps_cjk_and_letters() {
    assert_eq!(escape_query("傅里叶"), "傅里叶");
    assert_eq!(escape_query("bert 模型"), "bert 模型");
}

#[test]
fn normalize_trims_and_collapses() {
    assert_eq!(normalize_query("  hello   world  "), "hello world");
    assert_eq!(normalize_query("single"), "single");
    assert_eq!(normalize_query(""), "");
    assert_eq!(normalize_query(" \t\n "), "");
}

#[test]
fn normalized_query_has_no_double_space_and_no_edges() {
    let out = normalize_query("\u{3000}a\t\tb \n c\u{3000}");
    assert_eq!(out, "a b c");
    assert!(!out.contains("  "));
}

#[test]
fn escape_covers_every_query_syntax_character() {
    assert_eq!(
        escape_query(r"(a)[b]{c}^~*?!&|/<>=\"),
        r"\(a\)\[b\]\{c\}\^\~\*\?\!&|\/\<\>\=\\"
    );
}

#[test]
fn empty_and_punctuation_queries_are_not_searched() {
    assert!(!is_searchable("", 10));
    assert!(!is_searchable(" !?. ", 10));
    assert!(!is_searchable("傅里叶", 0));
    assert!(is_searchable("傅里叶", 10));
    assert!(is_searchable("  a ", 1));
}

#[test]
fn the_fallback_quotes_every_term() {
    assert_eq!(quoted_query("fourier AND"), "\"fourier\" \"AND\"");
    assert_eq!(quoted_query("a:b NOT"), "\"a\\:b\" \"NOT\"");
    assert_eq!(quoted_query(""), "");
}

#[test]
fn normalizing_twice_changes_nothing() {
    for raw in ["  hello   world  ", " \t\n ", "a\u{3000}b", "single"] {
        let once = normalize_query(raw);
        assert_eq!(normalize_query(&once), once);
    }
}

fn unescape(s: &str) -> String {
    let mut out = String::new();
    let mut chars = s.chars();
    while let Some(c) = chars.next() {
        if c == '\\' {
            if let Some(next) = chars.next() {
                out.push(next);
                continue;
            }
        }
        out.push(c);
    }
    out
}

#[test]
fn escaped_text_reads_back_as_the_raw_text() {
    for raw in [r#"a+b-c"d"#, r"back\slash", "x:y", "傅里叶 (fourier)", ""] {
        assert_eq!(unescape(&escape_query(raw)), raw);
    }
}
