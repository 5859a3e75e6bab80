use dict_core::preview::truncate_preview;
use dict_core::query::{
    char_is_like_special, fuzzy_prefix, fuzzy_suffix, normalize, prefix_pattern,
    prepare_fts_query, push_literal,
};
use dict_core::text::{char_is_whitespace, chars_of, string_of, trim, words_of};

#[test]
fn test_whitespace_is_what_the_standard_library_says() {
    for code in 0..=0x10FFFFu32 {
        if let Some(c) = char::from_u32(code) {
            assert_eq!(char_is_whitespace(c), c.is_whitespace(), "U+{:04X}", code);
        }
    }
}

#[test]
fn test_trim_is_what_the_standard_library_says() {
    for s in [
        "",
        " ",
        "   ",
        "hello",
        "  hello",
        "hello  ",
        " hello world ",
        "\t\n hello \r\n",
        "\u{a0}hello\u{3000}",
        "\u{2003}\u{2028}",
        " é ",
        "a\u{200b}",
    ] {
        assert_eq!(trim(s), s.trim(), "{:?}", s);
    }
}

#[test]
fn test_words_of_is_what_the_standard_library_says() {
    for s in [
        "",
        " ",
        "hello",
        "hello world",
        "  hello   world  ",
        "a\tb\nc",
        "one\u{a0}two\u{3000}three",
        " x",
        "x ",
        "日本 語",
    ] {
        let chars: Vec<char> = s.chars().collect();
        let words: Vec<String> = words_of(&chars).into_iter().map(|w| w.into_iter().collect()).collect();
        let expected: Vec<String> = s.split_whitespace().map(|w| w.to_string()).collect();
        assert_eq!(words, expected, "{:?}", s);
    }
}

#[test]
fn test_chars_and_strings() {
    assert_eq!(chars_of("héllo"), vec!['h', 'é', 'l', 'l', 'o']);
    assert!(chars_of("").is_empty());
    let chars = vec!['h', 'é', 'l', 'l', 'o'];
    assert_eq!(string_of(&chars, 0, 5), "héllo");
    assert_eq!(string_of(&chars, 1, 3), "él");
    assert_eq!(string_of(&chars, 2, 2), "");
}

#[test]
fn test_normalize_query() {
    assert!(normalize("").is_none());
    assert!(normalize("   ").is_none());
    assert!(normalize("\t\u{a0}\n").is_none());
    let q = normalize("  Hello World ").unwrap();
    assert_eq!(q.text, "Hello World");
    assert_eq!(q.lowered, "hello world");
    let q = normalize("ÉCOLE").unwrap();
    assert_eq!(q.text, "ÉCOLE");
    assert_eq!(q.lowered, "école");
}

#[test]
fn test_prepare_fts_query_edge_cases() {
    assert_eq!(prepare_fts_query("   "), "");
    assert_eq!(prepare_fts_query("*"), "");
    assert_eq!(prepare_fts_query("^:*"), "");
    assert_eq!(prepare_fts_query("  hello   world  "), "hello* world*");
    assert_eq!(prepare_fts_query("say \"hi\""), "say* \"\"hi\"\"*");
    assert_eq!(prepare_fts_query("a^b"), "a* b*");
    assert_eq!(prepare_fts_query("a\tb"), "a* b*");
    assert_eq!(prepare_fts_query("héllo wörld"), "héllo* wörld*");
    assert_eq!(prepare_fts_query("x"), "x*");
}

#[test]
fn test_like_patterns() {
    assert_eq!(prefix_pattern("hel"), "hel%");
    assert_eq!(prefix_pattern(""), "%");
    let letters = |s: &str| s.chars().collect::<Vec<char>>();
    assert_eq!(fuzzy_prefix(&letters("helo")), "he%");
    assert_eq!(fuzzy_prefix(&letters("he")), "he%");
    assert_eq!(fuzzy_prefix(&letters("h")), "h%");
    assert_eq!(fuzzy_prefix(&letters("")), "%");
    // characters, not bytes
    assert_eq!(fuzzy_prefix(&letters("aéb")), "aé%");
    assert_eq!(fuzzy_suffix(&letters("helo")), "_%elo%");
    assert_eq!(fuzzy_suffix(&letters("éab")), "_%ab%");
    assert_eq!(fuzzy_suffix(&letters("h")), "_%%");
    assert_eq!(fuzzy_suffix(&letters("")), "_%%");
}

#[test]
fn test_like_patterns_take_the_query_for_itself() {
    let letters = |s: &str| s.chars().collect::<Vec<char>>();
    assert_eq!(prefix_pattern("100%"), "100\\%%");
    assert_eq!(prefix_pattern("a_b"), "a\\_b%");
    assert_eq!(prefix_pattern("a\\b"), "a\\\\b%");
    assert_eq!(prefix_pattern("%_\\"), "\\%\\_\\\\%");
    assert_eq!(fuzzy_prefix(&letters("%ab")), "\\%a%");
    assert_eq!(fuzzy_prefix(&letters("a_b")), "a\\_%");
    assert_eq!(fuzzy_prefix(&letters("_")), "\\_%");
    assert_eq!(fuzzy_suffix(&letters("a%b")), "_%\\%b%");
    // the first character goes, whatever it is
    assert_eq!(fuzzy_suffix(&letters("%ab")), "_%ab%");
    assert_eq!(fuzzy_suffix(&letters("a_\\")), "_%\\_\\\\%");

    let mut out = String::from("x");
    push_literal(&mut out, &letters("a%b_c"), 1, 4);
    assert_eq!(out, "x\\%b\\_");
    push_literal(&mut out, &letters("abc"), 2, 2);
    assert_eq!(out, "x\\%b\\_");
    for c in ['%', '_', '\\'] {
        assert!(char_is_like_special(c));
    }
    for c in ['a', ' ', '*', '/', '\'', 'é'] {
        assert!(!char_is_like_special(c));
    }
}

#[test]
fn test_truncate_preview_edge_cases() {
    // fits: left as it is
    assert_eq!(truncate_preview("", 0), "");
    assert_eq!(truncate_preview("abc", 3), "abc");
    assert_eq!(truncate_preview("a b", 3), "a b");
    // no space to go back to: cut at the length
    assert_eq!(truncate_preview("abcdef", 3), "abc...");
    assert_eq!(truncate_preview("abcdef", 0), "...");
    // back to the last space, which goes too
    assert_eq!(truncate_preview("ab cd ef", 4), "ab...");
    assert_eq!(truncate_preview("ab cd ef", 5), "ab...");
    assert_eq!(truncate_preview("ab cd ef", 6), "ab cd...");
    assert_eq!(truncate_preview("ab cd ef", 7), "ab cd...");
    assert_eq!(truncate_preview(" abcdef", 3), "...");
    // never inside a character: é has two bytes, ₁ three, 😀 four
    assert_eq!(truncate_preview("éééé", 3), "é...");
    assert_eq!(truncate_preview("éééé", 1), "...");
    assert_eq!(truncate_preview("a₁₂", 2), "a...");
    assert_eq!(truncate_preview("a₁₂", 3), "a...");
    assert_eq!(truncate_preview("a₁₂", 4), "a₁...");
    assert_eq!(truncate_preview("😀😀", 7), "😀...");
    assert_eq!(truncate_preview("é é é", 4), "é...");
    // a combining mark stays with what is kept or goes as a whole
    assert_eq!(truncate_preview("e\u{301}e\u{301}", 2), "e...");
    assert_eq!(truncate_preview("e\u{301}e\u{301}", 3), "e\u{301}...");
    // a space of another kind is no place to cut
    assert_eq!(truncate_preview("ab\u{a0}cd ef", 5), "ab\u{a0}c...");
}

#[test]
fn test_truncate_preview_is_never_much_longer_than_the_text() {
    let texts = ["", "a", "hello world", "Chemical formula: C₁₅H₂₀O₄ is important", "😀 😀 😀", "ééééééé"];
    for text in texts {
        for max_len in 0..text.len() + 2 {
            let result = truncate_preview(text, max_len);
            assert!(result.len() <= text.len() + 3);
            if text.len() <= max_len {
                assert_eq!(result, text);
            } else {
                assert!(result.ends_with("..."));
                assert!(result.len() <= max_len + 3);
                assert!(text.starts_with(&result[..result.len() - 3]));
            }
        }
    }
}
