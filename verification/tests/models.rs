use dict_core::models::{default_language, FullDefinition, SearchResult, SCORE_UNIT};

#[test]
fn test_search_result_new() {
    let result = SearchResult::new(
        1,
        "hello".to_string(),
        "interjection".to_string(),
        "A greeting".to_string(),
    );
    assert_eq!(result.id, 1);
    assert_eq!(result.word, "hello");
}

#[test]
fn test_search_result_fields() {
    let result = SearchResult::new(
        7,
        "hello".to_string(),
        "interjection".to_string(),
        "A greeting".to_string(),
    );
    assert_eq!(result.pos, "interjection");
    assert_eq!(result.preview, "A greeting");
    assert_eq!(result.score, 0);

    let scored = SearchResult::with_score(
        -3,
        "help".to_string(),
        "verb".to_string(),
        String::new(),
        2 * SCORE_UNIT + 5,
    );
    assert_eq!(scored.id, -3);
    assert_eq!(scored.word, "help");
    assert_eq!(scored.pos, "verb");
    assert_eq!(scored.preview, "");
    assert_eq!(scored.score, 2_000_005);
}

#[test]
fn test_full_definition_new_is_empty() {
    let full = FullDefinition::new(
        "hello".to_string(),
        "interjection".to_string(),
        "English".to_string(),
        "en".to_string(),
    );
    assert_eq!(full.word, "hello");
    assert_eq!(full.pos, "interjection");
    assert_eq!(full.language, "English");
    assert_eq!(full.lang_code, "en");
    assert!(full.definitions.is_empty());
    assert!(full.pronunciations.is_empty());
    assert!(full.etymology.is_none());
    assert!(full.translations.is_empty());
}

#[test]
fn test_default_language() {
    assert_eq!(default_language(), "English");
}
