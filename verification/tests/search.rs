use dict_core::db::{init_database, insert_definition, insert_word};
use dict_core::distance::{damerau_levenshtein_distance, levenshtein_distance};
use dict_core::preview::truncate_preview;
use dict_core::query::prepare_fts_query;
use dict_core::search::{search_words, search_words_offset};
use dict_core::{search, search_with_offset, DictError, DictHandle};

fn setup_test_db() -> DictHandle {
    init_database(":memory:").unwrap()
}

fn populate_test_data(handle: &DictHandle) {
    // Insert test words
    let words = [
        ("hello", "interjection", "A greeting"),
        ("help", "verb", "To assist someone"),
        ("helper", "noun", "One who helps"),
        ("helping", "noun", "A portion of food"),
        ("helicopter", "noun", "An aircraft"),
        ("world", "noun", "The earth"),
        ("word", "noun", "A unit of language"),
        ("work", "verb", "To labor"),
        ("worker", "noun", "One who works"),
        ("test", "noun", "A procedure for testing"),
        ("testing", "verb", "The act of testing"),
    ];

    for (word, pos, definition) in words {
        let word_id = insert_word(handle.connection(), word, pos, "English", 0).unwrap();
        insert_definition(handle.connection(), word_id, definition, &[], &[]).unwrap();
    }
}

#[test]
fn test_prepare_fts_query() {
    assert_eq!(prepare_fts_query("hello"), "hello*");
    assert_eq!(prepare_fts_query("hello world"), "hello* world*");
    assert_eq!(prepare_fts_query(""), "");
}

#[test]
fn test_truncate_preview() {
    assert_eq!(truncate_preview("short", 100), "short");
    assert_eq!(
        truncate_preview("this is a very long text that should be truncated", 20),
        "this is a very long..."
    );
}

#[test]
fn test_truncate_preview_multibyte_utf8() {
    // Regression test: truncating in the middle of a multi-byte UTF-8 character
    // should not panic. The subscript characters like ₀ are 3 bytes each.
    let text = "Chemical formula: C₁₅H₂₀O₄ is important";
    // This should not panic even if max_len falls inside a multi-byte char
    let result = truncate_preview(text, 22); // Falls inside ₁
    assert!(result.ends_with("..."));
    assert!(result.len() < text.len());
}

#[test]
fn test_prepare_fts_query_escapes_special_chars() {
    // Special chars should be escaped/removed
    assert_eq!(prepare_fts_query("test*query"), "test* query*");
    assert_eq!(prepare_fts_query("hello:world"), "hello* world*");
}

#[test]
fn test_levenshtein_distance() {
    // Same strings
    assert_eq!(levenshtein_distance("hello", "hello"), 0);

    // Empty strings
    assert_eq!(levenshtein_distance("", "hello"), 5);
    assert_eq!(levenshtein_distance("hello", ""), 5);
    assert_eq!(levenshtein_distance("", ""), 0);

    // One edit
    assert_eq!(levenshtein_distance("hello", "helo"), 1); // deletion
    assert_eq!(levenshtein_distance("hello", "helloo"), 1); // insertion
    assert_eq!(levenshtein_distance("hello", "hallo"), 1); // substitution

    // Two edits
    assert_eq!(levenshtein_distance("hello", "halo"), 2);
    assert_eq!(levenshtein_distance("kitten", "sitten"), 1);
    assert_eq!(levenshtein_distance("kitten", "sittin"), 2);
    assert_eq!(levenshtein_distance("kitten", "sitting"), 3);

    // Completely different
    assert_eq!(levenshtein_distance("abc", "xyz"), 3);
}

#[test]
fn test_damerau_levenshtein_distance() {
    // Transposition
    assert_eq!(damerau_levenshtein_distance("ab", "ba"), 1);
    assert_eq!(damerau_levenshtein_distance("hello", "hlelo"), 1);

    // Compare with standard Levenshtein (which counts transposition as 2)
    assert_eq!(levenshtein_distance("ab", "ba"), 2);
}

#[test]
fn test_search_exact_match() {
    let handle = setup_test_db();
    populate_test_data(&handle);

    let results = search_words(&handle, "hello", 10).unwrap();
    assert!(!results.is_empty());
    assert_eq!(results[0].word, "hello");
    assert_eq!(results[0].score, 0); // Exact match
}

#[test]
fn test_search_prefix_match() {
    let handle = setup_test_db();
    populate_test_data(&handle);

    let results = search_words(&handle, "hel", 10).unwrap();
    assert!(results.len() >= 4); // hello, help, helper, helping

    // Results should be sorted by relevance
    // Shorter matches should come first
    let words: Vec<&str> = results.iter().map(|r| r.word.as_str()).collect();
    assert!(words.contains(&"help"));
    assert!(words.contains(&"hello"));
}

#[test]
fn test_search_empty_query() {
    let handle = setup_test_db();
    populate_test_data(&handle);

    let results = search_words(&handle, "", 10).unwrap();
    assert!(results.is_empty());

    let results = search_words(&handle, "   ", 10).unwrap();
    assert!(results.is_empty());
}

#[test]
fn test_search_limit() {
    let handle = setup_test_db();
    populate_test_data(&handle);

    let results = search_words(&handle, "h", 3).unwrap();
    assert!(results.len() <= 3);
}

#[test]
fn test_search_no_duplicates() {
    let handle = setup_test_db();
    populate_test_data(&handle);

    let results = search_words(&handle, "help", 10).unwrap();

    // Check for duplicates
    let ids: Vec<i64> = results.iter().map(|r| r.id).collect();
    let unique_ids: std::collections::HashSet<i64> = ids.iter().copied().collect();
    assert_eq!(
        ids.len(),
        unique_ids.len(),
        "Search results contain duplicates"
    );
}

#[test]
fn test_search_results_sorted_by_score() {
    let handle = setup_test_db();
    populate_test_data(&handle);

    let results = search_words(&handle, "help", 10).unwrap();

    // Verify results are sorted by score (ascending)
    for i in 1..results.len() {
        assert!(
            results[i].score >= results[i - 1].score,
            "Results not sorted by score: {} vs {}",
            results[i - 1].score,
            results[i].score
        );
    }
}

#[test]
fn test_fuzzy_search_typo_tolerance() {
    let handle = setup_test_db();
    populate_test_data(&handle);

    // Common typo: "helo" instead of "hello"
    let results = search_words(&handle, "helo", 10).unwrap();
    let words: Vec<&str> = results.iter().map(|r| r.word.as_str()).collect();

    // Should find "hello" with fuzzy matching
    assert!(
        words.contains(&"hello"),
        "Expected to find 'hello' for query 'helo'"
    );
}

#[test]
fn test_search_is_deterministic() {
    let handle = setup_test_db();
    populate_test_data(&handle);

    let first = search_words(&handle, "hel", 10).unwrap();
    let second = search_words(&handle, "hel", 10).unwrap();
    let first: Vec<(i64, String, u128)> =
        first.into_iter().map(|r| (r.id, r.word, r.score)).collect();
    let second: Vec<(i64, String, u128)> =
        second.into_iter().map(|r| (r.id, r.word, r.score)).collect();
    assert_eq!(first, second);
}

#[test]
fn test_exact_match_beats_fuzzy() {
    let handle = setup_test_db();
    populate_test_data(&handle);

    for word in ["hello", "help", "world", "testing"] {
        let results = search_words(&handle, word, 1).unwrap();
        assert_eq!(results.len(), 1);
        assert_eq!(results[0].word, word);
        assert_eq!(results[0].score, 0);
    }
}

#[test]
fn test_fuzzy_match_scores_three_and_distance() {
    let handle = setup_test_db();
    populate_test_data(&handle);

    let results = search_words(&handle, "helo", 10).unwrap();
    let hello = results.iter().find(|r| r.word == "hello").unwrap();
    // one edit away: 3.0 + 1
    assert_eq!(hello.score, 4_000_000);
    let help = results.iter().find(|r| r.word == "help").unwrap();
    assert_eq!(help.score, 4_000_000);
    // "helo" is no word of the store, so nothing scores as an exact match
    assert!(results.iter().all(|r| r.score > 0));
}

#[test]
fn test_fuzzy_match_ignores_case() {
    let handle = setup_test_db();
    insert_word(handle.connection(), "HELLO", "interjection", "English", 0).unwrap();

    let results = search_words(&handle, "Helo", 10).unwrap();
    assert_eq!(results.len(), 1);
    assert_eq!(results[0].word, "HELLO");
    assert_eq!(results[0].score, 4_000_000);
}

#[test]
fn test_prefix_ordering() {
    let handle = setup_test_db();
    populate_test_data(&handle);

    let results = search_words(&handle, "hel", 10).unwrap();
    let words: Vec<&str> = results.iter().map(|r| r.word.as_str()).collect();
    let help = words.iter().position(|w| *w == "help").unwrap();
    let helicopter = words.iter().position(|w| *w == "helicopter").unwrap();
    assert!(help < helicopter);

    // 1.0 and a tenth for each byte beyond the query
    assert_eq!(results[help].score, 1_100_000);
    assert_eq!(results[helicopter].score, 1_700_000);
}

#[test]
fn test_pagination_consistency() {
    let handle = setup_test_db();
    populate_test_data(&handle);

    let ids = |results: Vec<dict_core::SearchResult>| -> std::collections::BTreeSet<i64> {
        results.into_iter().map(|r| r.id).collect()
    };
    let first = ids(search_words_offset(&handle, "wor", 2, 0).unwrap());
    let second = ids(search_words_offset(&handle, "wor", 2, 2).unwrap());
    let both = ids(search_words_offset(&handle, "wor", 4, 0).unwrap());
    assert_eq!(both.len(), 4);
    let union: std::collections::BTreeSet<i64> = first.union(&second).copied().collect();
    assert_eq!(union, both);
}

#[test]
fn test_pagination_past_the_end() {
    let handle = setup_test_db();
    populate_test_data(&handle);

    assert!(search_words_offset(&handle, "wor", 5, 100).unwrap().is_empty());
    assert!(search_words_offset(&handle, "wor", 0, 0).unwrap().is_empty());
    // the sum of window and offset is beyond every count
    let results = search_words_offset(&handle, "wor", u32::MAX, u32::MAX).unwrap();
    assert!(results.is_empty());
}

#[test]
fn test_query_of_special_characters_only() {
    let handle = setup_test_db();
    populate_test_data(&handle);

    // nothing is left for the text index, which is not asked
    assert_eq!(prepare_fts_query("*:^"), "");
    let results = search_words(&handle, "*:^", 10).unwrap();
    assert!(results.is_empty());
}

#[test]
fn test_search_from_the_top() {
    let handle = setup_test_db();
    populate_test_data(&handle);

    let results = search(&handle, "hello", 10).unwrap();
    assert_eq!(results[0].word, "hello");
    assert!(search(&handle, "  ", 10).unwrap().is_empty());
    let page = search_with_offset(&handle, "hel", 2, 1).unwrap();
    assert_eq!(page.len(), 2);
    let all = search(&handle, "hel", 10).unwrap();
    assert_eq!(page[0].id, all[1].id);
    assert_eq!(page[1].id, all[2].id);
}

#[test]
fn test_search_hands_on_store_failures() {
    let handle = setup_test_db();
    populate_test_data(&handle);
    handle.connection().execute_batch("DROP TABLE definitions").unwrap();

    // a lookup that fails is a failure, not a search without matches
    assert!(matches!(search(&handle, "hello", 10), Err(DictError::Database(_))));
    assert!(matches!(search_with_offset(&handle, "hello", 2, 2), Err(DictError::Database(_))));
    assert!(matches!(search_words(&handle, "hello", 10), Err(DictError::Database(_))));
    assert!(matches!(search_words_offset(&handle, "hel", 1, 0), Err(DictError::Database(_))));

    // where the store is not asked, nothing can fail
    assert!(search(&handle, "   ", 10).unwrap().is_empty());
    assert!(search(&handle, "hello", 0).unwrap().is_empty());
    assert!(search_with_offset(&handle, "hello", 0, 0).unwrap().is_empty());
    assert!(search_words_offset(&handle, "", 5, 5).unwrap().is_empty());
}

#[test]
fn test_wildcards_in_the_query_stand_for_themselves() {
    let handle = setup_test_db();
    for word in ["50!a", "50%a", "50%b", "a!b", "a_b", "a_c", "b\\x", "b\\y", "bzz"] {
        insert_word(handle.connection(), word, "noun", "English", 0).unwrap();
    }
    // two results are wanted, and the prefix tier gives them: no later tier is asked
    let words = |query: &str| -> Vec<String> {
        search_words(&handle, query, 2).unwrap().into_iter().map(|r| r.word).collect()
    };

    // as a wildcard, `%` would let "50!a" in, which sorts first
    assert_eq!(words("50%"), vec!["50%a", "50%b"]);
    // as a wildcard, `_` would let "a!b" in, which sorts first
    assert_eq!(words("a_"), vec!["a_b", "a_c"]);
    // the escape character is a character of the query like any other
    assert_eq!(words("b\\"), vec!["b\\x", "b\\y"]);

    // an exact match with a wildcard in it is found as it is
    let exact = search_words(&handle, "50%a", 1).unwrap();
    assert_eq!(exact.len(), 1);
    assert_eq!(exact[0].word, "50%a");
    assert_eq!(exact[0].score, 0);
}

#[test]
fn test_preview_is_cut_from_the_definition() {
    let handle = setup_test_db();
    let long = "word ".repeat(40);
    let id = insert_word(handle.connection(), "long", "noun", "English", 0).unwrap();
    insert_definition(handle.connection(), id, &long, &[], &[]).unwrap();

    let results = search_words(&handle, "long", 10).unwrap();
    assert_eq!(results[0].preview, truncate_preview(&long, 100));
    assert!(results[0].preview.ends_with("..."));
    assert!(results[0].preview.len() <= 103);
}
