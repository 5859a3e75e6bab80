use dict_core::db::{
    delete_definition, delete_etymology, delete_pronunciation, delete_translation, delete_word,
    get_full_definition, get_word, get_word_count, get_word_count_by_language,
    get_words_by_language, get_words_by_word, init_database, insert_definition, insert_etymology,
    insert_pronunciation, insert_translation, insert_word, open_readonly, optimize_fts_index,
    rebuild_fts_index, update_definition, update_etymology, update_pronunciation,
    update_translation, update_word,
};
use dict_core::db::{
    changed, definition_of_row, definitions_of_rows, pronunciation_of_row,
    pronunciations_of_rows, translation_of_row, translations_of_rows, word_of_row, words_of_rows,
};
use dict_core::search::{ranked_row_to_search_result, row_to_search_result};
use dict_core::store::Row;
use dict_core::{get_definition, init, DictError, DictHandle};

fn setup_test_db() -> DictHandle {
    init_database(":memory:").unwrap()
}

fn count(handle: &DictHandle, sql: &str) -> i64 {
    handle
        .connection()
        .query_row(sql, [], |row| row.get(0))
        .unwrap()
}

#[test]
fn test_init_database() {
    let handle = setup_test_db();

    // Verify tables exist
    let count: i64 = handle
        .connection()
        .query_row(
            "SELECT COUNT(*) FROM sqlite_master WHERE type='table' AND name='words'",
            [],
            |row| row.get(0),
        )
        .unwrap();
    assert_eq!(count, 1);
}

#[test]
fn test_insert_and_get_definition() {
    let handle = setup_test_db();

    // Insert a word
    let word_id = insert_word(handle.connection(), "test", "noun", "English", 0).unwrap();

    // Insert a definition
    insert_definition(
        handle.connection(),
        word_id,
        "A procedure for testing",
        &["This is a test.".to_string()],
        &["formal".to_string()],
    )
    .unwrap();

    // Retrieve and verify
    let full_def = get_full_definition(&handle, word_id).unwrap().unwrap();
    assert_eq!(full_def.word, "test");
    assert_eq!(full_def.pos, "noun");
    assert_eq!(full_def.definitions.len(), 1);
    assert_eq!(full_def.definitions[0].text, "A procedure for testing");
}

#[test]
fn test_update_word() {
    let handle = setup_test_db();

    let word_id = insert_word(handle.connection(), "test", "noun", "English", 0).unwrap();

    // Update the word
    let updated = update_word(handle.connection(), word_id, "testing", "verb", "English").unwrap();
    assert!(updated);

    // Verify the update
    let word = get_word(&handle, word_id).unwrap().unwrap();
    assert_eq!(word.word, "testing");
    assert_eq!(word.pos, "verb");
}

#[test]
fn test_update_definition() {
    let handle = setup_test_db();

    let word_id = insert_word(handle.connection(), "test", "noun", "English", 0).unwrap();
    let def_id =
        insert_definition(handle.connection(), word_id, "Original definition", &[], &[]).unwrap();

    // Update the definition
    let updated = update_definition(
        handle.connection(),
        def_id,
        "Updated definition",
        &["Example sentence".to_string()],
        &["informal".to_string()],
    )
    .unwrap();
    assert!(updated);

    // Verify
    let full_def = get_full_definition(&handle, word_id).unwrap().unwrap();
    assert_eq!(full_def.definitions[0].text, "Updated definition");
    assert_eq!(full_def.definitions[0].examples, vec!["Example sentence"]);
}

#[test]
fn test_delete_word_cascades() {
    let handle = setup_test_db();

    let word_id = insert_word(handle.connection(), "test", "noun", "English", 0).unwrap();
    insert_definition(handle.connection(), word_id, "A definition", &[], &[]).unwrap();
    insert_pronunciation(handle.connection(), word_id, Some("/test/"), None, Some("US")).unwrap();
    insert_etymology(handle.connection(), word_id, "From Latin testum").unwrap();
    insert_translation(handle.connection(), word_id, "es", "prueba").unwrap();

    // Delete the word
    let deleted = delete_word(handle.connection(), word_id).unwrap();
    assert!(deleted);

    // Verify everything is deleted
    let full_def = get_full_definition(&handle, word_id).unwrap();
    assert!(full_def.is_none());

    // Verify related data is also deleted
    let def_count: i64 = handle
        .connection()
        .query_row(
            "SELECT COUNT(*) FROM definitions WHERE word_id = ?",
            [word_id],
            |row| row.get(0),
        )
        .unwrap();
    assert_eq!(def_count, 0);
}

#[test]
fn test_get_words_by_word() {
    let handle = setup_test_db();

    // Insert same word with different parts of speech
    insert_word(handle.connection(), "test", "noun", "English", 0).unwrap();
    insert_word(handle.connection(), "test", "verb", "English", 0).unwrap();
    insert_word(handle.connection(), "other", "noun", "English", 0).unwrap();

    let words = get_words_by_word(&handle, "test").unwrap();
    assert_eq!(words.len(), 2);
}

#[test]
fn test_get_word_count() {
    let handle = setup_test_db();

    insert_word(handle.connection(), "hello", "interjection", "English", 0).unwrap();
    insert_word(handle.connection(), "world", "noun", "English", 0).unwrap();
    insert_word(handle.connection(), "bonjour", "interjection", "French", 0).unwrap();

    let total = get_word_count(&handle).unwrap();
    assert_eq!(total, 3);

    let english_count = get_word_count_by_language(&handle, "English").unwrap();
    assert_eq!(english_count, 2);
}

#[test]
fn test_pronunciations() {
    let handle = setup_test_db();

    let word_id = insert_word(handle.connection(), "hello", "interjection", "English", 0).unwrap();

    insert_pronunciation(
        handle.connection(),
        word_id,
        Some("/həˈloʊ/"),
        Some("https://example.com/hello.ogg"),
        Some("US"),
    )
    .unwrap();

    insert_pronunciation(handle.connection(), word_id, Some("/həˈləʊ/"), None, Some("UK")).unwrap();

    let full_def = get_full_definition(&handle, word_id).unwrap().unwrap();
    assert_eq!(full_def.pronunciations.len(), 2);
    assert_eq!(full_def.pronunciations[0].ipa.as_deref(), Some("/həˈloʊ/"));
    assert_eq!(full_def.pronunciations[0].accent.as_deref(), Some("US"));
}

#[test]
fn test_translations() {
    let handle = setup_test_db();

    let word_id = insert_word(handle.connection(), "hello", "interjection", "English", 0).unwrap();

    insert_translation(handle.connection(), word_id, "es", "hola").unwrap();
    insert_translation(handle.connection(), word_id, "fr", "bonjour").unwrap();
    insert_translation(handle.connection(), word_id, "de", "hallo").unwrap();

    let full_def = get_full_definition(&handle, word_id).unwrap().unwrap();
    assert_eq!(full_def.translations.len(), 3);
}

#[test]
fn test_fts_triggers() {
    let handle = setup_test_db();

    // Insert a word
    let word_id = insert_word(handle.connection(), "testing", "noun", "English", 0).unwrap();

    // Verify FTS index was updated
    let fts_count = count(&handle, "SELECT COUNT(*) FROM words_fts WHERE word = 'testing'");
    assert_eq!(fts_count, 1);

    // Update the word
    update_word(handle.connection(), word_id, "tested", "verb", "English").unwrap();

    // Verify FTS was updated
    let old_count = count(&handle, "SELECT COUNT(*) FROM words_fts WHERE word = 'testing'");
    assert_eq!(old_count, 0);

    let new_count = count(&handle, "SELECT COUNT(*) FROM words_fts WHERE word = 'tested'");
    assert_eq!(new_count, 1);

    // Delete the word
    delete_word(handle.connection(), word_id).unwrap();

    // Verify FTS was updated
    let final_count = count(&handle, "SELECT COUNT(*) FROM words_fts WHERE word = 'tested'");
    assert_eq!(final_count, 0);
}

#[test]
fn test_error_display() {
    let err = DictError::NotInitialized;
    assert_eq!(err.message(), "Database not initialized");
}

#[test]
fn test_error_messages() {
    let err = DictError::InvalidPath("/no/such/place".to_string());
    assert_eq!(err.message(), "Invalid database path: /no/such/place");

    let err = match open_readonly("/no/such/place/dictionary.db") {
        Err(err) => err,
        Ok(_) => panic!("a database that is not there was opened"),
    };
    assert!(matches!(err, DictError::Database(_)));
    assert!(err.message().starts_with("Database error: "));
    assert!(err.message().len() > "Database error: ".len());

    let err = DictError::from(std::io::Error::new(std::io::ErrorKind::NotFound, "gone"));
    assert!(matches!(err, DictError::Io(_)));
    assert_eq!(err.message(), "IO error: gone");

    let json = serde_json::from_str::<Vec<String>>("{").unwrap_err();
    let err = DictError::from(json);
    assert!(matches!(err, DictError::Json(_)));
    assert!(err.message().starts_with("JSON parsing error: "));
}

#[test]
fn test_init_fails_where_no_database_can_be() {
    assert!(matches!(init("/no/such/place/dictionary.db"), Err(DictError::Database(_))));
}

#[test]
fn test_etymology_and_full_definition() {
    let handle = setup_test_db();
    let word_id = insert_word(handle.connection(), "test", "noun", "English", 2).unwrap();
    let full = get_definition(&handle, word_id).unwrap();
    assert_eq!(full.language, "English");
    assert_eq!(full.lang_code, "");
    assert!(full.definitions.is_empty());
    assert!(full.etymology.is_none());

    let ety = insert_etymology(handle.connection(), word_id, "From Latin testum").unwrap();
    let full = get_definition(&handle, word_id).unwrap();
    assert_eq!(full.etymology.as_deref(), Some("From Latin testum"));

    assert!(update_etymology(handle.connection(), ety, "From Latin").unwrap());
    let full = get_definition(&handle, word_id).unwrap();
    assert_eq!(full.etymology.as_deref(), Some("From Latin"));

    assert!(delete_etymology(handle.connection(), ety).unwrap());
    assert!(!delete_etymology(handle.connection(), ety).unwrap());
    assert!(get_definition(&handle, word_id).unwrap().etymology.is_none());
    assert!(get_definition(&handle, word_id + 1).is_none());

    let word = get_word(&handle, word_id).unwrap().unwrap();
    assert_eq!(word.id, word_id);
    assert_eq!(word.etymology_num, 2);
    assert_eq!(word.language, "English");
    assert!(get_word(&handle, word_id + 1).unwrap().is_none());
}

#[test]
fn test_examples_and_tags_come_back_as_stored() {
    let handle = setup_test_db();
    let word_id = insert_word(handle.connection(), "test", "noun", "English", 0).unwrap();
    let examples = vec!["He said \"no\".".to_string(), "A, B".to_string()];
    let tags = vec!["formal".to_string()];
    let id = insert_definition(handle.connection(), word_id, "A trial", &examples, &tags).unwrap();

    let full = get_full_definition(&handle, word_id).unwrap().unwrap();
    assert_eq!(full.definitions[0].id, id);
    assert_eq!(full.definitions[0].examples, examples);
    assert_eq!(full.definitions[0].tags, tags);

    // in the database they are JSON
    let stored: (String, String) = handle
        .connection()
        .query_row("SELECT examples, tags FROM definitions WHERE id = ?1", [id], |row| {
            Ok((row.get(0)?, row.get(1)?))
        })
        .unwrap();
    assert_eq!(stored.0, "[\"He said \\\"no\\\".\",\"A, B\"]");
    assert_eq!(stored.1, "[\"formal\"]");

    // what is stored and cannot be read counts as nothing
    handle
        .connection()
        .execute("UPDATE definitions SET examples = 'no json', tags = NULL WHERE id = ?1", [id])
        .unwrap();
    let full = get_full_definition(&handle, word_id).unwrap().unwrap();
    assert!(full.definitions[0].examples.is_empty());
    assert!(full.definitions[0].tags.is_empty());

    assert!(delete_definition(handle.connection(), id).unwrap());
    assert!(!update_definition(handle.connection(), id, "x", &[], &[]).unwrap());
}

#[test]
fn test_update_and_delete_of_related_rows() {
    let handle = setup_test_db();
    let word_id = insert_word(handle.connection(), "hello", "interjection", "English", 0).unwrap();
    let p = insert_pronunciation(handle.connection(), word_id, Some("/h/"), None, None).unwrap();
    let t = insert_translation(handle.connection(), word_id, "es", "hola").unwrap();

    assert!(update_pronunciation(handle.connection(), p, None, Some("a.ogg"), Some("UK")).unwrap());
    assert!(update_translation(handle.connection(), t, "fr", "salut").unwrap());
    let full = get_full_definition(&handle, word_id).unwrap().unwrap();
    assert_eq!(full.pronunciations[0].id, p);
    assert_eq!(full.pronunciations[0].ipa, None);
    assert_eq!(full.pronunciations[0].audio_url.as_deref(), Some("a.ogg"));
    assert_eq!(full.pronunciations[0].accent.as_deref(), Some("UK"));
    assert_eq!(full.translations[0].id, t);
    assert_eq!(full.translations[0].target_language, "fr");
    assert_eq!(full.translations[0].translation, "salut");

    assert!(delete_pronunciation(handle.connection(), p).unwrap());
    assert!(delete_translation(handle.connection(), t).unwrap());
    assert!(!update_pronunciation(handle.connection(), p, None, None, None).unwrap());
    assert!(!update_translation(handle.connection(), t, "fr", "salut").unwrap());
    assert!(!update_word(handle.connection(), word_id + 1, "a", "b", "c").unwrap());
    assert!(!delete_word(handle.connection(), word_id + 1).unwrap());
}

#[test]
fn test_words_by_language_in_pages() {
    let handle = setup_test_db();
    for word in ["un", "deux", "trois"] {
        insert_word(handle.connection(), word, "noun", "French", 0).unwrap();
    }
    insert_word(handle.connection(), "one", "noun", "English", 0).unwrap();

    let words = get_words_by_language(&handle, "French", 2, 0).unwrap();
    assert_eq!(words.len(), 2);
    let words = get_words_by_language(&handle, "French", 2, 2).unwrap();
    assert_eq!(words.len(), 1);
    assert_eq!(words[0].word, "trois");
    assert_eq!(get_word_count_by_language(&handle, "German").unwrap(), 0);
}

#[test]
fn test_fts_index_can_be_rebuilt() {
    let handle = setup_test_db();
    insert_word(handle.connection(), "hello", "interjection", "English", 0).unwrap();
    rebuild_fts_index(handle.connection()).unwrap();
    optimize_fts_index(handle.connection()).unwrap();
    assert_eq!(count(&handle, "SELECT COUNT(*) FROM words_fts WHERE word = 'hello'"), 1);
}

fn row(ints: &[i64], smalls: &[i32], texts: &[&str], nullable: &[Option<&str>]) -> Row {
    Row {
        ints: ints.to_vec(),
        smalls: smalls.to_vec(),
        texts: texts.iter().map(|t| t.to_string()).collect(),
        nullable: nullable.iter().map(|t| t.map(|t| t.to_string())).collect(),
    }
}

#[test]
fn test_rows_to_values() {
    let d = definition_of_row(&row(
        &[7],
        &[],
        &["A trial"],
        &[Some("[\"one\", \"two, three\"]"), Some("[]")],
    ));
    assert_eq!(d.id, 7);
    assert_eq!(d.text, "A trial");
    assert_eq!(d.examples, vec!["one", "two, three"]);
    assert!(d.tags.is_empty());

    // what cannot be read as a list of texts counts as nothing
    let d = definition_of_row(&row(&[8], &[], &[""], &[Some("[1, 2]"), None]));
    assert!(d.examples.is_empty());
    assert!(d.tags.is_empty());
    let d = definition_of_row(&row(&[8], &[], &[""], &[Some("\"text\""), Some("")]));
    assert!(d.examples.is_empty());
    assert!(d.tags.is_empty());

    let p = pronunciation_of_row(&row(&[3], &[], &[], &[Some("/h/"), None, Some("US")]));
    assert_eq!(p.id, 3);
    assert_eq!(p.ipa.as_deref(), Some("/h/"));
    assert_eq!(p.audio_url, None);
    assert_eq!(p.accent.as_deref(), Some("US"));

    let t = translation_of_row(&row(&[4], &[], &["es", "hola"], &[]));
    assert_eq!(t.id, 4);
    assert_eq!(t.target_language, "es");
    assert_eq!(t.translation, "hola");

    let w = word_of_row(&row(&[5], &[-2], &["hello", "interjection", "English"], &[]));
    assert_eq!(w.id, 5);
    assert_eq!(w.word, "hello");
    assert_eq!(w.pos, "interjection");
    assert_eq!(w.language, "English");
    assert_eq!(w.etymology_num, -2);

    assert!(changed(1));
    assert!(changed(usize::MAX));
    assert!(!changed(0));
}

#[test]
fn test_rows_to_search_results() {
    let long = "a definition that goes on ".repeat(10);
    let r = row_to_search_result(&row(&[9], &[], &["hello", "interjection", &long], &[]));
    assert_eq!(r.id, 9);
    assert_eq!(r.word, "hello");
    assert_eq!(r.pos, "interjection");
    assert_eq!(r.preview, dict_core::preview::truncate_preview(&long, 100));
    assert!(r.preview.len() <= 103);
    assert_eq!(r.score, 0);

    let r = ranked_row_to_search_result(&row(&[9, -1_250_000], &[], &["hello", "noun", "Hi"], &[]));
    assert_eq!(r.id, 9);
    assert_eq!(r.preview, "Hi");
    // 2.0 and the size of the rank
    assert_eq!(r.score, 3_250_000);
}

#[test]
fn test_rows_to_values_row_by_row() {
    let words = words_of_rows(&vec![
        row(&[1], &[0], &["un", "noun", "French"], &[]),
        row(&[2], &[3], &["deux", "noun", "French"], &[]),
    ]);
    assert_eq!(words.len(), 2);
    assert_eq!(words[0].id, 1);
    assert_eq!(words[0].word, "un");
    assert_eq!(words[1].id, 2);
    assert_eq!(words[1].word, "deux");
    assert_eq!(words[1].etymology_num, 3);
    assert!(words_of_rows(&vec![]).is_empty());

    let definitions = definitions_of_rows(&vec![
        row(&[1], &[], &["first"], &[Some("[\"a\"]"), None]),
        row(&[2], &[], &["second"], &[None, Some("[\"b\", \"c\"]")]),
    ]);
    assert_eq!(definitions.len(), 2);
    assert_eq!(definitions[0].text, "first");
    assert_eq!(definitions[0].examples, vec!["a"]);
    assert!(definitions[0].tags.is_empty());
    assert_eq!(definitions[1].id, 2);
    assert!(definitions[1].examples.is_empty());
    assert_eq!(definitions[1].tags, vec!["b", "c"]);

    let pronunciations = pronunciations_of_rows(&vec![
        row(&[1], &[], &[], &[Some("/a/"), None, None]),
        row(&[2], &[], &[], &[None, Some("b.ogg"), Some("UK")]),
    ]);
    assert_eq!(pronunciations.len(), 2);
    assert_eq!(pronunciations[0].ipa.as_deref(), Some("/a/"));
    assert_eq!(pronunciations[1].id, 2);
    assert_eq!(pronunciations[1].audio_url.as_deref(), Some("b.ogg"));
    assert_eq!(pronunciations[1].accent.as_deref(), Some("UK"));

    let translations = translations_of_rows(&vec![
        row(&[1], &[], &["es", "hola"], &[]),
        row(&[2], &[], &["fr", "salut"], &[]),
    ]);
    assert_eq!(translations.len(), 2);
    assert_eq!(translations[0].target_language, "es");
    assert_eq!(translations[1].id, 2);
    assert_eq!(translations[1].translation, "salut");
}
