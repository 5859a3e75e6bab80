//! Database operations: the schema, and reading and writing entries.

use crate::json::{json_of_texts, read_stored_texts, stored_texts, texts_of, to_json};
use crate::models::{Definition, FullDefinition, Pronunciation, Translation, Word};
use crate::store::{
    execute, execute_batch, fits, last_insert_rowid, open_with_flags, query_rows, sql_int,
    sql_null, sql_text, Row, RowShape, OPEN_CREATE, OPEN_NO_MUTEX, OPEN_READ_ONLY,
    OPEN_READ_WRITE,
};
use rusqlite::types::Value;
use crate::{DictError, DictHandle};
use rusqlite::Connection;
use std::sync::Arc;
use vstd::prelude::*;

verus! {

/// SQL schema of the dictionary database.
pub const SCHEMA: &'static str = r#"
-- Main word entries
CREATE TABLE IF NOT EXISTS words (
    id INTEGER PRIMARY KEY,
    word TEXT NOT NULL,
    pos TEXT NOT NULL,
    language TEXT NOT NULL,
    etymology_num INTEGER DEFAULT 0
);

CREATE INDEX IF NOT EXISTS idx_words_word ON words(word);
CREATE INDEX IF NOT EXISTS idx_words_language ON words(language);

-- Full-text search using FTS5
CREATE VIRTUAL TABLE IF NOT EXISTS words_fts USING fts5(
    word,
    content='words',
    content_rowid='id'
);

-- Triggers to keep FTS in sync
CREATE TRIGGER IF NOT EXISTS words_ai AFTER INSERT ON words BEGIN
    INSERT INTO words_fts(rowid, word) VALUES (new.id, new.word);
END;

CREATE TRIGGER IF NOT EXISTS words_ad AFTER DELETE ON words BEGIN
    INSERT INTO words_fts(words_fts, rowid, word) VALUES('delete', old.id, old.word);
END;

CREATE TRIGGER IF NOT EXISTS words_au AFTER UPDATE ON words BEGIN
    INSERT INTO words_fts(words_fts, rowid, word) VALUES('delete', old.id, old.word);
    INSERT INTO words_fts(rowid, word) VALUES (new.id, new.word);
END;

-- Definitions (one word can have many)
CREATE TABLE IF NOT EXISTS definitions (
    id INTEGER PRIMARY KEY,
    word_id INTEGER NOT NULL,
    definition TEXT NOT NULL,
    examples TEXT,  -- JSON array
    tags TEXT,      -- JSON array
    FOREIGN KEY (word_id) REFERENCES words(id) ON DELETE CASCADE
);

CREATE INDEX IF NOT EXISTS idx_definitions_word_id ON definitions(word_id);

-- Pronunciations
CREATE TABLE IF NOT EXISTS pronunciations (
    id INTEGER PRIMARY KEY,
    word_id INTEGER NOT NULL,
    ipa TEXT,
    audio_url TEXT,
    accent TEXT,
    FOREIGN KEY (word_id) REFERENCES words(id) ON DELETE CASCADE
);

CREATE INDEX IF NOT EXISTS idx_pronunciations_word_id ON pronunciations(word_id);

-- Etymology
CREATE TABLE IF NOT EXISTS etymologies (
    id INTEGER PRIMARY KEY,
    word_id INTEGER NOT NULL,
    etymology_text TEXT NOT NULL,
    FOREIGN KEY (word_id) REFERENCES words(id) ON DELETE CASCADE
);

CREATE INDEX IF NOT EXISTS idx_etymologies_word_id ON etymologies(word_id);

-- Translations
CREATE TABLE IF NOT EXISTS translations (
    id INTEGER PRIMARY KEY,
    word_id INTEGER NOT NULL,
    target_language TEXT NOT NULL,
    translation TEXT NOT NULL,
    FOREIGN KEY (word_id) REFERENCES words(id) ON DELETE CASCADE
);

CREATE INDEX IF NOT EXISTS idx_translations_word_id ON translations(word_id);
CREATE INDEX IF NOT EXISTS idx_translations_language ON translations(target_language);
"#;

/// A text that may be missing as a statement's parameter.
pub(crate) fn optional_text(s: Option<&str>) -> (param: Value) {
    match s {
        Some(text) => sql_text(text),
        None => sql_null(),
    }
}

/// Whether a statement that changed `rows` rows changed anything.
pub fn changed(rows: usize) -> (any: bool)
    ensures
        any == (rows > 0),
{
    rows > 0
}

/// Runs a statement that writes, and tells whether it changed a row.
pub(crate) fn run_change(conn: &Connection, sql: &str, params: &Vec<Value>) -> (r: Result<
    bool,
    DictError,
>)
    ensures
        r matches Err(e) ==> e is Database,
{
    match execute(conn, sql, params) {
        Ok(rows) => Ok(changed(rows)),
        Err(e) => Err(DictError::Database(e)),
    }
}

/// Runs a statement that inserts a row, and returns the id of the new row.
pub(crate) fn run_insert(conn: &Connection, sql: &str, params: &Vec<Value>) -> (r: Result<
    i64,
    DictError,
>)
    ensures
        r matches Err(e) ==> e is Database,
{
    match execute(conn, sql, params) {
        Ok(_) => Ok(last_insert_rowid(conn)),
        Err(e) => Err(DictError::Database(e)),
    }
}

/// Runs a query and returns its rows.
pub(crate) fn run_query(conn: &Connection, sql: &str, params: &Vec<Value>, shape: &RowShape) -> (r:
    Result<Vec<Row>, DictError>)
    ensures
        r matches Err(e) ==> e is Database,
        r matches Ok(rows) ==> forall|i: int|
            0 <= i < rows@.len() ==> fits(#[trigger] rows@[i], *shape),
{
    match query_rows(conn, sql, params, shape) {
        Ok(rows) => Ok(rows),
        Err(e) => Err(DictError::Database(e)),
    }
}

/// Opens the database at `db_path`, creating it if necessary, and makes sure
/// that the schema is in place.
pub fn init_database(db_path: &str) -> (r: Result<DictHandle, DictError>)
    ensures
        r matches Err(e) ==> e is Database,
{
    let conn = match open_with_flags(db_path, OPEN_READ_WRITE | OPEN_CREATE | OPEN_NO_MUTEX) {
        Ok(conn) => conn,
        Err(e) => {
            return Err(DictError::Database(e));
        },
    };
    match execute_batch(&conn, "PRAGMA foreign_keys = ON;") {
        Ok(_) => {},
        Err(e) => {
            return Err(DictError::Database(e));
        },
    }
    match execute_batch(&conn, SCHEMA) {
        Ok(_) => {},
        Err(e) => {
            return Err(DictError::Database(e));
        },
    }
    Ok(DictHandle { conn: Arc::new(conn) })
}

/// Opens an existing database for reading only.
pub fn open_readonly(db_path: &str) -> (r: Result<DictHandle, DictError>)
    ensures
        r matches Err(e) ==> e is Database,
{
    match open_with_flags(db_path, OPEN_READ_ONLY) {
        Ok(conn) => Ok(DictHandle { conn: Arc::new(conn) }),
        Err(e) => Err(DictError::Database(e)),
    }
}

/// The text of a column that may be missing, as the contracts see it.
pub open spec fn optional_view(text: Option<String>) -> Option<Seq<char>> {
    match text {
        Some(t) => Some(t@),
        None => None,
    }
}

/// Whether `d` is the definition that a row of `id, definition, examples,
/// tags` stands for: examples and tags are what their JSON reads as, and
/// are empty where there is none or it cannot be read.
pub open spec fn is_definition_of(d: Definition, row: Row) -> bool {
    &&& d.id == row.ints@[0]
    &&& d.text@ == row.texts@[0]@
    &&& texts_of(d.examples@) == stored_texts(optional_view(row.nullable@[0]))
    &&& texts_of(d.tags@) == stored_texts(optional_view(row.nullable@[1]))
}

/// Whether `p` is the pronunciation that a row of `id, ipa, audio_url,
/// accent` stands for.
pub open spec fn is_pronunciation_of(p: Pronunciation, row: Row) -> bool {
    &&& p.id == row.ints@[0]
    &&& p.ipa == row.nullable@[0]
    &&& p.audio_url == row.nullable@[1]
    &&& p.accent == row.nullable@[2]
}

/// Whether `t` is the translation that a row of `id, target_language,
/// translation` stands for.
pub open spec fn is_translation_of(t: Translation, row: Row) -> bool {
    &&& t.id == row.ints@[0]
    &&& t.target_language == row.texts@[0]
    &&& t.translation == row.texts@[1]
}

/// Whether `w` is the word that a row of `id, word, pos, language,
/// etymology_num` stands for.
pub open spec fn is_word_of(w: Word, row: Row) -> bool {
    &&& w.id == row.ints@[0]
    &&& w.word == row.texts@[0]
    &&& w.pos == row.texts@[1]
    &&& w.language == row.texts@[2]
    &&& w.etymology_num == row.smalls@[0]
}

/// Whether `found` are the definitions that `rows` stand for, row by row.
pub open spec fn are_definitions_of(found: Seq<Definition>, rows: Seq<Row>) -> bool {
    &&& found.len() == rows.len()
    &&& forall|i: int| 0 <= i < rows.len() ==> is_definition_of(#[trigger] found[i], rows[i])
}

/// Whether `found` are the pronunciations that `rows` stand for, row by row.
pub open spec fn are_pronunciations_of(found: Seq<Pronunciation>, rows: Seq<Row>) -> bool {
    &&& found.len() == rows.len()
    &&& forall|i: int| 0 <= i < rows.len() ==> is_pronunciation_of(#[trigger] found[i], rows[i])
}

/// Whether `found` are the translations that `rows` stand for, row by row.
pub open spec fn are_translations_of(found: Seq<Translation>, rows: Seq<Row>) -> bool {
    &&& found.len() == rows.len()
    &&& forall|i: int| 0 <= i < rows.len() ==> is_translation_of(#[trigger] found[i], rows[i])
}

/// Whether `found` are the words that `rows` stand for, row by row.
pub open spec fn are_words_of(found: Seq<Word>, rows: Seq<Row>) -> bool {
    &&& found.len() == rows.len()
    &&& forall|i: int| 0 <= i < rows.len() ==> is_word_of(#[trigger] found[i], rows[i])
}

/// Whether `found` is the word that the first of `rows` stands for, or
/// nothing where there is no row.
pub open spec fn is_first_word_of(found: Option<Word>, rows: Seq<Row>) -> bool {
    match found {
        Some(w) => rows.len() > 0 && is_word_of(w, rows[0]),
        None => rows.len() == 0,
    }
}

/// Whether `found` is the text that the first of `rows` holds, or nothing
/// where there is no row.
pub open spec fn is_first_text_of(found: Option<String>, rows: Seq<Row>) -> bool {
    match found {
        Some(text) => rows.len() > 0 && text == rows[0].texts@[0],
        None => rows.len() == 0,
    }
}

/// The count that the first of `rows` holds, zero where there is no row.
pub open spec fn count_in(rows: Seq<Row>) -> i64 {
    if rows.len() == 0 {
        0
    } else {
        rows[0].ints@[0]
    }
}

/// Whether `full` is what the rows of the five lookups about one word stand
/// for: the word itself out of `head`, no language code, as the store keeps
/// none, and the rest row by row.
pub open spec fn is_full_definition_of(
    full: FullDefinition,
    head: Row,
    definitions: Seq<Row>,
    pronunciations: Seq<Row>,
    etymologies: Seq<Row>,
    translations: Seq<Row>,
) -> bool {
    &&& full.word == head.texts@[0]
    &&& full.pos == head.texts@[1]
    &&& full.language == head.texts@[2]
    &&& full.lang_code@.len() == 0
    &&& are_definitions_of(full.definitions@, definitions)
    &&& are_pronunciations_of(full.pronunciations@, pronunciations)
    &&& is_first_text_of(full.etymology, etymologies)
    &&& are_translations_of(full.translations@, translations)
}

/// Whether `found` is what a lookup about one word gives: nothing, or the
/// full definition that some rows of the store stand for.
pub open spec fn is_answer_about_word(found: Option<FullDefinition>) -> bool {
    found matches Some(full) ==> exists|
        head: Row,
        definitions: Seq<Row>,
        pronunciations: Seq<Row>,
        etymologies: Seq<Row>,
        translations: Seq<Row>,
    |
        is_full_definition_of(
            full,
            head,
            definitions,
            pronunciations,
            etymologies,
            translations,
        )
}

/// The definition that a row of `id, definition, examples, tags` holds:
/// examples and tags are read from their JSON, and are empty where there is
/// none or it cannot be read.
pub fn definition_of_row(row: &Row) -> (d: Definition)
    requires
        row.ints@.len() == 1,
        row.texts@.len() == 1,
        row.nullable@.len() == 2,
    ensures
        is_definition_of(d, *row),
{
    Definition {
        id: row.ints[0],
        text: row.texts[0].clone(),
        examples: read_stored_texts(&row.nullable[0]),
        tags: read_stored_texts(&row.nullable[1]),
    }
}

/// The pronunciation that a row of `id, ipa, audio_url, accent` holds.
pub fn pronunciation_of_row(row: &Row) -> (p: Pronunciation)
    requires
        row.ints@.len() == 1,
        row.nullable@.len() == 3,
    ensures
        is_pronunciation_of(p, *row),
{
    Pronunciation {
        id: row.ints[0],
        ipa: row.nullable[0].clone(),
        audio_url: row.nullable[1].clone(),
        accent: row.nullable[2].clone(),
    }
}

/// The translation that a row of `id, target_language, translation` holds.
pub fn translation_of_row(row: &Row) -> (t: Translation)
    requires
        row.ints@.len() == 1,
        row.texts@.len() == 2,
    ensures
        is_translation_of(t, *row),
{
    Translation {
        id: row.ints[0],
        target_language: row.texts[0].clone(),
        translation: row.texts[1].clone(),
    }
}

/// The word that a row of `id, word, pos, language, etymology_num` holds.
pub fn word_of_row(row: &Row) -> (w: Word)
    requires
        row.ints@.len() == 1,
        row.smalls@.len() == 1,
        row.texts@.len() == 3,
    ensures
        is_word_of(w, *row),
{
    Word {
        id: row.ints[0],
        word: row.texts[0].clone(),
        pos: row.texts[1].clone(),
        language: row.texts[2].clone(),
        etymology_num: row.smalls[0],
    }
}

/// The words that `rows` stand for, row by row.
pub fn words_of_rows(rows: &Vec<Row>) -> (words: Vec<Word>)
    requires
        forall|i: int|
            0 <= i < rows@.len() ==> (#[trigger] rows@[i]).ints@.len() == 1 && rows@[i].smalls@.len()
                == 1 && rows@[i].texts@.len() == 3,
    ensures
        are_words_of(words@, rows@),
{
    let mut words: Vec<Word> = Vec::new();
    let n = rows.len();
    let mut i: usize = 0;
    while i < n
        invariant
            i <= n,
            n == rows@.len(),
            forall|k: int|
                0 <= k < rows@.len() ==> (#[trigger] rows@[k]).ints@.len() == 1
                    && rows@[k].smalls@.len() == 1 && rows@[k].texts@.len() == 3,
            are_words_of(words@, rows@.take(i as int)),
        decreases n - i,
    {
        let w = word_of_row(&rows[i]);
        words.push(w);
        i += 1;
    }
    proof {
        assert(rows@.take(n as int) =~= rows@);
    }
    words
}

/// The definitions that `rows` stand for, row by row.
pub fn definitions_of_rows(rows: &Vec<Row>) -> (found: Vec<Definition>)
    requires
        forall|i: int|
            0 <= i < rows@.len() ==> (#[trigger] rows@[i]).ints@.len() == 1 && rows@[i].texts@.len()
                == 1 && rows@[i].nullable@.len() == 2,
    ensures
        are_definitions_of(found@, rows@),
{
    let mut found: Vec<Definition> = Vec::new();
    let n = rows.len();
    let mut i: usize = 0;
    while i < n
        invariant
            i <= n,
            n == rows@.len(),
            forall|k: int|
                0 <= k < rows@.len() ==> (#[trigger] rows@[k]).ints@.len() == 1
                    && rows@[k].texts@.len() == 1 && rows@[k].nullable@.len() == 2,
            are_definitions_of(found@, rows@.take(i as int)),
        decreases n - i,
    {
        let d = definition_of_row(&rows[i]);
        found.push(d);
        i += 1;
    }
    proof {
        assert(rows@.take(n as int) =~= rows@);
    }
    found
}

/// The pronunciations that `rows` stand for, row by row.
pub fn pronunciations_of_rows(rows: &Vec<Row>) -> (found: Vec<Pronunciation>)
    requires
        forall|i: int|
            0 <= i < rows@.len() ==> (#[trigger] rows@[i]).ints@.len() == 1
                && rows@[i].nullable@.len() == 3,
    ensures
        are_pronunciations_of(found@, rows@),
{
    let mut found: Vec<Pronunciation> = Vec::new();
    let n = rows.len();
    let mut i: usize = 0;
    while i < n
        invariant
            i <= n,
            n == rows@.len(),
            forall|k: int|
                0 <= k < rows@.len() ==> (#[trigger] rows@[k]).ints@.len() == 1
                    && rows@[k].nullable@.len() == 3,
            are_pronunciations_of(found@, rows@.take(i as int)),
        decreases n - i,
    {
        let p = pronunciation_of_row(&rows[i]);
        found.push(p);
        i += 1;
    }
    proof {
        assert(rows@.take(n as int) =~= rows@);
    }
    found
}

/// The translations that `rows` stand for, row by row.
pub fn translations_of_rows(rows: &Vec<Row>) -> (found: Vec<Translation>)
    requires
        forall|i: int|
            0 <= i < rows@.len() ==> (#[trigger] rows@[i]).ints@.len() == 1 && rows@[i].texts@.len()
                == 2,
    ensures
        are_translations_of(found@, rows@),
{
    let mut found: Vec<Translation> = Vec::new();
    let n = rows.len();
    let mut i: usize = 0;
    while i < n
        invariant
            i <= n,
            n == rows@.len(),
            forall|k: int|
                0 <= k < rows@.len() ==> (#[trigger] rows@[k]).ints@.len() == 1
                    && rows@[k].texts@.len() == 2,
            are_translations_of(found@, rows@.take(i as int)),
        decreases n - i,
    {
        let t = translation_of_row(&rows[i]);
        found.push(t);
        i += 1;
    }
    proof {
        assert(rows@.take(n as int) =~= rows@);
    }
    found
}

/// Everything the database holds about the word `word_id`, or nothing where
/// there is no such word. Whatever rows the five lookups give, the answer is
/// what they stand for; it names no language code, as the store keeps none.
pub fn get_full_definition(handle: &DictHandle, word_id: i64) -> (r: Result<
    Option<FullDefinition>,
    DictError,
>)
    ensures
        r matches Err(e) ==> e is Database,
        r matches Ok(found) ==> is_answer_about_word(found),
{
    let shape = RowShape {
        ints: Vec::new(),
        smalls: Vec::new(),
        texts: vec![0usize, 1usize, 2usize],
        nullable: Vec::new(),
    };
    let params: Vec<Value> = vec![sql_int(word_id)];
    let rows = match run_query(
        handle.connection(),
        "SELECT word, pos, language FROM words WHERE id = ?",
        &params,
        &shape,
    ) {
        Ok(rows) => rows,
        Err(e) => {
            return Err(e);
        },
    };
    if rows.len() == 0 {
        return Ok(None);
    }
    assert(fits(rows@[0], shape));
    let row = &rows[0];
    let mut full = FullDefinition::new(
        row.texts[0].clone(),
        row.texts[1].clone(),
        row.texts[2].clone(),
        String::new(),
    );
    full.definitions = match get_definitions(handle, word_id) {
        Ok(found) => found,
        Err(e) => {
            return Err(e);
        },
    };
    full.pronunciations = match get_pronunciations(handle, word_id) {
        Ok(found) => found,
        Err(e) => {
            return Err(e);
        },
    };
    full.etymology = match get_etymology(handle, word_id) {
        Ok(found) => found,
        Err(e) => {
            return Err(e);
        },
    };
    full.translations = match get_translations(handle, word_id) {
        Ok(found) => found,
        Err(e) => {
            return Err(e);
        },
    };
    proof {
        let definitions = choose|rows: Seq<Row>|
            #[trigger] are_definitions_of(full.definitions@, rows);
        let pronunciations = choose|rows: Seq<Row>|
            #[trigger] are_pronunciations_of(full.pronunciations@, rows);
        let etymologies = choose|rows: Seq<Row>|
            #[trigger] is_first_text_of(full.etymology, rows);
        let translations = choose|rows: Seq<Row>|
            #[trigger] are_translations_of(full.translations@, rows);
        assert(is_full_definition_of(
            full,
            rows@[0],
            definitions,
            pronunciations,
            etymologies,
            translations,
        ));
    }
    Ok(Some(full))
}

/// All definitions of a word: whatever rows the store gives, the
/// definitions that they stand for.
fn get_definitions(handle: &DictHandle, word_id: i64) -> (r: Result<Vec<Definition>, DictError>)
    ensures
        match r {
            Ok(found) => exists|rows: Seq<Row>| #[trigger] are_definitions_of(found@, rows),
            Err(e) => e is Database,
        },
{
    let shape = RowShape {
        ints: vec![0usize],
        smalls: Vec::new(),
        texts: vec![1usize],
        nullable: vec![2usize, 3usize],
    };
    let params: Vec<Value> = vec![sql_int(word_id)];
    match run_query(
        handle.connection(),
        "SELECT id, definition, examples, tags FROM definitions WHERE word_id = ?",
        &params,
        &shape,
    ) {
        Ok(rows) => {
            assert forall|i: int| 0 <= i < rows@.len() implies (#[trigger] rows@[i]).ints@.len()
                == 1 && rows@[i].texts@.len() == 1 && rows@[i].nullable@.len() == 2 by {
                assert(fits(rows@[i], shape));
            }
            let found = definitions_of_rows(&rows);
            let r: Result<Vec<Definition>, DictError> = Ok(found);
            assert(r matches Ok(found) && are_definitions_of(found@, rows@));
            r
        },
        Err(e) => Err(e),
    }
}

/// All pronunciations of a word: whatever rows the store gives, the
/// pronunciations that they stand for.
fn get_pronunciations(handle: &DictHandle, word_id: i64) -> (r: Result<
    Vec<Pronunciation>,
    DictError,
>)
    ensures
        match r {
            Ok(found) => exists|rows: Seq<Row>| #[trigger] are_pronunciations_of(found@, rows),
            Err(e) => e is Database,
        },
{
    let shape = RowShape {
        ints: vec![0usize],
        smalls: Vec::new(),
        texts: Vec::new(),
        nullable: vec![1usize, 2usize, 3usize],
    };
    let params: Vec<Value> = vec![sql_int(word_id)];
    match run_query(
        handle.connection(),
        "SELECT id, ipa, audio_url, accent FROM pronunciations WHERE word_id = ?",
        &params,
        &shape,
    ) {
        Ok(rows) => {
            assert forall|i: int| 0 <= i < rows@.len() implies (#[trigger] rows@[i]).ints@.len()
                == 1 && rows@[i].nullable@.len() == 3 by {
                assert(fits(rows@[i], shape));
            }
            let found = pronunciations_of_rows(&rows);
            let r: Result<Vec<Pronunciation>, DictError> = Ok(found);
            assert(r matches Ok(found) && are_pronunciations_of(found@, rows@));
            r
        },
        Err(e) => Err(e),
    }
}

/// The etymology of a word, if it has one: the text of the first row that
/// the store gives, or nothing where it gives none.
fn get_etymology(handle: &DictHandle, word_id: i64) -> (r: Result<Option<String>, DictError>)
    ensures
        match r {
            Ok(found) => exists|rows: Seq<Row>| #[trigger] is_first_text_of(found, rows),
            Err(e) => e is Database,
        },
{
    let shape = RowShape {
        ints: Vec::new(),
        smalls: Vec::new(),
        texts: vec![0usize],
        nullable: Vec::new(),
    };
    let params: Vec<Value> = vec![sql_int(word_id)];
    let rows = match run_query(
        handle.connection(),
        "SELECT etymology_text FROM etymologies WHERE word_id = ? LIMIT 1",
        &params,
        &shape,
    ) {
        Ok(rows) => rows,
        Err(e) => {
            return Err(e);
        },
    };
    if rows.len() == 0 {
        assert(is_first_text_of(None, rows@));
        Ok(None)
    } else {
        assert(fits(rows@[0], shape));
        let text = rows[0].texts[0].clone();
        assert(is_first_text_of(Some(text), rows@));
        Ok(Some(text))
    }
}

/// All translations of a word: whatever rows the store gives, the
/// translations that they stand for.
fn get_translations(handle: &DictHandle, word_id: i64) -> (r: Result<Vec<Translation>, DictError>)
    ensures
        match r {
            Ok(found) => exists|rows: Seq<Row>| #[trigger] are_translations_of(found@, rows),
            Err(e) => e is Database,
        },
{
    let shape = RowShape {
        ints: vec![0usize],
        smalls: Vec::new(),
        texts: vec![2usize, 1usize],
        nullable: Vec::new(),
    };
    let params: Vec<Value> = vec![sql_int(word_id)];
    match run_query(
        handle.connection(),
        "SELECT id, translation, target_language FROM translations WHERE word_id = ?",
        &params,
        &shape,
    ) {
        Ok(rows) => {
            assert forall|i: int| 0 <= i < rows@.len() implies (#[trigger] rows@[i]).ints@.len()
                == 1 && rows@[i].texts@.len() == 2 by {
                assert(fits(rows@[i], shape));
            }
            let found = translations_of_rows(&rows);
            let r: Result<Vec<Translation>, DictError> = Ok(found);
            assert(r matches Ok(found) && are_translations_of(found@, rows@));
            r
        },
        Err(e) => Err(e),
    }
}

/// Inserts a word entry and returns its id.
pub fn insert_word(
    conn: &Connection,
    word: &str,
    pos: &str,
    language: &str,
    etymology_num: i32,
) -> (r: Result<i64, DictError>)
    ensures
        r matches Err(e) ==> e is Database,
{
    let params: Vec<Value> = vec![
        sql_text(word),
        sql_text(pos),
        sql_text(language),
        sql_int(etymology_num as i64),
    ];
    run_insert(
        conn,
        "INSERT INTO words (word, pos, language, etymology_num) VALUES (?, ?, ?, ?)",
        &params,
    )
}

/// Inserts a definition of a word and returns its id. Examples and tags are
/// stored as JSON.
pub fn insert_definition(
    conn: &Connection,
    word_id: i64,
    definition: &str,
    examples: &[String],
    tags: &[String],
) -> (r: Result<i64, DictError>)
    ensures
        r matches Err(e) ==> e is Database || e is Json,
        (r matches Err(e) && e is Json) <==> (json_of_texts(texts_of(examples@)) is None
            || json_of_texts(texts_of(tags@)) is None),
{
    let examples_json = match to_json(examples) {
        Ok(json) => json,
        Err(e) => {
            return Err(DictError::Json(e));
        },
    };
    let tags_json = match to_json(tags) {
        Ok(json) => json,
        Err(e) => {
            return Err(DictError::Json(e));
        },
    };
    let params: Vec<Value> = vec![
        sql_int(word_id),
        sql_text(definition),
        sql_text(examples_json.as_str()),
        sql_text(tags_json.as_str()),
    ];
    run_insert(
        conn,
        "INSERT INTO definitions (word_id, definition, examples, tags) VALUES (?, ?, ?, ?)",
        &params,
    )
}

/// Inserts a pronunciation of a word and returns its id.
pub fn insert_pronunciation(
    conn: &Connection,
    word_id: i64,
    ipa: Option<&str>,
    audio_url: Option<&str>,
    accent: Option<&str>,
) -> (r: Result<i64, DictError>)
    ensures
        r matches Err(e) ==> e is Database,
{
    let params: Vec<Value> = vec![
        sql_int(word_id),
        optional_text(ipa),
        optional_text(audio_url),
        optional_text(accent),
    ];
    run_insert(
        conn,
        "INSERT INTO pronunciations (word_id, ipa, audio_url, accent) VALUES (?, ?, ?, ?)",
        &params,
    )
}

/// Inserts the etymology of a word and returns its id.
pub fn insert_etymology(conn: &Connection, word_id: i64, text: &str) -> (r: Result<i64, DictError>)
    ensures
        r matches Err(e) ==> e is Database,
{
    let params: Vec<Value> = vec![sql_int(word_id), sql_text(text)];
    run_insert(conn, "INSERT INTO etymologies (word_id, etymology_text) VALUES (?, ?)", &params)
}

/// Inserts a translation of a word and returns its id.
pub fn insert_translation(
    conn: &Connection,
    word_id: i64,
    target_language: &str,
    translation: &str,
) -> (r: Result<i64, DictError>)
    ensures
        r matches Err(e) ==> e is Database,
{
    let params: Vec<Value> = vec![
        sql_int(word_id),
        sql_text(target_language),
        sql_text(translation),
    ];
    run_insert(
        conn,
        "INSERT INTO translations (word_id, target_language, translation) VALUES (?, ?, ?)",
        &params,
    )
}

/// Updates a word entry; tells whether there was one to update.
pub fn update_word(
    conn: &Connection,
    word_id: i64,
    word: &str,
    pos: &str,
    language: &str,
) -> (r: Result<bool, DictError>)
    ensures
        r matches Err(e) ==> e is Database,
{
    let params: Vec<Value> = vec![
        sql_text(word),
        sql_text(pos),
        sql_text(language),
        sql_int(word_id),
    ];
    run_change(conn, "UPDATE words SET word = ?, pos = ?, language = ? WHERE id = ?", &params)
}

/// Updates a definition; tells whether there was one to update.
pub fn update_definition(
    conn: &Connection,
    definition_id: i64,
    definition: &str,
    examples: &[String],
    tags: &[String],
) -> (r: Result<bool, DictError>)
    ensures
        r matches Err(e) ==> e is Database || e is Json,
        (r matches Err(e) && e is Json) <==> (json_of_texts(texts_of(examples@)) is None
            || json_of_texts(texts_of(tags@)) is None),
{
    let examples_json = match to_json(examples) {
        Ok(json) => json,
        Err(e) => {
            return Err(DictError::Json(e));
        },
    };
    let tags_json = match to_json(tags) {
        Ok(json) => json,
        Err(e) => {
            return Err(DictError::Json(e));
        },
    };
    let params: Vec<Value> = vec![
        sql_text(definition),
        sql_text(examples_json.as_str()),
        sql_text(tags_json.as_str()),
        sql_int(definition_id),
    ];
    run_change(
        conn,
        "UPDATE definitions SET definition = ?, examples = ?, tags = ? WHERE id = ?",
        &params,
    )
}

/// Updates a pronunciation; tells whether there was one to update.
pub fn update_pronunciation(
    conn: &Connection,
    pronunciation_id: i64,
    ipa: Option<&str>,
    audio_url: Option<&str>,
    accent: Option<&str>,
) -> (r: Result<bool, DictError>)
    ensures
        r matches Err(e) ==> e is Database,
{
    let params: Vec<Value> = vec![
        optional_text(ipa),
        optional_text(audio_url),
        optional_text(accent),
        sql_int(pronunciation_id),
    ];
    run_change(
        conn,
        "UPDATE pronunciations SET ipa = ?, audio_url = ?, accent = ? WHERE id = ?",
        &params,
    )
}

/// Updates an etymology; tells whether there was one to update.
pub fn update_etymology(
    conn: &Connection,
    etymology_id: i64,
    text: &str,
) -> (r: Result<bool, DictError>)
    ensures
        r matches Err(e) ==> e is Database,
{
    let params: Vec<Value> = vec![sql_text(text), sql_int(etymology_id)];
    run_change(conn, "UPDATE etymologies SET etymology_text = ? WHERE id = ?", &params)
}

/// Updates a translation; tells whether there was one to update.
pub fn update_translation(
    conn: &Connection,
    translation_id: i64,
    target_language: &str,
    translation: &str,
) -> (r: Result<bool, DictError>)
    ensures
        r matches Err(e) ==> e is Database,
{
    let params: Vec<Value> = vec![
        sql_text(target_language),
        sql_text(translation),
        sql_int(translation_id),
    ];
    run_change(
        conn,
        "UPDATE translations SET target_language = ?, translation = ? WHERE id = ?",
        &params,
    )
}

/// Deletes a word entry and, through the schema, all that belongs to it;
/// tells whether there was one to delete.
pub fn delete_word(conn: &Connection, word_id: i64) -> (r: Result<bool, DictError>)
    ensures
        r matches Err(e) ==> e is Database,
{
    let params: Vec<Value> = vec![sql_int(word_id)];
    run_change(conn, "DELETE FROM words WHERE id = ?", &params)
}

/// Deletes a definition; tells whether there was one to delete.
pub fn delete_definition(conn: &Connection, definition_id: i64) -> (r: Result<bool, DictError>)
    ensures
        r matches Err(e) ==> e is Database,
{
    let params: Vec<Value> = vec![sql_int(definition_id)];
    run_change(conn, "DELETE FROM definitions WHERE id = ?", &params)
}

/// Deletes a pronunciation; tells whether there was one to delete.
pub fn delete_pronunciation(
    conn: &Connection,
    pronunciation_id: i64,
) -> (r: Result<bool, DictError>)
    ensures
        r matches Err(e) ==> e is Database,
{
    let params: Vec<Value> = vec![sql_int(pronunciation_id)];
    run_change(conn, "DELETE FROM pronunciations WHERE id = ?", &params)
}

/// Deletes an etymology; tells whether there was one to delete.
pub fn delete_etymology(conn: &Connection, etymology_id: i64) -> (r: Result<bool, DictError>)
    ensures
        r matches Err(e) ==> e is Database,
{
    let params: Vec<Value> = vec![sql_int(etymology_id)];
    run_change(conn, "DELETE FROM etymologies WHERE id = ?", &params)
}

/// Deletes a translation; tells whether there was one to delete.
pub fn delete_translation(conn: &Connection, translation_id: i64) -> (r: Result<bool, DictError>)
    ensures
        r matches Err(e) ==> e is Database,
{
    let params: Vec<Value> = vec![sql_int(translation_id)];
    run_change(conn, "DELETE FROM translations WHERE id = ?", &params)
}

/// The columns of a query for words.
fn word_shape() -> (shape: RowShape)
    ensures
        shape.ints@.len() == 1,
        shape.smalls@.len() == 1,
        shape.texts@.len() == 3,
        shape.nullable@.len() == 0,
{
    RowShape {
        ints: vec![0usize],
        smalls: vec![4usize],
        texts: vec![1usize, 2usize, 3usize],
        nullable: Vec::new(),
    }
}

/// The word entry `word_id`, without definitions or other related data: the
/// word that the first row from the store stands for, or nothing where the
/// store gives no row.
pub fn get_word(handle: &DictHandle, word_id: i64) -> (r: Result<Option<Word>, DictError>)
    ensures
        match r {
            Ok(found) => exists|rows: Seq<Row>| #[trigger] is_first_word_of(found, rows),
            Err(e) => e is Database,
        },
{
    let shape = word_shape();
    let params: Vec<Value> = vec![sql_int(word_id)];
    let rows = match run_query(
        handle.connection(),
        "SELECT id, word, pos, language, etymology_num FROM words WHERE id = ?",
        &params,
        &shape,
    ) {
        Ok(rows) => rows,
        Err(e) => {
            return Err(e);
        },
    };
    if rows.len() == 0 {
        assert(is_first_word_of(None, rows@));
        Ok(None)
    } else {
        assert(fits(rows@[0], shape));
        let word = word_of_row(&rows[0]);
        let r: Result<Option<Word>, DictError> = Ok(Some(word));
        assert(r matches Ok(found) && is_first_word_of(found, rows@));
        r
    }
}

/// All word entries that are spelled `word`: the words that the rows from
/// the store stand for, row by row.
pub fn get_words_by_word(handle: &DictHandle, word: &str) -> (r: Result<Vec<Word>, DictError>)
    ensures
        match r {
            Ok(words) => exists|rows: Seq<Row>| #[trigger] are_words_of(words@, rows),
            Err(e) => e is Database,
        },
{
    let shape = word_shape();
    let params: Vec<Value> = vec![sql_text(word)];
    let rows = match run_query(
        handle.connection(),
        "SELECT id, word, pos, language, etymology_num FROM words WHERE word = ?",
        &params,
        &shape,
    ) {
        Ok(rows) => rows,
        Err(e) => {
            return Err(e);
        },
    };
    assert forall|i: int| 0 <= i < rows@.len() implies (#[trigger] rows@[i]).ints@.len() == 1
        && rows@[i].smalls@.len() == 1 && rows@[i].texts@.len() == 3 by {
        assert(fits(rows@[i], shape));
    }
    let words = words_of_rows(&rows);
    let r: Result<Vec<Word>, DictError> = Ok(words);
    assert(r matches Ok(words) && are_words_of(words@, rows@));
    r
}

/// Up to `limit` word entries of a language, after the first `offset`: the
/// words that the rows from the store stand for, row by row.
pub fn get_words_by_language(handle: &DictHandle, language: &str, limit: u32, offset: u32) -> (r:
    Result<Vec<Word>, DictError>)
    ensures
        match r {
            Ok(words) => exists|rows: Seq<Row>| #[trigger] are_words_of(words@, rows),
            Err(e) => e is Database,
        },
{
    let shape = word_shape();
    let params: Vec<Value> = vec![
        sql_text(language),
        sql_int(limit as i64),
        sql_int(offset as i64),
    ];
    let rows = match run_query(
        handle.connection(),
        "SELECT id, word, pos, language, etymology_num FROM words WHERE language = ? LIMIT ? OFFSET ?",
        &params,
        &shape,
    ) {
        Ok(rows) => rows,
        Err(e) => {
            return Err(e);
        },
    };
    assert forall|i: int| 0 <= i < rows@.len() implies (#[trigger] rows@[i]).ints@.len() == 1
        && rows@[i].smalls@.len() == 1 && rows@[i].texts@.len() == 3 by {
        assert(fits(rows@[i], shape));
    }
    let words = words_of_rows(&rows);
    let r: Result<Vec<Word>, DictError> = Ok(words);
    assert(r matches Ok(words) && are_words_of(words@, rows@));
    r
}

/// Runs a query that counts, and returns the count that the first row from
/// the store holds: zero where the store gives no row.
fn run_count(handle: &DictHandle, sql: &str, params: &Vec<Value>) -> (r: Result<i64, DictError>)
    ensures
        match r {
            Ok(count) => exists|rows: Seq<Row>| count == #[trigger] count_in(rows),
            Err(e) => e is Database,
        },
{
    let shape = RowShape {
        ints: vec![0usize],
        smalls: Vec::new(),
        texts: Vec::new(),
        nullable: Vec::new(),
    };
    let rows = match run_query(handle.connection(), sql, params, &shape) {
        Ok(rows) => rows,
        Err(e) => {
            return Err(e);
        },
    };
    if rows.len() == 0 {
        assert(count_in(rows@) == 0);
        Ok(0)
    } else {
        assert(fits(rows@[0], shape));
        let count = rows[0].ints[0];
        assert(count == count_in(rows@));
        Ok(count)
    }
}

/// How many word entries there are: the count that the first row from the
/// store holds.
pub fn get_word_count(handle: &DictHandle) -> (r: Result<i64, DictError>)
    ensures
        match r {
            Ok(count) => exists|rows: Seq<Row>| count == #[trigger] count_in(rows),
            Err(e) => e is Database,
        },
{
    let params: Vec<Value> = Vec::new();
    run_count(handle, "SELECT COUNT(*) FROM words", &params)
}

/// How many word entries a language has: the count that the first row from
/// the store holds.
pub fn get_word_count_by_language(handle: &DictHandle, language: &str) -> (r: Result<
    i64,
    DictError,
>)
    ensures
        match r {
            Ok(count) => exists|rows: Seq<Row>| count == #[trigger] count_in(rows),
            Err(e) => e is Database,
        },
{
    let params: Vec<Value> = vec![sql_text(language)];
    run_count(handle, "SELECT COUNT(*) FROM words WHERE language = ?", &params)
}

/// Rebuilds the text index from the words; of use after bulk changes.
pub fn rebuild_fts_index(conn: &Connection) -> (r: Result<(), DictError>)
    ensures
        r matches Err(e) ==> e is Database,
{
    match execute_batch(
        conn,
        "DELETE FROM words_fts; INSERT INTO words_fts(rowid, word) SELECT id, word FROM words;",
    ) {
        Ok(_) => Ok(()),
        Err(e) => Err(DictError::Database(e)),
    }
}

/// Has the text index tidy itself for faster searches.
pub fn optimize_fts_index(conn: &Connection) -> (r: Result<(), DictError>)
    ensures
        r matches Err(e) ==> e is Database,
{
    let params: Vec<Value> = Vec::new();
    match execute(conn, "INSERT INTO words_fts(words_fts) VALUES('optimize')", &params) {
        Ok(_) => Ok(()),
        Err(e) => Err(DictError::Database(e)),
    }
}

} // verus!
