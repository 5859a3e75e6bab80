//! A dictionary in SQLite and the search over it: exact, prefix, indexed and
//! typo-tolerant matches, merged into one ranked, paged list.

pub mod cdn;
pub mod db;
pub mod distance;
pub mod edits;
pub mod ffi;
pub mod import;
pub mod json;
pub mod models;
pub mod preview;
pub mod query;
pub mod rank;
pub mod report;
pub mod search;
pub mod store;
pub mod text;

pub use models::{Definition, FullDefinition, Pronunciation, SearchResult, Translation, Word};

use std::sync::Arc;
use vstd::prelude::*;
use vstd::string::StringExecFns;

verus! {

/// What reading from a file or a stream failed with.
#[verifier::external_type_specification]
#[verifier::external_body]
pub struct ExIoError(std::io::Error);

/// Errors that can occur in dictionary operations.
#[derive(Debug)]
pub enum DictError {
    /// SQLite failed, or a value could not be converted from or to it.
    Database(rusqlite::Error),
    /// Reading a file failed.
    Io(std::io::Error),
    /// A JSON text could not be written or read.
    Json(serde_json::Error),
    /// The dictionary was used before it was opened.
    NotInitialized,
    /// The database cannot be at this path.
    InvalidPath(String),
}

/// `ToString::to_string` on a `rusqlite::Error` gives its description.
#[verifier::external_body]
fn describe_database_error(e: &rusqlite::Error) -> (text: String) {
    e.to_string()
}

/// `ToString::to_string` on a `std::io::Error` gives its description.
#[verifier::external_body]
fn describe_io_error(e: &std::io::Error) -> (text: String) {
    e.to_string()
}

/// `ToString::to_string` on a `serde_json::Error` gives its description.
#[verifier::external_body]
fn describe_json_error(e: &serde_json::Error) -> (text: String) {
    e.to_string()
}

impl DictError {
    /// What every message for this kind of error begins with; for the kinds
    /// that carry nothing from outside, the whole message.
    pub open spec fn heading(&self) -> Seq<char> {
        match self {
            DictError::Database(_) => "Database error: "@,
            DictError::Io(_) => "IO error: "@,
            DictError::Json(_) => "JSON parsing error: "@,
            DictError::NotInitialized => "Database not initialized"@,
            DictError::InvalidPath(path) => "Invalid database path: "@ + path@,
        }
    }

    /// The error in words: its heading, and behind it what the error from
    /// outside says of itself, where there is one.
    pub fn message(&self) -> (text: String)
        ensures
            text@.len() >= self.heading().len(),
            text@.take(self.heading().len() as int) == self.heading(),
            (self is NotInitialized || self is InvalidPath) ==> text@ == self.heading(),
    {
        match self {
            DictError::Database(e) => {
                let detail = describe_database_error(e);
                let text = String::from_str("Database error: ").concat(detail.as_str());
                proof {
                    assert(text@.take(self.heading().len() as int) =~= self.heading());
                }
                text
            },
            DictError::Io(e) => {
                let detail = describe_io_error(e);
                let text = String::from_str("IO error: ").concat(detail.as_str());
                proof {
                    assert(text@.take(self.heading().len() as int) =~= self.heading());
                }
                text
            },
            DictError::Json(e) => {
                let detail = describe_json_error(e);
                let text = String::from_str("JSON parsing error: ").concat(detail.as_str());
                proof {
                    assert(text@.take(self.heading().len() as int) =~= self.heading());
                }
                text
            },
            DictError::NotInitialized => {
                let text = String::from_str("Database not initialized");
                proof {
                    assert(text@.take(text@.len() as int) =~= text@);
                }
                text
            },
            DictError::InvalidPath(path) => {
                let text = String::from_str("Invalid database path: ").concat(path.as_str());
                proof {
                    assert(text@.take(text@.len() as int) =~= text@);
                }
                text
            },
        }
    }
}

impl From<rusqlite::Error> for DictError {
    fn from(e: rusqlite::Error) -> (r: DictError) {
        DictError::Database(e)
    }
}

impl vstd::std_specs::convert::FromSpecImpl<rusqlite::Error> for DictError {
    open spec fn obeys_from_spec() -> bool {
        true
    }

    open spec fn from_spec(e: rusqlite::Error) -> DictError {
        DictError::Database(e)
    }
}

impl From<std::io::Error> for DictError {
    fn from(e: std::io::Error) -> (r: DictError) {
        DictError::Io(e)
    }
}

impl vstd::std_specs::convert::FromSpecImpl<std::io::Error> for DictError {
    open spec fn obeys_from_spec() -> bool {
        true
    }

    open spec fn from_spec(e: std::io::Error) -> DictError {
        DictError::Io(e)
    }
}

impl From<serde_json::Error> for DictError {
    fn from(e: serde_json::Error) -> (r: DictError) {
        DictError::Json(e)
    }
}

impl vstd::std_specs::convert::FromSpecImpl<serde_json::Error> for DictError {
    open spec fn obeys_from_spec() -> bool {
        true
    }

    open spec fn from_spec(e: serde_json::Error) -> DictError {
        DictError::Json(e)
    }
}

/// Handle to an opened dictionary database.
pub struct DictHandle {
    pub(crate) conn: Arc<rusqlite::Connection>,
}

impl DictHandle {
    /// The connection that this handle holds.
    pub closed spec fn held(&self) -> rusqlite::Connection {
        *self.conn
    }

    /// The connection to the database behind this handle.
    pub fn connection(&self) -> (conn: &rusqlite::Connection)
        ensures
            *conn == self.held(),
    {
        &self.conn
    }
}

/// Opens the dictionary at `db_path`, creating the database if it is not
/// there.
pub fn init(db_path: &str) -> (r: Result<DictHandle, DictError>)
    ensures
        r matches Err(e) ==> e is Database,
{
    db::init_database(db_path)
}

/// Searches the dictionary for `query` and returns the best `limit` results.
/// A blank query, or a search for no results at all, succeeds with nothing
/// and asks nothing of the store; a lookup that fails is handed on as it is.
pub fn search(handle: &DictHandle, query: &str, limit: u32) -> (r: Result<
    Vec<SearchResult>,
    DictError,
>)
    ensures
        r matches Err(e) ==> e is Database && text::trimmed(query@).len() > 0 && limit > 0,
        r matches Ok(results) ==> exists|a: search::StoreAnswers|
            search::from_store(a) && models::hits(results@) == search::search_outcome(
                query@,
                limit,
                0,
                a,
            ),
        r matches Ok(results) ==> rank::distinct_ids(models::hits(results@))
            && rank::sorted_by_score(models::hits(results@)) && results@.len() <= limit,
        text::trimmed(query@).len() == 0 || limit == 0 ==> (r matches Ok(results)
            && results@.len() == 0),
{
    search::search_words(handle, query, limit)
}

/// Searches the dictionary for `query` and returns the window of at most
/// `limit` results that begins `offset` results into the ranking. A blank
/// query, or a search for no results at all, succeeds with nothing and asks
/// nothing of the store; a lookup that fails is handed on as it is.
pub fn search_with_offset(handle: &DictHandle, query: &str, limit: u32, offset: u32) -> (r:
    Result<Vec<SearchResult>, DictError>)
    ensures
        r matches Err(e) ==> e is Database && text::trimmed(query@).len() > 0 && rank::demand(
            limit,
            offset,
        ) > 0,
        r matches Ok(results) ==> exists|a: search::StoreAnswers|
            search::from_store(a) && models::hits(results@) == search::search_outcome(
                query@,
                limit,
                offset,
                a,
            ),
        r matches Ok(results) ==> rank::distinct_ids(models::hits(results@))
            && rank::sorted_by_score(models::hits(results@)) && results@.len() <= limit,
        text::trimmed(query@).len() == 0 || rank::demand(limit, offset) == 0 ==> (r matches Ok(
            results,
        ) && results@.len() == 0),
{
    search::search_words_offset(handle, query, limit, offset)
}

/// Everything the dictionary holds about the word `word_id`; nothing where
/// there is no such word or the lookup fails. What it gives is what rows of
/// the store stand for, and names no language code.
pub fn get_definition(handle: &DictHandle, word_id: i64) -> (r: Option<FullDefinition>)
    ensures
        db::is_answer_about_word(r),
{
    match db::get_full_definition(handle, word_id) {
        Ok(found) => found,
        Err(_) => None,
    }
}

/// Imports the lines of a source into the database at `db_path`.
pub fn import_jsonl(
    db_path: &str,
    lines: &Vec<import::SourceLine>,
    progress: impl Fn(u64, u64),
) -> (r: Result<(), DictError>)
    requires
        forall|current: u64, total: u64| call_requires(progress, (current, total)),
    ensures
        r matches Err(e) ==> e is Database,
{
    import::import_from_jsonl(db_path, lines, progress)
}

/// Imports the lines of a source into the database at `db_path` and returns
/// the account of the import.
pub fn import_jsonl_with_stats(
    db_path: &str,
    lines: &Vec<import::SourceLine>,
    progress: impl Fn(u64, u64),
) -> (r: Result<import::ImportStats, DictError>)
    requires
        forall|current: u64, total: u64| call_requires(progress, (current, total)),
    ensures
        r matches Err(e) ==> e is Database,
        r matches Ok(stats) ==> import::accounts_for(stats, lines@),
{
    import::import_from_jsonl_with_stats(db_path, lines, progress)
}

} // verus!
