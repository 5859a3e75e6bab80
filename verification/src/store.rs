//! The door to SQLite: the few calls that everything said to the database
//! goes through, and the plain rows that come back.

use rusqlite::types::Value;
use rusqlite::{params_from_iter, Connection, OpenFlags};
use vstd::prelude::*;

verus! {

/// A connection to an SQLite database.
#[verifier::external_type_specification]
#[verifier::external_body]
pub struct ExConnection(rusqlite::Connection);

/// What SQLite, or the conversion of a value from or to it, failed with.
#[verifier::external_type_specification]
#[verifier::external_body]
pub struct ExSqliteError(rusqlite::Error);

/// A value that is bound to a parameter of a statement.
#[verifier::external_type_specification]
#[verifier::external_body]
pub struct ExSqlValue(rusqlite::types::Value);

/// Open the database for reading only.
pub const OPEN_READ_ONLY: i32 = 0x0000_0001;

/// Open the database for reading and writing.
pub const OPEN_READ_WRITE: i32 = 0x0000_0002;

/// Create the database if it is not there.
pub const OPEN_CREATE: i32 = 0x0000_0004;

/// Take the path for a URI where it has the form of one.
pub const OPEN_URI: i32 = 0x0000_0040;

/// Leave the locking between threads to the caller.
pub const OPEN_NO_MUTEX: i32 = 0x0000_8000;

/// Which columns of a result a query reads, and as what.
pub struct RowShape {
    /// Columns read as integers.
    pub ints: Vec<usize>,
    /// Columns read as 32-bit integers.
    pub smalls: Vec<usize>,
    /// Columns read as text.
    pub texts: Vec<usize>,
    /// Columns read as text that may be missing.
    pub nullable: Vec<usize>,
}

/// One row of a result: the values of the columns that were asked for, in
/// the order of the shape.
pub struct Row {
    pub ints: Vec<i64>,
    pub smalls: Vec<i32>,
    pub texts: Vec<String>,
    pub nullable: Vec<Option<String>>,
}

/// Whether `row` has one value for each column of `shape`.
pub open spec fn fits(row: Row, shape: RowShape) -> bool {
    &&& row.ints@.len() == shape.ints@.len()
    &&& row.smalls@.len() == shape.smalls@.len()
    &&& row.texts@.len() == shape.texts@.len()
    &&& row.nullable@.len() == shape.nullable@.len()
}

/// `Connection::open_with_flags` opens the database at `path` with the flags
/// whose bits are set in `flags`. Whether it succeeds is up to the file
/// system and SQLite.
#[verifier::external_body]
pub(crate) fn open_with_flags(path: &str, flags: i32) -> (r: Result<Connection, rusqlite::Error>) {
    Connection::open_with_flags(path, OpenFlags::from_bits_truncate(flags))
}

/// `Connection::execute_batch` runs the statements of `sql` one after the
/// other. What they do is up to the database.
#[verifier::external_body]
pub(crate) fn execute_batch(conn: &Connection, sql: &str) -> (r: Result<(), rusqlite::Error>) {
    conn.execute_batch(sql)
}

/// `Value::Integer` is the SQL value of an integer.
#[verifier::external_body]
pub(crate) fn sql_int(i: i64) -> (v: Value) {
    Value::Integer(i)
}

/// `Value::Text` is the SQL value of a text.
#[verifier::external_body]
pub(crate) fn sql_text(s: &str) -> (v: Value) {
    Value::Text(s.to_string())
}

/// `Value::Null` is the SQL value that stands for nothing.
#[verifier::external_body]
pub(crate) fn sql_null() -> (v: Value) {
    Value::Null
}

/// `Connection::execute` runs one statement, with `params` bound to its
/// parameters in order, and returns how many rows it changed. What it does
/// is up to the database.
#[verifier::external_body]
pub(crate) fn execute(conn: &Connection, sql: &str, params: &Vec<Value>) -> (r: Result<
    usize,
    rusqlite::Error,
>) {
    conn.execute(sql, params_from_iter(params.iter()))
}

/// `Connection::last_insert_rowid` returns the row id of the most recent
/// successful insert on this connection.
#[verifier::external_body]
pub(crate) fn last_insert_rowid(conn: &Connection) -> (id: i64) {
    conn.last_insert_rowid()
}

/// `Connection::prepare` and `Statement::query_map` run one query, with
/// `params` bound to its parameters in order, and `Row::get` reads from each
/// row of the result the columns that `shape` names. Which rows come back is
/// up to the database; each has one value for each column of the shape.
#[verifier::external_body]
pub(crate) fn query_rows(conn: &Connection, sql: &str, params: &Vec<Value>, shape: &RowShape) -> (r:
    Result<Vec<Row>, rusqlite::Error>)
    ensures
        r matches Ok(rows) ==> forall|i: int|
            0 <= i < rows@.len() ==> fits(#[trigger] rows@[i], *shape),
{
    conn.prepare(sql)?.query_map(params_from_iter(params.iter()), |row| {
        Ok(Row {
            ints: shape.ints.iter().map(|c| row.get(*c)).collect::<Result<_, _>>()?,
            smalls: shape.smalls.iter().map(|c| row.get(*c)).collect::<Result<_, _>>()?,
            texts: shape.texts.iter().map(|c| row.get(*c)).collect::<Result<_, _>>()?,
            nullable: shape.nullable.iter().map(|c| row.get(*c)).collect::<Result<_, _>>()?,
        })
    })?.collect()
}

} // verus!
