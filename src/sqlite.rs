//! A SQLite connection through `rusqlite`, and the log of what the library does on it.
//!
//! A [`Database`] owns the connection and keeps a ghost log of every call that the
//! library makes on it, with how the call came out. Only the functions of this module
//! write that log: each one makes its call and records it.
use vstd::prelude::*;
use rusqlite::{Connection, Error as SqlError};
use crate::error::{error_text, Error};
use crate::ledger::Ledger;

verus! {

#[verifier::external_type_specification]
#[verifier::external_body]
pub struct ExConnection(rusqlite::Connection);

#[verifier::external_type_specification]
#[verifier::external_body]
pub struct ExSqlError(SqlError);

/// A call that the library made on the database, and how it came out.
pub enum DbCall {
    /// `execute_batch(sql)`.
    Batch { sql: Seq<char>, ok: bool },
    /// `execute(sql, params)` with text parameters.
    Execute { sql: Seq<char>, params: Seq<Seq<char>>, ok: bool },
    /// A query read from its first column: `None` where the query failed, else each
    /// row's text, or `None` for a row that could not be read.
    Query { sql: Seq<char>, rows: Option<Seq<Option<Seq<char>>>> },
    /// The action of the seed at `index` of the list ran on the connection; `failure`
    /// is the text of its error where it failed.
    Action { index: int, failure: Option<Seq<char>> },
}

/// The log entry of a seed action that ran and returned `r`.
pub open spec fn action_call(index: int, r: Result<(), Error>) -> DbCall {
    DbCall::Action {
        index,
        failure: match r {
            Ok(_) => None,
            Err(e) => Some(error_text(e@)),
        },
    }
}

/// An SQLite connection, and the log of the calls that the library made on it.
pub struct Database {
    conn: Connection,
    log: Ghost<Seq<DbCall>>,
}

/// The text of a row that could be read.
pub open spec fn row_text(row: Result<String, SqlError>) -> Option<Seq<char>> {
    match row {
        Ok(s) => Some(s@),
        Err(_) => None,
    }
}

pub open spec fn rows_view(rows: Seq<Result<String, SqlError>>) -> Seq<Option<Seq<char>>> {
    rows.map_values(|r: Result<String, SqlError>| row_text(r))
}

impl Database {
    /// The calls made so far, oldest first.
    pub closed spec fn log(&self) -> Seq<DbCall> {
        self.log@
    }

    pub fn new(conn: Connection) -> (r: Database)
        ensures
            r.log() == Seq::<DbCall>::empty(),
    {
        Database { conn, log: Ghost(Seq::empty()) }
    }

    /// The connection, for reading what the runs left.
    pub fn connection(&self) -> &Connection {
        &self.conn
    }

    pub fn into_connection(self) -> Connection {
        self.conn
    }

    /// Relies on `rusqlite::Connection::execute_batch`: runs every statement of `sql`.
    #[verifier::external_body]
    pub(crate) fn execute_batch(&mut self, sql: &str) -> (r: Result<(), SqlError>)
        ensures
            final(self).log() == old(self).log().push(DbCall::Batch { sql: sql@, ok: r is Ok }),
    {
        self.conn.execute_batch(sql)
    }

    /// Relies on `rusqlite::Connection::execute`: runs one statement with text parameters.
    #[verifier::external_body]
    pub(crate) fn execute(&mut self, sql: &str, params: &[&str]) -> (r: Result<usize, SqlError>)
        ensures
            final(self).log() == old(self).log().push(
                DbCall::Execute { sql: sql@, params: params@.map_values(|p: &str| p@), ok: r is Ok },
            ),
    {
        self.conn.execute(sql, rusqlite::params_from_iter(params.iter()))
    }

    /// Relies on `rusqlite::Connection::prepare`, `Statement::query_map` and `Row::get`:
    /// each row that `sql` yields, read from its first column as text. It takes the
    /// ledger queries only: reporting a value that is not text, `Row::get` reads the
    /// column's name, and `Statement::column_name` panics on a name that is not UTF-8;
    /// the ledgers' column is `id`.
    #[verifier::external_body]
    pub(crate) fn query_first_column(&mut self, sql: &str) -> (r: Result<Vec<Result<String, SqlError>>, SqlError>)
        requires
            sql@ == Ledger::Migrations.select_sql_spec() || sql@ == Ledger::Seeds.select_sql_spec(),
        ensures
            final(self).log() == old(self).log().push(
                DbCall::Query {
                    sql: sql@,
                    rows: match r {
                        Ok(v) => Some(rows_view(v@)),
                        Err(_) => None,
                    },
                },
            ),
    {
        let mut statement = self.conn.prepare(sql)?;
        let rows = statement.query_map([], |row| row.get::<_, String>(0))?;
        let all: Vec<Result<String, SqlError>> = rows.collect();
        Ok(all)
    }

    /// Runs a seed action on the connection, inside the transaction open on it.
    pub(crate) fn run_action<F: Fn(&Connection) -> Result<(), Error>>(&mut self, action: &F, index: usize) -> (r: Result<(), Error>)
        requires
            forall|c: &Connection| #[trigger] action.requires((c,)),
        ensures
            final(self).log() == old(self).log().push(action_call(index as int, r)),
    {
        let r = action(&self.conn);
        self.log = Ghost(self.log@.push(action_call(index as int, r)));
        r
    }
}

/// Relies on `Display for rusqlite::Error`: the error's message.
#[verifier::external_body]
pub(crate) fn error_message(e: &SqlError) -> String {
    e.to_string()
}

impl From<SqlError> for Error {
    fn from(e: SqlError) -> Self {
        Error::Database(error_message(&e))
    }
}

impl vstd::std_specs::convert::FromSpecImpl<SqlError> for Error {
    open spec fn obeys_from_spec() -> bool {
        false
    }

    open spec fn from_spec(v: SqlError) -> Self {
        arbitrary()
    }
}

} // verus!
