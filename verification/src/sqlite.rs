//! SQLite, as far as the event store uses it.
//!
//! The database itself is the `rusqlite` crate's. This module declares its connection, names what
//! a connection holds, and says what each call does to it for the statements of the store.

use vstd::prelude::*;

use crate::like::{c_text, like};
use crate::table::{follows_activity, is_listing, trimmed, upserted, Listed, Rows, Sighting,
    StoredRow, TableState};

verus! {

/// Creates the event table and its indexes where they do not exist yet.
///
/// `path` is unique: the table has one row per path. `count` is the number of hits, `first_seen`
/// the time of the first one. `last_activity` orders the rows by their latest hit; `seq` cannot,
/// because a hit on a known path leaves the row's `seq` as it is.
pub const SCHEMA_SQL: &'static str = "
CREATE TABLE IF NOT EXISTS file_events (
    seq           INTEGER PRIMARY KEY AUTOINCREMENT,
    last_activity INTEGER NOT NULL,
    time_str      TEXT NOT NULL,
    pid           INTEGER NOT NULL,
    process_name  TEXT NOT NULL,
    operation     TEXT NOT NULL,
    path          TEXT NOT NULL UNIQUE,
    detail        TEXT NOT NULL,
    count         INTEGER NOT NULL DEFAULT 1,
    first_seen    TEXT NOT NULL
);
CREATE INDEX IF NOT EXISTS idx_file_events_path ON file_events(path);
CREATE INDEX IF NOT EXISTS idx_file_events_last_activity ON file_events(last_activity);
";

/// The version of the schema, kept in the database header as `user_version`.
pub const SCHEMA_VERSION: i64 = 1;

/// Records the version of the schema in the database header.
pub const SET_VERSION_SQL: &'static str = "PRAGMA user_version = 1";

/// Reads the version of the schema from the database header.
pub const GET_VERSION_SQL: &'static str = "PRAGMA user_version";

/// Makes a connection disregard foreign keys.
pub const KEYS_OFF_SQL: &'static str = "PRAGMA foreign_keys = OFF";

/// Removes the event table, whatever its layout.
pub const DROP_SQL: &'static str = "DROP TABLE IF EXISTS file_events";

/// Stores an event: a new path gets a row, a known path one more hit and the latest values.
pub const UPSERT_SQL: &'static str = "INSERT INTO file_events
    (last_activity, time_str, pid, process_name, operation, path, detail, count, first_seen)
 VALUES (?1, ?2, ?3, ?4, ?5, ?6, ?7, 1, ?2)
 ON CONFLICT(path) DO UPDATE SET
    last_activity = excluded.last_activity,
    time_str      = excluded.time_str,
    pid           = excluded.pid,
    process_name  = excluded.process_name,
    operation     = excluded.operation,
    detail        = excluded.detail,
    count         = file_events.count + 1";

/// Removes all rows but the most recently active ones, as many as the parameter says.
pub const TRIM_SQL: &'static str = "DELETE FROM file_events
 WHERE seq IN (
     SELECT seq FROM file_events
     ORDER BY last_activity DESC
     LIMIT -1 OFFSET ?1
 )";

/// Removes all rows.
pub const CLEAR_SQL: &'static str = "DELETE FROM file_events";

/// The activity number that follows all those in use.
pub const NEXT_ACTIVITY_SQL: &'static str =
    "SELECT COALESCE(MAX(last_activity), 0) + 1 FROM file_events";

/// The number of rows.
pub const COUNT_SQL: &'static str = "SELECT COUNT(*) FROM file_events";

/// The most recently active rows.
pub const RECENT_SQL: &'static str =
    "SELECT seq, last_activity, time_str, pid, process_name, operation, path, detail, count, first_seen
 FROM file_events ORDER BY last_activity DESC LIMIT ?1";

/// The most recently active rows whose path, process name, operation or detail matches a pattern.
pub const SEARCH_SQL: &'static str =
    "SELECT seq, last_activity, time_str, pid, process_name, operation, path, detail, count, first_seen
 FROM file_events
 WHERE path LIKE ?1 ESCAPE '\\'
    OR process_name LIKE ?1 ESCAPE '\\'
    OR operation LIKE ?1 ESCAPE '\\'
    OR detail LIKE ?1 ESCAPE '\\'
 ORDER BY last_activity DESC LIMIT ?2";

/// A connection to a database. Its fields stay hidden.
#[verifier::external_type_specification]
#[verifier::external_body]
pub struct ExConnection(rusqlite::Connection);

/// What a failed call reports. Its variants stay hidden.
#[verifier::external_type_specification]
#[verifier::external_body]
pub struct ExSqliteError(rusqlite::Error);

/// The rows of the event table in the database of a connection, by path.
pub uninterp spec fn stored_rows(conn: rusqlite::Connection) -> Map<Seq<char>, StoredRow>;

/// How the event table in the database of a connection is laid out. With triggers on it, it counts
/// as foreign.
pub uninterp spec fn stored_layout(conn: rusqlite::Connection) -> TableState;

/// The `user_version` in the header of the database of a connection.
pub uninterp spec fn stored_version(conn: rusqlite::Connection) -> int;

/// Whether the database is a private one in memory, which only this connection can change. The
/// connection has no open transaction, no temporary or attached tables, and the settings that
/// SQLite is built with, apart from the one on foreign keys.
pub uninterp spec fn in_memory(conn: rusqlite::Connection) -> bool;

/// Whether a connection disregards foreign keys. A change of a table without triggers then leads
/// to no change of another table.
pub uninterp spec fn disregards_keys(conn: rusqlite::Connection) -> bool;

/// Whether a connection keeps texts in UTF-8, and so keeps every text as it is. SQLite's other
/// encodings lose U+FFFE and U+FFFF.
pub uninterp spec fn is_utf8(conn: rusqlite::Connection) -> bool;

/// What a database holds.
#[verifier::ext_equal]
pub struct Contents {
    pub rows: Rows,
    pub layout: TableState,
    pub version: int,
}

/// What the database of `conn` holds.
pub open spec fn contents(conn: rusqlite::Connection) -> Contents {
    Contents {
        rows: stored_rows(conn),
        layout: stored_layout(conn),
        version: stored_version(conn),
    }
}

/// A parameter of a statement.
pub enum SqlValue {
    Integer(i64),
    Text(String),
}

/// The cells of a row of the event table, in the order in which the queries name the columns.
pub type EventColumns = (i64, i64, String, u32, String, String, String, String, i64, String);

/// The line that a row's cells stand for.
pub open spec fn columns_line(cols: EventColumns) -> Listed {
    Listed {
        path: cols.6@,
        row: StoredRow {
            seq: cols.0 as int,
            last_activity: cols.1 as int,
            time_str: cols.2@,
            pid: cols.3 as int,
            process_name: cols.4@,
            operation: cols.5@,
            detail: cols.7@,
            count: cols.8 as int,
            first_seen: cols.9@,
        },
    }
}

/// The lines that an answer's rows stand for.
pub open spec fn columns_lines(out: Seq<EventColumns>) -> Seq<Listed> {
    out.map_values(|cols: EventColumns| columns_line(cols))
}

/// The parameters of [`UPSERT_SQL`] are the activity number and the parts of `ev`.
pub open spec fn upsert_params(params: Seq<SqlValue>, activity: int, ev: Sighting) -> bool {
    &&& params.len() == 7
    &&& params[0] matches SqlValue::Integer(v) && v == activity
    &&& params[1] matches SqlValue::Text(v) && v@ == ev.time_str
    &&& params[2] matches SqlValue::Integer(v) && v == ev.pid && 0 <= v <= u32::MAX
    &&& params[3] matches SqlValue::Text(v) && v@ == ev.process_name
    &&& params[4] matches SqlValue::Text(v) && v@ == ev.operation
    &&& params[5] matches SqlValue::Text(v) && v@ == ev.path
    &&& params[6] matches SqlValue::Text(v) && v@ == ev.detail
}

/// The parameter of [`TRIM_SQL`] is the number of rows to keep.
pub open spec fn trim_params(params: Seq<SqlValue>, keep: nat) -> bool {
    &&& params.len() == 1
    &&& params[0] matches SqlValue::Integer(v) && v == keep
}

/// The parameter of [`RECENT_SQL`] is the limit.
pub open spec fn recent_params(params: Seq<SqlValue>, limit: int) -> bool {
    &&& params.len() == 1
    &&& params[0] matches SqlValue::Integer(v) && v == limit
}

/// The parameters of [`SEARCH_SQL`] are the pattern and the limit.
pub open spec fn search_params(params: Seq<SqlValue>, pattern: Seq<char>, limit: int) -> bool {
    &&& params.len() == 2
    &&& params[0] matches SqlValue::Text(v) && v@ == pattern
    &&& params[1] matches SqlValue::Integer(v) && v == limit
}

/// A private database with an event table that only statements on the table itself change.
pub open spec fn has_events(conn: rusqlite::Connection) -> bool {
    in_memory(conn) && disregards_keys(conn) && stored_layout(conn) is Events
}

/// `sql` is one of the statements that change the event table.
pub open spec fn is_change(sql: Seq<char>) -> bool {
    sql == DROP_SQL@ || sql == UPSERT_SQL@ || sql == TRIM_SQL@ || sql == CLEAR_SQL@
}

/// A database keeps `s` as it is, whatever its encoding.
pub open spec fn is_storable(s: Seq<char>) -> bool {
    !s.contains('\u{FFFE}') && !s.contains('\u{FFFF}')
}

/// A database keeps the texts of `ev` as they are, whatever its encoding.
pub open spec fn is_plain_sighting(ev: Sighting) -> bool {
    &&& is_storable(ev.time_str)
    &&& is_storable(ev.process_name)
    &&& is_storable(ev.operation)
    &&& is_storable(ev.path)
    &&& is_storable(ev.detail)
}

/// `conn` keeps the texts of `ev` as they are.
pub open spec fn keeps_texts(conn: rusqlite::Connection, ev: Sighting) -> bool {
    is_utf8(conn) || is_plain_sighting(ev)
}

/// One more hit on `path` still fits into a column of 64-bit integers.
pub open spec fn count_has_room(rows: Rows, path: Seq<char>) -> bool {
    rows.contains_key(path) ==> rows[path].count < i64::MAX
}

/// The paths of the rows that match `pattern`.
pub open spec fn matching_paths(rows: Rows, pattern: Seq<char>) -> Set<Seq<char>> {
    rows.dom().filter(|p: Seq<char>| row_matches(pattern, p, rows[p]))
}

/// The path, the process name, the operation or the detail of a row matches `pattern`.
pub open spec fn row_matches(pattern: Seq<char>, path: Seq<char>, row: StoredRow) -> bool {
    ||| like(c_text(pattern), c_text(path))
    ||| like(c_text(pattern), c_text(row.process_name))
    ||| like(c_text(pattern), c_text(row.operation))
    ||| like(c_text(pattern), c_text(row.detail))
}

/// `Connection::open_in_memory` makes a new private database without tables, with 0 in its header,
/// and with texts in UTF-8. It fails when SQLite cannot get the memory for it.
#[verifier::external_body]
pub(crate) fn open_in_memory() -> (r: Result<rusqlite::Connection, rusqlite::Error>)
    ensures
        r matches Ok(conn) ==> in_memory(conn) && is_utf8(conn) && stored_layout(conn) is Missing
            && stored_version(conn) == 0,
{
    rusqlite::Connection::open_in_memory()
}

/// `Connection::execute_batch` runs statements that take no parameters.
///
/// [`SCHEMA_SQL`] leaves a table of that name in place, and otherwise creates an empty one.
/// [`SET_VERSION_SQL`] changes the version alone, and [`KEYS_OFF_SQL`] nothing in the database.
/// What a failed batch leaves behind is not stated, nor what else a database on disk holds, which
/// other connections may change.
#[verifier::external_body]
pub(crate) fn execute_batch(conn: &mut rusqlite::Connection, sql: &str) -> (r: Result<
    (),
    rusqlite::Error,
>)
    requires
        sql@ == SCHEMA_SQL@ || sql@ == SET_VERSION_SQL@ || sql@ == KEYS_OFF_SQL@,
    ensures
        in_memory(*final(conn)) == in_memory(*old(conn)),
        disregards_keys(*old(conn)) ==> disregards_keys(*final(conn)),
        r is Ok && sql@ == KEYS_OFF_SQL@ && in_memory(*old(conn)) ==> disregards_keys(*final(conn))
            && contents(*final(conn)) == contents(*old(conn)),
        in_memory(*old(conn)) ==> is_utf8(*final(conn)) == is_utf8(*old(conn)),
        r is Ok && sql@ == SCHEMA_SQL@ ==> !(stored_layout(*final(conn)) is Missing),
        r is Ok && sql@ == SCHEMA_SQL@ && in_memory(*old(conn)) ==> stored_version(*final(conn))
            == stored_version(*old(conn)) && match stored_layout(*old(conn)) {
            TableState::Missing => stored_layout(*final(conn)) is Events && stored_rows(
                *final(conn),
            ) =~= Map::empty(),
            _ => contents(*final(conn)) == contents(*old(conn)),
        },
        r is Ok && sql@ == SET_VERSION_SQL@ ==> stored_version(*final(conn)) == SCHEMA_VERSION,
        r is Ok && sql@ == SET_VERSION_SQL@ && in_memory(*old(conn)) ==> stored_layout(
            *final(conn),
        ) == stored_layout(*old(conn)) && stored_rows(*final(conn)) == stored_rows(*old(conn)),
{
    conn.execute_batch(sql)
}

/// `Connection::execute` runs one statement that answers nothing, with its parameters.
///
/// [`DROP_SQL`] leaves a private database without an event table. On a private database with an
/// event table, where foreign keys are disregarded, [`UPSERT_SQL`] and [`TRIM_SQL`] change the rows
/// as [`upserted`] and [`trimmed`] say, and [`CLEAR_SQL`] leaves none. When one of the four fails
/// there, all stays as it was. None of them changes the version.
///
/// What a hit does to a count that is the largest 64-bit integer is not stated: SQLite then stores
/// a floating-point number. Nor is what becomes of texts with U+FFFE or U+FFFF in a database whose
/// encoding is not UTF-8.
#[verifier::external_body]
pub(crate) fn execute(
    conn: &mut rusqlite::Connection,
    sql: &str,
    params: &Vec<SqlValue>,
) -> (r: Result<usize, rusqlite::Error>)
    requires
        is_change(sql@),
    ensures
        in_memory(*final(conn)) == in_memory(*old(conn)),
        disregards_keys(*final(conn)) == disregards_keys(*old(conn)),
        in_memory(*old(conn)) ==> is_utf8(*final(conn)) == is_utf8(*old(conn)),
        r is Err && has_events(*old(conn)) ==> contents(*final(conn)) == contents(*old(conn)),
        r is Ok && sql@ == DROP_SQL@ && in_memory(*old(conn)) ==> stored_layout(
            *final(conn),
        ) is Missing,
        in_memory(*old(conn)) ==> stored_version(*final(conn)) == stored_version(*old(conn)),
        forall|activity: int, ev: Sighting|
            r is Ok && sql@ == UPSERT_SQL@ && has_events(*old(conn)) && #[trigger] upsert_params(
                params@,
                activity,
                ev,
            ) && count_has_room(stored_rows(*old(conn)), ev.path) && keeps_texts(*old(conn), ev)
                ==> has_events(*final(conn)) && upserted(
                stored_rows(*old(conn)),
                activity,
                ev,
                stored_rows(*final(conn)),
            ),
        r is Ok && sql@ == CLEAR_SQL@ && has_events(*old(conn)) ==> has_events(*final(conn))
            && stored_rows(*final(conn)) =~= Map::empty(),
        forall|keep: nat|
            r is Ok && sql@ == TRIM_SQL@ && has_events(*old(conn)) && #[trigger] trim_params(
                params@,
                keep,
            ) ==> has_events(*final(conn)) && trimmed(
                stored_rows(*old(conn)),
                keep,
                stored_rows(*final(conn)),
            ),
{
    let values = params.iter().map(|value| match value {
        SqlValue::Integer(number) => rusqlite::types::Value::Integer(*number),
        SqlValue::Text(text) => rusqlite::types::Value::Text(text.clone()),
    });
    conn.execute(sql, rusqlite::params_from_iter(values))
}

/// `Connection::query_row` reads the one number that a query without parameters answers.
///
/// For a private database: its version, and, of an event table, the number of its rows and the
/// activity number that follows them. A number that does not fit into 64 bits is an error.
#[verifier::external_body]
pub(crate) fn query_number(conn: &rusqlite::Connection, sql: &str) -> (r: Result<
    i64,
    rusqlite::Error,
>)
    requires
        sql@ == GET_VERSION_SQL@ || sql@ == COUNT_SQL@ || sql@ == NEXT_ACTIVITY_SQL@,
    ensures
        sql@ == GET_VERSION_SQL@ && in_memory(*conn) ==> (r matches Ok(n) ==> n == stored_version(
            *conn,
        )),
        sql@ == COUNT_SQL@ && has_events(*conn) ==> (r matches Ok(n) ==> n == stored_rows(
            *conn,
        ).len()),
        sql@ == NEXT_ACTIVITY_SQL@ && has_events(*conn) ==> (r matches Ok(n) ==> follows_activity(
            stored_rows(*conn),
            n as int,
        )),
{
    conn.query_row(sql, (), |row| row.get(0))
}

/// `Statement::query_map` reads the rows that a query answers, each converted to a tuple.
///
/// For a private database with an event table: [`RECENT_SQL`] lists all rows and [`SEARCH_SQL`]
/// those that match the pattern, the most recently active first and within the limit.
#[verifier::external_body]
pub(crate) fn query_events(
    conn: &rusqlite::Connection,
    sql: &str,
    params: &Vec<SqlValue>,
) -> (r: Result<Vec<EventColumns>, rusqlite::Error>)
    requires
        sql@ == RECENT_SQL@ || sql@ == SEARCH_SQL@,
    ensures
        forall|limit: int|
            sql@ == RECENT_SQL@ && has_events(*conn) && #[trigger] recent_params(params@, limit)
                ==> (r matches Ok(out) ==> is_listing(
                stored_rows(*conn),
                stored_rows(*conn).dom(),
                limit,
                columns_lines(out@),
            )),
        forall|pattern: Seq<char>, limit: int|
            sql@ == SEARCH_SQL@ && has_events(*conn) && #[trigger] search_params(
                params@,
                pattern,
                limit,
            ) ==> (r matches Ok(out) ==> is_listing(
                stored_rows(*conn),
                matching_paths(stored_rows(*conn), pattern),
                limit,
                columns_lines(out@),
            )),
{
    let values = params.iter().map(|value| match value {
        SqlValue::Integer(number) => rusqlite::types::Value::Integer(*number),
        SqlValue::Text(text) => rusqlite::types::Value::Text(text.clone()),
    });
    let mut statement = conn.prepare(sql)?;
    let rows = statement.query_map(rusqlite::params_from_iter(values), |row| {
        EventColumns::try_from(row)
    })?;
    rows.collect()
}

/// How a copy went: it is complete, it was cut short, or one of the databases was in use.
#[derive(Clone, Copy, Debug, PartialEq, Eq, Structural)]
pub enum CopyOutcome {
    Done,
    Unfinished,
    Busy,
    Locked,
}

/// `Backup::step` copies some pages of a database over another one, all if `pages` is negative. It
/// waits for a database in use only as long as the connections' busy timeouts say.
///
/// When it is done, both hold the same; a source in UTF-8 leaves a target in UTF-8 so. A private
/// source holds what it held before in any case. A source on disk may have changed up to the copy,
/// so nothing is said of what it held earlier, nor of the target of a copy that is not done.
#[verifier::external_body]
pub(crate) fn copy_database(
    from: &mut rusqlite::Connection,
    to: &mut rusqlite::Connection,
    pages: i32,
) -> (r: Result<CopyOutcome, rusqlite::Error>)
    ensures
        in_memory(*final(from)) == in_memory(*old(from)),
        in_memory(*final(to)) == in_memory(*old(to)),
        disregards_keys(*final(from)) == disregards_keys(*old(from)),
        disregards_keys(*final(to)) == disregards_keys(*old(to)),
        in_memory(*old(from)) ==> contents(*final(from)) == contents(*old(from)),
        in_memory(*old(from)) ==> is_utf8(*final(from)) == is_utf8(*old(from)),
        (r matches Ok(CopyOutcome::Done)) ==> contents(*final(to)) == contents(*final(from))
            && stored_rows(*final(to)).dom().finite(),
        (r matches Ok(CopyOutcome::Done)) && is_utf8(*old(to)) && is_utf8(*final(from))
            ==> is_utf8(*final(to)),
{
    Ok(match rusqlite::backup::Backup::new(from, to)?.step(pages)? {
        rusqlite::backup::StepResult::Done => CopyOutcome::Done,
        rusqlite::backup::StepResult::Busy => CopyOutcome::Busy,
        rusqlite::backup::StepResult::Locked => CopyOutcome::Locked,
        _ => CopyOutcome::Unfinished,
    })
}

} // verus!
