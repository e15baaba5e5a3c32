//! The event store: a private SQLite database in memory that takes the frequent writes, and that
//! is copied to a database on disk from time to time.

use vstd::prelude::*;

use crate::like::{like_pattern, search_pattern};
use crate::sqlite::{
    columns_line, columns_lines, contents, copy_database, count_has_room, execute, execute_batch,
    has_events, in_memory, is_plain_sighting, is_utf8, matching_paths, open_in_memory, query_events,
    query_number, recent_params, search_params, stored_layout, stored_rows, stored_version,
    trim_params, upsert_params, Contents, CopyOutcome, EventColumns, SqlValue, CLEAR_SQL, COUNT_SQL,
    DROP_SQL, GET_VERSION_SQL, KEYS_OFF_SQL, NEXT_ACTIVITY_SQL, RECENT_SQL, SCHEMA_SQL,
    SCHEMA_VERSION, SEARCH_SQL, SET_VERSION_SQL, TRIM_SQL, UPSERT_SQL,
};
use crate::table::{
    are_sound, distinct_activity, follows_activity, inserted, is_latest, is_listing,
    trimmed_is_finite, upserted, upserted_is_finite, Listed, Rows, Sighting, StoredRow, TableState,
};
use crate::table_laws::{
    inserted_event_stands_in_its_row, insertion_keeps_rows_sound, listing_is_determined,
    listing_lists_the_latest, newest_path_stays,
    restart_continues_activity, storing_keeps_rows_sound,
};

verus! {

/// The largest number of paths that the store keeps.
pub const MAX_ROWS: i64 = 20_000;

/// How many pages a copy to or from the disk moves: all of them.
const ALL_PAGES: i32 = -1;

/// A path that the store knows, with what it knows of it.
#[derive(Debug)]
pub struct FileEvent {
    pub seq: i64,
    /// The activity number of the latest hit. It grows with every hit on any path.
    pub last_activity: i64,
    /// The time of the latest hit.
    pub time_str: String,
    pub pid: u32,
    pub process_name: String,
    pub operation: String,
    pub path: String,
    pub detail: String,
    /// The number of hits.
    pub count: i64,
    /// The time of the first hit.
    pub first_seen: String,
}

impl FileEvent {
    /// The line of the event table that this is.
    pub open spec fn line(self) -> Listed {
        Listed {
            path: self.path@,
            row: StoredRow {
                seq: self.seq as int,
                last_activity: self.last_activity as int,
                time_str: self.time_str@,
                pid: self.pid as int,
                process_name: self.process_name@,
                operation: self.operation@,
                detail: self.detail@,
                count: self.count as int,
                first_seen: self.first_seen@,
            },
        }
    }
}

impl Clone for FileEvent {
    fn clone(&self) -> (copy: FileEvent)
        ensures
            copy == *self,
    {
        FileEvent {
            seq: self.seq,
            last_activity: self.last_activity,
            time_str: self.time_str.clone(),
            pid: self.pid,
            process_name: self.process_name.clone(),
            operation: self.operation.clone(),
            path: self.path.clone(),
            detail: self.detail.clone(),
            count: self.count,
            first_seen: self.first_seen.clone(),
        }
    }
}

/// The lines of the event table that `events` are.
pub open spec fn event_lines(events: Seq<FileEvent>) -> Seq<Listed> {
    events.map_values(|ev: FileEvent| ev.line())
}

/// An event to be stored. The store gives it its number.
pub struct NewFileEvent {
    pub time_str: String,
    pub pid: u32,
    pub process_name: String,
    pub operation: String,
    pub path: String,
    pub detail: String,
}

impl View for NewFileEvent {
    type V = Sighting;

    open spec fn view(&self) -> Sighting {
        Sighting {
            time_str: self.time_str@,
            pid: self.pid as int,
            process_name: self.process_name@,
            operation: self.operation@,
            path: self.path@,
            detail: self.detail@,
        }
    }
}

/// What the store was doing when SQLite reported an error.
#[derive(Clone, Copy, Debug, PartialEq, Eq, Structural)]
pub enum StoreStep {
    OpenMemory,
    LoadDisk,
    DisregardKeys,
    ReadVersion,
    DropTable,
    CreateSchema,
    SetVersion,
    PrepareDisk,
    ReadActivity,
    Upsert,
    Trim,
    Recent,
    Search,
    Count,
    Flush,
    Clear,
}

/// Why a step of the store failed: what SQLite says of it, or that a database stayed in use for
/// longer than the connection waits.
#[derive(Debug)]
pub enum StoreCause {
    Sqlite(rusqlite::Error),
    Busy,
    Locked,
    Unfinished,
}

/// A step of the store that failed, and why.
#[derive(Debug)]
pub struct StoreError {
    pub step: StoreStep,
    pub cause: StoreCause,
}

impl StoreError {
    /// Whether the database on disk was in use when it was to be loaded, so that opening the store
    /// is to be tried again.
    pub fn is_load_to_retry(&self) -> (r: bool)
        ensures
            r == (self.step is LoadDisk && !(self.cause is Sqlite)),
    {
        match (self.step, &self.cause) {
            (StoreStep::LoadDisk, StoreCause::Busy) => true,
            (StoreStep::LoadDisk, StoreCause::Locked) => true,
            (StoreStep::LoadDisk, StoreCause::Unfinished) => true,
            _ => false,
        }
    }
}

/// What a step of the store comes to: the outcome that SQLite reports, with the step that failed.
pub fn in_step<T>(step: StoreStep, outcome: Result<T, rusqlite::Error>) -> (r: Result<
    T,
    StoreError,
>)
    ensures
        match outcome {
            Ok(v) => r == Ok::<T, StoreError>(v),
            Err(e) => r == Err::<T, StoreError>(
                (StoreError { step, cause: StoreCause::Sqlite(e) }),
            ),
        },
{
    match outcome {
        Ok(v) => Ok(v),
        Err(e) => Err(StoreError { step, cause: StoreCause::Sqlite(e) }),
    }
}

/// What a copy of the store comes to. Only a complete one is a success: the caller may try again
/// after the others.
pub fn copied(step: StoreStep, outcome: Result<CopyOutcome, rusqlite::Error>) -> (r: Result<
    (),
    StoreError,
>)
    ensures
        r is Ok <==> (outcome matches Ok(CopyOutcome::Done)),
        r matches Err(e) ==> e.step == step && e.cause == match outcome {
            Err(cause) => StoreCause::Sqlite(cause),
            Ok(CopyOutcome::Busy) => StoreCause::Busy,
            Ok(CopyOutcome::Locked) => StoreCause::Locked,
            Ok(_) => StoreCause::Unfinished,
        },
{
    match outcome {
        Ok(CopyOutcome::Done) => Ok(()),
        Ok(CopyOutcome::Busy) => Err(StoreError { step, cause: StoreCause::Busy }),
        Ok(CopyOutcome::Locked) => Err(StoreError { step, cause: StoreCause::Locked }),
        Ok(CopyOutcome::Unfinished) => Err(StoreError { step, cause: StoreCause::Unfinished }),
        Err(e) => Err(StoreError { step, cause: StoreCause::Sqlite(e) }),
    }
}

/// The event a row's cells stand for.
pub fn row_to_event(cols: EventColumns) -> (ev: FileEvent)
    ensures
        ev.line() == columns_line(cols),
        ev.seq == cols.0,
        ev.last_activity == cols.1,
        ev.time_str == cols.2,
        ev.pid == cols.3,
        ev.process_name == cols.4,
        ev.operation == cols.5,
        ev.path == cols.6,
        ev.detail == cols.7,
        ev.count == cols.8,
        ev.first_seen == cols.9,
{
    FileEvent {
        seq: cols.0,
        last_activity: cols.1,
        time_str: cols.2,
        pid: cols.3,
        process_name: cols.4,
        operation: cols.5,
        path: cols.6,
        detail: cols.7,
        count: cols.8,
        first_seen: cols.9,
    }
}

/// The events that the rows of an answer stand for, in order.
pub fn rows_to_events(rows: Vec<EventColumns>) -> (events: Vec<FileEvent>)
    ensures
        event_lines(events@) == columns_lines(rows@),
        events@.len() == rows@.len(),
        forall|i: int|
            0 <= i < rows@.len() ==> {
                let ev = #[trigger] events@[i];
                &&& ev.seq == rows@[i].0
                &&& ev.last_activity == rows@[i].1
                &&& ev.time_str == rows@[i].2
                &&& ev.pid == rows@[i].3
                &&& ev.process_name == rows@[i].4
                &&& ev.operation == rows@[i].5
                &&& ev.path == rows@[i].6
                &&& ev.detail == rows@[i].7
                &&& ev.count == rows@[i].8
                &&& ev.first_seen == rows@[i].9
            },
{
    let mut events: Vec<FileEvent> = Vec::new();
    let ghost all = rows@;
    for cols in it: rows
        invariant
            it.seq() == all,
            event_lines(events@) == columns_lines(all.take(it.index() as int)),
            events@.len() == it.index(),
            forall|i: int|
                0 <= i < it.index() ==> {
                    let ev = #[trigger] events@[i];
                    &&& ev.seq == all[i].0
                    &&& ev.last_activity == all[i].1
                    &&& ev.time_str == all[i].2
                    &&& ev.pid == all[i].3
                    &&& ev.process_name == all[i].4
                    &&& ev.operation == all[i].5
                    &&& ev.path == all[i].6
                    &&& ev.detail == all[i].7
                    &&& ev.count == all[i].8
                    &&& ev.first_seen == all[i].9
                },
    {
        let ghost before = events@;
        let ev = row_to_event(cols);
        events.push(ev);
        assert(event_lines(events@) =~= event_lines(before).push(ev.line()));
        assert(columns_lines(all.take(it.index() + 1)) =~= columns_lines(
            all.take(it.index() as int),
        ).push(columns_line(all[it.index() as int])));
    }
    assert(all.take(all.len() as int) =~= all);
    events
}

/// The activity number behind `n`. After the largest 64-bit integer comes the smallest.
pub open spec fn next_number(n: int) -> int {
    if n == i64::MAX {
        i64::MIN as int
    } else {
        n + 1
    }
}

/// What a store holds that starts without a database on disk.
pub open spec fn fresh_contents() -> Contents {
    Contents { rows: Map::empty(), layout: TableState::Events, version: SCHEMA_VERSION as int }
}

/// What a store holds that starts from a database on disk. A table of an older version is given
/// up for an empty one; a table of this version is taken as it is.
pub open spec fn restored_contents(held: Contents) -> Contents {
    if held.version < SCHEMA_VERSION {
        fresh_contents()
    } else if held.layout is Missing {
        Contents { version: held.version, ..fresh_contents() }
    } else {
        held
    }
}

/// A new database on disk was given the schema and its version. That the table is then there and
/// empty is stated for a database that nobody else can write to meanwhile.
pub open spec fn prepared_disk(
    before: rusqlite::Connection,
    after: rusqlite::Connection,
) -> bool {
    &&& stored_version(after) == SCHEMA_VERSION
    &&& in_memory(before) && stored_layout(before) is Missing ==> contents(after)
        == fresh_contents()
}

/// SQLite refused a statement that changes the rows of `before`, with `error`.
spec fn change_refused(
    before: rusqlite::Connection,
    sql: Seq<char>,
    params: Seq<SqlValue>,
    error: rusqlite::Error,
) -> bool {
    exists|conn: &mut rusqlite::Connection, text: &str, values: &Vec<SqlValue>| #[trigger]
        call_ensures(execute, (conn, text, values), Err(error)) && *conn == before && text@ == sql
            && values@ == params
}

/// SQLite refused to cut the rows of a store down to 20,000, with `error`.
pub closed spec fn trim_refused(error: rusqlite::Error) -> bool {
    exists|before: rusqlite::Connection, params: Seq<SqlValue>| #[trigger]
        change_refused(before, TRIM_SQL@, params, error) && trim_params(params, 20_000)
}

/// SQLite refused a batch of statements on some database, with `error`.
spec fn batch_refused(sql: Seq<char>, error: rusqlite::Error) -> bool {
    exists|conn: &mut rusqlite::Connection, text: &str| #[trigger]
        call_ensures(execute_batch, (conn, text), Err(error)) && text@ == sql
}

/// SQLite refused to answer `sql` with a number, with `error`.
spec fn number_refused(conn: rusqlite::Connection, sql: Seq<char>, error: rusqlite::Error) -> bool {
    exists|text: &str| #[trigger]
        call_ensures(query_number, (&conn, text), Err(error)) && text@ == sql
}

/// SQLite refused to answer `sql` with rows, with `error`.
spec fn rows_refused(
    conn: rusqlite::Connection,
    sql: Seq<char>,
    params: Seq<SqlValue>,
    error: rusqlite::Error,
) -> bool {
    exists|text: &str, values: &Vec<SqlValue>| #[trigger]
        call_ensures(query_events, (&conn, text, values), Err(error)) && text@ == sql && values@
            == params
}

/// A copy of all pages of one database over another came to `outcome`.
spec fn copy_came_to(
    from: rusqlite::Connection,
    to: rusqlite::Connection,
    outcome: Result<CopyOutcome, rusqlite::Error>,
) -> bool {
    exists|source: &mut rusqlite::Connection, target: &mut rusqlite::Connection, pages: i32|
        #[trigger] call_ensures(copy_database, (source, target, pages), outcome) && *source == from
            && *target == to && pages < 0
}

/// SQLite refused what a step of opening a store asks of it, with `error`.
pub closed spec fn opening_refused(step: StoreStep, error: rusqlite::Error) -> bool {
    match step {
        StoreStep::OpenMemory => call_ensures(open_in_memory, (), Err(error)),
        StoreStep::DisregardKeys => batch_refused(KEYS_OFF_SQL@, error),
        StoreStep::ReadVersion => exists|conn: rusqlite::Connection| #[trigger]
            number_refused(conn, GET_VERSION_SQL@, error),
        StoreStep::DropTable => exists|conn: rusqlite::Connection, params: Seq<SqlValue>|
            #[trigger] change_refused(conn, DROP_SQL@, params, error),
        StoreStep::CreateSchema => batch_refused(SCHEMA_SQL@, error),
        StoreStep::SetVersion => batch_refused(SET_VERSION_SQL@, error),
        StoreStep::PrepareDisk => batch_refused(SCHEMA_SQL@, error) || batch_refused(
            SET_VERSION_SQL@,
            error,
        ),
        StoreStep::ReadActivity => exists|conn: rusqlite::Connection| #[trigger]
            number_refused(conn, NEXT_ACTIVITY_SQL@, error),
        _ => false,
    }
}

/// A copy of the database of `disk` into memory came to `outcome`.
pub closed spec fn load_came_to(
    disk: rusqlite::Connection,
    outcome: Result<CopyOutcome, rusqlite::Error>,
) -> bool {
    exists|mem: rusqlite::Connection| #[trigger] copy_came_to(disk, mem, outcome)
}

/// The event store.
pub struct EventStore {
    mem: rusqlite::Connection,
    /// The number of the next activity. It starts behind those of the rows, so that the order of
    /// the rows survives a restart.
    activity_counter: i64,
    /// The copies in the background are to end.
    stopping: bool,
}

impl EventStore {
    /// What the database in memory holds.
    pub closed spec fn db(self) -> Contents {
        contents(self.mem)
    }

    /// The rows of the store.
    pub open spec fn rows(self) -> Rows {
        self.db().rows
    }

    /// The activity number that the next insertion uses.
    pub closed spec fn next_activity(self) -> int {
        self.activity_counter as int
    }

    /// The copies in the background are to end.
    pub closed spec fn is_stopping(self) -> bool {
        self.stopping
    }

    /// The store's own database is a private one in memory.
    pub closed spec fn is_private(self) -> bool {
        in_memory(self.mem)
    }

    /// The store keeps every text as it is.
    pub closed spec fn is_utf8(self) -> bool {
        is_utf8(self.mem)
    }

    /// The store keeps the texts of `ev` as they are.
    pub open spec fn keeps(self, ev: Sighting) -> bool {
        self.is_utf8() || is_plain_sighting(ev)
    }

    /// What holds of a ready store in every state that its functions can bring about: its rows are
    /// sound, and the next activity number is behind theirs.
    pub open spec fn is_sound(self) -> bool {
        &&& self.is_ready()
        &&& are_sound(self.rows())
        &&& is_latest(self.rows(), self.next_activity())
        &&& 1 <= self.next_activity() <= i64::MAX
    }

    /// The store has its event table. Only a database of the current version whose table has
    /// another layout leaves a store that is not ready.
    pub closed spec fn is_ready(self) -> bool {
        has_events(self.mem) && stored_rows(self.mem).dom().finite()
    }

    /// What readiness says of the contents.
    pub proof fn ready_contents(self)
        requires
            self.is_ready(),
        ensures
            self.is_private(),
            self.db().layout is Events,
            self.rows().dom().finite(),
    {
    }

    /// SQLite refused to store `ev` in this store, with `error`.
    pub closed spec fn refuses_upsert(self, ev: Sighting, error: rusqlite::Error) -> bool {
        exists|params: Seq<SqlValue>| #[trigger]
            change_refused(self.mem, UPSERT_SQL@, params, error) && upsert_params(
                params,
                self.next_activity(),
                ev,
            )
    }

    /// SQLite refused to remove the rows of this store, with `error`.
    pub closed spec fn refuses_clear(self, error: rusqlite::Error) -> bool {
        exists|params: Seq<SqlValue>| #[trigger]
            change_refused(self.mem, CLEAR_SQL@, params, error)
    }

    /// SQLite refused to count the rows of this store, with `error`.
    pub closed spec fn refuses_count(self, error: rusqlite::Error) -> bool {
        number_refused(self.mem, COUNT_SQL@, error)
    }

    /// SQLite refused to list the latest rows of this store, with `error`.
    pub closed spec fn refuses_recent(self, limit: int, error: rusqlite::Error) -> bool {
        exists|params: Seq<SqlValue>| #[trigger]
            rows_refused(self.mem, RECENT_SQL@, params, error) && recent_params(params, limit)
    }

    /// SQLite refused to search this store for `keyword`, with `error`.
    pub closed spec fn refuses_search(
        self,
        keyword: Seq<char>,
        limit: int,
        error: rusqlite::Error,
    ) -> bool {
        exists|params: Seq<SqlValue>| #[trigger]
            rows_refused(self.mem, SEARCH_SQL@, params, error) && search_params(
                params,
                search_pattern(keyword),
                limit,
            )
    }

    /// A copy of this store over the database of `disk` came to `outcome`.
    pub closed spec fn copies(
        self,
        disk: rusqlite::Connection,
        outcome: Result<CopyOutcome, rusqlite::Error>,
    ) -> bool {
        copy_came_to(self.mem, disk, outcome)
    }

    /// Makes a store in memory, from the database on disk if there was one.
    ///
    /// A database of an older version holds a table without the unique path and the counting
    /// columns: that table is dropped and made anew, and its rows are lost. Where there was no
    /// database, the new one on disk is given the schema too, so that it is valid before the
    /// first copy. Foreign keys are disregarded: tables that a database may hold beside the event
    /// table have no part in what happens to its rows.
    pub fn open(disk: &mut rusqlite::Connection, existed: bool) -> (r: Result<
        EventStore,
        StoreError,
    >)
        ensures
            r matches Ok(store) ==> {
                &&& !store.is_stopping()
                &&& store.is_private()
                &&& !existed || is_utf8(*final(disk)) ==> store.is_utf8()
                &&& !existed ==> store.is_sound()
                &&& store.is_ready() && are_sound(store.rows()) ==> store.is_sound()
                &&& store.db() == if existed {
                    restored_contents(contents(*final(disk)))
                } else {
                    fresh_contents()
                }
                &&& store.is_ready() <==> store.db().layout is Events
                &&& store.is_ready() ==> follows_activity(store.rows(), store.next_activity())
                &&& !existed ==> prepared_disk(*old(disk), *final(disk))
            },
            in_memory(*final(disk)) == in_memory(*old(disk)),
            existed && in_memory(*old(disk)) ==> contents(*final(disk)) == contents(*old(disk)),
            r matches Err(e) ==> match e.step {
                StoreStep::OpenMemory | StoreStep::DisregardKeys | StoreStep::CreateSchema
                | StoreStep::ReadActivity => true,
                StoreStep::LoadDisk | StoreStep::ReadVersion => existed,
                StoreStep::DropTable => existed && stored_version(*final(disk)) < SCHEMA_VERSION,
                StoreStep::SetVersion => !existed || stored_version(*final(disk))
                    < SCHEMA_VERSION,
                StoreStep::PrepareDisk => !existed,
                _ => false,
            },
            r matches Err(e) ==> !(e.step is LoadDisk) ==> (e.cause matches StoreCause::Sqlite(
                error,
            ) && opening_refused(e.step, error)),
            r matches Err(e) ==> e.step is LoadDisk ==> match e.cause {
                StoreCause::Sqlite(error) => load_came_to(*old(disk), Err(error)),
                StoreCause::Busy => load_came_to(*old(disk), Ok(CopyOutcome::Busy)),
                StoreCause::Locked => load_came_to(*old(disk), Ok(CopyOutcome::Locked)),
                StoreCause::Unfinished => load_came_to(*old(disk), Ok(CopyOutcome::Unfinished)),
            },
            r matches Ok(store) ==> {
                &&& existed && stored_version(*final(disk)) >= 1 && stored_layout(
                    *final(disk),
                ) is Events ==> store.rows() == stored_rows(*final(disk)) && store.db().version
                    == stored_version(*final(disk))
                &&& existed && stored_version(*final(disk)) < 1 || !existed ==> store.rows()
                    == Map::<Seq<char>, StoredRow>::empty() && store.db().version == 1
                    && store.is_ready()
                &&& store.is_ready() ==> forall|p: Seq<char>| #[trigger]
                    store.rows().contains_key(p) ==> store.rows()[p].last_activity
                        < store.next_activity()
                &&& store.is_ready() && store.rows().dom() =~= Set::empty()
                    ==> store.next_activity() == 1
                &&& store.is_ready() && !(store.rows().dom() =~= Set::empty()) ==> exists|
                    p: Seq<char>,
                | #[trigger]
                    store.rows().contains_key(p) && store.rows()[p].last_activity + 1
                        == store.next_activity()
            },
    {
        let opened = open_in_memory();
        let mut mem = in_step(StoreStep::OpenMemory, opened)?;
        if existed {
            let ghost empty = mem;
            let loaded = copy_database(disk, &mut mem, ALL_PAGES);
            assert(copy_came_to(*old(disk), empty, loaded));
            copied(StoreStep::LoadDisk, loaded)?;
        }
        in_step(StoreStep::DisregardKeys, execute_batch(&mut mem, KEYS_OFF_SQL))?;
        let mut old_version = false;
        if existed {
            let answer = query_number(&mem, GET_VERSION_SQL);
            proof {
                if answer is Err {
                    assert(number_refused(mem, GET_VERSION_SQL@, answer->Err_0));
                }
            }
            let version: i64 = in_step(StoreStep::ReadVersion, answer)?;
            old_version = version < SCHEMA_VERSION;
        }
        if old_version {
            let no_params: Vec<SqlValue> = Vec::new();
            let ghost before = mem;
            let dropped = execute(&mut mem, DROP_SQL, &no_params);
            proof {
                if dropped is Err {
                    assert(change_refused(before, DROP_SQL@, no_params@, dropped->Err_0));
                }
            }
            in_step(StoreStep::DropTable, dropped)?;
        }
        in_step(StoreStep::CreateSchema, execute_batch(&mut mem, SCHEMA_SQL))?;
        if old_version || !existed {
            in_step(StoreStep::SetVersion, execute_batch(&mut mem, SET_VERSION_SQL))?;
        }
        if !existed {
            prepare_disk(disk)?;
        }
        let answer = query_number(&mem, NEXT_ACTIVITY_SQL);
        proof {
            if answer is Err {
                assert(number_refused(mem, NEXT_ACTIVITY_SQL@, answer->Err_0));
            }
        }
        let activity_counter: i64 = in_step(StoreStep::ReadActivity, answer)?;
        let store = EventStore { mem, activity_counter, stopping: false };
        assert(store.db() =~= if existed {
            restored_contents(contents(*disk))
        } else {
            fresh_contents()
        });
        Ok(store)
    }

    /// Stores one event. The table has one row per path: a path that is already there gets one
    /// more hit and the values of this event, and keeps the time it was first seen.
    ///
    /// Then the rows are cut down to the [`MAX_ROWS`] most recently active ones. They are cut by
    /// their number, so that hits on a few paths never push out the others, and by activity and
    /// not by `seq`, so that a path that came early and is still in use stays.
    pub fn insert(&mut self, ev: &NewFileEvent) -> (r: Result<(), StoreError>)
        ensures
            final(self).is_stopping() == old(self).is_stopping(),
            final(self).is_private() == old(self).is_private(),
            old(self).is_private() ==> final(self).is_utf8() == old(self).is_utf8(),
            final(self).next_activity() == next_number(old(self).next_activity()),
            old(self).is_sound() && old(self).next_activity() < i64::MAX && old(self).keeps(ev@)
                ==> final(self).is_sound() && (r is Ok ==> 1 <= final(self).rows().len()
                <= MAX_ROWS),
            r matches Err(e) ==> e.step is Upsert || e.step is Trim,
            r matches Err(e) ==> e.step is Upsert ==> (e.cause matches StoreCause::Sqlite(error)
                && old(self).refuses_upsert(ev@, error)),
            r matches Err(e) ==> e.step is Trim ==> (e.cause matches StoreCause::Sqlite(error)
                && trim_refused(error)),
            old(self).next_activity() < i64::MAX ==> final(self).next_activity()
                == old(self).next_activity() + 1,
            r is Ok && old(self).is_ready() && old(self).is_utf8() && (old(
                self,
            ).rows().contains_key(ev.path@) ==> old(self).rows()[ev.path@].count < i64::MAX) && (
            forall|p: Seq<char>| #[trigger]
                old(self).rows().contains_key(p) ==> old(self).rows()[p].last_activity < old(
                    self,
                ).next_activity()) ==> {
                &&& final(self).rows().contains_key(ev.path@)
                &&& final(self).rows()[ev.path@].last_activity == old(self).next_activity()
                &&& final(self).rows()[ev.path@].time_str == ev.time_str@
                &&& final(self).rows()[ev.path@].pid == ev.pid
                &&& final(self).rows()[ev.path@].process_name == ev.process_name@
                &&& final(self).rows()[ev.path@].operation == ev.operation@
                &&& final(self).rows()[ev.path@].detail == ev.detail@
                &&& old(self).rows().contains_key(ev.path@) ==> final(self).rows()[ev.path@].count
                    == old(self).rows()[ev.path@].count + 1 && final(self).rows()[
                ev.path@].first_seen == old(self).rows()[ev.path@].first_seen
                &&& !old(self).rows().contains_key(ev.path@) ==> final(self).rows()[ev.path@].count
                    == 1 && final(self).rows()[ev.path@].first_seen == ev.time_str@
                &&& final(self).rows().dom().len() <= 20_000
                &&& forall|p: Seq<char>|
                    p != ev.path@ && #[trigger] final(self).rows().contains_key(p) ==> old(
                        self,
                    ).rows().contains_key(p) && final(self).rows()[p] == old(self).rows()[p]
                &&& old(self).rows().dom().len() < 20_000 || old(self).rows().dom().len() <= 20_000
                    && old(self).rows().contains_key(ev.path@) ==> forall|p: Seq<char>| #[trigger]
                    old(self).rows().contains_key(p) ==> final(self).rows().contains_key(p)
            },
            old(self).is_ready() && count_has_room(old(self).rows(), ev@.path) && old(self).keeps(
                ev@,
            ) ==> {
                &&& final(self).is_ready()
                &&& final(self).db().version == old(self).db().version
                &&& match r {
                    Ok(_) => inserted(
                        old(self).rows(),
                        old(self).next_activity(),
                        ev@,
                        MAX_ROWS as nat,
                        final(self).rows(),
                    ),
                    Err(e) => if e.step is Upsert {
                        final(self).rows() == old(self).rows()
                    } else {
                        upserted(
                            old(self).rows(),
                            old(self).next_activity(),
                            ev@,
                            final(self).rows(),
                        )
                    },
                }
            },
    {
        let activity = self.activity_counter;
        self.activity_counter = if activity == i64::MAX {
            i64::MIN
        } else {
            activity + 1
        };
        let upsert: Vec<SqlValue> = vec![
            SqlValue::Integer(activity),
            SqlValue::Text(ev.time_str.clone()),
            SqlValue::Integer(ev.pid as i64),
            SqlValue::Text(ev.process_name.clone()),
            SqlValue::Text(ev.operation.clone()),
            SqlValue::Text(ev.path.clone()),
            SqlValue::Text(ev.detail.clone()),
        ];
        assert(upsert_params(upsert@, activity as int, ev@));
        let outcome = execute(&mut self.mem, UPSERT_SQL, &upsert);
        proof {
            if outcome is Err {
                assert(change_refused(old(self).mem, UPSERT_SQL@, upsert@, outcome->Err_0));
            }
        }
        in_step(StoreStep::Upsert, outcome)?;
        let ghost stored = self.mem;
        let ghost mid = stored_rows(self.mem);
        proof {
            if old(self).is_ready() && count_has_room(old(self).rows(), ev@.path)
                && old(self).keeps(ev@) {
                assert(upserted(old(self).rows(), activity as int, ev@, mid));
                upserted_is_finite(old(self).rows(), activity as int, ev@, mid);
                if old(self).is_sound() {
                    storing_keeps_rows_sound(old(self).rows(), activity as int, ev@, mid);
                }
            }
        }
        let trim: Vec<SqlValue> = vec![SqlValue::Integer(MAX_ROWS)];
        assert(trim_params(trim@, MAX_ROWS as nat));
        let outcome = execute(&mut self.mem, TRIM_SQL, &trim);
        proof {
            if outcome is Err {
                assert(change_refused(stored, TRIM_SQL@, trim@, outcome->Err_0));
            }
        }
        in_step(StoreStep::Trim, outcome)?;
        proof {
            if old(self).is_ready() && count_has_room(old(self).rows(), ev@.path)
                && old(self).keeps(ev@) {
                trimmed_is_finite(mid, MAX_ROWS as nat, stored_rows(self.mem));
                assert(inserted(
                    old(self).rows(),
                    activity as int,
                    ev@,
                    MAX_ROWS as nat,
                    stored_rows(self.mem),
                ));
                if forall|p: Seq<char>| #[trigger]
                    old(self).rows().contains_key(p) ==> old(self).rows()[p].last_activity
                        < activity {
                    inserted_event_stands_in_its_row(
                        old(self).rows(),
                        activity as int,
                        ev@,
                        MAX_ROWS as nat,
                        stored_rows(self.mem),
                    );
                }
                if old(self).is_sound() {
                    insertion_keeps_rows_sound(
                        old(self).rows(),
                        activity as int,
                        ev@,
                        MAX_ROWS as nat,
                        stored_rows(self.mem),
                    );
                }
            }
        }
        Ok(())
    }

    /// The most recently active rows, at most `limit` of them; a negative `limit` means all.
    pub fn recent(&self, limit: i64) -> (r: Result<Vec<FileEvent>, StoreError>)
        ensures
            self.is_ready() ==> (r matches Ok(events) ==> is_listing(
                self.rows(),
                self.rows().dom(),
                limit as int,
                event_lines(events@),
            )),
            r matches Err(e) ==> e.step is Recent,
            self.is_ready() ==> (r matches Ok(events) ==> forall|i: int|
                0 <= i < events@.len() ==> {
                    let ev = #[trigger] events@[i];
                    let row = self.rows()[ev.path@];
                    &&& self.rows().contains_key(ev.path@)
                    &&& ev.seq == row.seq
                    &&& ev.last_activity == row.last_activity
                    &&& ev.time_str@ == row.time_str
                    &&& ev.pid == row.pid
                    &&& ev.process_name@ == row.process_name
                    &&& ev.operation@ == row.operation
                    &&& ev.detail@ == row.detail
                    &&& ev.count == row.count
                    &&& ev.first_seen@ == row.first_seen
                }),
            self.is_ready() ==> (r matches Ok(events) ==> forall|i: int, j: int|
                0 <= i < j < events@.len() ==> (#[trigger] events@[i]).path@ != (
                #[trigger] events@[j]).path@ && events@[i].last_activity
                    >= events@[j].last_activity),
            self.is_ready() ==> (r matches Ok(events) ==> events@.len() == if limit < 0
                || self.rows().dom().len() <= limit {
                self.rows().dom().len() as int
            } else {
                limit as int
            }),
            r matches Err(e) ==> (e.cause matches StoreCause::Sqlite(error) && self.refuses_recent(
                limit as int,
                error,
            )),
    {
        let params: Vec<SqlValue> = vec![SqlValue::Integer(limit)];
        assert(recent_params(params@, limit as int));
        let outcome = query_events(&self.mem, RECENT_SQL, &params);
        proof {
            if outcome is Err {
                assert(rows_refused(self.mem, RECENT_SQL@, params@, outcome->Err_0));
            }
        }
        let rows = in_step(StoreStep::Recent, outcome)?;
        let events = rows_to_events(rows);
        proof {
            if self.is_ready() {
                listed_events(self.rows(), self.rows().dom(), limit as int, events@);
            }
        }
        Ok(events)
    }

    /// The most recently active rows whose path, process name, operation or detail contains
    /// `keyword`, at most `limit` of them. This is a coarse filter in the database; the caller
    /// ranks what is left by how well it matches.
    pub fn search(&self, keyword: &str, limit: i64) -> (r: Result<Vec<FileEvent>, StoreError>)
        ensures
            self.is_ready() ==> (r matches Ok(events) ==> is_listing(
                self.rows(),
                matching_paths(self.rows(), search_pattern(keyword@)),
                limit as int,
                event_lines(events@),
            )),
            r matches Err(e) ==> e.step is Search,
            self.is_ready() ==> (r matches Ok(events) ==> forall|i: int|
                0 <= i < events@.len() ==> {
                    let ev = #[trigger] events@[i];
                    let row = self.rows()[ev.path@];
                    &&& self.rows().contains_key(ev.path@)
                    &&& ev.seq == row.seq
                    &&& ev.last_activity == row.last_activity
                    &&& ev.time_str@ == row.time_str
                    &&& ev.pid == row.pid
                    &&& ev.process_name@ == row.process_name
                    &&& ev.operation@ == row.operation
                    &&& ev.detail@ == row.detail
                    &&& ev.count == row.count
                    &&& ev.first_seen@ == row.first_seen
                }),
            self.is_ready() ==> (r matches Ok(events) ==> forall|i: int, j: int|
                0 <= i < j < events@.len() ==> (#[trigger] events@[i]).path@ != (
                #[trigger] events@[j]).path@ && events@[i].last_activity
                    >= events@[j].last_activity),
            self.is_ready() ==> (r matches Ok(events) ==> forall|i: int|
                0 <= i < events@.len() ==> matching_paths(
                    self.rows(),
                    search_pattern(keyword@),
                ).contains((#[trigger] events@[i]).path@)),
            self.is_ready() ==> (r matches Ok(events) ==> ({
                let wanted = matching_paths(self.rows(), search_pattern(keyword@)).len();
                events@.len() == if limit < 0 || wanted <= limit {
                    wanted as int
                } else {
                    limit as int
                }
            })),
            r matches Err(e) ==> (e.cause matches StoreCause::Sqlite(error) && self.refuses_search(
                keyword@,
                limit as int,
                error,
            )),
    {
        let pattern = like_pattern(keyword);
        let params: Vec<SqlValue> = vec![SqlValue::Text(pattern), SqlValue::Integer(limit)];
        assert(search_params(params@, search_pattern(keyword@), limit as int));
        let outcome = query_events(&self.mem, SEARCH_SQL, &params);
        proof {
            if outcome is Err {
                assert(rows_refused(self.mem, SEARCH_SQL@, params@, outcome->Err_0));
            }
        }
        let rows = in_step(StoreStep::Search, outcome)?;
        let events = rows_to_events(rows);
        proof {
            if self.is_ready() {
                let wanted = matching_paths(self.rows(), search_pattern(keyword@));
                listed_events(self.rows(), wanted, limit as int, events@);
            }
        }
        Ok(events)
    }

    /// The number of rows, which is the number of paths.
    pub fn count(&self) -> (r: Result<i64, StoreError>)
        ensures
            self.is_ready() ==> (r matches Ok(n) ==> n == self.rows().len()),
            r matches Err(e) ==> e.step is Count,
            r matches Err(e) ==> (e.cause matches StoreCause::Sqlite(error) && self.refuses_count(
                error,
            )),
    {
        let outcome = query_number(&self.mem, COUNT_SQL);
        proof {
            if outcome is Err {
                assert(number_refused(self.mem, COUNT_SQL@, outcome->Err_0));
            }
        }
        in_step(StoreStep::Count, outcome)
    }

    /// Copies the whole store over the database on disk.
    pub fn flush_to_disk(&mut self, disk: &mut rusqlite::Connection) -> (r: Result<(), StoreError>)
        ensures
            final(self).is_stopping() == old(self).is_stopping(),
            final(self).next_activity() == old(self).next_activity(),
            final(self).is_private() == old(self).is_private(),
            old(self).is_private() ==> final(self).db() == old(self).db() && final(self).is_ready()
                == old(self).is_ready() && final(self).is_utf8() == old(self).is_utf8(),
            old(self).is_sound() ==> final(self).is_sound(),
            in_memory(*final(disk)) == in_memory(*old(disk)),
            r is Ok && is_utf8(*old(disk)) && final(self).is_utf8() ==> is_utf8(*final(disk)),
            r is Ok ==> contents(*final(disk)) == final(self).db(),
            r matches Err(e) ==> e.step is Flush,
            r matches Err(e) ==> exists|outcome: Result<CopyOutcome, rusqlite::Error>|
                {
                    &&& #[trigger] old(self).copies(*old(disk), outcome)
                    &&& outcome != Ok::<CopyOutcome, rusqlite::Error>(CopyOutcome::Done)
                    &&& e.cause is Busy ==> outcome == Ok::<CopyOutcome, rusqlite::Error>(
                        CopyOutcome::Busy,
                    )
                    &&& e.cause is Locked ==> outcome == Ok::<CopyOutcome, rusqlite::Error>(
                        CopyOutcome::Locked,
                    )
                    &&& e.cause is Unfinished ==> outcome == Ok::<CopyOutcome, rusqlite::Error>(
                        CopyOutcome::Unfinished,
                    )
                    &&& e.cause matches StoreCause::Sqlite(error) ==> outcome == Err::<
                        CopyOutcome,
                        rusqlite::Error,
                    >(error)
                },
    {
        let outcome = copy_database(&mut self.mem, disk, ALL_PAGES);
        assert(copy_came_to(old(self).mem, *old(disk), outcome));
        assert(old(self).copies(*old(disk), outcome));
        copied(StoreStep::Flush, outcome)
    }

    /// Removes all rows. The activity numbers go on.
    pub fn clear(&mut self) -> (r: Result<(), StoreError>)
        ensures
            final(self).is_stopping() == old(self).is_stopping(),
            final(self).is_private() == old(self).is_private(),
            old(self).is_private() ==> final(self).is_utf8() == old(self).is_utf8(),
            final(self).next_activity() == old(self).next_activity(),
            r matches Err(e) ==> e.step is Clear,
            r matches Err(e) ==> (e.cause matches StoreCause::Sqlite(error) && old(
                self,
            ).refuses_clear(error)),
            old(self).is_ready() ==> {
                &&& final(self).is_ready()
                &&& final(self).db().version == old(self).db().version
                &&& final(self).rows() == if r is Ok {
                    Map::empty()
                } else {
                    old(self).rows()
                }
            },
            old(self).is_sound() ==> final(self).is_sound(),
    {
        let no_params: Vec<SqlValue> = Vec::new();
        let outcome = execute(&mut self.mem, CLEAR_SQL, &no_params);
        proof {
            if outcome is Err {
                assert(change_refused(old(self).mem, CLEAR_SQL@, no_params@, outcome->Err_0));
            }
        }
        in_step(StoreStep::Clear, outcome)?;
        Ok(())
    }

    /// Ends the copies in the background: the one under way is the last. The caller waits for its
    /// end before it copies for the last time itself. To ask again changes nothing.
    pub fn shutdown(&mut self)
        ensures
            final(self).is_stopping(),
            final(self).is_private() == old(self).is_private(),
            final(self).is_utf8() == old(self).is_utf8(),
            final(self).db() == old(self).db(),
            final(self).is_ready() == old(self).is_ready(),
            final(self).next_activity() == old(self).next_activity(),
            old(self).is_sound() ==> final(self).is_sound(),
    {
        self.stopping = true;
    }

    /// What the thread that copies in the background does next.
    pub fn next_flush_action(&self, event: FlushEvent) -> (action: FlushAction)
        ensures
            flush_action(self.is_stopping(), event, action),
            event is Started || event is Flushed || event is Logged ==> action is Sleep,
            event is Slept && self.is_stopping() ==> action is Stop,
            event is Slept && !self.is_stopping() ==> action is Flush,
            event matches FlushEvent::Failed(reason) ==> (action matches FlushAction::Log(message)
                && message@ == "后台落盘失败: "@ + reason@),
    {
        match event {
            FlushEvent::Started => FlushAction::Sleep,
            FlushEvent::Slept => if self.stopping {
                FlushAction::Stop
            } else {
                FlushAction::Flush
            },
            FlushEvent::Flushed => FlushAction::Sleep,
            FlushEvent::Failed(reason) => {
                let mut message = "后台落盘失败: ".to_owned();
                message.push_str(&reason);
                FlushAction::Log(message)
            },
            FlushEvent::Logged => FlushAction::Sleep,
        }
    }
}

/// What happened to the thread that copies the store in the background.
#[derive(Debug)]
pub enum FlushEvent {
    Started,
    Slept,
    Flushed,
    Failed(String),
    Logged,
}

/// What the thread that copies the store in the background is to do.
#[derive(Debug)]
pub enum FlushAction {
    Sleep,
    Flush,
    Log(String),
    Stop,
}

/// The thread sleeps, copies, and sleeps again. It looks whether it is to end after each sleep,
/// before it copies. A copy that failed is logged, and tried again after the next sleep.
pub open spec fn flush_action(stopping: bool, event: FlushEvent, action: FlushAction) -> bool {
    match event {
        FlushEvent::Started | FlushEvent::Flushed | FlushEvent::Logged => action is Sleep,
        FlushEvent::Slept => if stopping {
            action is Stop
        } else {
            action is Flush
        },
        FlushEvent::Failed(reason) => action matches FlushAction::Log(message) && message@
            == "后台落盘失败: "@ + reason@,
    }
}

/// Once the copies are to end, none is begun, whatever happened before.
pub proof fn shutdown_begins_no_flush(event: FlushEvent, action: FlushAction)
    requires
        flush_action(true, event, action),
    ensures
        !(action is Flush),
        action is Stop <==> event is Slept,
{
}

/// A line of the error log.
pub fn log_line(timestamp: &str, message: &str) -> (line: String)
    ensures
        line@ == seq!['['] + timestamp@ + seq![']', ' '] + message@ + seq!['\n'],
{
    let mut line = String::new();
    line.push('[');
    line.push_str(timestamp);
    line.push(']');
    line.push(' ');
    line.push_str(message);
    line.push('\n');
    assert(line@ =~= seq!['['] + timestamp@ + seq![']', ' '] + message@ + seq!['\n']);
    line
}

/// An insertion that fails reports an error with which SQLite answered the statement that stores the
/// event, on this store and with the parts of this event, or the statement that cuts the rows down
/// to 20,000.
pub(crate) proof fn failed_insertion_was_answered_so(
    store: &mut EventStore,
    ev: &NewFileEvent,
    r: Result<(), StoreError>,
)
    requires
        call_ensures(EventStore::insert, (store, ev), r),
        r is Err,
    ensures
        r->Err_0.cause is Sqlite,
        exists|conn: &mut rusqlite::Connection, sql: &str, params: &Vec<SqlValue>|
            {
                &&& #[trigger] call_ensures(
                    execute,
                    (conn, sql, params),
                    Err(r->Err_0.cause->Sqlite_0),
                )
                &&& sql@ == UPSERT_SQL@ && contents(*conn) == old(store).db() && upsert_params(
                    params@,
                    old(store).next_activity(),
                    ev@,
                ) || sql@ == TRIM_SQL@ && trim_params(params@, 20_000)
            },
{
    let error = r->Err_0.cause->Sqlite_0;
    if r->Err_0.step is Upsert {
        let given = choose|given: Seq<SqlValue>| #[trigger]
            change_refused(old(store).mem, UPSERT_SQL@, given, error) && upsert_params(
                given,
                old(store).next_activity(),
                ev@,
            );
        assert(change_refused(old(store).mem, UPSERT_SQL@, given, error));
    } else {
        let (before, given) = choose|before: rusqlite::Connection, given: Seq<SqlValue>| #[trigger]
            change_refused(before, TRIM_SQL@, given, error) && trim_params(given, 20_000);
        assert(change_refused(before, TRIM_SQL@, given, error));
    }
}

/// A store keeps the texts of every event if its texts are in UTF-8, as those of a new store are,
/// and of every event without U+FFFE and U+FFFF in any case, however long they are.
pub proof fn texts_are_kept(store: EventStore, ev: Sighting)
    ensures
        store.is_utf8() ==> store.keeps(ev),
        (forall|c: char| #[trigger]
            ev.time_str.contains(c) || ev.process_name.contains(c) || ev.operation.contains(c)
                || ev.path.contains(c) || ev.detail.contains(c) ==> c != '\u{FFFE}' && c
                != '\u{FFFF}') ==> store.keeps(ev),
{
}

/// There is room for one more hit on a path that is new, and on one with fewer hits than the
/// largest 64-bit integer.
pub proof fn hits_have_room(rows: Rows, path: Seq<char>)
    requires
        rows.contains_key(path) ==> rows[path].count < 0x7FFF_FFFF_FFFF_FFFF,
    ensures
        count_has_room(rows, path),
{
}

/// The activity numbers go up by one.
pub proof fn activity_goes_up_by_one(n: int)
    requires
        n < i64::MAX,
    ensures
        next_number(n) == n + 1,
{
}

/// A store that is opened on a database of the current version has the rows of that database, all
/// of them; one of an older version, and a database without the table, give an empty store.
pub proof fn current_database_is_taken_whole(held: Contents)
    ensures
        held.version >= 1 && held.layout is Events ==> restored_contents(held) == held,
        held.version < 1 || held.layout is Missing ==> restored_contents(held).rows == Map::<
            Seq<char>,
            StoredRow,
        >::empty() && restored_contents(held).layout is Events,
        held.version < 1 ==> restored_contents(held).version == 1,
        held.version >= 1 ==> restored_contents(held).version == held.version,
{
}

/// What a database holds is its event table and its version.
pub proof fn contents_are_rows_and_version(conn: rusqlite::Connection)
    ensures
        contents(conn).rows == stored_rows(conn),
        contents(conn).layout == stored_layout(conn),
        contents(conn).version == stored_version(conn),
{
}

/// An event to be stored has its parts in full.
pub proof fn new_event_has_all_parts(ev: NewFileEvent)
    ensures
        ev@.time_str == ev.time_str@,
        ev@.pid == ev.pid,
        ev@.process_name == ev.process_name@,
        ev@.operation == ev.operation@,
        ev@.path == ev.path@,
        ev@.detail == ev.detail@,
{
}

/// The events of a listing are rows that are wanted, in all their fields, none twice, and the most
/// recently active first.
pub proof fn listed_events(
    rows: Rows,
    wanted: Set<Seq<char>>,
    limit: int,
    events: Seq<FileEvent>,
)
    requires
        wanted.subset_of(rows.dom()),
        is_listing(rows, wanted, limit, event_lines(events)),
    ensures
        limit < 0 || wanted.len() <= limit ==> events.len() == wanted.len(),
        0 <= limit < wanted.len() ==> events.len() == limit,
        forall|i: int|
            0 <= i < events.len() ==> {
                let ev = #[trigger] events[i];
                let row = rows[ev.path@];
                &&& wanted.contains(ev.path@)
                &&& rows.contains_key(ev.path@)
                &&& ev.seq == row.seq
                &&& ev.last_activity == row.last_activity
                &&& ev.time_str@ == row.time_str
                &&& ev.pid == row.pid
                &&& ev.process_name@ == row.process_name
                &&& ev.operation@ == row.operation
                &&& ev.detail@ == row.detail
                &&& ev.count == row.count
                &&& ev.first_seen@ == row.first_seen
            },
        forall|i: int, j: int|
            0 <= i < j < events.len() ==> (#[trigger] events[i]).path@ != (
            #[trigger] events[j]).path@ && events[i].last_activity >= events[j].last_activity,
{
    let lines = event_lines(events);
    listing_lists_the_latest(rows, wanted, limit, lines);
    assert forall|i: int| 0 <= i < events.len() implies lines[i] == (
    #[trigger] events[i]).line() && wanted.contains(events[i].path@) && events[i].line().row
        == rows[events[i].path@] by {
        assert(lines[i] == events[i].line());
    }
    assert forall|i: int, j: int| 0 <= i < j < events.len() implies (#[trigger] events[i]).path@
        != (#[trigger] events[j]).path@ && events[i].last_activity >= events[j].last_activity by {
        assert(lines[i] == events[i].line() && lines[j] == events[j].line());
    }
}

/// What was flushed to disk comes back: a store that is opened on a database that holds what
/// `flushed` held has the same rows, and goes on counting activities behind them.
pub proof fn flush_then_open(flushed: EventStore, opened: EventStore)
    requires
        flushed.is_ready(),
        flushed.db().version >= SCHEMA_VERSION,
        opened.db() == restored_contents(flushed.db()),
        opened.is_ready() <==> opened.db().layout is Events,
        opened.is_ready() ==> follows_activity(opened.rows(), opened.next_activity()),
    ensures
        opened.is_ready(),
        opened.rows() == flushed.rows(),
        opened.db() == flushed.db(),
        is_latest(opened.rows(), opened.next_activity()),
{
    flushed.ready_contents();
    restart_continues_activity(opened.rows(), opened.next_activity());
}

/// A flush takes nothing from the store and brings all of it to the disk, whatever was there, and
/// a second flush brings the same. A store that is opened on it lists the same rows in all their
/// fields, while no two have the same activity number.
pub proof fn flushed_rows_come_back(
    before: EventStore,
    flushed: EventStore,
    held: Contents,
    again: EventStore,
    held_again: Contents,
    opened: EventStore,
    limit: int,
    listed: Seq<Listed>,
    kept: Seq<Listed>,
    reopened: Seq<Listed>,
)
    requires
        before.is_ready(),
        before.db().version >= SCHEMA_VERSION,
        distinct_activity(before.rows()),
        flushed.db() == before.db(),
        held == flushed.db(),
        again.db() == flushed.db(),
        held_again == again.db(),
        opened.db() == restored_contents(held_again),
        is_listing(before.rows(), before.rows().dom(), limit, listed),
        is_listing(flushed.rows(), flushed.rows().dom(), limit, kept),
        is_listing(opened.rows(), opened.rows().dom(), limit, reopened),
    ensures
        held_again == held,
        kept == listed,
        reopened == listed,
{
    before.ready_contents();
    listing_is_determined(before.rows(), before.rows().dom(), limit, listed, kept);
    listing_is_determined(before.rows(), before.rows().dom(), limit, listed, reopened);
}

/// The first event after a restart gets the activity number behind the largest one that came back,
/// and so comes before all of them: no row that came back is as late.
pub proof fn activity_goes_on(opened: EventStore, ev: Sighting, after: Rows)
    requires
        opened.is_ready(),
        follows_activity(opened.rows(), opened.next_activity()),
        inserted(opened.rows(), opened.next_activity(), ev, MAX_ROWS as nat, after),
    ensures
        after.contains_key(ev.path),
        after[ev.path].last_activity == opened.next_activity(),
        forall|p: Seq<char>| #[trigger]
            opened.rows().contains_key(p) ==> opened.rows()[p].last_activity
                < after[ev.path].last_activity,
{
    opened.ready_contents();
    restart_continues_activity(opened.rows(), opened.next_activity());
    newest_path_stays(opened.rows(), opened.next_activity(), ev, MAX_ROWS as nat, after);
}

/// A database is migrated once: what a store holds after it was opened is opened again unchanged.
pub proof fn migration_is_final(held: Contents)
    ensures
        restored_contents(restored_contents(held)) == restored_contents(held),
        restored_contents(held).version >= SCHEMA_VERSION,
{
}

/// Gives a new database on disk the schema and its version. SQLite decides whether that succeeds;
/// [`in_step`] says what is returned for each of its outcomes.
fn prepare_disk(disk: &mut rusqlite::Connection) -> (r: Result<(), StoreError>)
    ensures
        in_memory(*final(disk)) == in_memory(*old(disk)),
        r is Ok ==> prepared_disk(*old(disk), *final(disk)),
        r matches Err(e) ==> e.step is PrepareDisk,
        r matches Err(e) ==> (e.cause matches StoreCause::Sqlite(error) && opening_refused(
            e.step,
            error,
        )),
{
    in_step(StoreStep::PrepareDisk, execute_batch(disk, SCHEMA_SQL))?;
    in_step(StoreStep::PrepareDisk, execute_batch(disk, SET_VERSION_SQL))?;
    assert(in_memory(*old(disk)) && stored_layout(*old(disk)) is Missing ==> contents(*disk)
        =~= fresh_contents());
    Ok(())
}

} // verus!
