//! Tests of the event store. The database on disk is played by a second one in memory.

use evemon::sqlite::CopyOutcome;
use evemon::store::{
    copied, in_step, log_line, row_to_event, rows_to_events, EventStore, FileEvent, FlushAction,
    FlushEvent, NewFileEvent, StoreCause, StoreError, StoreStep, MAX_ROWS,
};
use rusqlite::Connection;

fn make_event(path: &str) -> NewFileEvent {
    NewFileEvent {
        time_str: "2026-01-01 00:00:00".to_string(),
        pid: 1234,
        process_name: "test.exe".to_string(),
        operation: "open".to_string(),
        path: path.to_string(),
        detail: String::new(),
    }
}

fn event_at(path: &str, time: &str, pid: u32, process: &str, operation: &str) -> NewFileEvent {
    NewFileEvent {
        time_str: time.to_string(),
        pid,
        process_name: process.to_string(),
        operation: operation.to_string(),
        path: path.to_string(),
        detail: format!("size={pid}"),
    }
}

fn new_disk() -> Connection {
    Connection::open_in_memory().unwrap()
}

fn new_store(disk: &mut Connection) -> EventStore {
    EventStore::open(disk, false).unwrap()
}

fn paths(rows: &[FileEvent]) -> Vec<&str> {
    rows.iter().map(|row| row.path.as_str()).collect()
}

/// What is written and flushed is there after the next start.
#[test]
fn roundtrip_persist_and_reload() {
    let mut disk = new_disk();
    {
        let mut store = new_store(&mut disk);
        store.insert(&make_event("C:\\foo\\bar.txt")).unwrap();
        store.insert(&make_event("C:\\foo\\baz.txt")).unwrap();
        assert_eq!(store.count().unwrap(), 2);
        store.flush_to_disk(&mut disk).unwrap();
    }
    {
        let store = EventStore::open(&mut disk, true).unwrap();
        assert_eq!(store.count().unwrap(), 2);
    }
}

/// The whole life of a store whose copies are made in the background: each sleep is followed by a
/// copy until the shutdown, then comes the last copy.
#[test]
fn flush_with_background_thread_then_shutdown() {
    let mut disk = new_disk();
    {
        let mut store = new_store(&mut disk);
        store.insert(&make_event("C:\\alpha.txt")).unwrap();
        store.insert(&make_event("C:\\beta.txt")).unwrap();

        assert!(matches!(store.next_flush_action(FlushEvent::Started), FlushAction::Sleep));
        for _ in 0..3 {
            assert!(matches!(store.next_flush_action(FlushEvent::Slept), FlushAction::Flush));
            store.flush_to_disk(&mut disk).unwrap();
            assert!(matches!(store.next_flush_action(FlushEvent::Flushed), FlushAction::Sleep));
        }

        store.shutdown();
        assert!(matches!(store.next_flush_action(FlushEvent::Slept), FlushAction::Stop));
        store.flush_to_disk(&mut disk).unwrap();
    }
    {
        let store = EventStore::open(&mut disk, true).unwrap();
        assert_eq!(store.count().unwrap(), 2);
    }
}

/// A copy takes the place of the one before.
#[test]
fn multiple_flushes_to_same_file() {
    let mut disk = new_disk();
    {
        let mut store = new_store(&mut disk);

        store.insert(&make_event("C:\\first.txt")).unwrap();
        store.insert(&make_event("C:\\second.txt")).unwrap();
        store.flush_to_disk(&mut disk).unwrap();

        store.insert(&make_event("C:\\third.txt")).unwrap();
        store.flush_to_disk(&mut disk).unwrap();

        store.insert(&make_event("C:\\first.txt")).unwrap();
        store.flush_to_disk(&mut disk).unwrap();
    }
    {
        let store = EventStore::open(&mut disk, true).unwrap();
        assert_eq!(store.count().unwrap(), 3);
        let rows = store.recent(100).unwrap();
        let first = rows.iter().find(|e| e.path == "C:\\first.txt").unwrap();
        assert_eq!(first.count, 2);
    }
}

/// A copy can be made after the shutdown, and the shutdown asked for again.
#[test]
fn shutdown_then_flush_is_safe() {
    let mut disk = new_disk();
    {
        let mut store = new_store(&mut disk);
        store.insert(&make_event("C:\\data.txt")).unwrap();
        store.flush_to_disk(&mut disk).unwrap();

        store.shutdown();
        store.flush_to_disk(&mut disk).unwrap();

        store.shutdown();
        assert!(matches!(store.next_flush_action(FlushEvent::Slept), FlushAction::Stop));
    }
    {
        let store = EventStore::open(&mut disk, true).unwrap();
        assert_eq!(store.count().unwrap(), 1);
    }
}

/// Many hits on one path push out no other, however far the activity numbers go.
#[test]
fn count_does_not_decrease_with_high_freq_repeats() {
    let mut disk = new_disk();
    let mut store = new_store(&mut disk);

    let paths = ["C:\\a.txt", "C:\\b.txt", "C:\\c.txt", "C:\\d.txt", "C:\\e.txt"];
    for p in &paths {
        store.insert(&make_event(p)).unwrap();
    }
    assert_eq!(store.count().unwrap(), 5);

    for _ in 0..(MAX_ROWS + 10) {
        store.insert(&make_event("C:\\e.txt")).unwrap();
    }

    let count = store.count().unwrap();
    assert_eq!(count, 5);

    let rows = store.recent(100).unwrap();
    let still_has_a = rows.iter().any(|e| e.path == "C:\\a.txt");
    assert!(still_has_a);
}

/// Beyond the limit the least recently active paths go.
#[test]
fn trims_to_max_rows_when_exceeded() {
    let mut disk = new_disk();
    let mut store = new_store(&mut disk);

    for i in 0..(MAX_ROWS + 50) {
        let path = format!("C:\\file_{i}.txt");
        store.insert(&make_event(&path)).unwrap();
    }

    let count = store.count().unwrap();
    assert_eq!(count, MAX_ROWS);

    let rows = store.recent(MAX_ROWS + 100).unwrap();
    let has_file_0 = rows.iter().any(|e| e.path == "C:\\file_0.txt");
    assert!(!has_file_0);
    let has_file_50 = rows.iter().any(|e| e.path == "C:\\file_50.txt");
    assert!(has_file_50);
}

#[test]
fn first_hit_makes_a_row_of_its_own() {
    let mut disk = new_disk();
    let mut store = new_store(&mut disk);
    store.insert(&event_at("C:\\a.txt", "10:00:00.000", 7, "a.exe", "Read")).unwrap();
    let rows = store.recent(10).unwrap();
    assert_eq!(rows.len(), 1);
    let row = &rows[0];
    assert_eq!(row.seq, 1);
    assert_eq!(row.last_activity, 1);
    assert_eq!(row.time_str, "10:00:00.000");
    assert_eq!(row.pid, 7);
    assert_eq!(row.process_name, "a.exe");
    assert_eq!(row.operation, "Read");
    assert_eq!(row.path, "C:\\a.txt");
    assert_eq!(row.detail, "size=7");
    assert_eq!(row.count, 1);
    assert_eq!(row.first_seen, "10:00:00.000");
}

#[test]
fn repeated_hit_keeps_number_and_first_time() {
    let mut disk = new_disk();
    let mut store = new_store(&mut disk);
    store.insert(&event_at("C:\\a.txt", "10:00:00.000", 7, "a.exe", "Read")).unwrap();
    store.insert(&event_at("C:\\b.txt", "10:00:01.000", 8, "b.exe", "Read")).unwrap();
    store.insert(&event_at("C:\\a.txt", "10:00:02.000", 9, "c.exe", "Write")).unwrap();
    let rows = store.recent(10).unwrap();
    assert_eq!(paths(&rows), ["C:\\a.txt", "C:\\b.txt"]);
    let row = &rows[0];
    assert_eq!(row.seq, 1);
    assert_eq!(row.last_activity, 3);
    assert_eq!(row.time_str, "10:00:02.000");
    assert_eq!(row.pid, 9);
    assert_eq!(row.process_name, "c.exe");
    assert_eq!(row.operation, "Write");
    assert_eq!(row.detail, "size=9");
    assert_eq!(row.count, 2);
    assert_eq!(row.first_seen, "10:00:00.000");
}

#[test]
fn paths_differ_by_case() {
    let mut disk = new_disk();
    let mut store = new_store(&mut disk);
    store.insert(&make_event("C:\\a.txt")).unwrap();
    store.insert(&make_event("C:\\A.txt")).unwrap();
    assert_eq!(store.count().unwrap(), 2);
}

#[test]
fn recent_lists_latest_first_within_limit() {
    let mut disk = new_disk();
    let mut store = new_store(&mut disk);
    for path in ["a", "b", "c", "a"] {
        store.insert(&make_event(path)).unwrap();
    }
    assert_eq!(paths(&store.recent(10).unwrap()), ["a", "c", "b"]);
    assert_eq!(paths(&store.recent(2).unwrap()), ["a", "c"]);
    assert!(store.recent(0).unwrap().is_empty());
    assert_eq!(paths(&store.recent(-1).unwrap()), ["a", "c", "b"]);
}

#[test]
fn search_looks_at_path_process_operation_and_detail() {
    let mut disk = new_disk();
    let mut store = new_store(&mut disk);
    store.insert(&event_at("C:\\one.txt", "t", 1, "alpha.exe", "Read")).unwrap();
    store.insert(&event_at("C:\\two.txt", "t", 2, "beta.exe", "Write")).unwrap();
    store.insert(&event_at("C:\\three.log", "t", 3, "gamma.exe", "Rename")).unwrap();
    assert_eq!(paths(&store.search("TXT", 10).unwrap()), ["C:\\two.txt", "C:\\one.txt"]);
    assert_eq!(paths(&store.search("gamma", 10).unwrap()), ["C:\\three.log"]);
    assert_eq!(paths(&store.search("write", 10).unwrap()), ["C:\\two.txt"]);
    assert_eq!(paths(&store.search("size=1", 10).unwrap()), ["C:\\one.txt"]);
    assert_eq!(paths(&store.search("", 10).unwrap()).len(), 3);
    assert_eq!(paths(&store.search("txt", 1).unwrap()), ["C:\\two.txt"]);
}

#[test]
fn search_takes_wildcards_literally() {
    let mut disk = new_disk();
    let mut store = new_store(&mut disk);
    for path in ["100%", "100x", "a_b", "axb"] {
        store.insert(&make_event(path)).unwrap();
    }
    assert_eq!(paths(&store.search("0%", 10).unwrap()), ["100%"]);
    assert_eq!(paths(&store.search("a_b", 10).unwrap()), ["a_b"]);
}

#[test]
fn search_takes_a_backslash_literally() {
    let mut disk = new_disk();
    let mut store = new_store(&mut disk);
    store.insert(&make_event("C:\\foo\\bar.txt")).unwrap();
    store.insert(&make_event("C:foobar")).unwrap();
    let found = store.search("C:\\foo", 10).unwrap();
    assert_eq!(found.len(), 1);
    assert_eq!(found[0].path, "C:\\foo\\bar.txt");
    assert_eq!(paths(&store.search("\\", 10).unwrap()), ["C:\\foo\\bar.txt"]);
    assert!(store.search("foo\\\\bar", 10).unwrap().is_empty());
}

#[test]
fn empty_search_lists_what_recent_lists() {
    let mut disk = new_disk();
    let mut store = new_store(&mut disk);
    for path in ["a", "b", "c", "a", "bb"] {
        store.insert(&make_event(path)).unwrap();
    }
    for limit in [-1, 0, 2, 10] {
        let all = store.recent(limit).unwrap();
        assert_eq!(paths(&store.search("", limit).unwrap()), paths(&all));
    }
    assert_eq!(paths(&store.recent(-1).unwrap()), ["bb", "a", "c", "b"]);
    assert_eq!(paths(&store.search("b", -1).unwrap()), ["bb", "b"]);
    assert_eq!(paths(&store.search("b", 1).unwrap()), ["bb"]);
}

#[test]
fn noncharacters_are_kept() {
    let mut disk = new_disk();
    let mut store = new_store(&mut disk);
    let path = "C:\\\u{FFFE}\u{FFFF}\u{FFFD}";
    store.insert(&make_event(path)).unwrap();
    store.insert(&make_event("C:\\\u{FFFD}\u{FFFD}\u{FFFD}")).unwrap();
    store.insert(&make_event(path)).unwrap();
    store.flush_to_disk(&mut disk).unwrap();
    let store = EventStore::open(&mut disk, true).unwrap();
    let rows = store.recent(10).unwrap();
    assert_eq!(rows.len(), 2);
    assert_eq!(rows[0].path, path);
    assert_eq!(rows[0].count, 2);
}

#[test]
fn clearing_leaves_no_row_and_goes_on_counting() {
    let mut disk = new_disk();
    let mut store = new_store(&mut disk);
    for path in ["a", "b", "a"] {
        store.insert(&make_event(path)).unwrap();
    }
    store.clear().unwrap();
    assert_eq!(store.count().unwrap(), 0);
    assert!(store.recent(-1).unwrap().is_empty());
    store.insert(&make_event("a")).unwrap();
    let rows = store.recent(-1).unwrap();
    assert_eq!(rows[0].last_activity, 4);
    assert_eq!(rows[0].count, 1);
}

#[test]
fn counts_add_up_to_the_events() {
    let mut disk = new_disk();
    let mut store = new_store(&mut disk);
    let events = ["a", "b", "a", "c", "a", "b"];
    for path in events {
        store.insert(&make_event(path)).unwrap();
    }
    let rows = store.recent(-1).unwrap();
    let total: i64 = rows.iter().map(|row| row.count).sum();
    assert_eq!(total, events.len() as i64);
    assert!(rows.iter().all(|row| row.count >= 1 && row.last_activity >= row.count));
    let mut seqs: Vec<i64> = rows.iter().map(|row| row.seq).collect();
    seqs.sort();
    seqs.dedup();
    assert_eq!(seqs.len(), 3);
}

#[test]
fn second_flush_brings_the_same() {
    let mut disk = new_disk();
    let mut store = new_store(&mut disk);
    for path in ["a", "b", "a"] {
        store.insert(&make_event(path)).unwrap();
    }
    disk.execute_batch("UPDATE file_events SET path = 'old'; CREATE TABLE other (x)").unwrap();
    store.flush_to_disk(&mut disk).unwrap();
    store.flush_to_disk(&mut disk).unwrap();
    let kept = store.recent(-1).unwrap();
    let reopened = EventStore::open(&mut disk, true).unwrap().recent(-1).unwrap();
    assert_eq!(format!("{kept:?}"), format!("{reopened:?}"));
    assert_eq!(paths(&kept), ["a", "b"]);
}

#[test]
fn a_database_in_use_is_not_waited_for_without_end() {
    let mut disk = new_disk();
    new_store(&mut disk);
    disk.execute_batch("BEGIN IMMEDIATE; CREATE TABLE z (x)").unwrap();
    match EventStore::open(&mut disk, true) {
        Ok(_) => panic!("a database in use was copied"),
        Err(e) => {
            assert_eq!(e.step, StoreStep::LoadDisk);
            assert!(matches!(e.cause, StoreCause::Busy));
            assert!(e.is_load_to_retry());
        }
    }
    disk.execute_batch("ROLLBACK").unwrap();
    assert_eq!(EventStore::open(&mut disk, true).unwrap().count().unwrap(), 0);
}

#[test]
fn search_folds_ascii_letters_only() {
    let mut disk = new_disk();
    let mut store = new_store(&mut disk);
    store.insert(&make_event("Ä")).unwrap();
    assert!(store.search("ä", 10).unwrap().is_empty());
    assert_eq!(paths(&store.search("Ä", 10).unwrap()), ["Ä"]);
}

#[test]
fn activity_goes_on_after_a_restart() {
    let mut disk = new_disk();
    {
        let mut store = new_store(&mut disk);
        for path in ["a", "b", "a"] {
            store.insert(&make_event(path)).unwrap();
        }
        store.flush_to_disk(&mut disk).unwrap();
    }
    let mut store = EventStore::open(&mut disk, true).unwrap();
    store.insert(&make_event("b")).unwrap();
    let rows = store.recent(10).unwrap();
    assert_eq!(paths(&rows), ["b", "a"]);
    assert_eq!(rows[0].last_activity, 4);
    assert_eq!(rows[1].last_activity, 3);
}

#[test]
fn restart_brings_back_all_columns() {
    let mut disk = new_disk();
    {
        let mut store = new_store(&mut disk);
        store.insert(&event_at("p", "t1", 5, "x.exe", "Read")).unwrap();
        store.insert(&event_at("p", "t2", 6, "y.exe", "Write")).unwrap();
        store.flush_to_disk(&mut disk).unwrap();
    }
    let store = EventStore::open(&mut disk, true).unwrap();
    let rows = store.recent(10).unwrap();
    assert_eq!(rows.len(), 1);
    assert_eq!(rows[0].time_str, "t2");
    assert_eq!(rows[0].pid, 6);
    assert_eq!(rows[0].process_name, "y.exe");
    assert_eq!(rows[0].operation, "Write");
    assert_eq!(rows[0].detail, "size=6");
    assert_eq!(rows[0].count, 2);
    assert_eq!(rows[0].first_seen, "t1");
}

#[test]
fn new_disk_gets_schema_and_version() {
    let mut disk = new_disk();
    let store = new_store(&mut disk);
    assert_eq!(store.count().unwrap(), 0);
    let version: i64 = disk.query_row("PRAGMA user_version", (), |r| r.get(0)).unwrap();
    assert_eq!(version, 1);
    let count: i64 = disk.query_row("SELECT COUNT(*) FROM file_events", (), |r| r.get(0)).unwrap();
    assert_eq!(count, 0);
}

#[test]
fn old_version_is_given_up_once() {
    let mut disk = new_disk();
    disk.execute_batch(
        "CREATE TABLE file_events (seq INTEGER PRIMARY KEY, path TEXT);
         INSERT INTO file_events (path) VALUES ('a');
         INSERT INTO file_events (path) VALUES ('a');",
    )
    .unwrap();
    {
        let mut store = EventStore::open(&mut disk, true).unwrap();
        assert_eq!(store.count().unwrap(), 0);
        store.insert(&make_event("b")).unwrap();
        store.flush_to_disk(&mut disk).unwrap();
    }
    let version: i64 = disk.query_row("PRAGMA user_version", (), |r| r.get(0)).unwrap();
    assert_eq!(version, 1);
    let store = EventStore::open(&mut disk, true).unwrap();
    assert_eq!(paths(&store.recent(10).unwrap()), ["b"]);
}

#[test]
fn empty_disk_file_becomes_an_empty_store() {
    let mut disk = new_disk();
    let store = EventStore::open(&mut disk, true).unwrap();
    assert_eq!(store.count().unwrap(), 0);
}

#[test]
fn current_version_without_table_gets_one() {
    let mut disk = new_disk();
    disk.execute_batch("PRAGMA user_version = 3").unwrap();
    let mut store = EventStore::open(&mut disk, true).unwrap();
    assert_eq!(store.count().unwrap(), 0);
    store.flush_to_disk(&mut disk).unwrap();
    let version: i64 = disk.query_row("PRAGMA user_version", (), |r| r.get(0)).unwrap();
    assert_eq!(version, 3);
}

#[test]
fn foreign_layout_of_current_version_is_an_error() {
    let mut disk = new_disk();
    disk.execute_batch("CREATE TABLE file_events (other TEXT); PRAGMA user_version = 1").unwrap();
    match EventStore::open(&mut disk, true) {
        Ok(_) => panic!("a table without the columns was taken"),
        Err(e) => assert_eq!(e.step, StoreStep::CreateSchema),
    }
}

#[test]
fn view_in_place_of_the_table_cannot_be_dropped() {
    let mut disk = new_disk();
    disk.execute_batch("CREATE VIEW file_events AS SELECT 1 AS path").unwrap();
    match EventStore::open(&mut disk, true) {
        Ok(_) => panic!("a view was taken"),
        Err(e) => assert_eq!(e.step, StoreStep::DropTable),
    }
}

#[test]
fn largest_activity_number_has_no_next() {
    let mut disk = new_disk();
    new_store(&mut disk);
    disk.execute_batch(
        "INSERT INTO file_events
            (last_activity, time_str, pid, process_name, operation, path, detail, first_seen)
         VALUES (9223372036854775807, 't', 1, 'p', 'o', 'a', '', 't')",
    )
    .unwrap();
    match EventStore::open(&mut disk, true) {
        Ok(_) => panic!("there is no next activity number"),
        Err(e) => assert_eq!(e.step, StoreStep::ReadActivity),
    }
}

#[test]
fn index_in_place_of_the_table_stops_the_new_disk() {
    let mut disk = new_disk();
    disk.execute_batch("CREATE TABLE t (x); CREATE INDEX file_events ON t(x)").unwrap();
    match EventStore::open(&mut disk, false) {
        Ok(_) => panic!("an index was taken for the table"),
        Err(e) => assert_eq!(e.step, StoreStep::PrepareDisk),
    }
}

#[test]
fn bad_cell_fails_the_listing() {
    let mut disk = new_disk();
    new_store(&mut disk);
    disk.execute_batch(
        "INSERT INTO file_events
            (last_activity, time_str, pid, process_name, operation, path, detail, first_seen)
         VALUES (1, 't', -1, 'p', 'o', 'a', '', 't')",
    )
    .unwrap();
    let store = EventStore::open(&mut disk, true).unwrap();
    assert_eq!(store.recent(10).unwrap_err().step, StoreStep::Recent);
    assert_eq!(store.search("a", 10).unwrap_err().step, StoreStep::Search);
    assert_eq!(store.count().unwrap(), 1);
}

#[test]
fn too_long_keyword_fails_the_search() {
    let mut disk = new_disk();
    let mut store = new_store(&mut disk);
    store.insert(&make_event("a")).unwrap();
    let keyword = "x".repeat(60_000);
    assert_eq!(store.search(&keyword, 10).unwrap_err().step, StoreStep::Search);
}

#[test]
fn trigger_fails_the_insertion() {
    let mut disk = new_disk();
    new_store(&mut disk);
    disk.execute_batch(
        "CREATE TRIGGER no_insert BEFORE INSERT ON file_events
         BEGIN SELECT RAISE(ABORT, 'no'); END",
    )
    .unwrap();
    let mut store = EventStore::open(&mut disk, true).unwrap();
    assert_eq!(store.insert(&make_event("a")).unwrap_err().step, StoreStep::Upsert);
    assert_eq!(store.count().unwrap(), 0);
}

#[test]
fn keys_of_other_tables_are_disregarded() {
    let mut disk = new_disk();
    let mut store = new_store(&mut disk);
    store.insert(&make_event("a")).unwrap();
    store.flush_to_disk(&mut disk).unwrap();
    disk.execute_batch(
        "CREATE TABLE c (p TEXT REFERENCES file_events(path) ON DELETE CASCADE);
         INSERT INTO c VALUES ('a');
         CREATE TRIGGER again AFTER DELETE ON c
         BEGIN
            INSERT INTO file_events
                (last_activity, time_str, pid, process_name, operation, path, detail, first_seen)
            VALUES (7, 't', 1, 'p', 'o', 'again', '', 't');
         END",
    )
    .unwrap();
    let mut store = EventStore::open(&mut disk, true).unwrap();
    assert_eq!(store.count().unwrap(), 1);
    store.clear().unwrap();
    assert_eq!(store.count().unwrap(), 0);
    disk.execute_batch("PRAGMA foreign_keys = ON; DELETE FROM file_events").unwrap();
    let left: String = disk.query_row("SELECT path FROM file_events", (), |r| r.get(0)).unwrap();
    assert_eq!(left, "again");
}

#[test]
fn trimming_disregards_keys_of_other_tables() {
    let mut disk = new_disk();
    new_store(&mut disk);
    disk.execute_batch(
        "WITH RECURSIVE n(i) AS (SELECT 1 UNION ALL SELECT i + 1 FROM n WHERE i < 20000)
         INSERT INTO file_events
            (last_activity, time_str, pid, process_name, operation, path, detail, first_seen)
         SELECT i, 't', 1, 'p', 'o', 'f' || i, '', 't' FROM n;
         CREATE TABLE c (p TEXT REFERENCES file_events(path));
         INSERT INTO c VALUES ('f1')",
    )
    .unwrap();
    let mut store = EventStore::open(&mut disk, true).unwrap();
    store.insert(&make_event("new")).unwrap();
    assert_eq!(store.count().unwrap(), MAX_ROWS);
    assert!(store.recent(-1).unwrap().iter().all(|row| row.path != "f1"));
}

#[test]
fn only_a_load_of_a_database_in_use_is_tried_again() {
    let error = |step: StoreStep, cause: StoreCause| StoreError { step, cause };
    assert!(error(StoreStep::LoadDisk, StoreCause::Busy).is_load_to_retry());
    assert!(error(StoreStep::LoadDisk, StoreCause::Locked).is_load_to_retry());
    assert!(error(StoreStep::LoadDisk, StoreCause::Unfinished).is_load_to_retry());
    let failure = StoreCause::Sqlite(rusqlite::Error::InvalidQuery);
    assert!(!error(StoreStep::LoadDisk, failure).is_load_to_retry());
    assert!(!error(StoreStep::Flush, StoreCause::Busy).is_load_to_retry());
    assert!(!error(StoreStep::PrepareDisk, StoreCause::Locked).is_load_to_retry());
}

#[test]
fn flush_into_a_database_in_use_fails() {
    let mut disk = new_disk();
    let mut store = new_store(&mut disk);
    store.insert(&make_event("a")).unwrap();
    disk.execute_batch("BEGIN IMMEDIATE; CREATE TABLE z (x)").unwrap();
    assert_eq!(store.flush_to_disk(&mut disk).unwrap_err().step, StoreStep::Flush);
    assert_eq!(store.count().unwrap(), 1);
    disk.execute_batch("ROLLBACK").unwrap();
    store.flush_to_disk(&mut disk).unwrap();
}

#[test]
fn failed_trimming_leaves_the_new_row() {
    let mut disk = new_disk();
    new_store(&mut disk);
    disk.execute_batch(
        "WITH RECURSIVE n(i) AS (SELECT 1 UNION ALL SELECT i + 1 FROM n WHERE i < 20000)
         INSERT INTO file_events
            (last_activity, time_str, pid, process_name, operation, path, detail, first_seen)
         SELECT i, 't', 1, 'p', 'o', 'f' || i, '', 't' FROM n;
         CREATE TRIGGER no_delete BEFORE DELETE ON file_events
         BEGIN SELECT RAISE(ABORT, 'no'); END",
    )
    .unwrap();
    let mut store = EventStore::open(&mut disk, true).unwrap();
    assert_eq!(store.count().unwrap(), MAX_ROWS);
    store.insert(&make_event("f1")).unwrap();
    assert_eq!(store.insert(&make_event("new")).unwrap_err().step, StoreStep::Trim);
    assert_eq!(store.count().unwrap(), MAX_ROWS + 1);
    assert_eq!(store.recent(1).unwrap()[0].path, "new");
}

#[test]
fn recently_used_path_is_not_trimmed() {
    let mut disk = new_disk();
    new_store(&mut disk);
    disk.execute_batch(
        "WITH RECURSIVE n(i) AS (SELECT 1 UNION ALL SELECT i + 1 FROM n WHERE i < 20000)
         INSERT INTO file_events
            (last_activity, time_str, pid, process_name, operation, path, detail, first_seen)
         SELECT i, 't', 1, 'p', 'o', 'f' || i, '', 't' FROM n",
    )
    .unwrap();
    let mut store = EventStore::open(&mut disk, true).unwrap();
    store.insert(&make_event("f1")).unwrap();
    store.insert(&make_event("new")).unwrap();
    assert_eq!(store.count().unwrap(), MAX_ROWS);
    let rows = store.recent(-1).unwrap();
    assert_eq!(paths(&rows[..3]), ["new", "f1", "f20000"]);
    assert_eq!(rows[1].seq, 1);
    assert_eq!(rows[1].count, 2);
    assert!(rows.iter().all(|row| row.path != "f2"));
    assert!(rows.iter().any(|row| row.path == "f3"));
}

#[test]
fn outcomes_carry_their_step() {
    assert_eq!(in_step(StoreStep::Count, Ok(5)).unwrap(), 5);
    let error = in_step::<i64>(StoreStep::LoadDisk, Err(rusqlite::Error::InvalidQuery));
    let error = error.unwrap_err();
    assert_eq!(error.step, StoreStep::LoadDisk);
    assert!(matches!(error.cause, StoreCause::Sqlite(rusqlite::Error::InvalidQuery)));
}

#[test]
fn only_a_complete_copy_succeeds() {
    assert!(copied(StoreStep::Flush, Ok(CopyOutcome::Done)).is_ok());
    let busy = copied(StoreStep::Flush, Ok(CopyOutcome::Busy)).unwrap_err();
    assert_eq!(busy.step, StoreStep::Flush);
    assert!(matches!(busy.cause, StoreCause::Busy));
    let locked = copied(StoreStep::LoadDisk, Ok(CopyOutcome::Locked)).unwrap_err();
    assert!(matches!(locked.cause, StoreCause::Locked));
    let short = copied(StoreStep::LoadDisk, Ok(CopyOutcome::Unfinished)).unwrap_err();
    assert_eq!(short.step, StoreStep::LoadDisk);
    assert!(matches!(short.cause, StoreCause::Unfinished));
    let failed = copied(StoreStep::Flush, Err(rusqlite::Error::InvalidQuery)).unwrap_err();
    assert!(matches!(failed.cause, StoreCause::Sqlite(rusqlite::Error::InvalidQuery)));
}

#[test]
fn cells_become_events() {
    let cells = |path: &str| {
        let text = |s: &str| s.to_string();
        (1, 2, text("t"), 3, text("p"), text("o"), path.to_string(), text("d"), 4, text("f"))
    };
    let event = row_to_event(cells("a"));
    assert_eq!(event.seq, 1);
    assert_eq!(event.last_activity, 2);
    assert_eq!(event.time_str, "t");
    assert_eq!(event.pid, 3);
    assert_eq!(event.process_name, "p");
    assert_eq!(event.operation, "o");
    assert_eq!(event.path, "a");
    assert_eq!(event.detail, "d");
    assert_eq!(event.count, 4);
    assert_eq!(event.first_seen, "f");
    assert_eq!(paths(&rows_to_events(vec![cells("b"), cells("c")])), ["b", "c"]);
}

#[test]
fn failed_flush_is_logged_and_tried_again() {
    let mut disk = new_disk();
    let store = new_store(&mut disk);
    match store.next_flush_action(FlushEvent::Failed("disk full".to_string())) {
        FlushAction::Log(message) => assert_eq!(message, "后台落盘失败: disk full"),
        other => panic!("{other:?}"),
    }
    assert!(matches!(store.next_flush_action(FlushEvent::Logged), FlushAction::Sleep));
    assert!(matches!(store.next_flush_action(FlushEvent::Slept), FlushAction::Flush));
}

#[test]
fn log_lines_carry_the_time() {
    assert_eq!(
        log_line("2026-01-01 00:00:00", "后台落盘失败"),
        "[2026-01-01 00:00:00] 后台落盘失败\n"
    );
}
