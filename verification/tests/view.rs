//! Tests of the ranking and of what the window shows.

use evemon::etw::FileEvent as Observed;
use evemon::like::like_pattern;
use evemon::rank::{event_haystack, rank, rank_by_query, rank_events, score_events};
use evemon::store::{EventStore, FileEvent, NewFileEvent, StoreError};
use evemon::text::{contains_text, push_number, push_signed, same_text};
use evemon::view::{EventView, DISK_DB_FILENAME, FLUSH_SECONDS, MAX_DISPLAY_ROWS};
use rusqlite::Connection;

fn row(path: &str) -> FileEvent {
    FileEvent {
        seq: 1,
        last_activity: 1,
        time_str: "t".to_string(),
        pid: 1,
        process_name: "p.exe".to_string(),
        operation: "Read".to_string(),
        path: path.to_string(),
        detail: String::new(),
        count: 1,
        first_seen: "t".to_string(),
    }
}

fn rows(paths: &[&str]) -> Vec<FileEvent> {
    paths.iter().map(|path| row(path)).collect()
}

fn paths(rows: &[FileEvent]) -> Vec<&str> {
    rows.iter().map(|row| row.path.as_str()).collect()
}

fn sighting(path: &str) -> NewFileEvent {
    Observed {
        seq: 0,
        time_str: "t".to_string(),
        pid: 1,
        process_name: "p.exe".to_string(),
        operation: "Read".to_string(),
        path: path.to_string(),
        detail: String::new(),
    }
    .into_new()
}

fn new_store(paths: &[&str]) -> EventStore {
    let mut disk = Connection::open_in_memory().unwrap();
    let mut store = EventStore::open(&mut disk, false).unwrap();
    for path in paths {
        store.insert(&sighting(path)).unwrap();
    }
    store
}

fn store_error() -> StoreError {
    let mut disk = Connection::open_in_memory().unwrap();
    disk.execute_batch("CREATE VIEW file_events AS SELECT 1 AS path").unwrap();
    match EventStore::open(&mut disk, true) {
        Ok(_) => panic!("a view was taken"),
        Err(e) => e,
    }
}

#[test]
fn ranking_puts_best_first_and_keeps_order_of_equals() {
    assert_eq!(rank(&vec![Some(1), Some(5), None, Some(5), Some(3)]), [1, 3, 4, 0]);
    assert_eq!(rank(&vec![Some(2), Some(2), Some(2)]), [0, 1, 2]);
    assert_eq!(rank(&vec![Some(i64::MIN), Some(i64::MAX)]), [1, 0]);
    assert!(rank(&vec![None, None]).is_empty());
    assert!(rank(&Vec::new()).is_empty());
}

#[test]
fn ranked_events_follow_their_scores() {
    let ranked = rank_events(rows(&["a", "b", "c"]), &vec![Some(1), None, Some(2)]);
    assert_eq!(paths(&ranked), ["c", "a"]);
}

#[test]
fn scores_tell_what_matches() {
    let scores = score_events(&rows(&["C:\\abc.txt", "C:\\axbxc.txt", "C:\\ab.log"]), "abc");
    assert!(scores[0].is_some());
    assert!(scores[1].is_some());
    assert!(scores[2].is_none());
    assert!(scores[0] > scores[1]);
}

#[test]
fn a_score_does_not_depend_on_what_was_scored_before() {
    let alone = score_events(&rows(&["C:\\aab.txt"]), "ab");
    let after = score_events(&rows(&["C:\\a b a b a b.txt", "C:\\aab.txt"]), "ab");
    assert_eq!(alone[0], after[1]);
}

#[test]
fn query_with_upper_case_minds_the_case() {
    assert_eq!(paths(&rank_by_query(rows(&["readme", "README"]), "readme")).len(), 2);
    assert_eq!(paths(&rank_by_query(rows(&["readme", "README"]), "README")), ["README"]);
}

#[test]
fn better_matches_come_first() {
    let ranked = rank_by_query(rows(&["C:\\x_f_o_o", "C:\\nothing", "C:\\foo"]), "foo");
    assert_eq!(paths(&ranked), ["C:\\foo", "C:\\x_f_o_o"]);
}

#[test]
fn haystack_joins_four_columns() {
    let mut event = row("C:\\a");
    event.detail = "size=1".to_string();
    assert_eq!(event_haystack(&event), "C:\\a p.exe Read size=1");
    assert_eq!(rank_by_query(vec![event], "size").len(), 1);
}

#[test]
fn new_view_is_empty() {
    let view = EventView::new();
    assert_eq!(view.query, "");
    assert!(!view.paused);
    assert!(view.frozen_rows.is_empty());
    assert_eq!(view.total_count, 0);
}

#[test]
fn without_a_query_the_latest_rows_are_shown() {
    let store = new_store(&["a", "b", "c"]);
    let mut view = EventView::new();
    view.refresh(&store);
    assert_eq!(view.total_count, 3);
    assert_eq!(paths(&view.frozen_rows), ["c", "b", "a"]);
}

#[test]
fn with_a_query_the_matches_are_ranked() {
    let store = new_store(&["C:\\foo.txt", "C:\\bar.txt", "C:\\some\\deep\\xfoo"]);
    let mut view = EventView::new();
    view.query = "foo".to_string();
    view.refresh(&store);
    assert_eq!(view.total_count, 3);
    assert_eq!(paths(&view.frozen_rows), ["C:\\foo.txt", "C:\\some\\deep\\xfoo"]);
}

#[test]
fn query_covers_the_detail() {
    let mut store = new_store(&[]);
    let event = NewFileEvent {
        time_str: "00:00:00.000".to_string(),
        pid: 4,
        process_name: "p.exe".to_string(),
        operation: "Read".to_string(),
        path: "C:\\a.txt".to_string(),
        detail: "size=4096".to_string(),
    };
    store.insert(&event).unwrap();
    let mut view = EventView::new();
    view.query = "4096".to_string();
    view.refresh(&store);
    assert_eq!(view.frozen_rows.len(), 1);
    assert_eq!(view.frozen_rows[0].path, "C:\\a.txt");
}

#[test]
fn query_may_be_a_path() {
    let store = new_store(&["C:\\foo\\bar.txt", "D:\\foo"]);
    let mut view = EventView::new();
    view.query = "c:\\foo".to_string();
    view.refresh(&store);
    assert_eq!(paths(&view.frozen_rows), ["C:\\foo\\bar.txt"]);
}

#[test]
fn lower_case_query_loses_no_hit_of_the_search() {
    let store = new_store(&["C:\\README.txt", "D:\\Readme", "E:\\other"]);
    let found = store.search("readme", 10).unwrap();
    assert_eq!(found.len(), 2);
    assert_eq!(rank_by_query(found, "readme").len(), 2);
    let found = store.search("README", 10).unwrap();
    assert_eq!(found.len(), 2);
    assert_eq!(paths(&rank_by_query(found, "README")), ["C:\\README.txt"]);
}

#[test]
fn paused_view_is_frozen() {
    let mut store = new_store(&["a"]);
    let mut view = EventView::new();
    view.refresh(&store);
    view.toggle_pause();
    assert!(view.paused);
    store.insert(&sighting("b")).unwrap();
    view.query = "b".to_string();
    view.refresh(&store);
    assert_eq!(paths(&view.frozen_rows), ["a"]);
    assert_eq!(view.total_count, 1);
    view.toggle_pause();
    view.refresh(&store);
    assert_eq!(paths(&view.frozen_rows), ["b"]);
    assert_eq!(view.total_count, 2);
}

#[test]
fn failed_answers_show_nothing() {
    let mut view = EventView::new();
    view.show(Ok(7), Ok(rows(&["a"])));
    assert_eq!(view.total_count, 7);
    assert_eq!(paths(&view.frozen_rows), ["a"]);
    view.show(Err(store_error()), Err(store_error()));
    assert_eq!(view.total_count, 0);
    assert!(view.frozen_rows.is_empty());
}

#[test]
fn display_is_bounded() {
    assert_eq!(MAX_DISPLAY_ROWS, 5000);
    let mut store = new_store(&[]);
    for i in 0..MAX_DISPLAY_ROWS + 1 {
        store.insert(&sighting(&format!("f{i}"))).unwrap();
    }
    let mut view = EventView::new();
    view.refresh(&store);
    assert_eq!(view.frozen_rows.len() as i64, MAX_DISPLAY_ROWS);
    assert_eq!(view.total_count, MAX_DISPLAY_ROWS + 1);
}

#[test]
fn button_and_status_show_the_pause() {
    let mut view = EventView::new();
    view.total_count = 12;
    assert_eq!(view.pause_label(), "⏸ 暂停");
    assert_eq!(
        view.status_text(FLUSH_SECONDS, DISK_DB_FILENAME),
        "内存库共 12 条事件 · 每 5 秒自动同步到磁盘文件 evemon_events.sqlite3"
    );
    view.toggle_pause();
    assert_eq!(view.pause_label(), "▶ 继续");
    assert_eq!(
        view.status_text(60, "x"),
        "内存库共 12 条事件 · 每 60 秒自动同步到磁盘文件 x · 已暂停刷新"
    );
}

#[test]
fn search_patterns_escape_wildcards() {
    assert_eq!(like_pattern("a%b_c"), "%a\\%b\\_c%");
    assert_eq!(like_pattern(""), "%%");
    assert_eq!(like_pattern("a\\b"), "%a\\\\b%");
}

#[test]
fn numbers_are_written_in_their_base() {
    let mut out = String::from("x");
    push_number(&mut out, 0, 10);
    push_number(&mut out, 255, 16);
    push_number(&mut out, 6, 2);
    assert_eq!(out, "x0ff110");
    let mut out = String::new();
    push_signed(&mut out, i64::MIN);
    push_signed(&mut out, 17);
    assert_eq!(out, "-922337203685477580817");
}

#[test]
fn words_are_found_in_texts() {
    assert!(contains_text("abcabd", "abd"));
    assert!(contains_text("abc", ""));
    assert!(contains_text("", ""));
    assert!(!contains_text("ab", "abc"));
    assert!(!contains_text("abcab", "abd"));
    assert!(same_text("äb", "äb"));
    assert!(!same_text("äb", "äc"));
    assert!(!same_text("äb", "äbc"));
}
