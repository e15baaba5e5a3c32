//! Tests of the live log and of the callback of the trace.

use evemon::capture::{translate_path, unknown_file, Capture, Device, RawEvent, MAX_FILEOBJ_MAP};
use evemon::etw::{
    event_detail, filetime_to_string, process_label, EventLog, FileEvent, MAX_EVENTS, MIN_FILETIME,
};
use evemon::filter::{FilterConfig, PathFilterConfig};

/// The start of 1970, in units of 100 nanoseconds from the start of 1601.
const UNIX_START: i64 = 116_444_736_000_000_000;

fn event(path: &str) -> FileEvent {
    FileEvent {
        seq: 99,
        time_str: "10:00:00.000".to_string(),
        pid: 7,
        process_name: "a.exe".to_string(),
        operation: "Read".to_string(),
        path: path.to_string(),
        detail: "size=1".to_string(),
    }
}

fn raw(opcode: &str, path: Option<&str>, file_object: Option<usize>) -> RawEvent {
    RawEvent {
        opcode: opcode.to_string(),
        pid: 42,
        timestamp: UNIX_START,
        open_path: path.map(|p| p.to_string()),
        file_object,
        io_size: None,
        offset: None,
    }
}

fn devices() -> Vec<Device> {
    let pairs = [
        ("\\Device\\HarddiskVolume1", "C:"),
        ("\\Device\\HarddiskVolume12", "D:"),
        ("\\Device\\HarddiskVolume1", "E:"),
    ];
    pairs
        .iter()
        .map(|(name, drive)| Device { name: name.to_string(), drive: drive.to_string() })
        .collect()
}

fn open_capture() -> Capture {
    Capture::new(devices(), FilterConfig::default(), PathFilterConfig::default())
}

fn name(process: &str) -> Option<String> {
    Some(process.to_string())
}

fn list(keywords: &[&str]) -> Vec<String> {
    keywords.iter().map(|kw| kw.to_string()).collect()
}

fn path_of(event: Option<FileEvent>) -> String {
    event.unwrap().path
}

#[test]
fn log_numbers_events() {
    let mut log = EventLog::new();
    assert_eq!(log.len(), 0);
    assert!(log.snapshot().is_empty());
    log.push(event("a"));
    log.push(event("b"));
    assert_eq!(log.len(), 2);
    let events = log.snapshot();
    assert_eq!(events[0].seq, 0);
    assert_eq!(events[0].path, "a");
    assert_eq!(events[0].time_str, "10:00:00.000");
    assert_eq!(events[0].pid, 7);
    assert_eq!(events[0].process_name, "a.exe");
    assert_eq!(events[0].operation, "Read");
    assert_eq!(events[0].detail, "size=1");
    assert_eq!(events[1].seq, 1);
    assert_eq!(events[1].path, "b");
}

#[test]
fn full_log_forgets_the_oldest() {
    let mut log = EventLog::new();
    for i in 0..MAX_EVENTS + 3 {
        log.push(event(&format!("{i}")));
    }
    assert_eq!(log.len(), MAX_EVENTS);
    let events = log.snapshot();
    assert_eq!(events.len(), MAX_EVENTS);
    assert_eq!(events[0].path, "3");
    assert_eq!(events[0].seq, 3);
    assert_eq!(events[MAX_EVENTS - 1].path, format!("{}", MAX_EVENTS + 2));
    assert_eq!(events[MAX_EVENTS - 1].seq, MAX_EVENTS as u64 + 2);
}

#[test]
fn observed_events_can_be_stored() {
    let new = event("p").into_new();
    assert_eq!(new.time_str, "10:00:00.000");
    assert_eq!(new.pid, 7);
    assert_eq!(new.process_name, "a.exe");
    assert_eq!(new.operation, "Read");
    assert_eq!(new.path, "p");
    assert_eq!(new.detail, "size=1");
}

#[test]
fn filetimes_are_written_as_time_of_day() {
    assert_eq!(filetime_to_string(UNIX_START), "00:00:00.000");
    assert_eq!(filetime_to_string(0), "00:00:00.000");
    // 13:07:09.0459999 on the first of January 1970.
    let later = UNIX_START + ((13 * 60 + 7) * 60 + 9) * 10_000_000 + 459_999;
    assert_eq!(filetime_to_string(later), "13:07:09.045");
    assert_eq!(filetime_to_string(UNIX_START - 1), "23:59:59.999");
    assert_eq!(filetime_to_string(-1), "23:59:59.999");
    assert_eq!(filetime_to_string(later + 5 * 864_000_000_000), "13:07:09.045");
    assert_eq!(filetime_to_string(later - 9000 * 864_000_000_000), "13:07:09.045");
}

#[test]
fn extreme_filetimes_are_written_too() {
    assert_eq!(filetime_to_string(i64::MAX), "02:48:05.477");
    assert_eq!(filetime_to_string(MIN_FILETIME).len(), 12);
    assert_eq!(MIN_FILETIME, i64::MIN + UNIX_START);
}

#[test]
fn processes_without_a_name_get_their_number() {
    assert_eq!(process_label(name("chrome.exe"), 5), "chrome.exe");
    assert_eq!(process_label(None, 4321), "pid:4321");
    assert_eq!(process_label(None, 0), "pid:0");
    assert_eq!(process_label(None, u32::MAX), "pid:4294967295");
}

#[test]
fn details_show_what_is_there() {
    assert_eq!(event_detail(Some(512), Some(4096)), "size=512 offset=4096");
    assert_eq!(event_detail(Some(512), None), "size=512");
    assert_eq!(event_detail(None, Some(4096)), "");
    assert_eq!(event_detail(None, None), "");
    assert_eq!(
        event_detail(Some(u32::MAX), Some(u64::MAX)),
        "size=4294967295 offset=18446744073709551615"
    );
}

#[test]
fn unknown_files_show_their_object() {
    assert_eq!(unknown_file(0xdead_beef), "<未知文件 fobj=0xdeadbeef>");
    assert_eq!(unknown_file(0), "<未知文件 fobj=0x0>");
    assert_eq!(unknown_file(usize::MAX), format!("<未知文件 fobj=0x{:x}>", usize::MAX));
}

#[test]
fn kernel_paths_become_drive_paths() {
    let devices = devices();
    assert_eq!(translate_path(&devices, "\\Device\\HarddiskVolume1\\Windows\\x"), "C:\\Windows\\x");
    assert_eq!(translate_path(&devices, "\\Device\\HarddiskVolume12\\x"), "D:\\x");
    assert_eq!(translate_path(&devices, "\\Device\\HarddiskVolume1"), "C:");
    assert_eq!(
        translate_path(&devices, "\\Device\\HarddiskVolume123\\x"),
        "\\Device\\HarddiskVolume123\\x"
    );
    assert_eq!(
        translate_path(&devices, "\\Device\\LanmanRedirector\\server\\share"),
        "\\Device\\LanmanRedirector\\server\\share"
    );
    assert_eq!(translate_path(&devices, ""), "");
    assert_eq!(translate_path(&Vec::new(), "\\Device\\X"), "\\Device\\X");
}

#[test]
fn opened_file_is_found_until_it_is_closed() {
    let mut capture = open_capture();
    let create = raw("Create", Some("\\Device\\HarddiskVolume1\\a.txt"), Some(5));
    let opened = capture.handle(create, name("a.exe")).unwrap();
    assert_eq!(opened.seq, 0);
    assert_eq!(opened.time_str, "00:00:00.000");
    assert_eq!(opened.pid, 42);
    assert_eq!(opened.process_name, "a.exe");
    assert_eq!(opened.operation, "Create");
    assert_eq!(opened.path, "C:\\a.txt");
    assert_eq!(opened.detail, "");

    let mut read = raw("Read", None, Some(5));
    read.io_size = Some(10);
    read.offset = Some(20);
    let read = capture.handle(read, None).unwrap();
    assert_eq!(read.path, "C:\\a.txt");
    assert_eq!(read.operation, "Read");
    assert_eq!(read.process_name, "pid:42");
    assert_eq!(read.detail, "size=10 offset=20");

    assert_eq!(path_of(capture.handle(raw("Rename", None, Some(6)), None)), unknown_file(6));
    assert_eq!(path_of(capture.handle(raw("Close", None, Some(5)), None)), "C:\\a.txt");
    assert_eq!(path_of(capture.handle(raw("Read", None, Some(5)), None)), unknown_file(5));
}

#[test]
fn latest_opening_without_a_closing_counts() {
    let mut capture = open_capture();
    capture.handle(raw("Create", Some("a"), Some(1)), None);
    capture.handle(raw("Create", Some("b"), Some(2)), None);
    capture.handle(raw("Close", None, Some(1)), None);
    capture.handle(raw("Create", Some("c"), Some(1)), None);
    capture.handle(raw("Write", None, Some(2)), None);
    capture.handle(raw("Create", None, Some(2)), None);
    assert_eq!(path_of(capture.handle(raw("Read", None, Some(1)), None)), "c");
    assert_eq!(path_of(capture.handle(raw("Read", None, Some(2)), None)), "b");
    capture.handle(raw("Close", None, Some(2)), None);
    assert_eq!(path_of(capture.handle(raw("Read", None, Some(2)), None)), unknown_file(2));
}

#[test]
fn sizes_of_an_opening_are_ignored() {
    let mut capture = open_capture();
    let mut create = raw("Create", Some("a"), Some(1));
    create.io_size = Some(1);
    create.offset = Some(2);
    assert_eq!(capture.handle(create, None).unwrap().detail, "");
}

#[test]
fn events_without_what_they_need_are_left_out() {
    let mut capture = open_capture();
    assert!(capture.handle(raw("Create", None, Some(1)), None).is_none());
    assert!(capture.handle(raw("Create", Some(""), Some(1)), None).is_none());
    assert!(capture.handle(raw("Read", Some("x"), None), None).is_none());
    assert!(capture.handle(raw("Close", None, None), None).is_none());
    assert_eq!(path_of(capture.handle(raw("Read", None, Some(1)), None)), unknown_file(1));
}

#[test]
fn opening_without_an_object_is_kept_and_not_remembered() {
    let mut capture = open_capture();
    assert_eq!(path_of(capture.handle(raw("Create", Some("x"), None), None)), "x");
}

#[test]
fn opening_again_replaces_the_path() {
    let mut capture = open_capture();
    capture.handle(raw("Create", Some("x"), Some(1)), None);
    capture.handle(raw("Create", Some("y"), Some(1)), None);
    assert_eq!(path_of(capture.handle(raw("Read", None, Some(1)), None)), "y");
}

#[test]
fn filtered_process_leaves_no_trace() {
    let filter = FilterConfig::new(Vec::new(), list(&["noisy"]));
    let mut capture = Capture::new(devices(), filter, PathFilterConfig::default());
    assert!(capture.handle(raw("Create", Some("x"), Some(1)), name("Noisy.exe")).is_none());
    assert_eq!(path_of(capture.handle(raw("Read", None, Some(1)), name("a.exe"))), unknown_file(1));
    capture.handle(raw("Create", Some("y"), Some(2)), name("a.exe"));
    assert!(capture.handle(raw("Close", None, Some(2)), name("noisy.exe")).is_none());
    assert_eq!(path_of(capture.handle(raw("Read", None, Some(2)), name("a.exe"))), "y");
}

#[test]
fn process_filter_sees_the_number_of_a_nameless_process() {
    let filter = FilterConfig::new(list(&["pid:42"]), Vec::new());
    let mut capture = Capture::new(devices(), filter, PathFilterConfig::default());
    assert!(capture.handle(raw("Create", Some("x"), None), None).is_some());
    assert!(capture.handle(raw("Create", Some("x"), None), name("a.exe")).is_none());
}

#[test]
fn path_filter_sees_translated_paths() {
    let filter = PathFilterConfig::new(list(&["C:\\keep"]), Vec::new());
    let mut capture = Capture::new(devices(), FilterConfig::default(), filter);
    let kept = raw("Create", Some("\\Device\\HarddiskVolume1\\keep\\a"), Some(1));
    assert!(capture.handle(kept, None).is_some());
    let dropped = raw("Create", Some("\\Device\\HarddiskVolume1\\other"), Some(2));
    assert!(capture.handle(dropped, None).is_none());
    capture.set_path_filter(PathFilterConfig::default());
    assert_eq!(path_of(capture.handle(raw("Read", None, Some(2)), None)), "C:\\other");
}

#[test]
fn filters_can_be_replaced_while_files_are_open() {
    let mut capture = open_capture();
    capture.handle(raw("Create", Some("x"), Some(1)), name("a.exe"));
    capture.set_process_filter(FilterConfig::new(list(&["b"]), Vec::new()));
    assert!(capture.handle(raw("Read", None, Some(1)), name("a.exe")).is_none());
    assert_eq!(path_of(capture.handle(raw("Read", None, Some(1)), name("b.exe"))), "x");
}

#[test]
fn open_files_keep_their_path_when_devices_change() {
    let mut capture = open_capture();
    capture.handle(raw("Create", Some("\\Device\\HarddiskVolume1\\x"), Some(1)), None);
    capture.set_devices(Vec::new());
    assert_eq!(path_of(capture.handle(raw("Read", None, Some(1)), None)), "C:\\x");
    let create = raw("Create", Some("\\Device\\HarddiskVolume1\\y"), Some(2));
    assert_eq!(path_of(capture.handle(create, None)), "\\Device\\HarddiskVolume1\\y");
}

#[test]
fn too_many_open_files_are_all_forgotten() {
    let mut capture = open_capture();
    for i in 0..MAX_FILEOBJ_MAP + 1 {
        capture.handle(raw("Create", Some("x"), Some(i)), None);
    }
    assert_eq!(path_of(capture.handle(raw("Read", None, Some(0)), None)), "x");
    capture.handle(raw("Create", Some("y"), Some(MAX_FILEOBJ_MAP + 1)), None);
    assert_eq!(path_of(capture.handle(raw("Read", None, Some(0)), None)), unknown_file(0));
    let last = capture.handle(raw("Read", None, Some(MAX_FILEOBJ_MAP + 1)), None);
    assert_eq!(path_of(last), "y");
}
