//! What the callback of the kernel trace does with each event: which events it keeps, which path
//! they are about, and what it remembers of open files.

use std::collections::HashMap;
use vstd::prelude::*;

use crate::capture_laws::{close_is_no_create, open_files_are_bounded};
use crate::etw::{detail_text, event_detail, filetime_text, filetime_to_string, process_label,
    process_text, FileEvent, MIN_FILETIME};
use crate::filter::{lists_allow, FilterConfig, PathFilterConfig};
use crate::table::Sighting;
use crate::text::{number_text, push_number, same_text, to_chars};

verus! {

broadcast use vstd::std_specs::hash::group_hash_axioms;

/// How many open files are remembered before all are forgotten. The number of open files grows
/// without bound only where the events of their closing are lost.
pub const MAX_FILEOBJ_MAP: usize = 100_000;

/// An event as the trace reports it. A field that the event does not have, or that cannot be read,
/// is `None`.
#[derive(Debug)]
pub struct RawEvent {
    pub opcode: String,
    pub pid: u32,
    /// In units of 100 nanoseconds from the start of 1601.
    pub timestamp: i64,
    /// The path of a file that is opened. Other events have no path.
    pub open_path: Option<String>,
    /// Which open file the event is about.
    pub file_object: Option<usize>,
    pub io_size: Option<u32>,
    pub offset: Option<u64>,
}

impl RawEvent {
    /// A file is opened.
    pub open spec fn is_create(self) -> bool {
        self.opcode@ == "Create"@
    }

    /// A file is closed.
    pub open spec fn is_close(self) -> bool {
        self.opcode@ == "Close"@
    }
}

/// A device of the kernel, and the drive that programs know it by.
#[derive(Debug)]
pub struct Device {
    /// Such as `\Device\HarddiskVolume3`.
    pub name: String,
    /// Such as `C:`.
    pub drive: String,
}

/// `path` lies on the device `name`: it is the device, or goes on with a backslash behind it.
pub open spec fn lies_on(path: Seq<char>, name: Seq<char>) -> bool {
    &&& name.len() <= path.len()
    &&& path.take(name.len() as int) == name
    &&& path.len() == name.len() || path[name.len() as int] == '\\'
}

/// `path` with the drive in place of the first device of the table that it lies on. A path that
/// lies on none of them stays as it is.
pub open spec fn translated(devices: Seq<Device>, path: Seq<char>) -> Seq<char>
    decreases devices.len(),
{
    if devices.len() == 0 {
        path
    } else if lies_on(path, devices[0].name@) {
        devices[0].drive@ + path.skip(devices[0].name@.len() as int)
    } else {
        translated(devices.skip(1), path)
    }
}

/// Whether `path` lies on the device `name`.
fn path_lies_on(path: &Vec<char>, name: &Vec<char>) -> (r: bool)
    ensures
        r == lies_on(path@, name@),
{
    if name.len() > path.len() {
        return false;
    }
    let mut i: usize = 0;
    while i < name.len()
        invariant
            i <= name@.len() <= path@.len(),
            forall|j: int| 0 <= j < i ==> path@[j] == name@[j],
        decreases name@.len() - i,
    {
        if path[i] != name[i] {
            assert(path@.take(name@.len() as int)[i as int] != name@[i as int]);
            return false;
        }
        i += 1;
    }
    assert(path@.take(name@.len() as int) =~= name@);
    path.len() == name.len() || path[name.len()] == '\\'
}

/// Puts the drive in place of the first device of the table that the path lies on.
pub fn translate_path(devices: &Vec<Device>, path: &str) -> (r: String)
    ensures
        r@ == translated(devices@, path@),
{
    let chars = to_chars(path);
    let mut i: usize = 0;
    assert(devices@.skip(0) =~= devices@);
    while i < devices.len()
        invariant
            i <= devices@.len(),
            chars@ == path@,
            translated(devices@, path@) == translated(devices@.skip(i as int), path@),
        decreases devices@.len() - i,
    {
        let name = to_chars(&devices[i].name);
        assert(devices@.skip(i as int)[0] == devices@[i as int]);
        if path_lies_on(&chars, &name) {
            let mut r = devices[i].drive.clone();
            let mut k: usize = name.len();
            assert(path@.subrange(name@.len() as int, k as int) =~= Seq::empty());
            assert(r@ =~= devices@[i as int].drive@ + path@.subrange(
                name@.len() as int,
                k as int,
            ));
            while k < chars.len()
                invariant
                    i < devices@.len(),
                    name@.len() <= k <= chars@.len(),
                    chars@ == path@,
                    r@ == devices@[i as int].drive@ + path@.subrange(name@.len() as int, k as int),
                decreases chars@.len() - k,
            {
                r.push(chars[k]);
                assert(r@ =~= devices@[i as int].drive@ + path@.subrange(
                    name@.len() as int,
                    k + 1,
                ));
                k += 1;
            }
            assert(path@.subrange(name@.len() as int, k as int) =~= path@.skip(name@.len() as int));
            return r;
        }
        assert(devices@.skip(i as int).skip(1) =~= devices@.skip(i + 1));
        i += 1;
    }
    path.to_owned()
}

/// What stands for the path of an open file that is not remembered, such as one that was open
/// before the trace started.
pub open spec fn unknown_path(file_object: usize) -> Seq<char> {
    "<未知文件 fobj=0x"@ + number_text(file_object as nat, 16) + ">"@
}

/// What stands for the path of an open file that is not remembered.
pub fn unknown_file(file_object: usize) -> (r: String)
    ensures
        r@ == unknown_path(file_object),
        r@ == "<未知文件 fobj=0x"@ + number_text(file_object as nat, 16) + ">"@,
{
    let mut r = "<未知文件 fobj=0x".to_owned();
    push_number(&mut r, file_object as u64, 16);
    r.push_str(">");
    r
}

/// The paths of the open files that are remembered.
pub type OpenFiles = Map<usize, Seq<char>>;

/// The path that an event is about; `None` if that cannot be told.
pub open spec fn event_path(
    files: OpenFiles,
    devices: Seq<Device>,
    raw: RawEvent,
) -> Option<Seq<char>> {
    if raw.is_create() {
        match raw.open_path {
            Some(path) => if path@.len() > 0 {
                Some(translated(devices, path@))
            } else {
                None
            },
            None => None,
        }
    } else {
        match raw.file_object {
            Some(f) => if files.contains_key(f) {
                Some(files[f])
            } else {
                Some(unknown_path(f))
            },
            None => None,
        }
    }
}

/// The open files with room for one more: where there are too many, all are forgotten.
pub open spec fn with_room(files: OpenFiles) -> OpenFiles {
    if files.len() > MAX_FILEOBJ_MAP {
        Map::empty()
    } else {
        files
    }
}

/// No more files are remembered than the limit, and one.
pub open spec fn is_bounded(files: OpenFiles) -> bool {
    files.dom().finite() && files.len() <= MAX_FILEOBJ_MAP + 1
}

/// What is remembered after an event: a file that is opened is remembered, one that is closed is
/// forgotten.
pub open spec fn files_after(
    files: OpenFiles,
    devices: Seq<Device>,
    raw: RawEvent,
) -> OpenFiles {
    match (raw.file_object, event_path(files, devices, raw)) {
        (Some(f), Some(path)) => if raw.is_create() {
            with_room(files).insert(f, path)
        } else if raw.is_close() {
            files.remove(f)
        } else {
            files
        },
        _ => files,
    }
}

/// What is observed of an event that is about `path`.
pub open spec fn observed(raw: RawEvent, process: Seq<char>, path: Seq<char>) -> Sighting {
    Sighting {
        time_str: filetime_text(raw.timestamp as int),
        pid: raw.pid as int,
        process_name: process,
        operation: raw.opcode@,
        path,
        detail: if raw.is_create() {
            Seq::empty()
        } else {
            detail_text(raw.io_size, raw.offset)
        },
    }
}

/// The texts of a map.
pub open spec fn map_texts(m: Map<usize, String>) -> OpenFiles {
    m.map_values(|s: String| s@)
}

/// The state of the callback: the open files that it remembers, the devices, and the filters.
pub struct Capture {
    files: HashMap<usize, String>,
    devices: Vec<Device>,
    process_filter: FilterConfig,
    path_filter: PathFilterConfig,
}

impl Capture {
    /// The paths of the open files that are remembered.
    pub closed spec fn files(self) -> OpenFiles {
        map_texts(self.files@)
    }

    /// The devices and their drives.
    pub closed spec fn devices(self) -> Seq<Device> {
        self.devices@
    }

    /// The process filter lets `process` through.
    pub closed spec fn allows_process(self, process: Seq<char>) -> bool {
        lists_allow(self.process_filter.white(), self.process_filter.black(), process)
    }

    /// The path filter lets `path` through.
    pub closed spec fn allows_path(self, path: Seq<char>) -> bool {
        lists_allow(self.path_filter.white(), self.path_filter.black(), path)
    }

    /// Nothing but the open files differs.
    pub open spec fn same_settings(self, other: Capture) -> bool {
        &&& self.devices() == other.devices()
        &&& forall|s: Seq<char>| #[trigger] self.allows_process(s) == other.allows_process(s)
        &&& forall|s: Seq<char>| #[trigger] self.allows_path(s) == other.allows_path(s)
    }

    /// A callback that remembers nothing.
    pub fn new(
        devices: Vec<Device>,
        process_filter: FilterConfig,
        path_filter: PathFilterConfig,
    ) -> (capture: Capture)
        ensures
            capture.files() == Map::<usize, Seq<char>>::empty(),
            is_bounded(capture.files()),
            capture.devices() == devices@,
            forall|s: Seq<char>| #[trigger]
                capture.allows_process(s) == lists_allow(
                    process_filter.white(),
                    process_filter.black(),
                    s,
                ),
            forall|s: Seq<char>| #[trigger]
                capture.allows_path(s) == lists_allow(path_filter.white(), path_filter.black(), s),
    {
        let capture = Capture { files: HashMap::new(), devices, process_filter, path_filter };
        assert(capture.files() =~= Map::<usize, Seq<char>>::empty());
        capture
    }

    /// Replaces the process filter. The open files stay remembered, so that the trace need not be
    /// started anew.
    pub fn set_process_filter(&mut self, process_filter: FilterConfig)
        ensures
            final(self).files() == old(self).files(),
            final(self).devices() == old(self).devices(),
            forall|s: Seq<char>| #[trigger]
                final(self).allows_process(s) == lists_allow(
                    process_filter.white(),
                    process_filter.black(),
                    s,
                ),
            forall|s: Seq<char>| #[trigger]
                final(self).allows_path(s) == old(self).allows_path(s),
    {
        self.process_filter = process_filter;
    }

    /// Replaces the path filter. The open files stay remembered.
    pub fn set_path_filter(&mut self, path_filter: PathFilterConfig)
        ensures
            final(self).files() == old(self).files(),
            final(self).devices() == old(self).devices(),
            forall|s: Seq<char>| #[trigger]
                final(self).allows_process(s) == old(self).allows_process(s),
            forall|s: Seq<char>| #[trigger]
                final(self).allows_path(s) == lists_allow(
                    path_filter.white(),
                    path_filter.black(),
                    s,
                ),
    {
        self.path_filter = path_filter;
    }

    /// Replaces the table of devices. Files that are already open keep the path they were
    /// remembered with.
    pub fn set_devices(&mut self, devices: Vec<Device>)
        ensures
            final(self).files() == old(self).files(),
            final(self).devices() == devices@,
            forall|s: Seq<char>| #[trigger]
                final(self).allows_process(s) == old(self).allows_process(s),
            forall|s: Seq<char>| #[trigger]
                final(self).allows_path(s) == old(self).allows_path(s),
    {
        self.devices = devices;
    }

    /// Takes one event of the trace. `name` is the name of its process, where that is known.
    ///
    /// An event of a process that the filter leaves out is given up at once, and nothing is
    /// remembered of it. Of the others, what is told of open files is remembered, and those are
    /// kept whose path can be told and is let through. The path is translated before that.
    pub fn handle(&mut self, raw: RawEvent, name: Option<String>) -> (r: Option<FileEvent>)
        requires
            raw.timestamp >= MIN_FILETIME,
        ensures
            final(self).same_settings(*old(self)),
            final(self).devices() == old(self).devices(),
            forall|s: Seq<char>| #[trigger]
                final(self).allows_process(s) == old(self).allows_process(s),
            forall|s: Seq<char>| #[trigger]
                final(self).allows_path(s) == old(self).allows_path(s),
            is_bounded(old(self).files()) ==> is_bounded(final(self).files()),
            ({
                let process = process_text(
                    match name {
                        Some(name) => Some(name@),
                        None => None,
                    },
                    raw.pid as int,
                );
                let path = event_path(old(self).files(), old(self).devices(), raw);
                &&& final(self).files() == if old(self).allows_process(process) {
                    files_after(old(self).files(), old(self).devices(), raw)
                } else {
                    old(self).files()
                }
                &&& r is Some <==> old(self).allows_process(process) && path is Some
                    && old(self).allows_path(path->0)
                &&& r matches Some(ev) ==> ev.seq == 0 && ev.sighting() == observed(
                    raw,
                    process,
                    path->0,
                )
            }),
            r matches Some(ev) ==> {
                &&& ev.pid == raw.pid
                &&& ev.operation@ == raw.opcode@
                &&& ev.time_str@ == filetime_text(raw.timestamp as int)
                &&& name matches Some(known) ==> ev.process_name@ == known@
                &&& name is None ==> ev.process_name@ == "pid:"@ + number_text(raw.pid as nat, 10)
            },
            r matches Some(ev) ==> raw.opcode@ != "Create"@ ==> {
                &&& raw.io_size is None ==> ev.detail@.len() == 0
                &&& raw.io_size is Some && raw.offset is None ==> ev.detail@ == "size="@
                    + number_text(raw.io_size->0 as nat, 10)
                &&& raw.io_size is Some && raw.offset is Some ==> ev.detail@ == "size="@
                    + number_text(raw.io_size->0 as nat, 10) + " offset="@ + number_text(
                    raw.offset->0 as nat,
                    10,
                )
                &&& raw.file_object is Some
                &&& old(self).files().contains_key(raw.file_object->0) ==> ev.path@ == old(
                    self,
                ).files()[raw.file_object->0]
                &&& !old(self).files().contains_key(raw.file_object->0) ==> ev.path@
                    == "<未知文件 fobj=0x"@ + number_text(raw.file_object->0 as nat, 16) + ">"@
            },
            r matches Some(ev) ==> raw.opcode@ == "Create"@ ==> {
                &&& ev.detail@.len() == 0
                &&& raw.open_path is Some
                &&& ev.path@ == translated(old(self).devices(), raw.open_path->0@)
                &&& raw.file_object matches Some(f) ==> final(self).files().contains_key(f)
                    && final(self).files()[f] == ev.path@
            },
            r matches Some(ev) ==> raw.opcode@ == "Close"@ ==> !final(self).files().contains_key(
                raw.file_object->0,
            ),
            raw.opcode@ != "Create"@ && raw.opcode@ != "Close"@ ==> final(self).files() == old(
                self,
            ).files(),
    {
        proof {
            if is_bounded(self.files()) {
                open_files_are_bounded(self.files(), self.devices(), raw);
            }
        }
        proof {
            close_is_no_create(raw);
        }
        let process_name = process_label(name, raw.pid);
        if !self.process_filter.allows(&process_name) {
            return None;
        }
        let is_create = same_text(&raw.opcode, "Create");
        let path = if is_create {
            match &raw.open_path {
                Some(path) => {
                    if path.as_str().is_empty() {
                        return None;
                    }
                    translate_path(&self.devices, path)
                },
                None => return None,
            }
        } else {
            match raw.file_object {
                Some(f) => self.path_of(f),
                None => return None,
            }
        };
        assert(event_path(self.files(), self.devices(), raw) == Some(path@));
        if let Some(f) = raw.file_object {
            if is_create {
                self.remember(f, path.clone());
            } else if same_text(&raw.opcode, "Close") {
                self.files.remove(&f);
                assert(self.files() =~= old(self).files().remove(f));
            }
        }
        assert(self.files() == files_after(old(self).files(), old(self).devices(), raw));
        assert(self.allows_path(path@) == old(self).allows_path(path@));
        if !self.path_filter.allows(&path) {
            return None;
        }
        let detail = if is_create {
            String::new()
        } else {
            event_detail(raw.io_size, raw.offset)
        };
        Some(
            FileEvent {
                seq: 0,
                time_str: filetime_to_string(raw.timestamp),
                pid: raw.pid,
                process_name,
                operation: raw.opcode,
                path,
                detail,
            },
        )
    }

    /// The path of an open file.
    fn path_of(&self, f: usize) -> (path: String)
        ensures
            path@ == if self.files().contains_key(f) {
                self.files()[f]
            } else {
                unknown_path(f)
            },
    {
        match self.files.get(&f) {
            Some(path) => path.clone(),
            None => unknown_file(f),
        }
    }

    /// Remembers an open file.
    fn remember(&mut self, f: usize, path: String)
        ensures
            final(self).files() == with_room(old(self).files()).insert(f, path@),
            final(self).same_settings(*old(self)),
    {
        assert(self.files@.dom() =~= self.files().dom());
        if self.files.len() > MAX_FILEOBJ_MAP {
            self.files.clear();
        }
        self.files.insert(f, path);
        assert(self.files() =~= with_room(old(self).files()).insert(f, path@));
    }
}

} // verus!
