//! Laws of the callback: what it remembers of open files, and how it translates paths.

use vstd::prelude::*;

use crate::capture::{
    event_path, files_after, is_bounded, lies_on, observed, translated, unknown_path, with_room,
    Device, OpenFiles, RawEvent, MAX_FILEOBJ_MAP,
};
use crate::etw::filetime_text;
use crate::text::number_text;

verus! {

/// A file that was opened is found again: the next event about it, whatever it is and whatever
/// the table of devices is by then, is about the translated path that it was opened with.
pub proof fn opened_file_is_found(
    files: OpenFiles,
    devices: Seq<Device>,
    create: RawEvent,
    later_devices: Seq<Device>,
    later: RawEvent,
)
    requires
        create.is_create(),
        create.file_object is Some,
        create.open_path matches Some(path) && path@.len() > 0,
        !later.is_create(),
        later.file_object == create.file_object,
    ensures
        event_path(files_after(files, devices, create), later_devices, later) == Some(
            translated(devices, create.open_path->0@),
        ),
{
}

/// A file that was closed is forgotten: events about it are about an unknown file, until it is
/// opened again.
pub proof fn closed_file_is_unknown(
    files: OpenFiles,
    devices: Seq<Device>,
    close: RawEvent,
    later_devices: Seq<Device>,
    later: RawEvent,
)
    requires
        close.is_close(),
        close.file_object is Some,
        !later.is_create(),
        later.file_object == close.file_object,
    ensures
        event_path(files, devices, close) is Some,
        event_path(files_after(files, devices, close), later_devices, later) == Some(
            unknown_path(close.file_object->0),
        ),
{
    close_is_no_create(close);
}

/// Opening and closing are different events.
pub proof fn close_is_no_create(raw: RawEvent)
    ensures
        !(raw.is_create() && raw.is_close()),
{
    reveal_strlit("Create");
    reveal_strlit("Close");
    if raw.is_create() && raw.is_close() {
        assert("Create"@.len() == "Close"@.len());
    }
}

/// An event that neither opens nor closes a file changes nothing of what is remembered.
pub proof fn only_open_and_close_count(files: OpenFiles, devices: Seq<Device>, raw: RawEvent)
    requires
        !raw.is_create(),
        !raw.is_close(),
    ensures
        files_after(files, devices, raw) == files,
{
}

/// An event about one file leaves what is remembered of another, unless there were so many that
/// all are forgotten.
pub proof fn other_files_stay(
    files: OpenFiles,
    devices: Seq<Device>,
    raw: RawEvent,
    other: usize,
)
    requires
        raw.file_object != Some(other),
        files.len() <= MAX_FILEOBJ_MAP,
    ensures
        files_after(files, devices, raw).contains_key(other) == files.contains_key(other),
        files.contains_key(other) ==> files_after(files, devices, raw)[other] == files[other],
{
}

/// What is remembered stays bounded: one file beyond the limit at the most.
pub proof fn open_files_are_bounded(files: OpenFiles, devices: Seq<Device>, raw: RawEvent)
    requires
        is_bounded(files),
    ensures
        is_bounded(files_after(files, devices, raw)),
{
    if raw.file_object is Some {
        let f = raw.file_object->0;
        let path = event_path(files, devices, raw);
        if path is Some {
            let room = with_room(files);
            assert(room.insert(f, path->0).dom() =~= room.dom().insert(f));
            assert(files.remove(f).dom() =~= files.dom().remove(f));
        }
    }
}

/// A path that lies on no device of the table stays as it is.
pub proof fn foreign_path_stays(devices: Seq<Device>, path: Seq<char>)
    requires
        forall|i: int| 0 <= i < devices.len() ==> !lies_on(path, (#[trigger] devices[i]).name@),
    ensures
        translated(devices, path) == path,
    decreases devices.len(),
{
    if devices.len() > 0 {
        let rest = devices.skip(1);
        assert forall|i: int| 0 <= i < rest.len() implies !lies_on(
            path,
            (#[trigger] rest[i]).name@,
        ) by {
            assert(rest[i] == devices[i + 1]);
        }
        assert(!lies_on(path, devices[0].name@));
        foreign_path_stays(rest, path);
    }
}

/// A path on a device gets the drive of the first such device of the table; what stands behind
/// the device stays.
pub proof fn first_device_counts(devices: Seq<Device>, path: Seq<char>, i: int)
    requires
        0 <= i < devices.len(),
        lies_on(path, devices[i].name@),
        forall|j: int| 0 <= j < i ==> !lies_on(path, (#[trigger] devices[j]).name@),
    ensures
        translated(devices, path) == devices[i].drive@ + path.skip(
            devices[i].name@.len() as int,
        ),
    decreases i,
{
    if i > 0 {
        let rest = devices.skip(1);
        assert forall|j: int| 0 <= j < i - 1 implies !lies_on(
            path,
            (#[trigger] rest[j]).name@,
        ) by {
            assert(rest[j] == devices[j + 1]);
        }
        assert(!lies_on(path, devices[0].name@));
        assert(rest[i - 1] == devices[i]);
        first_device_counts(rest, path, i - 1);
    }
}

/// A path lies on one device only, among devices none of which lies on another.
pub proof fn device_is_unique(path: Seq<char>, a: Seq<char>, b: Seq<char>)
    requires
        lies_on(path, a),
        lies_on(path, b),
        a.len() <= b.len(),
    ensures
        lies_on(b, a),
{
    assert(b.take(a.len() as int) =~= path.take(a.len() as int));
    if a.len() < b.len() {
        assert(b[a.len() as int] == path[a.len() as int]);
    }
}

/// A path on a device is translated by putting the drive for the device, however long what stands
/// behind it is: nothing, or a backslash and more. No device of the table may lie below another.
pub proof fn device_path_gets_its_drive(devices: Seq<Device>, i: int, rest: Seq<char>)
    requires
        0 <= i < devices.len(),
        rest.len() == 0 || rest[0] == '\\',
        forall|j: int, k: int, below: Seq<char>|
            #![trigger devices[j], devices[k].name@ + below]
            0 <= j < devices.len() && 0 <= k < devices.len() && j != k && (below.len() == 0
                || below[0] == '\\') ==> devices[j].name@ != devices[k].name@ + below,
    ensures
        translated(devices, devices[i].name@ + rest) == devices[i].drive@ + rest,
{
    let path = devices[i].name@ + rest;
    assert forall|j: int, tail: Seq<char>|
        0 <= j < i && (tail.len() == 0 || tail[0] == '\\') implies path != #[trigger] (
    devices[j].name@ + tail) by {
        if path == devices[j].name@ + tail {
            let a = devices[i].name@;
            let b = devices[j].name@;
            if a.len() <= b.len() {
                let below = b.skip(a.len() as int);
                assert forall|x: int| 0 <= x < a.len() implies b[x] == a[x] by {
                    assert(path[x] == a[x] && (b + tail)[x] == b[x]);
                }
                assert(b =~= a + below);
                if below.len() > 0 {
                    assert(below[0] == path[a.len() as int]);
                    assert(path[a.len() as int] == rest[0]);
                }
                assert(devices[j].name@ == devices[i].name@ + below);
            } else {
                let below = a.skip(b.len() as int);
                assert forall|x: int| 0 <= x < b.len() implies a[x] == b[x] by {
                    assert(path[x] == a[x] && (b + tail)[x] == b[x]);
                }
                assert(a =~= b + below);
                assert(below[0] == path[b.len() as int]);
                assert(path[b.len() as int] == tail[0]);
                assert(devices[i].name@ == devices[j].name@ + below);
            }
        }
    }
    first_device_of_the_table_counts(devices, i, rest);
}

/// Among devices of which some may lie below others, the first one of the table that the path is
/// on counts.
pub proof fn first_device_of_the_table_counts(devices: Seq<Device>, i: int, rest: Seq<char>)
    requires
        0 <= i < devices.len(),
        rest.len() == 0 || rest[0] == '\\',
        forall|j: int, tail: Seq<char>|
            0 <= j < i && (tail.len() == 0 || tail[0] == '\\') ==> devices[i].name@ + rest
                != #[trigger] (devices[j].name@ + tail),
    ensures
        translated(devices, devices[i].name@ + rest) == devices[i].drive@ + rest,
{
    let path = devices[i].name@ + rest;
    let n = devices[i].name@.len() as int;
    assert(path.take(n) =~= devices[i].name@);
    assert(path.skip(n) =~= rest);
    assert forall|j: int| 0 <= j < i implies !lies_on(path, (#[trigger] devices[j]).name@) by {
        if lies_on(path, devices[j].name@) {
            let m = devices[j].name@.len() as int;
            let tail = path.skip(m);
            assert(path =~= devices[j].name@ + tail);
            assert(tail.len() > 0 ==> tail[0] == path[m]);
        }
    }
    first_device_counts(devices, path, i);
}

/// A path that is no device of the table with nothing or a backslash behind it stays as it is.
pub proof fn path_on_no_device_stays(devices: Seq<Device>, path: Seq<char>)
    requires
        forall|j: int, tail: Seq<char>|
            0 <= j < devices.len() && (tail.len() == 0 || tail[0] == '\\') ==> path != #[trigger] (
            devices[j].name@ + tail),
    ensures
        translated(devices, path) == path,
{
    assert forall|j: int| 0 <= j < devices.len() implies !lies_on(
        path,
        (#[trigger] devices[j]).name@,
    ) by {
        if lies_on(path, devices[j].name@) {
            let m = devices[j].name@.len() as int;
            let tail = path.skip(m);
            assert(path =~= devices[j].name@ + tail);
            assert(tail.len() > 0 ==> tail[0] == path[m]);
        }
    }
    foreign_path_stays(devices, path);
}

/// A file is opened under the path that the event tells, translated. Without a path, or with an
/// empty one, nothing can be told.
pub proof fn opening_tells_its_path(files: OpenFiles, devices: Seq<Device>, raw: RawEvent)
    requires
        raw.opcode@ == "Create"@,
    ensures
        raw.open_path matches Some(path) && path@.len() > 0 ==> event_path(files, devices, raw)
            == Some(translated(devices, raw.open_path->0@)),
        raw.open_path is None || raw.open_path->0@.len() == 0 ==> event_path(
            files,
            devices,
            raw,
        ) is None,
{
}

/// Every event but an opening, whatever it is called, is about the path that its file was
/// remembered with, and about an unknown file with its number in hexadecimal if there is none.
pub proof fn other_events_look_up_their_file(
    files: OpenFiles,
    devices: Seq<Device>,
    raw: RawEvent,
)
    requires
        raw.opcode@ != "Create"@,
    ensures
        raw.file_object is None ==> event_path(files, devices, raw) is None,
        raw.file_object matches Some(f) ==> (files.contains_key(f) ==> event_path(
            files,
            devices,
            raw,
        ) == Some(files[f])),
        raw.file_object matches Some(f) ==> (!files.contains_key(f) ==> event_path(
            files,
            devices,
            raw,
        ) == Some("<未知文件 fobj=0x"@ + number_text(f as nat, 16) + ">"@)),
{
}

/// What is remembered: an opening adds its file with the translated path, after all were forgotten
/// where there were more than 100,000; a closing takes its file away; nothing else changes
/// anything.
pub proof fn openings_and_closings_are_remembered(
    files: OpenFiles,
    devices: Seq<Device>,
    raw: RawEvent,
)
    ensures
        raw.opcode@ == "Create"@ && raw.file_object is Some && raw.open_path is Some
            && raw.open_path->0@.len() > 0 && files.len() <= 100_000 ==> files_after(
            files,
            devices,
            raw,
        ) == files.insert(raw.file_object->0, translated(devices, raw.open_path->0@)),
        raw.opcode@ == "Create"@ && raw.file_object is Some && raw.open_path is Some
            && raw.open_path->0@.len() > 0 && files.len() > 100_000 ==> files_after(
            files,
            devices,
            raw,
        ) == Map::<usize, Seq<char>>::empty().insert(
            raw.file_object->0,
            translated(devices, raw.open_path->0@),
        ),
        raw.opcode@ == "Close"@ && raw.file_object is Some ==> files_after(files, devices, raw)
            == files.remove(raw.file_object->0),
        raw.opcode@ != "Create"@ && raw.opcode@ != "Close"@ ==> files_after(files, devices, raw)
            == files,
        raw.file_object is None ==> files_after(files, devices, raw) == files,
        raw.opcode@ == "Create"@ && (raw.open_path is None || raw.open_path->0@.len() == 0)
            ==> files_after(files, devices, raw) == files,
{
    close_is_no_create(raw);
}

/// What is observed of an event: its time of day, its process, its kind and its path; of an opening
/// nothing more, and of any other event the size and the offset that it has, in decimal, whatever
/// kind of event it is.
pub proof fn event_is_observed_in_full(raw: RawEvent, process: Seq<char>, path: Seq<char>)
    ensures
        observed(raw, process, path).time_str == filetime_text(raw.timestamp as int),
        observed(raw, process, path).pid == raw.pid,
        observed(raw, process, path).process_name == process,
        observed(raw, process, path).operation == raw.opcode@,
        observed(raw, process, path).path == path,
        raw.opcode@ == "Create"@ || raw.io_size is None ==> observed(
            raw,
            process,
            path,
        ).detail.len() == 0,
        raw.opcode@ != "Create"@ && raw.io_size is Some && raw.offset is None ==> observed(
            raw,
            process,
            path,
        ).detail == "size="@ + number_text(raw.io_size->0 as nat, 10),
        raw.opcode@ != "Create"@ && raw.io_size is Some && raw.offset is Some ==> observed(
            raw,
            process,
            path,
        ).detail == "size="@ + number_text(raw.io_size->0 as nat, 10) + " offset="@ + number_text(
            raw.offset->0 as nat,
            10,
        ),
{
}

/// Two events that differ in their kind alone, and neither of which is an opening, are observed
/// with the same detail.
pub proof fn detail_does_not_depend_on_the_kind(
    a: RawEvent,
    b: RawEvent,
    process: Seq<char>,
    path: Seq<char>,
)
    requires
        a.opcode@ != "Create"@,
        b.opcode@ != "Create"@,
        a.io_size == b.io_size,
        a.offset == b.offset,
    ensures
        observed(a, process, path).detail == observed(b, process, path).detail,
{
}

/// One event of a trace, with the table of devices at that time, and whether the process filter
/// lets its process through.
pub struct TraceStep {
    pub devices: Seq<Device>,
    pub raw: RawEvent,
    pub allowed: bool,
}

/// What is remembered after a trace, which starts with nothing remembered.
pub open spec fn files_along(steps: Seq<TraceStep>) -> OpenFiles
    decreases steps.len(),
{
    if steps.len() == 0 {
        Map::empty()
    } else {
        let files = files_along(steps.drop_last());
        let step = steps.last();
        if step.allowed {
            files_after(files, step.devices, step.raw)
        } else {
            files
        }
    }
}

/// The number of events of a trace that open a file.
pub open spec fn creates(steps: Seq<TraceStep>) -> nat
    decreases steps.len(),
{
    if steps.len() == 0 {
        0
    } else {
        creates(steps.drop_last()) + if steps.last().raw.is_create() {
            1nat
        } else {
            0
        }
    }
}

/// The event opens the file `f`, and tells its path.
pub open spec fn opens(step: TraceStep, f: usize) -> bool {
    &&& step.allowed
    &&& step.raw.is_create()
    &&& step.raw.file_object == Some(f)
    &&& step.raw.open_path matches Some(path) && path@.len() > 0
}

/// The event closes the file `f`.
pub open spec fn closes(step: TraceStep, f: usize) -> bool {
    step.allowed && step.raw.is_close() && step.raw.file_object == Some(f)
}

/// The file `f` was opened by event `i`, and neither closed nor opened again since.
pub open spec fn is_open_since(steps: Seq<TraceStep>, f: usize, i: int) -> bool {
    &&& 0 <= i < steps.len()
    &&& opens(steps[i], f)
    &&& forall|j: int|
        i < j < steps.len() ==> !opens(#[trigger] steps[j], f) && !closes(steps[j], f)
}

/// The path that an event opens a file with.
pub open spec fn opened_path(step: TraceStep) -> Seq<char> {
    translated(step.devices, step.raw.open_path->0@)
}

/// Over a whole trace, the files that are remembered are those that were opened and not closed
/// since, each with the path of its latest opening, as long as no more files were opened than may
/// be remembered.
pub proof fn open_files_follow_the_trace(steps: Seq<TraceStep>)
    requires
        creates(steps) <= MAX_FILEOBJ_MAP,
    ensures
        files_along(steps).dom().finite(),
        files_along(steps).len() <= creates(steps),
        forall|f: usize, i: int| #[trigger]
            is_open_since(steps, f, i) ==> files_along(steps).contains_key(f) && files_along(
                steps,
            )[f] == opened_path(steps[i]),
        forall|f: usize| #[trigger]
            files_along(steps).contains_key(f) ==> exists|i: int| #[trigger]
                is_open_since(steps, f, i),
    decreases steps.len(),
{
    if steps.len() > 0 {
        let rest = steps.drop_last();
        let step = steps.last();
        let n = rest.len() as int;
        open_files_follow_the_trace(rest);
        close_is_no_create(step.raw);
        let before = files_along(rest);
        let after = files_along(steps);
        assert(forall|j: int| 0 <= j < n ==> #[trigger] steps[j] == rest[j]);
        if step.allowed && step.raw.file_object is Some {
            let f = step.raw.file_object->0;
            let path = event_path(before, step.devices, step.raw);
            if path is Some {
                assert(with_room(before) == before);
                assert(before.insert(f, path->0).dom() =~= before.dom().insert(f));
                assert(before.remove(f).dom() =~= before.dom().remove(f));
            }
        }
        assert forall|f: usize, i: int| #[trigger] is_open_since(steps, f, i) implies
            after.contains_key(f) && after[f] == opened_path(steps[i]) by {
            if i < n {
                assert(is_open_since(rest, f, i)) by {
                    assert forall|j: int| i < j < rest.len() implies !opens(
                        #[trigger] rest[j],
                        f,
                    ) && !closes(rest[j], f) by {
                        assert(steps[j] == rest[j]);
                    }
                }
                assert(!opens(steps[n], f) && !closes(steps[n], f));
            }
        }
        assert forall|f: usize| #[trigger] after.contains_key(f) implies exists|i: int| #[trigger]
            is_open_since(steps, f, i) by {
            if opens(step, f) {
                assert(is_open_since(steps, f, n));
            } else {
                assert(before.contains_key(f));
                assert(!closes(step, f));
                let i = choose|i: int| #[trigger] is_open_since(rest, f, i);
                assert(is_open_since(steps, f, i)) by {
                    assert forall|j: int| i < j < steps.len() implies !opens(
                        #[trigger] steps[j],
                        f,
                    ) && !closes(steps[j], f) by {
                        if j < n {
                            assert(steps[j] == rest[j]);
                        }
                    }
                }
            }
        }
    }
}

/// An event that opens nothing is about the path of the latest opening of its file with no closing
/// between, and about an unknown file if there is none, as long as no more files were opened before
/// it than may be remembered.
pub proof fn event_is_about_the_latest_opening(
    steps: Seq<TraceStep>,
    devices: Seq<Device>,
    raw: RawEvent,
    f: usize,
)
    requires
        creates(steps) <= MAX_FILEOBJ_MAP,
        !raw.is_create(),
        raw.file_object == Some(f),
    ensures
        forall|i: int| #[trigger]
            is_open_since(steps, f, i) ==> event_path(files_along(steps), devices, raw) == Some(
                opened_path(steps[i]),
            ),
        (forall|i: int| !#[trigger] is_open_since(steps, f, i)) ==> event_path(
            files_along(steps),
            devices,
            raw,
        ) == Some(unknown_path(f)),
{
    open_files_follow_the_trace(steps);
}

} // verus!
