//! Laws of what the operations return: each is about any call, with what goes into it and what
//! comes out of it.

use vstd::prelude::*;

use crate::capture::{translate_path, Capture, Device, RawEvent};
use crate::capture_laws::device_path_gets_its_drive;
use crate::etw::FileEvent as ObservedEvent;
use crate::filter::MatcherEntry;
use crate::rank::{fuzzy_score, haystack, rank_by_query, score_events};
use crate::sqlite::{count_has_room, in_memory};
use crate::store::{
    event_lines, texts_are_kept, trim_refused, EventStore, FileEvent, NewFileEvent, StoreError,
    MAX_ROWS,
};
use crate::table_laws::{inserted_event_stands_in_its_row, newest_row_comes_first};
use crate::text::{lowercase, number_text};

verus! {

/// Whatever kind of event is handled, if it is not an opening and it is kept, its detail tells the
/// size and the offset that came with it, in decimal, and nothing where there was no size.
pub proof fn handled_event_tells_size_and_offset(
    capture: &mut Capture,
    raw: RawEvent,
    name: Option<String>,
    r: Option<ObservedEvent>,
)
    requires
        call_ensures(Capture::handle, (capture, raw, name), r),
        raw.opcode@ != "Create"@,
        r is Some,
    ensures
        raw.io_size is None ==> r->0.detail@.len() == 0,
        raw.io_size is Some && raw.offset is None ==> r->0.detail@ == "size="@ + number_text(
            raw.io_size->0 as nat,
            10,
        ),
        raw.io_size is Some && raw.offset is Some ==> r->0.detail@ == "size="@ + number_text(
            raw.io_size->0 as nat,
            10,
        ) + " offset="@ + number_text(raw.offset->0 as nat, 10),
{
}

/// An insertion fails only where SQLite refused one of its two statements, to store the event or to
/// cut the rows down, and then with the error that SQLite reported.
pub proof fn insertion_fails_only_where_sqlite_refuses(
    store: &mut EventStore,
    ev: &NewFileEvent,
    r: Result<(), StoreError>,
)
    requires
        call_ensures(EventStore::insert, (store, ev), r),
        r is Err,
    ensures
        r->Err_0.cause is Sqlite,
        old(store).refuses_upsert(ev@, r->Err_0.cause->Sqlite_0) || trim_refused(
            r->Err_0.cause->Sqlite_0,
        ),
{
}

/// What is stored stands in the store in full, whatever its texts are, as long as they are in UTF-8
/// and the rows were active before: the row of its path has the time, the process, the operation
/// and the detail of the event, one hit more than before, and the time it was first seen.
pub proof fn inserted_event_is_in_the_store(
    store: &mut EventStore,
    ev: &NewFileEvent,
    r: Result<(), StoreError>,
)
    requires
        call_ensures(EventStore::insert, (store, ev), r),
        r is Ok,
        old(store).is_ready(),
        old(store).is_utf8(),
        forall|p: Seq<char>| #[trigger]
            old(store).rows().contains_key(p) ==> old(store).rows()[p].last_activity
                < old(store).next_activity(),
        old(store).rows().contains_key(ev.path@) ==> old(store).rows()[ev.path@].count < i64::MAX,
    ensures
        final(store).rows().contains_key(ev.path@),
        final(store).rows()[ev.path@].time_str == ev.time_str@,
        final(store).rows()[ev.path@].pid == ev.pid,
        final(store).rows()[ev.path@].process_name == ev.process_name@,
        final(store).rows()[ev.path@].operation == ev.operation@,
        final(store).rows()[ev.path@].detail == ev.detail@,
        final(store).rows()[ev.path@].count == if old(store).rows().contains_key(ev.path@) {
            old(store).rows()[ev.path@].count + 1
        } else {
            1
        },
        final(store).rows()[ev.path@].first_seen == if old(store).rows().contains_key(ev.path@) {
            old(store).rows()[ev.path@].first_seen
        } else {
            ev.time_str@
        },
{
}

/// A file that was opened is found again: of two events that are handled one after the other, the
/// first an opening and the second any other event about the same file, both are told with the same
/// path.
pub proof fn opened_file_is_told_with_its_path(
    capture: &mut Capture,
    create: RawEvent,
    creator: Option<String>,
    opened: Option<ObservedEvent>,
    after: &mut Capture,
    later: RawEvent,
    user: Option<String>,
    used: Option<ObservedEvent>,
)
    requires
        call_ensures(Capture::handle, (capture, create, creator), opened),
        *final(capture) == *old(after),
        call_ensures(Capture::handle, (after, later, user), used),
        create.opcode@ == "Create"@,
        create.file_object is Some,
        later.opcode@ != "Create"@,
        later.file_object == create.file_object,
        opened is Some,
        used is Some,
    ensures
        used->0.path@ == opened->0.path@,
{
}

/// The path of an event that was stored comes first in the list of the latest rows, with the values
/// of the event.
pub proof fn inserted_event_is_listed_first(
    store: &mut EventStore,
    ev: &NewFileEvent,
    after: &EventStore,
    limit: i64,
    listed: Vec<FileEvent>,
)
    requires
        call_ensures(EventStore::insert, (store, ev), Ok(())),
        *after == *final(store),
        call_ensures(EventStore::recent, (after, limit), Ok(listed)),
        limit != 0,
        old(store).is_sound(),
        old(store).is_utf8(),
        old(store).next_activity() < i64::MAX,
    ensures
        listed@.len() > 0,
        listed@[0].path@ == ev.path@,
        listed@[0].time_str@ == ev.time_str@,
        listed@[0].pid == ev.pid,
        listed@[0].process_name@ == ev.process_name@,
        listed@[0].operation@ == ev.operation@,
        listed@[0].detail@ == ev.detail@,
{
    let before = old(store).rows();
    let rows = after.rows();
    let activity = old(store).next_activity();
    old(store).ready_contents();
    after.ready_contents();
    texts_are_kept(*old(store), ev@);
    assert(old(store).keeps(ev@));
    assert(count_has_room(before, ev@.path)) by {
        assert(before.contains_key(ev@.path) ==> before[ev@.path].count
            <= before[ev@.path].last_activity < activity);
    }
    inserted_event_stands_in_its_row(before, activity, ev@, MAX_ROWS as nat, rows);
    assert forall|p: Seq<char>| #[trigger] rows.contains_key(p) && p != ev@.path implies rows[
    p].last_activity < rows[ev@.path].last_activity by {
        assert(before.contains_key(p));
    }
    newest_row_comes_first(rows, limit as int, event_lines(listed@), ev@.path);
    assert(event_lines(listed@)[0] == listed@[0].line());
}

/// What was copied to a database that nobody else changes comes back when a store is opened on it:
/// all rows, as they were.
pub proof fn flushed_rows_are_opened_again(
    store: &mut EventStore,
    disk: &mut rusqlite::Connection,
    later: &mut rusqlite::Connection,
    opened: EventStore,
)
    requires
        call_ensures(EventStore::flush_to_disk, (store, disk), Ok(())),
        *final(disk) == *old(later),
        in_memory(*old(later)),
        call_ensures(EventStore::open, (later, true), Ok(opened)),
        old(store).is_ready(),
        old(store).db().version >= 1,
    ensures
        opened.is_ready(),
        opened.rows() == old(store).rows(),
        forall|p: Seq<char>| #[trigger]
            opened.rows().contains_key(p) ==> opened.rows()[p].last_activity
                < opened.next_activity(),
{
    old(store).ready_contents();
}

/// The rows that a ranking gives back come in the order of the matcher's own scores, highest first,
/// for queries of any length.
pub proof fn ranked_rows_descend(events: Vec<FileEvent>, query: &str, rows: Vec<FileEvent>)
    requires
        call_ensures(rank_by_query, (events, query), rows),
    ensures
        forall|k: int, l: int|
            0 <= k < l < rows@.len() ==> fuzzy_score(haystack(#[trigger] rows@[k]), query@)->0
                >= fuzzy_score(haystack(#[trigger] rows@[l]), query@)->0,
        forall|k: int|
            0 <= k < rows@.len() ==> events@.contains(#[trigger] rows@[k]) && fuzzy_score(
                haystack(rows@[k]),
                query@,
            ) is Some,
{
}

/// The scores are the matcher's own, for queries of any length and texts of up to 30 million
/// characters.
pub proof fn scores_are_the_matchers_own(
    events: &Vec<FileEvent>,
    query: &str,
    scores: Vec<Option<i64>>,
    i: int,
)
    requires
        call_ensures(score_events, (events, query), scores),
        0 <= i < events@.len(),
        haystack(events@[i]).len() <= 30_000_000,
    ensures
        scores@.len() == events@.len(),
        scores@[i] == fuzzy_score(haystack(events@[i]), query@),
{
}

/// A word entry matches a value, ASCII or not, exactly if its word is a part of the value in lower
/// case.
pub proof fn word_matches_where_it_stands(
    entry: &MatcherEntry,
    word: String,
    value: &str,
    r: bool,
)
    requires
        call_ensures(MatcherEntry::matches, (entry, value), r),
        *entry == MatcherEntry::Substring(word),
    ensures
        r <==> exists|before: Seq<char>, behind: Seq<char>|
            lowercase(value@) == #[trigger] (before + word@ + behind),
{
}

/// A path on a device is translated by putting the drive for the device, however long what stands
/// behind it is: nothing, or a backslash and more. No device of the table may lie below another.
pub proof fn translated_path_has_the_drive(
    devices: &Vec<Device>,
    i: int,
    rest: Seq<char>,
    path: &str,
    r: String,
)
    requires
        call_ensures(translate_path, (devices, path), r),
        0 <= i < devices@.len(),
        path@ == devices@[i].name@ + rest,
        rest.len() == 0 || rest[0] == '\\',
        forall|j: int, k: int, below: Seq<char>|
            #![trigger devices@[j], devices@[k].name@ + below]
            0 <= j < devices@.len() && 0 <= k < devices@.len() && j != k && (below.len() == 0
                || below[0] == '\\') ==> devices@[j].name@ != devices@[k].name@ + below,
    ensures
        r@ == devices@[i].drive@ + rest,
{
    device_path_gets_its_drive(devices@, i, rest);
}

} // verus!
