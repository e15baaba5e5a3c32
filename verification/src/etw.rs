//! The live log of observed events, and the text forms of what they carry.

use std::collections::VecDeque;
use vstd::arithmetic::div_mod::{lemma_hoist_over_denominator, lemma_mod_multiples_vanish};
use vstd::prelude::*;

use crate::store::NewFileEvent;
use crate::table::Sighting;
use crate::text::{digit, number_text, push_number};

verus! {

/// The largest number of events that the live log keeps.
pub const MAX_EVENTS: usize = 20_000;

/// An observed event.
#[derive(Debug)]
pub struct FileEvent {
    pub seq: u64,
    pub time_str: String,
    pub pid: u32,
    pub process_name: String,
    pub operation: String,
    pub path: String,
    /// Sizes and offsets, where the operation has them.
    pub detail: String,
}

impl FileEvent {
    /// What was observed, without the number.
    pub open spec fn sighting(self) -> Sighting {
        Sighting {
            time_str: self.time_str@,
            pid: self.pid as int,
            process_name: self.process_name@,
            operation: self.operation@,
            path: self.path@,
            detail: self.detail@,
        }
    }

    /// The event with the number `seq`.
    pub open spec fn numbered(self, seq: u64) -> FileEvent {
        FileEvent { seq, ..self }
    }

    /// The event as the store takes it.
    pub fn into_new(self) -> (ev: NewFileEvent)
        ensures
            ev@ == self.sighting(),
            ev.time_str@ == self.time_str@,
            ev.pid == self.pid,
            ev.process_name@ == self.process_name@,
            ev.operation@ == self.operation@,
            ev.path@ == self.path@,
            ev.detail@ == self.detail@,
    {
        NewFileEvent {
            time_str: self.time_str,
            pid: self.pid,
            process_name: self.process_name,
            operation: self.operation,
            path: self.path,
            detail: self.detail,
        }
    }
}

impl Clone for FileEvent {
    fn clone(&self) -> (copy: FileEvent)
        ensures
            copy == *self,
    {
        FileEvent {
            seq: self.seq,
            time_str: self.time_str.clone(),
            pid: self.pid,
            process_name: self.process_name.clone(),
            operation: self.operation.clone(),
            path: self.path.clone(),
            detail: self.detail.clone(),
        }
    }
}

/// What a log of `events` holds after one more event, whose number is `seq`.
pub open spec fn logged(events: Seq<FileEvent>, seq: u64, ev: FileEvent) -> Seq<FileEvent> {
    let kept = if events.len() >= MAX_EVENTS {
        events.skip(1)
    } else {
        events
    };
    kept.push(ev.numbered(seq))
}

/// The number behind `seq`. After the largest comes 0.
pub open spec fn next_seq(seq: u64) -> u64 {
    if seq == u64::MAX {
        0
    } else {
        (seq + 1) as u64
    }
}

/// The live log: the latest events, oldest first. Each gets a number when it is logged.
pub struct EventLog {
    events: VecDeque<FileEvent>,
    seq: u64,
}

impl EventLog {
    /// The events in the log, oldest first.
    pub closed spec fn events(self) -> Seq<FileEvent> {
        self.events@
    }

    /// The number of the next event.
    pub closed spec fn next(self) -> u64 {
        self.seq
    }

    /// The log does not grow beyond its bound.
    #[verifier::type_invariant]
    spec fn is_bounded(self) -> bool {
        self.events@.len() <= MAX_EVENTS
    }

    /// An empty log, whose first event gets the number 0.
    pub fn new() -> (log: EventLog)
        ensures
            log.events() == Seq::<FileEvent>::empty(),
            log.next() == 0,
    {
        EventLog { events: VecDeque::with_capacity(MAX_EVENTS), seq: 0 }
    }

    /// Logs an event under the next number. A full log forgets its oldest event for it.
    pub fn push(&mut self, ev: FileEvent)
        ensures
            final(self).events() == logged(old(self).events(), old(self).next(), ev),
            final(self).next() == next_seq(old(self).next()),
            final(self).events().len() <= MAX_EVENTS,
            old(self).events().len() < 20_000 ==> final(self).events().drop_last()
                == old(self).events(),
            old(self).events().len() == 20_000 ==> final(self).events().drop_last()
                == old(self).events().skip(1),
            final(self).events().len() > 0,
            final(self).events().last().seq == old(self).next(),
            final(self).events().last().time_str == ev.time_str,
            final(self).events().last().pid == ev.pid,
            final(self).events().last().process_name == ev.process_name,
            final(self).events().last().operation == ev.operation,
            final(self).events().last().path == ev.path,
            final(self).events().last().detail == ev.detail,
            old(self).next() < u64::MAX ==> final(self).next() == old(self).next() + 1,
    {
        proof {
            use_type_invariant(&*self);
        }
        let seq = self.seq;
        let mut ev = ev;
        ev.seq = seq;
        let mut events = VecDeque::new();
        std::mem::swap(&mut events, &mut self.events);
        if events.len() >= MAX_EVENTS {
            events.pop_front();
        }
        events.push_back(ev);
        self.events = events;
        self.seq = seq.wrapping_add(1);
        assert(old(self).events().len() < 20_000 ==> self.events().drop_last() =~= old(
            self,
        ).events());
        assert(old(self).events().len() == 20_000 ==> self.events().drop_last() =~= old(
            self,
        ).events().skip(1));
    }

    /// The number of events in the log.
    pub fn len(&self) -> (n: usize)
        ensures
            n == self.events().len(),
            n <= MAX_EVENTS,
    {
        proof {
            use_type_invariant(self);
        }
        self.events.len()
    }

    /// A copy of the events in the log, oldest first.
    pub fn snapshot(&self) -> (copy: Vec<FileEvent>)
        ensures
            copy@ == self.events(),
    {
        let mut copy: Vec<FileEvent> = Vec::new();
        let mut i: usize = 0;
        while i < self.events.len()
            invariant
                i <= self.events@.len(),
                copy@ == self.events@.take(i as int),
            decreases self.events@.len() - i,
        {
            copy.push(self.events[i].clone());
            assert(self.events@.take(i + 1) =~= self.events@.take(i as int).push(
                self.events@[i as int],
            ));
            i += 1;
        }
        assert(self.events@.take(i as int) =~= self.events@);
        copy
    }
}

/// What an empty log holds after it was given `evs`, and the number of the next event.
pub open spec fn logged_all(evs: Seq<FileEvent>) -> (Seq<FileEvent>, u64)
    decreases evs.len(),
{
    if evs.len() == 0 {
        (Seq::empty(), 0)
    } else {
        let before = logged_all(evs.drop_last());
        (logged(before.0, before.1, evs.last()), next_seq(before.1))
    }
}

/// The number that the event at position `i` of all events gets.
pub open spec fn seq_at(i: int) -> u64 {
    (i % 0x1_0000_0000_0000_0000) as u64
}

/// A log holds the latest events that it was given, at most [`MAX_EVENTS`] of them, in the order
/// in which they came, and numbered in that order.
pub proof fn log_holds_the_latest(evs: Seq<FileEvent>)
    ensures
        logged_all(evs).1 == seq_at(evs.len() as int),
        ({
            let kept = if evs.len() > MAX_EVENTS {
                MAX_EVENTS as int
            } else {
                evs.len() as int
            };
            let from = evs.len() - kept;
            logged_all(evs).0 == Seq::new(
                kept as nat,
                |i: int| evs[from + i].numbered(seq_at(from + i)),
            )
        }),
    decreases evs.len(),
{
    if evs.len() > 0 {
        let rest = evs.drop_last();
        log_holds_the_latest(rest);
        let before = logged_all(rest);
        let n = rest.len() as int;
        assert(next_seq(seq_at(n)) == seq_at(n + 1));
        let kept = if evs.len() > MAX_EVENTS {
            MAX_EVENTS as int
        } else {
            evs.len() as int
        };
        let from = evs.len() - kept;
        assert(logged_all(evs).0 =~= Seq::new(
            kept as nat,
            |i: int| evs[from + i].numbered(seq_at(from + i)),
        ));
    } else {
        assert(logged_all(evs).0 =~= Seq::new(0, |i: int| evs[i].numbered(seq_at(i))));
    }
}

/// How many units of 100 nanoseconds lie between the start of 1601 and the start of 1970.
const EPOCH_DIFF_100NS: i64 = 116_444_736_000_000_000;

/// The earliest time that can be counted from the start of 1970 in 64 bits.
pub const MIN_FILETIME: i64 = -9_106_927_300_854_775_808;

/// How a time of day is written.
const TIME_FORMAT: &'static str = "%H:%M:%S%.3f";

/// The earliest and the latest second, counted from the start of 1970, that `chrono` knows.
pub open spec fn chrono_knows(secs: int) -> bool {
    -8_334_601_228_800 <= secs <= 8_210_266_876_799
}

/// `n` with two digits.
pub open spec fn two_digits(n: int) -> Seq<char> {
    seq![digit((n / 10) as nat), digit((n % 10) as nat)]
}

/// `n` with three digits.
pub open spec fn three_digits(n: int) -> Seq<char> {
    seq![digit((n / 100) as nat), digit((n / 10 % 10) as nat), digit((n % 10) as nat)]
}

/// The time of day `secs` seconds and `millis` milliseconds after midnight.
pub open spec fn clock_text(secs: int, millis: int) -> Seq<char> {
    two_digits(secs / 3600) + seq![':'] + two_digits(secs / 60 % 60) + seq![':'] + two_digits(
        secs % 60,
    ) + seq!['.'] + three_digits(millis)
}

/// The time of day of a time that is counted in units of 100 nanoseconds from the start of 1601.
pub open spec fn filetime_text(filetime: int) -> Seq<char> {
    clock_text(filetime / 10_000_000 % 86_400, filetime / 10_000 % 1000)
}

/// `DateTime::from_timestamp` and `DateTime::format` write the time of day, in UTC, of a time that
/// is counted from the start of 1970: hours, minutes and seconds with two digits, and the
/// milliseconds, not rounded, with three. There is no such time exactly if `chrono` does not know
/// the second. This is stated for the one format that is used.
#[verifier::external_body]
fn format_timestamp(secs: i64, nanos: u32, format: &str) -> (r: Option<String>)
    requires
        nanos < 1_000_000_000,
        format@ == "%H:%M:%S%.3f"@,
    ensures
        r is Some == chrono_knows(secs as int),
        r matches Some(text) ==> text@ == clock_text(
            secs as int % 86_400,
            nanos as int / 1_000_000,
        ),
{
    chrono::DateTime::from_timestamp(secs, nanos).map(|dt| dt.format(format).to_string())
}

/// The time of day, in UTC, of a time that is counted in units of 100 nanoseconds from the start
/// of 1601.
pub fn filetime_to_string(filetime: i64) -> (text: String)
    requires
        filetime >= MIN_FILETIME,
    ensures
        text@ == filetime_text(filetime as int),
{
    let unix_100ns: i64 = filetime - EPOCH_DIFF_100NS;
    let secs: i64 = unix_100ns.checked_div_euclid(10_000_000).unwrap();
    let nanos: u32 = (unix_100ns.checked_rem_euclid(10_000_000).unwrap() * 100) as u32;
    assert(secs as int % 86_400 == filetime as int / 10_000_000 % 86_400);
    assert(nanos as int / 1_000_000 == filetime as int / 10_000 % 1000);
    match format_timestamp(secs, nanos, TIME_FORMAT) {
        Some(text) => text,
        None => "?".to_owned(),
    }
}

/// Two times a whole number of days apart have the same time of day.
pub proof fn clock_repeats_daily(filetime: int, days: int)
    ensures
        filetime_text(filetime + days * 864_000_000_000) == filetime_text(filetime),
{
    let later = filetime + days * 864_000_000_000;
    assert(later / 10_000_000 == filetime / 10_000_000 + days * 86_400) by {
        lemma_hoist_over_denominator(filetime, days * 86_400, 10_000_000);
    }
    assert(later / 10_000 == filetime / 10_000 + days * 86_400_000) by {
        lemma_hoist_over_denominator(filetime, days * 86_400_000, 10_000);
    }
    assert(later / 10_000_000 % 86_400 == filetime / 10_000_000 % 86_400) by {
        lemma_mod_multiples_vanish(days, filetime / 10_000_000, 86_400);
    }
    assert(later / 10_000 % 1000 == filetime / 10_000 % 1000) by {
        lemma_mod_multiples_vanish(days * 86_400, filetime / 10_000, 1000);
    }
}

/// What a process is called: its name, or its number where the name is not known.
pub open spec fn process_text(name: Option<Seq<char>>, pid: int) -> Seq<char> {
    match name {
        Some(name) => name,
        None => "pid:"@ + number_text(pid as nat, 10),
    }
}

/// What a process is called.
pub fn process_label(name: Option<String>, pid: u32) -> (label: String)
    ensures
        label@ == process_text(
            match name {
                Some(name) => Some(name@),
                None => None,
            },
            pid as int,
        ),
        name matches Some(known) ==> label@ == known@,
        name is None ==> label@ == "pid:"@ + number_text(pid as nat, 10),
{
    match name {
        Some(name) => name,
        None => {
            let mut label = "pid:".to_owned();
            push_number(&mut label, pid as u64, 10);
            label
        },
    }
}

/// The sizes and offsets of an event: both, only the size, or nothing.
pub open spec fn detail_text(size: Option<u32>, offset: Option<u64>) -> Seq<char> {
    match (size, offset) {
        (Some(size), Some(offset)) => "size="@ + number_text(size as nat, 10) + " offset="@
            + number_text(offset as nat, 10),
        (Some(size), None) => "size="@ + number_text(size as nat, 10),
        _ => Seq::empty(),
    }
}

/// The sizes and offsets of an event, as text.
pub fn event_detail(size: Option<u32>, offset: Option<u64>) -> (detail: String)
    ensures
        detail@ == detail_text(size, offset),
        size is None ==> detail@.len() == 0,
        size is Some && offset is None ==> detail@ == "size="@ + number_text(size->0 as nat, 10),
        size is Some && offset is Some ==> detail@ == "size="@ + number_text(size->0 as nat, 10)
            + " offset="@ + number_text(offset->0 as nat, 10),
{
    let mut detail = String::new();
    if let Some(size) = size {
        detail.push_str("size=");
        push_number(&mut detail, size as u64, 10);
        if let Some(offset) = offset {
            detail.push_str(" offset=");
            push_number(&mut detail, offset, 10);
        }
    }
    assert(detail@ =~= detail_text(size, offset));
    detail
}

} // verus!
