//! What holds of the event table as a whole.

use vstd::prelude::*;
use vstd::set_lib::{lemma_len_subset, lemma_subset_equality};

use crate::table::{are_sound, distinct_activity, first_row, follows_activity, fresh_seq, inserted,
    is_latest, is_listed, is_listing, repeat_row, trimmed, trimmed_is_finite, upserted,
    upserted_is_finite, Listed, Rows, Sighting, StoredRow};

verus! {

/// A table that is small enough is not cut.
pub proof fn small_table_is_kept(before: Rows, keep: nat, after: Rows)
    requires
        before.dom().finite(),
        before.len() <= keep,
        trimmed(before, keep, after),
    ensures
        after == before,
{
    trimmed_is_finite(before, keep, after);
    lemma_subset_equality(after.dom(), before.dom());
    assert(after =~= before) by {
        assert forall|p: Seq<char>| after.dom().contains(p) implies after[p] == before[p] by {
            assert(after.contains_key(p));
        }
    }
}

/// An insertion adds a row for a new path and none for a known one, and then the table is cut to
/// what it may keep: it never has more rows than that, and never loses rows below it.
pub proof fn insertion_is_bounded(before: Rows, activity: int, ev: Sighting, keep: nat, after: Rows)
    requires
        before.dom().finite(),
        inserted(before, activity, ev, keep, after),
    ensures
        after.dom().finite(),
        after.len() <= keep,
        before.len() <= keep ==> before.len() <= after.len(),
        ({
            let grown = before.len() + if before.contains_key(ev.path) {
                0int
            } else {
                1
            };
            after.len() == if grown <= keep {
                grown
            } else {
                keep as int
            }
        }),
{
    let mid = choose|mid: Rows| #[trigger]
        upserted(before, activity, ev, mid) && trimmed(mid, keep, after);
    upserted_is_finite(before, activity, ev, mid);
    trimmed_is_finite(mid, keep, after);
}

/// Hits on a known path, however many, push out no row: the paths stay the same, the row of the
/// path has one more hit, the latest values and its first time, and the other rows stay as they
/// are.
pub proof fn repeat_keeps_all_paths(
    before: Rows,
    activity: int,
    ev: Sighting,
    keep: nat,
    after: Rows,
)
    requires
        before.dom().finite(),
        before.len() <= keep,
        before.contains_key(ev.path),
        inserted(before, activity, ev, keep, after),
    ensures
        after.dom() == before.dom(),
        after == before.insert(ev.path, repeat_row(before[ev.path], activity, ev)),
{
    let mid = choose|mid: Rows| #[trigger]
        upserted(before, activity, ev, mid) && trimmed(mid, keep, after);
    upserted_is_finite(before, activity, ev, mid);
    small_table_is_kept(mid, keep, after);
    assert(after.dom() =~= before.dom());
}

/// As long as there is room, a new path is added and nothing else changes.
pub proof fn first_hit_adds_a_row(
    before: Rows,
    activity: int,
    ev: Sighting,
    keep: nat,
    after: Rows,
)
    requires
        before.dom().finite(),
        before.len() < keep,
        !before.contains_key(ev.path),
        inserted(before, activity, ev, keep, after),
    ensures
        after.dom() == before.dom().insert(ev.path),
        exists|seq: int| #[trigger]
            fresh_seq(before, seq) && after == before.insert(
                ev.path,
                first_row(seq, activity, ev),
            ),
{
    let mid = choose|mid: Rows| #[trigger]
        upserted(before, activity, ev, mid) && trimmed(mid, keep, after);
    upserted_is_finite(before, activity, ev, mid);
    small_table_is_kept(mid, keep, after);
}

/// The path of an event that was just stored is in the table, at the latest activity number.
pub proof fn newest_path_stays(before: Rows, activity: int, ev: Sighting, keep: nat, after: Rows)
    requires
        before.dom().finite(),
        is_latest(before, activity),
        keep > 0,
        inserted(before, activity, ev, keep, after),
    ensures
        after.contains_key(ev.path),
        after[ev.path].last_activity == activity,
        is_latest(after, activity + 1),
{
    let mid = choose|mid: Rows| #[trigger]
        upserted(before, activity, ev, mid) && trimmed(mid, keep, after);
    upserted_is_finite(before, activity, ev, mid);
    trimmed_is_finite(mid, keep, after);
    assert(mid.contains_key(ev.path));
    assert(mid[ev.path].last_activity == activity);
    assert forall|p: Seq<char>| #[trigger] mid.contains_key(p) && p != ev.path implies
        mid[p].last_activity < activity by {
        assert(before.contains_key(p));
        assert(mid[p] == before[p]);
    }
    if !after.contains_key(ev.path) {
        assert(mid.len() > 0) by {
            if mid.dom().len() == 0 {
                assert(mid.dom() =~= Set::empty());
            }
        }
        assert(after.dom().len() > 0);
        let kept = after.dom().choose();
        assert(after.dom().contains(kept)) by {
            vstd::set::axiom_set_choose_len(after.dom());
        }
        assert(after.contains_key(kept));
        assert(mid.contains_key(kept) && after[kept] == mid[kept]);
    }
    assert forall|p: Seq<char>| #[trigger] after.contains_key(p) implies after[p].last_activity
        < activity + 1 by {
        assert(mid.contains_key(p) && after[p] == mid[p]);
    }
}

/// An event that was stored stands in the row of its path in full, whatever its texts are: the
/// time, the process, the operation and the detail are its own. A path that was not there has one
/// hit, seen first at the time of the event, and a new number; one that was there has one hit more,
/// and keeps its number and the time it was first seen. The rows of other paths are as they were.
pub proof fn stored_event_stands_in_its_row(before: Rows, activity: int, ev: Sighting, after: Rows)
    requires
        upserted(before, activity, ev, after),
    ensures
        after.contains_key(ev.path),
        after[ev.path].last_activity == activity,
        after[ev.path].time_str == ev.time_str,
        after[ev.path].pid == ev.pid,
        after[ev.path].process_name == ev.process_name,
        after[ev.path].operation == ev.operation,
        after[ev.path].detail == ev.detail,
        !before.contains_key(ev.path) ==> after[ev.path].count == 1 && after[ev.path].first_seen
            == ev.time_str && forall|p: Seq<char>| #[trigger]
            before.contains_key(p) ==> before[p].seq < after[ev.path].seq,
        before.contains_key(ev.path) ==> after[ev.path].count == before[ev.path].count + 1
            && after[ev.path].first_seen == before[ev.path].first_seen && after[ev.path].seq
            == before[ev.path].seq,
        forall|p: Seq<char>|
            p != ev.path ==> (#[trigger] after.contains_key(p) <==> before.contains_key(p)) && (
            before.contains_key(p) ==> after[p] == before[p]),
{
}

/// Cutting rows down leaves rows as they were, as many as may be kept, and takes none before one
/// that was active longer ago. Nothing is taken while there are no more than may be kept.
pub proof fn trimming_takes_the_oldest(before: Rows, keep: nat, after: Rows)
    requires
        before.dom().finite(),
        trimmed(before, keep, after),
    ensures
        before.dom().len() <= keep ==> after == before,
        before.dom().len() > keep ==> after.dom().len() == keep,
        forall|p: Seq<char>| #[trigger]
            after.contains_key(p) ==> before.contains_key(p) && after[p] == before[p],
        forall|p: Seq<char>, q: Seq<char>|
            #![trigger after.contains_key(p), before.contains_key(q)]
            after.contains_key(p) && before.contains_key(q) && !after.contains_key(q)
                ==> before[q].last_activity <= before[p].last_activity,
{
    if before.len() <= keep {
        small_table_is_kept(before, keep, after);
    }
    assert forall|p: Seq<char>| #[trigger] after.contains_key(p) implies before.contains_key(p)
        && after[p] == before[p] by {
        assert(after.dom().contains(p));
    }
}

/// What an insertion at the latest activity number leaves: the event in the row of its path in
/// full, with the hits, the number and the first time of the path, and other rows as they were, all
/// of them as long as there is room.
pub proof fn inserted_event_stands_in_its_row(
    before: Rows,
    activity: int,
    ev: Sighting,
    keep: nat,
    after: Rows,
)
    requires
        before.dom().finite(),
        forall|p: Seq<char>| #[trigger]
            before.contains_key(p) ==> before[p].last_activity < activity,
        keep > 0,
        inserted(before, activity, ev, keep, after),
    ensures
        after.contains_key(ev.path),
        after[ev.path].last_activity == activity,
        after[ev.path].time_str == ev.time_str,
        after[ev.path].pid == ev.pid,
        after[ev.path].process_name == ev.process_name,
        after[ev.path].operation == ev.operation,
        after[ev.path].detail == ev.detail,
        !before.contains_key(ev.path) ==> after[ev.path].count == 1 && after[ev.path].first_seen
            == ev.time_str && forall|p: Seq<char>| #[trigger]
            before.contains_key(p) ==> before[p].seq < after[ev.path].seq,
        before.contains_key(ev.path) ==> after[ev.path].count == before[ev.path].count + 1
            && after[ev.path].first_seen == before[ev.path].first_seen && after[ev.path].seq
            == before[ev.path].seq,
        forall|p: Seq<char>|
            p != ev.path && #[trigger] after.contains_key(p) ==> before.contains_key(p) && after[p]
                == before[p],
        before.dom().len() < keep || before.dom().len() <= keep && before.contains_key(ev.path)
            ==> forall|p: Seq<char>| #[trigger]
            before.contains_key(p) ==> after.contains_key(p),
        after.dom().len() <= keep,
        forall|p: Seq<char>, q: Seq<char>|
            #![trigger after.contains_key(p), before.contains_key(q)]
            after.contains_key(p) && before.contains_key(q) && !after.contains_key(q)
                ==> before[q].last_activity <= after[p].last_activity,
{
    assert(is_latest(before, activity));
    newest_path_stays(before, activity, ev, keep, after);
    let mid = choose|mid: Rows| #[trigger]
        upserted(before, activity, ev, mid) && trimmed(mid, keep, after);
    upserted_is_finite(before, activity, ev, mid);
    stored_event_stands_in_its_row(before, activity, ev, mid);
    trimming_takes_the_oldest(mid, keep, after);
    assert forall|p: Seq<char>, q: Seq<char>|
        #![trigger after.contains_key(p), before.contains_key(q)]
        after.contains_key(p) && before.contains_key(q) && !after.contains_key(
            q,
        ) implies before[q].last_activity <= after[p].last_activity by {
        assert(q != ev.path);
        assert(mid.contains_key(q) && mid[q] == before[q]);
    }
}

/// An insertion at a new activity number keeps the activity numbers apart.
pub proof fn activity_stays_distinct(
    before: Rows,
    activity: int,
    ev: Sighting,
    keep: nat,
    after: Rows,
)
    requires
        is_latest(before, activity),
        distinct_activity(before),
        inserted(before, activity, ev, keep, after),
    ensures
        distinct_activity(after),
{
    let mid = choose|mid: Rows| #[trigger]
        upserted(before, activity, ev, mid) && trimmed(mid, keep, after);
    assert forall|p: Seq<char>, q: Seq<char>|
        #![trigger after.contains_key(p), after.contains_key(q)]
        after.contains_key(p) && after.contains_key(q) && p != q implies after[p].last_activity
        != after[q].last_activity by {
        assert(mid.contains_key(p) && mid.contains_key(q));
        if p != ev.path {
            assert(before.contains_key(p));
        }
        if q != ev.path {
            assert(before.contains_key(q));
        }
    }
}

/// What an insertion pushes out was active no later than anything that it keeps.
pub proof fn least_recent_goes_first(
    before: Rows,
    activity: int,
    ev: Sighting,
    keep: nat,
    after: Rows,
    gone: Seq<char>,
    kept: Seq<char>,
)
    requires
        before.dom().finite(),
        is_latest(before, activity),
        keep > 0,
        inserted(before, activity, ev, keep, after),
        before.contains_key(gone),
        !after.contains_key(gone),
        after.contains_key(kept),
    ensures
        before[gone].last_activity <= after[kept].last_activity,
        after.len() == keep,
{
    newest_path_stays(before, activity, ev, keep, after);
    let mid = choose|mid: Rows| #[trigger]
        upserted(before, activity, ev, mid) && trimmed(mid, keep, after);
    upserted_is_finite(before, activity, ev, mid);
    assert(gone != ev.path);
    assert(mid.contains_key(gone) && mid[gone] == before[gone]);
    if mid.len() <= keep {
        small_table_is_kept(mid, keep, after);
    }
}

/// The activity number that a restart continues with is behind those of all rows.
pub proof fn restart_continues_activity(rows: Rows, next: int)
    requires
        follows_activity(rows, next),
    ensures
        is_latest(rows, next),
{
    if rows.dom() =~= Set::empty() {
        assert forall|p: Seq<char>| #[trigger] rows.contains_key(p) implies rows[p].last_activity
            < next by {
            assert(rows.dom().contains(p));
        }
    }
}

/// While the activity numbers are apart, a listing is determined by what it lists.
pub proof fn listing_is_determined(
    rows: Rows,
    wanted: Set<Seq<char>>,
    limit: int,
    one: Seq<Listed>,
    two: Seq<Listed>,
)
    requires
        distinct_activity(rows),
        wanted.subset_of(rows.dom()),
        is_listing(rows, wanted, limit, one),
        is_listing(rows, wanted, limit, two),
    ensures
        one == two,
{
    lemma_same_prefix(rows, wanted, limit, one, two, one.len() as int);
    assert(one =~= two);
}

proof fn lemma_same_prefix(
    rows: Rows,
    wanted: Set<Seq<char>>,
    limit: int,
    one: Seq<Listed>,
    two: Seq<Listed>,
    n: int,
)
    requires
        distinct_activity(rows),
        wanted.subset_of(rows.dom()),
        is_listing(rows, wanted, limit, one),
        is_listing(rows, wanted, limit, two),
        0 <= n <= one.len(),
    ensures
        forall|i: int| 0 <= i < n ==> one[i] == two[i],
    decreases n,
{
    if n > 0 {
        let k = n - 1;
        lemma_same_prefix(rows, wanted, limit, one, two, k);
        let p = one[k].path;
        let q = two[k].path;
        if p != q {
            lemma_not_later(rows, wanted, limit, one, two, k);
            lemma_not_later(rows, wanted, limit, two, one, k);
            assert(rows.contains_key(p) && rows.contains_key(q));
        }
        assert(one[k].row == two[k].row);
        assert(one[k] == two[k]);
    }
}

/// Behind the same first lines, line `k` of one listing is no later than that of another.
proof fn lemma_not_later(
    rows: Rows,
    wanted: Set<Seq<char>>,
    limit: int,
    one: Seq<Listed>,
    two: Seq<Listed>,
    k: int,
)
    requires
        is_listing(rows, wanted, limit, one),
        is_listing(rows, wanted, limit, two),
        0 <= k < one.len(),
        forall|i: int| 0 <= i < k ==> one[i] == two[i],
    ensures
        rows[two[k].path].last_activity <= rows[one[k].path].last_activity,
{
    let q = two[k].path;
    assert(wanted.contains(q));
    if is_listed(one, q) {
        let i = choose|i: int| 0 <= i < one.len() && (#[trigger] one[i]).path == q;
        if i < k {
            assert(two[i].path == q);
            assert(two[i].path != two[k].path);
        }
        assert(one[i].row == rows[q]);
    }
    assert(one[k].row == rows[one[k].path]);
}

/// A listing whose limit is not reached holds every row that is wanted.
pub proof fn listing_is_complete(
    rows: Rows,
    wanted: Set<Seq<char>>,
    limit: int,
    out: Seq<Listed>,
    path: Seq<char>,
)
    requires
        wanted.finite(),
        limit < 0 || wanted.len() <= limit,
        is_listing(rows, wanted, limit, out),
        wanted.contains(path),
    ensures
        is_listed(out, path),
{
    let paths = out.map_values(|line: Listed| line.path);
    assert(paths.no_duplicates()) by {
        assert forall|i: int, j: int|
            0 <= i < paths.len() && 0 <= j < paths.len() && i != j implies paths[i] != paths[j] by {
            if i < j {
                assert(out[i].path != out[j].path);
            } else {
                assert(out[j].path != out[i].path);
            }
        }
    }
    paths.unique_seq_to_set();
    assert(paths.to_set().subset_of(wanted)) by {
        assert forall|p: Seq<char>| paths.to_set().contains(p) implies wanted.contains(p) by {
            let i = choose|i: int| 0 <= i < paths.len() && paths[i] == p;
            assert(out[i].path == p);
        }
    }
    lemma_subset_equality(paths.to_set(), wanted);
    assert(paths.contains(path));
    let i = choose|i: int| 0 <= i < paths.len() && paths[i] == path;
    assert(out[i].path == path);
}

/// What a listing is: as many rows as are wanted, or as the limit says if that is not negative and
/// fewer; each with the path and the values of a row that is wanted, none twice, the most recently
/// active first, and none left out that is more recent than one that is there.
pub proof fn listing_lists_the_latest(
    rows: Rows,
    wanted: Set<Seq<char>>,
    limit: int,
    out: Seq<Listed>,
)
    requires
        is_listing(rows, wanted, limit, out),
    ensures
        limit < 0 || wanted.len() <= limit ==> out.len() == wanted.len(),
        0 <= limit < wanted.len() ==> out.len() == limit,
        forall|i: int| 0 <= i < out.len() ==> wanted.contains((#[trigger] out[i]).path),
        forall|i: int| 0 <= i < out.len() ==> (#[trigger] out[i]).row == rows[out[i].path],
        forall|i: int, j: int|
            0 <= i < j < out.len() ==> (#[trigger] out[i]).path != (#[trigger] out[j]).path,
        forall|i: int, j: int|
            0 <= i < j < out.len() ==> rows[(#[trigger] out[i]).path].last_activity >= rows[(
            #[trigger] out[j]).path].last_activity,
        forall|i: int, p: Seq<char>|
            #![trigger out[i], wanted.contains(p)]
            0 <= i < out.len() && wanted.contains(p) && (forall|j: int|
                0 <= j < out.len() ==> (#[trigger] out[j]).path != p) ==> rows[p].last_activity
                <= rows[out[i].path].last_activity,
{
    assert forall|i: int, j: int| 0 <= i < j < out.len() implies rows[(
    #[trigger] out[i]).path].last_activity >= rows[(#[trigger] out[j]).path].last_activity by {
        assert(out[i].row == rows[out[i].path] && out[j].row == rows[out[j].path]);
    }
    assert forall|i: int, p: Seq<char>|
        #![trigger out[i], wanted.contains(p)]
        0 <= i < out.len() && wanted.contains(p) && (forall|j: int|
            0 <= j < out.len() ==> (#[trigger] out[j]).path != p) implies rows[p].last_activity
        <= rows[out[i].path].last_activity by {
        assert(!is_listed(out, p));
        assert(out[i].row == rows[out[i].path]);
    }
}

/// The row that was active last comes first.
pub proof fn newest_row_comes_first(
    rows: Rows,
    limit: int,
    out: Seq<Listed>,
    newest: Seq<char>,
)
    requires
        rows.dom().finite(),
        limit != 0,
        is_listing(rows, rows.dom(), limit, out),
        rows.contains_key(newest),
        forall|p: Seq<char>| #[trigger]
            rows.contains_key(p) && p != newest ==> rows[p].last_activity
                < rows[newest].last_activity,
    ensures
        out.len() > 0,
        out[0] == (Listed { path: newest, row: rows[newest] }),
{
    assert(rows.dom().len() > 0) by {
        if rows.dom().len() == 0 {
            rows.dom().lemma_len0_is_empty();
        }
    }
    assert(rows.dom().contains(newest));
    assert(rows.contains_key(out[0].path));
    if out[0].path != newest {
        if is_listed(out, newest) {
            let i = choose|i: int| 0 <= i < out.len() && (#[trigger] out[i]).path == newest;
            assert(out[i].row == rows[newest]);
        }
        assert(out[0].row == rows[out[0].path]);
    }
}

/// Storing an event at the next activity number keeps the rows sound.
pub proof fn storing_keeps_rows_sound(before: Rows, activity: int, ev: Sighting, after: Rows)
    requires
        are_sound(before),
        is_latest(before, activity),
        1 <= activity,
        upserted(before, activity, ev, after),
    ensures
        are_sound(after),
        is_latest(after, activity + 1),
        1 <= after.len(),
{
    upserted_is_finite(before, activity, ev, after);
    assert(after.dom().contains(ev.path));
    assert forall|p: Seq<char>| #[trigger] after.contains_key(p) implies 1 <= after[p].count
        <= after[p].last_activity && after[p].last_activity < activity + 1 by {
        if p != ev.path {
            assert(before.contains_key(p) && after[p] == before[p]);
        } else if before.contains_key(p) {
            assert(after[p] == repeat_row(before[p], activity, ev));
        }
    }
    assert forall|p: Seq<char>, q: Seq<char>|
        #![trigger after.contains_key(p), after.contains_key(q)]
        after.contains_key(p) && after.contains_key(q) && p != q implies after[p].seq
        != after[q].seq && after[p].last_activity != after[q].last_activity by {
        if p != ev.path {
            assert(before.contains_key(p) && after[p] == before[p]);
        }
        if q != ev.path {
            assert(before.contains_key(q) && after[q] == before[q]);
        }
    }
}

/// An insertion at the next activity number keeps the rows sound, within the bound, and leaves at
/// least one.
pub proof fn insertion_keeps_rows_sound(
    before: Rows,
    activity: int,
    ev: Sighting,
    keep: nat,
    after: Rows,
)
    requires
        are_sound(before),
        is_latest(before, activity),
        1 <= activity,
        1 <= keep,
        inserted(before, activity, ev, keep, after),
    ensures
        are_sound(after),
        is_latest(after, activity + 1),
        1 <= after.len() <= keep,
{
    let mid = choose|mid: Rows| #[trigger]
        upserted(before, activity, ev, mid) && trimmed(mid, keep, after);
    storing_keeps_rows_sound(before, activity, ev, mid);
    trimmed_is_finite(mid, keep, after);
    assert forall|p: Seq<char>| #[trigger] after.contains_key(p) implies mid.contains_key(p)
        && after[p] == mid[p] by {
        assert(after.dom().contains(p));
    }
}

/// The sum of the counts of the rows.
pub open spec fn total_hits(rows: Rows) -> int
    decreases rows.dom().len(),
    when rows.dom().finite()
{
    if rows.dom().len() == 0 {
        0
    } else {
        let p = rows.dom().choose();
        rows[p].count + total_hits(rows.remove(p))
    }
}

/// Any row can be taken out of the sum first.
proof fn total_hits_without(rows: Rows, p: Seq<char>)
    requires
        rows.dom().finite(),
        rows.contains_key(p),
    ensures
        total_hits(rows) == rows[p].count + total_hits(rows.remove(p)),
    decreases rows.dom().len(),
{
    let q = rows.dom().choose();
    assert(rows.dom().contains(q));
    if p != q {
        total_hits_without(rows.remove(q), p);
        total_hits_without(rows.remove(p), q);
        assert(rows.remove(q).remove(p) =~= rows.remove(p).remove(q));
    }
}

/// As long as no more paths have been seen than the table may keep, the counts of its rows add up
/// to the number of events.
pub proof fn counts_add_up_to_history(events: Seq<Sighting>, keep: nat, states: Seq<Rows>)
    requires
        is_history(events, keep, states),
        seen_paths(events).len() <= keep,
    ensures
        total_hits(states.last()) == events.len(),
    decreases events.len(),
{
    lemma_seen_paths(events);
    if events.len() > 0 {
        let prior = events.drop_last();
        let n = prior.len() as int;
        lemma_seen_paths(prior);
        lemma_len_subset(seen_paths(prior), seen_paths(events));
        let prior_states = states.drop_last();
        assert(is_history(prior, keep, prior_states)) by {
            assert forall|i: int| 0 <= i < prior.len() implies #[trigger] inserted(
                prior_states[i],
                i + 1,
                prior[i],
                keep,
                prior_states[i + 1],
            ) by {
                assert(inserted(states[i], i + 1, events[i], keep, states[i + 1]));
            }
        }
        counts_add_up_to_history(prior, keep, prior_states);
        table_sums_up_history(prior, keep, prior_states);
        let before = states[n];
        let after = states[n + 1];
        let path = events[n].path;
        assert(before == prior_states.last());
        assert(inserted(states[n], n + 1, events[n], keep, states[n + 1]));
        if before.contains_key(path) {
            repeat_keeps_all_paths(before, n + 1, events[n], keep, after);
            total_hits_without(before, path);
        } else {
            assert(!seen_paths(prior).contains(path));
            first_hit_adds_a_row(before, n + 1, events[n], keep, after);
        }
        assert(after.dom().finite());
        total_hits_without(after, path);
        assert(after.remove(path) =~= before.remove(path));
        assert(!before.contains_key(path) ==> before.remove(path) =~= before);
    }
}

/// `states` are the tables that come about when `events` are stored one by one, at the activity
/// numbers 1, 2 and so on, starting from an empty table.
pub open spec fn is_history(events: Seq<Sighting>, keep: nat, states: Seq<Rows>) -> bool {
    &&& states.len() == events.len() + 1
    &&& states[0] == Map::<Seq<char>, StoredRow>::empty()
    &&& forall|i: int|
        0 <= i < events.len() ==> #[trigger] inserted(
            states[i],
            i + 1,
            events[i],
            keep,
            states[i + 1],
        )
}

/// The number of events on `path`.
pub open spec fn hits(events: Seq<Sighting>, path: Seq<char>) -> nat
    decreases events.len(),
{
    if events.len() == 0 {
        0
    } else {
        hits(events.drop_last(), path) + if events.last().path == path { 1nat } else { 0 }
    }
}

/// The paths of the events.
pub open spec fn seen_paths(events: Seq<Sighting>) -> Set<Seq<char>>
    decreases events.len(),
{
    if events.len() == 0 {
        Set::empty()
    } else {
        seen_paths(events.drop_last()).insert(events.last().path)
    }
}

/// Event `i` is the first one on `path`.
pub open spec fn is_first_hit(events: Seq<Sighting>, path: Seq<char>, i: int) -> bool {
    &&& 0 <= i < events.len()
    &&& events[i].path == path
    &&& forall|j: int| 0 <= j < i ==> (#[trigger] events[j]).path != path
}

/// Event `i` is the latest one on `path`.
pub open spec fn is_last_hit(events: Seq<Sighting>, path: Seq<char>, i: int) -> bool {
    &&& 0 <= i < events.len()
    &&& events[i].path == path
    &&& forall|j: int| i < j < events.len() ==> (#[trigger] events[j]).path != path
}

/// The row holds the values and the activity number of the latest event on `path`.
pub open spec fn is_up_to_date(events: Seq<Sighting>, path: Seq<char>, row: StoredRow) -> bool {
    exists|i: int| #[trigger]
        is_last_hit(events, path, i) && row.last_activity == i + 1 && row.time_str
            == events[i].time_str && row.pid == events[i].pid && row.process_name
            == events[i].process_name && row.operation == events[i].operation && row.detail
            == events[i].detail
}

/// The row is what the events on `path` add up to: the number of them, the time of the first one,
/// and the values and the activity number of the latest one.
pub open spec fn sums_up(events: Seq<Sighting>, path: Seq<char>, row: StoredRow) -> bool {
    &&& row.count == hits(events, path)
    &&& exists|i: int| #[trigger]
        is_first_hit(events, path, i) && row.first_seen == events[i].time_str
    &&& is_up_to_date(events, path, row)
}

proof fn lemma_seen_paths(events: Seq<Sighting>)
    ensures
        seen_paths(events).finite(),
        forall|p: Seq<char>| #[trigger] seen_paths(events).contains(p) <==> hits(events, p) > 0,
    decreases events.len(),
{
    if events.len() > 0 {
        lemma_seen_paths(events.drop_last());
    }
}

/// As long as no more paths have been seen than the table may keep, it holds exactly the paths
/// that were seen, and each row sums up the events on its path.
pub proof fn table_sums_up_history(events: Seq<Sighting>, keep: nat, states: Seq<Rows>)
    requires
        is_history(events, keep, states),
        seen_paths(events).len() <= keep,
    ensures
        states.last().dom() == seen_paths(events),
        forall|p: Seq<char>| #[trigger]
            states.last().contains_key(p) ==> sums_up(events, p, states.last()[p]),
    decreases events.len(),
{
    lemma_seen_paths(events);
    if events.len() == 0 {
        assert(states.last().dom() =~= seen_paths(events));
    } else {
        let prior = events.drop_last();
        let ev = events.last();
        let n = prior.len() as int;
        lemma_seen_paths(prior);
        lemma_len_subset(seen_paths(prior), seen_paths(events));
        let prior_states = states.drop_last();
        assert(is_history(prior, keep, prior_states)) by {
            assert forall|i: int| 0 <= i < prior.len() implies #[trigger] inserted(
                prior_states[i],
                i + 1,
                prior[i],
                keep,
                prior_states[i + 1],
            ) by {
                assert(inserted(states[i], i + 1, events[i], keep, states[i + 1]));
            }
        }
        table_sums_up_history(prior, keep, prior_states);
        let before = states[n];
        let after = states[n + 1];
        assert(before == prior_states.last());
        assert(after == states.last());
        assert(inserted(states[n], n + 1, events[n], keep, states[n + 1]));
        if before.contains_key(ev.path) {
            assert(seen_paths(prior).contains(ev.path));
            assert(seen_paths(events) =~= seen_paths(prior));
            repeat_keeps_all_paths(before, n + 1, ev, keep, after);
        } else {
            assert(!seen_paths(prior).contains(ev.path));
            first_hit_adds_a_row(before, n + 1, ev, keep, after);
        }
        assert(after.dom() =~= seen_paths(events));
        assert(forall|j: int| 0 <= j < n ==> #[trigger] events[j] == prior[j]);
        assert forall|p: Seq<char>| #[trigger] after.contains_key(p) implies sums_up(
            events,
            p,
            after[p],
        ) by {
            assert(before.contains_key(p) ==> sums_up(prior, p, before[p]));
            if p == ev.path {
                assert(is_last_hit(events, p, n));
                if before.contains_key(p) {
                    let i = choose|i: int| #[trigger]
                        is_first_hit(prior, p, i) && before[p].first_seen == prior[i].time_str;
                    assert(is_first_hit(events, p, i));
                } else {
                    assert(hits(prior, p) == 0);
                    assert forall|j: int| 0 <= j < n implies (#[trigger] events[j]).path != p by {
                        lemma_no_hit(prior, p, j);
                    }
                    assert(is_first_hit(events, p, n));
                }
            } else {
                assert(before.contains_key(p) && after[p] == before[p]);
                let i = choose|i: int| #[trigger]
                    is_first_hit(prior, p, i) && before[p].first_seen == prior[i].time_str;
                assert(is_first_hit(events, p, i));
                let l = choose|l: int| #[trigger]
                    is_last_hit(prior, p, l) && before[p].last_activity == l + 1
                        && before[p].time_str == prior[l].time_str && before[p].pid == prior[l].pid
                        && before[p].process_name == prior[l].process_name && before[p].operation
                        == prior[l].operation && before[p].detail == prior[l].detail;
                assert(is_last_hit(events, p, l));
            }
        }
    }
}

/// However many paths have been seen, the table holds as many of them as it may, and those are the
/// ones that were seen last; each row has the values of the latest event on its path.
pub proof fn table_holds_the_latest(events: Seq<Sighting>, keep: nat, states: Seq<Rows>)
    requires
        is_history(events, keep, states),
    ensures
        states.last().dom().finite(),
        states.last().dom().subset_of(seen_paths(events)),
        states.last().len() == if seen_paths(events).len() <= keep {
            seen_paths(events).len()
        } else {
            keep
        },
        forall|p: Seq<char>| #[trigger]
            states.last().contains_key(p) ==> is_up_to_date(events, p, states.last()[p]),
        forall|p: Seq<char>, q: Seq<char>, i: int|
            #![trigger states.last().contains_key(p), is_last_hit(events, q, i)]
            states.last().contains_key(p) && !states.last().contains_key(q) && is_last_hit(
                events,
                q,
                i,
            ) ==> i + 1 < states.last()[p].last_activity,
    decreases events.len(),
{
    lemma_seen_paths(events);
    if events.len() == 0 {
        assert(states.last().dom() =~= Set::empty());
    } else {
        let prior = events.drop_last();
        let n = prior.len() as int;
        let prior_states = states.drop_last();
        assert(is_history(prior, keep, prior_states)) by {
            assert forall|i: int| 0 <= i < prior.len() implies #[trigger] inserted(
                prior_states[i],
                i + 1,
                prior[i],
                keep,
                prior_states[i + 1],
            ) by {
                assert(inserted(states[i], i + 1, events[i], keep, states[i + 1]));
            }
        }
        table_holds_the_latest(prior, keep, prior_states);
        assert(states[n] == prior_states.last());
        assert(states[n + 1] == states.last());
        assert(inserted(states[n], n + 1, events[n], keep, states[n + 1]));
        let mid = choose|mid: Rows| #[trigger]
            upserted(states[n], n + 1, events[n], mid) && trimmed(mid, keep, states[n + 1]);
        storing_holds_the_latest(events, states[n], mid);
        latest_count(events, keep, states[n], mid, states[n + 1]);
        let after = states[n + 1];
        assert forall|p: Seq<char>| #[trigger] after.contains_key(p) implies is_up_to_date(
            events,
            p,
            after[p],
        ) by {
            assert(mid.contains_key(p));
        }
        assert forall|p: Seq<char>, q: Seq<char>, i: int|
            #![trigger after.contains_key(p), is_last_hit(events, q, i)]
            after.contains_key(p) && !after.contains_key(q) && is_last_hit(
                events,
                q,
                i,
            ) implies i + 1 < after[p].last_activity by {
            assert(mid.contains_key(p));
            if mid.contains_key(q) {
                assert(is_up_to_date(events, q, mid[q]));
                let j = choose|j: int| #[trigger]
                    is_last_hit(events, q, j) && mid[q].last_activity == j + 1;
                assert(i == j);
                let k = choose|k: int| #[trigger]
                    is_last_hit(events, p, k) && mid[p].last_activity == k + 1;
                assert(i != k);
            }
        }
    }
}

/// Storing an event keeps rows up to date, and those that are missing behind those that are there.
proof fn storing_holds_the_latest(events: Seq<Sighting>, before: Rows, mid: Rows)
    requires
        events.len() > 0,
        before.dom().finite(),
        upserted(before, events.len() as int, events.last(), mid),
        forall|p: Seq<char>| #[trigger]
            before.contains_key(p) ==> is_up_to_date(events.drop_last(), p, before[p]),
        forall|p: Seq<char>, q: Seq<char>, i: int|
            #![trigger before.contains_key(p), is_last_hit(events.drop_last(), q, i)]
            before.contains_key(p) && !before.contains_key(q) && is_last_hit(
                events.drop_last(),
                q,
                i,
            ) ==> i + 1 < before[p].last_activity,
    ensures
        forall|p: Seq<char>| #[trigger]
            mid.contains_key(p) ==> is_up_to_date(events, p, mid[p]),
        forall|p: Seq<char>, q: Seq<char>, i: int|
            #![trigger mid.contains_key(p), is_last_hit(events, q, i)]
            mid.contains_key(p) && !mid.contains_key(q) && is_last_hit(events, q, i) ==> i + 1
                < mid[p].last_activity,
{
    let prior = events.drop_last();
    let ev = events.last();
    let n = prior.len() as int;
    assert(forall|j: int| 0 <= j < n ==> #[trigger] events[j] == prior[j]);
    assert(events[n] == ev);
    upserted_is_finite(before, n + 1, ev, mid);
    assert(is_last_hit(events, ev.path, n));
    assert forall|p: Seq<char>| #[trigger] mid.contains_key(p) implies is_up_to_date(
        events,
        p,
        mid[p],
    ) by {
        if p != ev.path {
            assert(before.contains_key(p) && mid[p] == before[p]);
            let l = choose|l: int| #[trigger]
                is_last_hit(prior, p, l) && before[p].last_activity == l + 1 && before[p].time_str
                    == prior[l].time_str && before[p].pid == prior[l].pid
                    && before[p].process_name == prior[l].process_name && before[p].operation
                    == prior[l].operation && before[p].detail == prior[l].detail;
            assert(is_last_hit(events, p, l));
        }
    }
    assert forall|p: Seq<char>, q: Seq<char>, i: int|
        #![trigger mid.contains_key(p), is_last_hit(events, q, i)]
        mid.contains_key(p) && !mid.contains_key(q) && is_last_hit(events, q, i) implies i + 1
        < mid[p].last_activity by {
        assert(mid.dom().contains(ev.path));
        assert(q != ev.path);
        assert(i < n);
        assert(is_last_hit(prior, q, i));
        if p != ev.path {
            assert(before.contains_key(p) && mid[p] == before[p]);
        }
    }
}

/// How many rows there are after one more event.
proof fn latest_count(events: Seq<Sighting>, keep: nat, before: Rows, mid: Rows, after: Rows)
    requires
        events.len() > 0,
        before.dom().finite(),
        before.dom().subset_of(seen_paths(events.drop_last())),
        before.len() == if seen_paths(events.drop_last()).len() <= keep {
            seen_paths(events.drop_last()).len()
        } else {
            keep
        },
        upserted(before, events.len() as int, events.last(), mid),
        trimmed(mid, keep, after),
    ensures
        after.dom().finite(),
        after.dom().subset_of(seen_paths(events)),
        after.len() == if seen_paths(events).len() <= keep {
            seen_paths(events).len()
        } else {
            keep
        },
{
    let seen = seen_paths(events.drop_last());
    let path = events.last().path;
    lemma_seen_paths(events.drop_last());
    upserted_is_finite(before, events.len() as int, events.last(), mid);
    trimmed_is_finite(mid, keep, after);
    if seen.contains(path) && !before.contains_key(path) && seen.len() <= keep {
        lemma_subset_equality(before.dom(), seen);
    }
}

proof fn lemma_no_hit(events: Seq<Sighting>, path: Seq<char>, j: int)
    requires
        hits(events, path) == 0,
        0 <= j < events.len(),
    ensures
        events[j].path != path,
    decreases events.len(),
{
    if j < events.len() - 1 {
        lemma_no_hit(events.drop_last(), path, j);
    }
}

} // verus!
