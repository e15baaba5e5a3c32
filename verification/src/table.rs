//! The event table as mathematics: its rows, and what the statements of the store do to them.

use vstd::prelude::*;

verus! {

/// One row of the event table. The row's path is the key it is stored under.
#[verifier::ext_equal]
pub struct StoredRow {
    pub seq: int,
    pub last_activity: int,
    pub time_str: Seq<char>,
    pub pid: int,
    pub process_name: Seq<char>,
    pub operation: Seq<char>,
    pub detail: Seq<char>,
    pub count: int,
    pub first_seen: Seq<char>,
}

/// The rows of the event table: at most one per path.
pub type Rows = Map<Seq<char>, StoredRow>;

/// What a captured event brings along when it is stored.
#[verifier::ext_equal]
pub struct Sighting {
    pub time_str: Seq<char>,
    pub pid: int,
    pub process_name: Seq<char>,
    pub operation: Seq<char>,
    pub path: Seq<char>,
    pub detail: Seq<char>,
}

/// One line of a query's answer: a path and its row.
#[verifier::ext_equal]
pub struct Listed {
    pub path: Seq<char>,
    pub row: StoredRow,
}

/// The layout of the event table in a database.
pub enum TableState {
    /// No table or view of that name exists.
    Missing,
    /// The table has the columns and constraints of the schema, and its cells their types.
    Events,
    /// Something of that name exists, laid out in another way.
    Foreign,
}

/// The row of a path that is seen for the first time.
pub open spec fn first_row(seq: int, activity: int, ev: Sighting) -> StoredRow {
    StoredRow {
        seq,
        last_activity: activity,
        time_str: ev.time_str,
        pid: ev.pid,
        process_name: ev.process_name,
        operation: ev.operation,
        detail: ev.detail,
        count: 1,
        first_seen: ev.time_str,
    }
}

/// The row of a path that is seen again: one more hit, the latest values, and the number and the
/// first time it had before.
pub open spec fn repeat_row(old_row: StoredRow, activity: int, ev: Sighting) -> StoredRow {
    StoredRow {
        seq: old_row.seq,
        last_activity: activity,
        time_str: ev.time_str,
        pid: ev.pid,
        process_name: ev.process_name,
        operation: ev.operation,
        detail: ev.detail,
        count: old_row.count + 1,
        first_seen: old_row.first_seen,
    }
}

/// `seq` is larger than the number of every row.
pub open spec fn fresh_seq(rows: Rows, seq: int) -> bool {
    forall|p: Seq<char>| #[trigger] rows.contains_key(p) ==> rows[p].seq < seq
}

/// Storing `ev` under the activity number `activity` turns `before` into `after`.
pub open spec fn upserted(before: Rows, activity: int, ev: Sighting, after: Rows) -> bool {
    if before.contains_key(ev.path) {
        after == before.insert(ev.path, repeat_row(before[ev.path], activity, ev))
    } else {
        exists|seq: int| #[trigger]
            fresh_seq(before, seq) && after == before.insert(ev.path, first_row(seq, activity, ev))
    }
}

/// Keeping the `keep` most recently active rows turns `before` into `after`. Between rows of the
/// same activity number the choice is open.
pub open spec fn trimmed(before: Rows, keep: nat, after: Rows) -> bool {
    &&& after.submap_of(before)
    &&& after.len() == if before.len() <= keep { before.len() } else { keep }
    &&& forall|kept: Seq<char>, gone: Seq<char>|
        #![trigger after.contains_key(kept), before.contains_key(gone)]
        after.contains_key(kept) && before.contains_key(gone) && !after.contains_key(gone)
            ==> before[gone].last_activity <= after[kept].last_activity
}

/// Storing `ev` and then keeping the `keep` most recently active rows turns `before` into `after`.
pub open spec fn inserted(
    before: Rows,
    activity: int,
    ev: Sighting,
    keep: nat,
    after: Rows,
) -> bool {
    exists|mid: Rows| #[trigger] upserted(before, activity, ev, mid) && trimmed(mid, keep, after)
}

/// `out` lists the rows of `wanted`, the most recently active first, and no more than `limit` of
/// them (all of them if `limit` is negative).
pub open spec fn is_listing(
    rows: Rows,
    wanted: Set<Seq<char>>,
    limit: int,
    out: Seq<Listed>,
) -> bool {
    &&& out.len() == if limit < 0 || wanted.len() <= limit { wanted.len() as int } else { limit }
    &&& forall|i: int|
        0 <= i < out.len() ==> wanted.contains((#[trigger] out[i]).path) && out[i].row
            == rows[out[i].path]
    &&& forall|i: int, j: int|
        0 <= i < j < out.len() ==> (#[trigger] out[i]).path != (#[trigger] out[j]).path
            && out[i].row.last_activity >= out[j].row.last_activity
    &&& forall|i: int, p: Seq<char>|
        #![trigger out[i], wanted.contains(p)]
        0 <= i < out.len() && wanted.contains(p) && !is_listed(out, p) ==> rows[p].last_activity
            <= out[i].row.last_activity
}

/// `p` is the path of one of the lines.
pub open spec fn is_listed(out: Seq<Listed>, p: Seq<char>) -> bool {
    exists|i: int| 0 <= i < out.len() && (#[trigger] out[i]).path == p
}

/// `next` is one more than the largest activity number, and 1 for a table without rows.
pub open spec fn follows_activity(rows: Rows, next: int) -> bool {
    if rows.dom() =~= Set::empty() {
        next == 1
    } else {
        &&& forall|p: Seq<char>| #[trigger] rows.contains_key(p) ==> rows[p].last_activity < next
        &&& exists|p: Seq<char>| #[trigger]
            rows.contains_key(p) && rows[p].last_activity + 1 == next
    }
}

/// No row was active at `next` or later.
pub open spec fn is_latest(rows: Rows, next: int) -> bool {
    forall|p: Seq<char>| #[trigger] rows.contains_key(p) ==> rows[p].last_activity < next
}

/// No two rows have the same activity number.
pub open spec fn distinct_activity(rows: Rows) -> bool {
    forall|p: Seq<char>, q: Seq<char>|
        #![trigger rows.contains_key(p), rows.contains_key(q)]
        rows.contains_key(p) && rows.contains_key(q) && p != q ==> rows[p].last_activity
            != rows[q].last_activity
}

/// No two rows have the same number.
pub open spec fn distinct_seq(rows: Rows) -> bool {
    forall|p: Seq<char>, q: Seq<char>|
        #![trigger rows.contains_key(p), rows.contains_key(q)]
        rows.contains_key(p) && rows.contains_key(q) && p != q ==> rows[p].seq != rows[q].seq
}

/// What holds of the rows in every state that insertions can bring about: there are finitely many,
/// their numbers and their activity numbers are distinct, and each has been hit at least once, at
/// activity numbers from 1 on.
pub open spec fn are_sound(rows: Rows) -> bool {
    &&& rows.dom().finite()
    &&& distinct_seq(rows)
    &&& distinct_activity(rows)
    &&& forall|p: Seq<char>| #[trigger]
        rows.contains_key(p) ==> 1 <= rows[p].count <= rows[p].last_activity
}

/// Storing an event leaves finitely many rows.
pub proof fn upserted_is_finite(before: Rows, activity: int, ev: Sighting, after: Rows)
    requires
        before.dom().finite(),
        upserted(before, activity, ev, after),
    ensures
        after.dom().finite(),
        after.dom() =~= before.dom().insert(ev.path),
        after.len() == before.len() + if before.contains_key(ev.path) { 0int } else { 1 },
{
    let row = after[ev.path];
    assert(after =~= before.insert(ev.path, row));
}

/// Cutting the rows down leaves finitely many of them.
pub proof fn trimmed_is_finite(before: Rows, keep: nat, after: Rows)
    requires
        before.dom().finite(),
        trimmed(before, keep, after),
    ensures
        after.dom().finite(),
        after.dom().subset_of(before.dom()),
{
    assert forall|p: Seq<char>| after.dom().contains(p) implies before.dom().contains(p) by {
        assert(after.contains_key(p));
    }
    vstd::set_lib::lemma_set_subset_finite(before.dom(), after.dom());
}

} // verus!
