//! What the window shows: the events of the store that match a query, frozen while it is paused.

use vstd::prelude::*;

use crate::like::search_pattern;
use crate::rank::{
    event_scores, fuzzy_score, haystack, is_ranked, is_ranking, picked, rank_by_query,
};
use crate::rank_laws::{best_match_comes_first, ranking_is_short};
use crate::sqlite::matching_paths;
use crate::store::{event_lines, EventStore, FileEvent, StoreError};
use crate::table::is_listing;
use crate::text::{number_text, push_number, push_signed, signed_text};

verus! {

/// The largest number of rows that are shown.
pub const MAX_DISPLAY_ROWS: i64 = 5000;

/// How many seconds lie between two copies of the store to the disk.
pub const FLUSH_SECONDS: u64 = 5;

/// The file that the store is copied to.
pub const DISK_DB_FILENAME: &'static str = "evemon_events.sqlite3";

/// What the window shows.
pub struct EventView {
    pub query: String,
    pub paused: bool,
    pub frozen_rows: Vec<FileEvent>,
    pub total_count: i64,
}

/// `count` is an answer of `store` to the question how many rows it has.
pub open spec fn is_count_of(store: EventStore, count: Result<i64, StoreError>) -> bool {
    store.is_ready() ==> (count matches Ok(n) ==> n == store.rows().len())
}

/// `found` is an answer of `store` to a query: the latest rows, or those that match it.
pub open spec fn is_answer_of(
    store: EventStore,
    query: Seq<char>,
    found: Result<Vec<FileEvent>, StoreError>,
) -> bool {
    store.is_ready() ==> (found matches Ok(events) ==> is_listing(
        store.rows(),
        if query.len() == 0 {
            store.rows().dom()
        } else {
            matching_paths(store.rows(), search_pattern(query))
        },
        MAX_DISPLAY_ROWS as int,
        event_lines(events@),
    ))
}

/// The number that is shown for an answer of the store.
pub open spec fn shown_count(count: Result<i64, StoreError>) -> i64 {
    match count {
        Ok(n) => n,
        Err(_) => 0,
    }
}

/// `rows` are what is shown for an answer of the store: without a query, all in their order; with
/// one, ranked by how well they match it. A failed answer shows nothing.
pub open spec fn shows(
    query: Seq<char>,
    found: Result<Vec<FileEvent>, StoreError>,
    rows: Seq<FileEvent>,
) -> bool {
    match found {
        Ok(events) => if query.len() == 0 {
            rows == events@
        } else {
            is_ranked(events@, event_scores(events@, query), rows)
        },
        Err(_) => rows.len() == 0,
    }
}

/// The line below the toolbar.
pub open spec fn status_line(
    count: int,
    seconds: nat,
    filename: Seq<char>,
    paused: bool,
) -> Seq<char> {
    "内存库共 "@ + signed_text(count) + " 条事件 · 每 "@ + number_text(seconds, 10)
        + " 秒自动同步到磁盘文件 "@ + filename + if paused {
        " · 已暂停刷新"@
    } else {
        Seq::empty()
    }
}

impl EventView {
    /// A view without a query that has shown nothing yet.
    pub fn new() -> (view: EventView)
        ensures
            view.query@.len() == 0,
            !view.paused,
            view.frozen_rows@.len() == 0,
            view.total_count == 0,
    {
        EventView {
            query: String::new(),
            paused: false,
            frozen_rows: Vec::new(),
            total_count: 0,
        }
    }

    /// Asks the store for what is to be shown now. A paused view stays as it is, so that a row can
    /// be looked at while new events come in.
    pub fn refresh(&mut self, store: &EventStore)
        ensures
            old(self).paused ==> *final(self) == *old(self),
            final(self).query == old(self).query,
            final(self).paused == old(self).paused,
            !old(self).paused ==> {
                &&& exists|count: Result<i64, StoreError>| #[trigger]
                    is_count_of(*store, count) && final(self).total_count == shown_count(count)
                &&& exists|found: Result<Vec<FileEvent>, StoreError>| #[trigger]
                    is_answer_of(*store, old(self).query@, found) && shows(
                        old(self).query@,
                        found,
                        final(self).frozen_rows@,
                    )
            },
            !old(self).paused ==> exists|count: Result<i64, StoreError>|
                {
                    &&& #[trigger] call_ensures(EventStore::count, (store,), count)
                    &&& count matches Ok(n) ==> final(self).total_count == n
                    &&& count is Err ==> final(self).total_count == 0
                },
            !old(self).paused && old(self).query@.len() == 0 ==> exists|
                found: Result<Vec<FileEvent>, StoreError>,
            |
                {
                    &&& #[trigger] call_ensures(EventStore::recent, (store, 5000i64), found)
                    &&& found matches Ok(events) ==> final(self).frozen_rows@ == events@
                    &&& found is Err ==> final(self).frozen_rows@.len() == 0
                },
            !old(self).paused && old(self).query@.len() > 0 ==> exists|
                keyword: &str,
                found: Result<Vec<FileEvent>, StoreError>,
            |
                {
                    &&& #[trigger] call_ensures(
                        EventStore::search,
                        (store, keyword, 5000i64),
                        found,
                    )
                    &&& keyword@ == old(self).query@
                    &&& found matches Ok(events) ==> forall|k: int|
                        0 <= k < final(self).frozen_rows@.len() ==> events@.contains(
                            #[trigger] final(self).frozen_rows@[k],
                        )
                    &&& found matches Ok(events) ==> forall|i: int|
                        0 <= i < events@.len() && haystack(#[trigger] events@[i]).len()
                            <= 30_000_000 && fuzzy_score(
                            haystack(events@[i]),
                            old(self).query@,
                        ) is Some ==> final(self).frozen_rows@.contains(events@[i])
                    &&& found is Err ==> final(self).frozen_rows@.len() == 0
                },
            !old(self).paused && old(self).query@.len() > 0 ==> forall|k: int, l: int|
                0 <= k < l < final(self).frozen_rows@.len() ==> fuzzy_score(
                    haystack(#[trigger] final(self).frozen_rows@[k]),
                    old(self).query@,
                )->0 >= fuzzy_score(
                    haystack(#[trigger] final(self).frozen_rows@[l]),
                    old(self).query@,
                )->0,
    {
        if self.paused {
            return;
        }
        let count = store.count();
        let found = if self.query.as_str().is_empty() {
            store.recent(MAX_DISPLAY_ROWS)
        } else {
            store.search(&self.query, MAX_DISPLAY_ROWS)
        };
        assert(is_count_of(*store, count));
        assert(is_answer_of(*store, self.query@, found));
        self.show(count, found);
    }

    /// Shows what the store answered. A failed answer shows no rows, and 0 for their number.
    pub fn show(
        &mut self,
        count: Result<i64, StoreError>,
        found: Result<Vec<FileEvent>, StoreError>,
    )
        ensures
            final(self).query == old(self).query,
            final(self).paused == old(self).paused,
            final(self).total_count == shown_count(count),
            shows(old(self).query@, found, final(self).frozen_rows@),
            count matches Ok(n) ==> final(self).total_count == n,
            count is Err ==> final(self).total_count == 0,
            found is Err ==> final(self).frozen_rows@.len() == 0,
            old(self).query@.len() == 0 ==> (found matches Ok(events) ==> final(self).frozen_rows@
                == events@),
            old(self).query@.len() > 0 ==> forall|k: int, l: int|
                0 <= k < l < final(self).frozen_rows@.len() ==> fuzzy_score(
                    haystack(#[trigger] final(self).frozen_rows@[k]),
                    old(self).query@,
                )->0 >= fuzzy_score(
                    haystack(#[trigger] final(self).frozen_rows@[l]),
                    old(self).query@,
                )->0,
            old(self).query@.len() > 0 ==> (found matches Ok(events) ==> forall|k: int|
                0 <= k < final(self).frozen_rows@.len() ==> events@.contains(
                    #[trigger] final(self).frozen_rows@[k],
                )),
            old(self).query@.len() > 0 ==> (found matches Ok(events) ==> forall|i: int|
                0 <= i < events@.len() && haystack(#[trigger] events@[i]).len() <= 30_000_000
                    && fuzzy_score(haystack(events@[i]), old(self).query@) is Some
                    ==> final(self).frozen_rows@.contains(events@[i])),
    {
        self.total_count = match count {
            Ok(n) => n,
            Err(_) => 0,
        };
        self.frozen_rows = match found {
            Ok(events) => if self.query.as_str().is_empty() {
                events
            } else {
                rank_by_query(events, &self.query)
            },
            Err(_) => Vec::new(),
        };
    }

    /// Pauses the view, or lets it go on.
    pub fn toggle_pause(&mut self)
        ensures
            final(self).paused == !old(self).paused,
            final(self).query == old(self).query,
            final(self).frozen_rows == old(self).frozen_rows,
            final(self).total_count == old(self).total_count,
    {
        self.paused = !self.paused;
    }

    /// What the pause button says.
    pub fn pause_label(&self) -> (label: &'static str)
        ensures
            label@ == if self.paused {
                "▶ 继续"@
            } else {
                "⏸ 暂停"@
            },
    {
        if self.paused {
            "▶ 继续"
        } else {
            "⏸ 暂停"
        }
    }

    /// The line below the toolbar.
    pub fn status_text(&self, seconds: u64, filename: &str) -> (text: String)
        ensures
            text@ == status_line(self.total_count as int, seconds as nat, filename@, self.paused),
            !self.paused ==> text@ == "内存库共 "@ + signed_text(self.total_count as int)
                + " 条事件 · 每 "@ + number_text(seconds as nat, 10) + " 秒自动同步到磁盘文件 "@
                + filename@,
            self.paused ==> text@ == "内存库共 "@ + signed_text(self.total_count as int)
                + " 条事件 · 每 "@ + number_text(seconds as nat, 10) + " 秒自动同步到磁盘文件 "@
                + filename@ + " · 已暂停刷新"@,
    {
        let mut text = "内存库共 ".to_owned();
        push_signed(&mut text, self.total_count);
        text.push_str(" 条事件 · 每 ");
        push_number(&mut text, seconds, 10);
        text.push_str(" 秒自动同步到磁盘文件 ");
        text.push_str(filename);
        if self.paused {
            text.push_str(" · 已暂停刷新");
        }
        assert(text@ =~= status_line(
            self.total_count as int,
            seconds as nat,
            filename@,
            self.paused,
        ));
        text
    }
}

/// What is shown for an answer of the store: nothing for a failed one, all rows in their order
/// without a query, and with one, of any length, the rows that match it in the order of the
/// matcher's own scores, highest first.
pub proof fn best_match_is_shown_first(
    query: Seq<char>,
    found: Result<Vec<FileEvent>, StoreError>,
    rows: Seq<FileEvent>,
)
    requires
        shows(query, found, rows),
    ensures
        found is Err ==> rows.len() == 0,
        found is Ok && query.len() == 0 ==> rows == found->Ok_0@,
        found is Ok && query.len() > 0 ==> forall|k: int, l: int|
            0 <= k < l < rows.len() ==> fuzzy_score(haystack(#[trigger] rows[k]), query)->0
                >= fuzzy_score(haystack(#[trigger] rows[l]), query)->0,
        found is Ok && query.len() > 0 ==> forall|k: int|
            0 <= k < rows.len() ==> found->Ok_0@.contains(#[trigger] rows[k]) && fuzzy_score(
                haystack(rows[k]),
                query,
            ) is Some,
        found is Ok && query.len() > 0 ==> forall|i: int|
            0 <= i < found->Ok_0@.len() && haystack(#[trigger] found->Ok_0@[i]).len() <= 30_000_000
                && fuzzy_score(haystack(found->Ok_0@[i]), query) is Some ==> rows.contains(
                found->Ok_0@[i],
            ),
{
    if found is Ok && query.len() > 0 {
        best_match_comes_first(found->Ok_0@, query, rows);
    }
}

/// No more rows are shown than [`MAX_DISPLAY_ROWS`], and only rows that the store holds.
pub proof fn shown_rows_are_stored(
    store: EventStore,
    query: Seq<char>,
    found: Result<Vec<FileEvent>, StoreError>,
    rows: Seq<FileEvent>,
)
    requires
        store.is_ready(),
        is_answer_of(store, query, found),
        shows(query, found, rows),
    ensures
        rows.len() <= MAX_DISPLAY_ROWS,
        forall|k: int|
            0 <= k < rows.len() ==> store.rows().contains_key((#[trigger] rows[k]).path@)
                && store.rows()[rows[k].path@] == rows[k].line().row,
{
    if found is Ok {
        let events = found->Ok_0@;
        assert forall|i: int| 0 <= i < events.len() implies store.rows().contains_key(
            (#[trigger] events[i]).path@,
        ) && store.rows()[events[i].path@] == events[i].line().row by {
            assert(event_lines(events)[i] == events[i].line());
        }
        if query.len() > 0 {
            let scores = event_scores(events, query);
            let order = choose|order: Seq<usize>| #[trigger]
                is_ranking(scores, order) && rows == picked(events, order);
            ranking_is_short(scores, order);
            assert forall|k: int| 0 <= k < rows.len() implies store.rows().contains_key(
                (#[trigger] rows[k]).path@,
            ) && store.rows()[rows[k].path@] == rows[k].line().row by {
                assert(order[k] < scores.len());
                assert(rows[k] == events[order[k] as int]);
            }
        }
    }
}

} // verus!
