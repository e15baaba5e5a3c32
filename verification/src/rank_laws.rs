//! Laws of the ranking: it is determined by the scores, and what the coarse search finds for a
//! query in lower case is never lost in it.

use vstd::prelude::*;
use vstd::set_lib::{lemma_int_range, lemma_len_subset, set_int_range};

use crate::like::{
    c_text, c_text_keeps, contains_folded, escaped_has_no_nul, fold, folded_at, like,
    search_is_substring, search_pattern,
};
use crate::rank::{
    comes_before, event_scores, fuzzy_score, has_upper, haystack, is_ranked, is_ranking,
    is_scattered, is_scorable, picked, same_char, stands_at,
};
use crate::sqlite::row_matches;
use crate::store::FileEvent;

verus! {

/// Scores have one ranking.
pub proof fn ranking_is_determined(scores: Seq<Option<i64>>, a: Seq<usize>, b: Seq<usize>)
    requires
        is_ranking(scores, a),
        is_ranking(scores, b),
    ensures
        a == b,
{
    let n = if a.len() <= b.len() {
        a.len()
    } else {
        b.len()
    };
    rankings_agree(scores, a, b, n as int);
    rankings_agree(scores, b, a, n as int);
    ranking_is_no_longer(scores, a, b);
    ranking_is_no_longer(scores, b, a);
    assert(a =~= b);
}

/// Two rankings of the same scores agree as far as both go.
proof fn rankings_agree(scores: Seq<Option<i64>>, a: Seq<usize>, b: Seq<usize>, n: int)
    requires
        is_ranking(scores, a),
        is_ranking(scores, b),
        0 <= n <= a.len(),
        n <= b.len(),
    ensures
        forall|k: int| 0 <= k < n ==> #[trigger] a[k] == b[k],
    decreases n,
{
    if n > 0 {
        let k = n - 1;
        rankings_agree(scores, a, b, k);
        assert(scores[a[k] as int] is Some);
        assert(scores[b[k] as int] is Some);
        let l = choose|l: int| 0 <= l < b.len() && #[trigger] b[l] == a[k] as int;
        let m = choose|m: int| 0 <= m < a.len() && #[trigger] a[m] == b[k] as int;
        if l < k {
            assert(a[l] == b[l]);
            assert(comes_before(scores, a[l] as int, a[k] as int));
        }
        if m < k {
            assert(a[m] == b[m]);
            assert(comes_before(scores, b[m] as int, b[k] as int));
        }
        if l > k && m > k {
            assert(comes_before(scores, b[k] as int, b[l] as int));
            assert(comes_before(scores, a[k] as int, a[m] as int));
        }
    }
}

/// A ranking is no longer than another that agrees with it as far as both go.
proof fn ranking_is_no_longer(scores: Seq<Option<i64>>, a: Seq<usize>, b: Seq<usize>)
    requires
        is_ranking(scores, a),
        is_ranking(scores, b),
        forall|k: int| 0 <= k < a.len() && k < b.len() ==> #[trigger] a[k] == b[k],
    ensures
        a.len() <= b.len(),
{
    if a.len() > b.len() {
        let k = b.len() as int;
        assert(scores[a[k] as int] is Some);
        let l = choose|l: int| 0 <= l < b.len() && #[trigger] b[l] == a[k] as int;
        assert(a[l] == b[l]);
        assert(comes_before(scores, a[l] as int, a[k] as int));
    }
}

/// A ranking has no more positions than there are scores.
pub proof fn ranking_is_short(scores: Seq<Option<i64>>, order: Seq<usize>)
    requires
        is_ranking(scores, order),
    ensures
        order.len() <= scores.len(),
{
    let positions = order.map_values(|i: usize| i as int);
    let range = set_int_range(0, scores.len() as int);
    assert forall|k: int, l: int|
        0 <= k < positions.len() && 0 <= l < positions.len() && k != l implies positions[k]
        != positions[l] by {
        if k < l {
            assert(comes_before(scores, order[k] as int, order[l] as int));
        } else {
            assert(comes_before(scores, order[l] as int, order[k] as int));
        }
    }
    positions.unique_seq_to_set();
    assert forall|x: int| positions.to_set().contains(x) implies range.contains(x) by {
        let k = choose|k: int| 0 <= k < positions.len() && positions[k] == x;
        assert(order[k] < scores.len());
    }
    lemma_int_range(0, scores.len() as int);
    lemma_len_subset(positions.to_set(), range);
}

/// Events and scores have one ranked list of rows.
pub proof fn ranked_rows_are_determined(
    events: Seq<FileEvent>,
    scores: Seq<Option<i64>>,
    a: Seq<FileEvent>,
    b: Seq<FileEvent>,
)
    requires
        is_ranked(events, scores, a),
        is_ranked(events, scores, b),
    ensures
        a == b,
{
    let x = choose|order: Seq<usize>| #[trigger]
        is_ranking(scores, order) && a == picked(events, order);
    let y = choose|order: Seq<usize>| #[trigger]
        is_ranking(scores, order) && b == picked(events, order);
    ranking_is_determined(scores, x, y);
}

/// An event is scored as the matcher scores its text, for queries of any length. Only a text of
/// many millions of characters may be left without a score.
pub proof fn score_is_the_matchers_own(events: Seq<FileEvent>, query: Seq<char>, i: int)
    requires
        0 <= i < events.len(),
    ensures
        event_scores(events, query).len() == events.len(),
        haystack(events[i]).len() <= 30_000_000 ==> event_scores(events, query)[i] == fuzzy_score(
            haystack(events[i]),
            query,
        ),
        event_scores(events, query)[i] is Some ==> event_scores(events, query)[i] == fuzzy_score(
            haystack(events[i]),
            query,
        ),
{
}

/// The text of an event is its path, its process, its operation and its detail, with spaces between
/// them.
pub proof fn event_text_has_all_parts(ev: FileEvent)
    ensures
        haystack(ev) == ev.path@ + seq![' '] + ev.process_name@ + seq![' '] + ev.operation@
            + seq![' '] + ev.detail@,
{
}

/// Every text of up to 30 million characters can be scored, for every query.
pub proof fn long_texts_can_be_scored(text: nat, query: nat)
    requires
        text <= 30_000_000,
    ensures
        is_scorable(text, query),
{
}

/// Ranked rows come in the order of the matcher's own scores, highest first, for queries of any
/// length. Rows with the same score come in the order in which the events were. No row comes that
/// is no event with a score, and no event with a score is missing, unless its text has many
/// millions of characters.
pub proof fn best_match_comes_first(events: Seq<FileEvent>, query: Seq<char>, rows: Seq<FileEvent>)
    requires
        is_ranked(events, event_scores(events, query), rows),
    ensures
        forall|k: int, l: int|
            0 <= k < l < rows.len() ==> fuzzy_score(haystack(#[trigger] rows[k]), query)->0
                >= fuzzy_score(haystack(#[trigger] rows[l]), query)->0,
        forall|k: int|
            0 <= k < rows.len() ==> events.contains(#[trigger] rows[k]) && fuzzy_score(
                haystack(rows[k]),
                query,
            ) is Some,
        forall|k: int, l: int|
            0 <= k < l < rows.len() && fuzzy_score(haystack(rows[k]), query) == fuzzy_score(
                haystack(rows[l]),
                query,
            ) ==> exists|i: int, j: int|
                0 <= i < j < events.len() && #[trigger] events[i] == #[trigger] rows[k]
                    && #[trigger] events[j] == #[trigger] rows[l],
        forall|i: int|
            0 <= i < events.len() && haystack(#[trigger] events[i]).len() <= 30_000_000
                && fuzzy_score(haystack(events[i]), query) is Some ==> rows.contains(events[i]),
{
    let scores = event_scores(events, query);
    let order = choose|order: Seq<usize>| #[trigger]
        is_ranking(scores, order) && rows == picked(events, order);
    assert forall|k: int| 0 <= k < rows.len() implies events.contains(#[trigger] rows[k])
        && rows[k] == events[order[k] as int] && scores[order[k] as int] == fuzzy_score(
        haystack(rows[k]),
        query,
    ) && scores[order[k] as int] is Some by {
        assert(order[k] < scores.len());
        assert(rows[k] == events[order[k] as int]);
    }
    assert forall|k: int, l: int| 0 <= k < l < rows.len() implies fuzzy_score(
        haystack(#[trigger] rows[k]),
        query,
    )->0 >= fuzzy_score(haystack(#[trigger] rows[l]), query)->0 by {
        assert(comes_before(scores, order[k] as int, order[l] as int));
    }
    assert forall|k: int, l: int|
        0 <= k < l < rows.len() && fuzzy_score(haystack(rows[k]), query) == fuzzy_score(
            haystack(rows[l]),
            query,
        ) implies exists|i: int, j: int|
        0 <= i < j < events.len() && #[trigger] events[i] == #[trigger] rows[k]
            && #[trigger] events[j] == #[trigger] rows[l] by {
        assert(comes_before(scores, order[k] as int, order[l] as int));
        let i = order[k] as int;
        let j = order[l] as int;
        assert(events[i] == rows[k] && events[j] == rows[l]);
        assert(scores[i] == scores[j]);
        assert(i < j);
    }
    assert forall|i: int|
        0 <= i < events.len() && haystack(#[trigger] events[i]).len() <= 30_000_000
            && fuzzy_score(haystack(events[i]), query) is Some implies rows.contains(events[i]) by {
        score_is_the_matchers_own(events, query, i);
        assert(scores[i] is Some);
        let k = choose|k: int| 0 <= k < order.len() && #[trigger] order[k] == i;
        assert(rows[k] == events[i]);
    }
}

/// A character that the coarse search takes as it is, up to the case of ASCII letters.
pub open spec fn is_plain(c: char) -> bool {
    c < '\u{FFFD}' || c > '\u{FFFF}'
}

/// A query that stands in the path, the process name, the operation or the detail of an event, up
/// to the case of ASCII letters, matches the event, unless it has an upper-case ASCII letter: what
/// the coarse search finds is not lost in the ranking.
pub proof fn lower_case_query_loses_nothing(ev: FileEvent, query: Seq<char>)
    requires
        !has_upper(query),
        forall|i: int| 0 <= i < query.len() ==> is_plain(#[trigger] query[i]),
        contains_folded(ev.path@, query) || contains_folded(ev.process_name@, query)
            || contains_folded(ev.operation@, query) || contains_folded(ev.detail@, query),
    ensures
        is_scattered(query, haystack(ev)),
{
    let text = haystack(ev);
    let a = ev.path@.len() as int;
    let b = a + 1 + ev.process_name@.len();
    let c = b + 1 + ev.operation@.len();
    if contains_folded(ev.path@, query) {
        assert(text.subrange(0, a) =~= ev.path@);
        folded_part_is_scattered(text, 0, a, query);
    } else if contains_folded(ev.process_name@, query) {
        assert(text.subrange(a + 1, b) =~= ev.process_name@);
        folded_part_is_scattered(text, a + 1, b, query);
    } else if contains_folded(ev.operation@, query) {
        assert(text.subrange(b + 1, c) =~= ev.operation@);
        folded_part_is_scattered(text, b + 1, c, query);
    } else {
        let end = text.len() as int;
        assert(text.subrange(c + 1, end) =~= ev.detail@);
        folded_part_is_scattered(text, c + 1, end, query);
    }
}

/// A query that stands in a part of a text stands in the text in order.
proof fn folded_part_is_scattered(text: Seq<char>, from: int, to: int, query: Seq<char>)
    requires
        0 <= from <= to <= text.len(),
        !has_upper(query),
        forall|i: int| 0 <= i < query.len() ==> is_plain(#[trigger] query[i]),
        contains_folded(text.subrange(from, to), query),
    ensures
        is_scattered(query, text),
{
    let part = text.subrange(from, to);
    let at = choose|at: int| #[trigger] folded_at(part, query, at);
    let positions = Seq::new(query.len(), |i: int| from + at + i);
    assert forall|i: int| 0 <= i < positions.len() implies 0 <= #[trigger] positions[i]
        < text.len() && same_char(text[positions[i]], query[i], false) by {
        assert(is_plain(query[i]));
        assert(part[at + i] == text[from + at + i]);
        assert(fold(part[at + i]) == fold(query[i]));
    }
    assert(stands_at(query, text, has_upper(query), positions));
}

/// Every event that the coarse search finds for a query matches it, and so comes up in the ranking.
/// The query must be in lower case, and without the characters that the search does not take as
/// they are: NUL and the last characters below U+10000. `README` finds `readme.txt` in the
/// search and loses it in the ranking.
pub proof fn search_hits_are_ranked(ev: FileEvent, query: Seq<char>)
    requires
        !has_upper(query),
        !query.contains('\0'),
        forall|i: int| 0 <= i < query.len() ==> is_plain(#[trigger] query[i]),
        row_matches(search_pattern(query), ev.path@, ev.line().row),
    ensures
        is_scattered(query, haystack(ev)),
{
    escaped_has_no_nul(query);
    let pattern = search_pattern(query);
    assert(!pattern.contains('\0'));
    c_text_keeps(pattern);
    hit_is_folded(ev.path@, query);
    hit_is_folded(ev.process_name@, query);
    hit_is_folded(ev.operation@, query);
    hit_is_folded(ev.detail@, query);
    lower_case_query_loses_nothing(ev, query);
}

/// A text that a search finds contains the keyword.
proof fn hit_is_folded(text: Seq<char>, keyword: Seq<char>)
    ensures
        like(search_pattern(keyword), c_text(text)) ==> contains_folded(text, keyword),
{
    let seen = c_text(text);
    search_is_substring(keyword, seen);
    c_text_is_start(text);
    if contains_folded(seen, keyword) {
        let at = choose|at: int| #[trigger] folded_at(seen, keyword, at);
        assert forall|j: int| 0 <= j < keyword.len() implies fold(#[trigger] text[at + j]) == fold(
            keyword[j],
        ) by {
            assert(seen[at + j] == text[at + j]);
        }
        assert(folded_at(text, keyword, at));
    }
}

/// What `LIKE` sees of a text is a start of it.
proof fn c_text_is_start(s: Seq<char>)
    ensures
        c_text(s).len() <= s.len(),
        c_text(s) == s.take(c_text(s).len() as int),
    decreases s.len(),
{
    if s.len() > 0 && s[0] != '\0' {
        c_text_is_start(s.skip(1));
        assert(c_text(s) =~= s.take(c_text(s).len() as int));
    } else {
        assert(c_text(s) =~= s.take(0));
    }
}

} // verus!
