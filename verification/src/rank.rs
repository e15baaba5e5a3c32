//! Ranking of found events by how well they match a query.

use fuzzy_matcher::FuzzyMatcher;
use vstd::prelude::*;

use crate::store::FileEvent;
use crate::text::ascii_lower;

verus! {

/// The longest text that is scored. A score is counted in 32 bits and falls by 1 with each
/// character that is passed over.
pub const MAX_TEXT: usize = 2_000_000_000;

/// The largest number of characters that may match. A score grows by at most 32 with each of them.
pub const MAX_MATCHED: usize = 60_000_000;

/// How many bytes the scoring needs at the most for each character of a text.
pub const SCORE_BYTES: usize = 64;

/// A text of this length can be scored for a query of this length: the score fits into 32 bits, and
/// what is needed on the way into what can be allocated. No more characters match than either has.
pub open spec fn is_scorable(text: nat, query: nat) -> bool {
    &&& text <= MAX_TEXT
    &&& text * SCORE_BYTES <= isize::MAX
    &&& text <= MAX_MATCHED || query <= MAX_MATCHED
}

/// Whether a text of this length can be scored for a query of this length.
fn can_score(text: usize, query: usize) -> (r: bool)
    ensures
        r == is_scorable(text as nat, query as nat),
{
    text <= MAX_TEXT && text <= isize::MAX as usize / SCORE_BYTES && (text <= MAX_MATCHED || query
        <= MAX_MATCHED)
}

/// `s` has an upper-case ASCII letter.
pub open spec fn has_upper(s: Seq<char>) -> bool {
    exists|i: int| 0 <= i < s.len() && 'A' <= #[trigger] s[i] <= 'Z'
}

/// A character of a text stands for one of a pattern. Case matters only where it is `strict`.
pub open spec fn same_char(c: char, p: char, strict: bool) -> bool {
    if strict {
        c == p
    } else {
        ascii_lower(c) == ascii_lower(p)
    }
}

/// The characters of `pattern` stand at these positions of `text`, in order.
pub open spec fn stands_at(
    pattern: Seq<char>,
    text: Seq<char>,
    strict: bool,
    at: Seq<int>,
) -> bool {
    &&& at.len() == pattern.len()
    &&& forall|i: int|
        0 <= i < at.len() ==> 0 <= #[trigger] at[i] < text.len() && same_char(
            text[at[i]],
            pattern[i],
            strict,
        )
    &&& forall|i: int, j: int| 0 <= i < j < at.len() ==> #[trigger] at[i] < #[trigger] at[j]
}

/// The characters of `query` stand in `text` in order, with others between them. Case matters only
/// if the query has an upper-case ASCII letter.
pub open spec fn is_scattered(query: Seq<char>, text: Seq<char>) -> bool {
    exists|at: Seq<int>| #[trigger] stands_at(query, text, has_upper(query), at)
}

/// How well a text matches a query, if it does, as `SkimMatcherV2` scores it.
pub uninterp spec fn fuzzy_score(text: Seq<char>, query: Seq<char>) -> Option<i64>;

/// `FuzzyMatcher::fuzzy_match` of a new `SkimMatcherV2` scores a text. It has a score exactly if
/// the characters of the query stand in it in order; the score itself is only named. The matcher
/// is new for each text, because one that was used keeps numbers that enter its later scores.
#[verifier::external_body]
fn fuzzy_match(text: &str, query: &str) -> (r: Option<i64>)
    requires
        is_scorable(text@.len(), query@.len()),
    ensures
        r == fuzzy_score(text@, query@),
        r is Some == is_scattered(query@, text@),
{
    fuzzy_matcher::skim::SkimMatcherV2::default().fuzzy_match(text, query)
}

/// The text of an event that a query is matched against.
pub open spec fn haystack(ev: FileEvent) -> Seq<char> {
    ev.path@ + seq![' '] + ev.process_name@ + seq![' '] + ev.operation@ + seq![' '] + ev.detail@
}

/// The text of an event that a query is matched against.
pub fn event_haystack(ev: &FileEvent) -> (hay: String)
    ensures
        hay@ == haystack(*ev),
        hay@ == ev.path@ + seq![' '] + ev.process_name@ + seq![' '] + ev.operation@ + seq![' ']
            + ev.detail@,
{
    let mut hay = ev.path.clone();
    hay.push(' ');
    hay.push_str(&ev.process_name);
    hay.push(' ');
    hay.push_str(&ev.operation);
    hay.push(' ');
    hay.push_str(&ev.detail);
    assert(hay@ =~= haystack(*ev));
    hay
}

/// The score of an event. One that is too long to be scored has none.
pub open spec fn event_score(ev: FileEvent, query: Seq<char>) -> Option<i64> {
    if is_scorable(haystack(ev).len(), query.len()) {
        fuzzy_score(haystack(ev), query)
    } else {
        None
    }
}

/// The scores of events, in order.
pub open spec fn event_scores(events: Seq<FileEvent>, query: Seq<char>) -> Seq<Option<i64>> {
    events.map_values(|ev: FileEvent| event_score(ev, query))
}

/// Scores events. An event has a score exactly if its text matches the query and is not too long to
/// be scored.
pub fn score_events(events: &Vec<FileEvent>, query: &str) -> (scores: Vec<Option<i64>>)
    ensures
        scores@ == event_scores(events@, query@),
        forall|i: int|
            0 <= i < events@.len() ==> (#[trigger] scores@[i] is Some <==> is_scattered(
                query@,
                haystack(events@[i]),
            ) && is_scorable(haystack(events@[i]).len(), query@.len())),
        scores@.len() == events@.len(),
        forall|i: int|
            0 <= i < events@.len() && haystack(#[trigger] events@[i]).len() <= 30_000_000
                ==> scores@[i] == fuzzy_score(haystack(events@[i]), query@),
        forall|i: int|
            0 <= i < events@.len() ==> (#[trigger] scores@[i] is Some ==> scores@[i]
                == fuzzy_score(haystack(events@[i]), query@)),
{
    let query_length: usize = query.unicode_len();
    let mut scores: Vec<Option<i64>> = Vec::new();
    let mut i: usize = 0;
    while i < events.len()
        invariant
            i <= events@.len(),
            query_length == query@.len(),
            scores@ == event_scores(events@, query@).take(i as int),
            forall|j: int|
                0 <= j < i ==> (#[trigger] scores@[j] is Some <==> is_scattered(
                    query@,
                    haystack(events@[j]),
                ) && is_scorable(haystack(events@[j]).len(), query@.len())),
        decreases events@.len() - i,
    {
        let hay = event_haystack(&events[i]);
        let length: usize = hay.as_str().unicode_len();
        let score: Option<i64> = if can_score(length, query_length) {
            fuzzy_match(&hay, query)
        } else {
            None
        };
        let ghost before = scores@;
        scores.push(score);
        assert(scores@ =~= before.push(score));
        assert(event_scores(events@, query@).take(i + 1) =~= event_scores(
            events@,
            query@,
        ).take(i as int).push(score));
        i += 1;
    }
    assert(event_scores(events@, query@).take(i as int) =~= event_scores(events@, query@));
    assert forall|i: int| 0 <= i < events@.len() implies #[trigger] scores@[i] == event_score(
        events@[i],
        query@,
    ) by {}
    scores
}

/// Position `i` comes before position `j`: its score is higher, or it is the same and `i` is the
/// first of them.
pub open spec fn comes_before(scores: Seq<Option<i64>>, i: int, j: int) -> bool {
    scores[i]->0 > scores[j]->0 || scores[i]->0 == scores[j]->0 && i < j
}

/// `order` holds the positions that have a score, best first. Equal scores keep their order.
pub open spec fn is_ranking(scores: Seq<Option<i64>>, order: Seq<usize>) -> bool {
    &&& forall|k: int|
        0 <= k < order.len() ==> #[trigger] order[k] < scores.len() && scores[order[k] as int]
            is Some
    &&& forall|i: int|
        0 <= i < scores.len() && #[trigger] scores[i] is Some ==> exists|k: int|
            0 <= k < order.len() && #[trigger] order[k] == i
    &&& forall|k: int, l: int|
        0 <= k < l < order.len() ==> comes_before(
            scores,
            #[trigger] order[k] as int,
            #[trigger] order[l] as int,
        )
}

/// Ranks positions by their scores.
pub fn rank(scores: &Vec<Option<i64>>) -> (order: Vec<usize>)
    ensures
        is_ranking(scores@, order@),
        forall|k: int|
            0 <= k < order@.len() ==> #[trigger] order@[k] < scores@.len() && scores@[order@[
                k
            ] as int] is Some,
        forall|k: int, l: int|
            0 <= k < l < order@.len() ==> scores@[#[trigger] order@[k] as int]->0 >= scores@[
            #[trigger] order@[l] as int]->0,
        forall|k: int, l: int|
            0 <= k < l < order@.len() && scores@[order@[k] as int] == scores@[order@[l] as int]
                ==> #[trigger] order@[k] < #[trigger] order@[l],
        forall|i: int|
            0 <= i < scores@.len() && #[trigger] scores@[i] is Some ==> exists|k: int|
                0 <= k < order@.len() && #[trigger] order@[k] == i,
{
    let mut order: Vec<usize> = Vec::new();
    let mut i: usize = 0;
    while i < scores.len()
        invariant
            i <= scores@.len(),
            is_ranking(scores@.take(i as int), order@),
        decreases scores@.len() - i,
    {
        let ghost done = scores@.take(i as int);
        let ghost more = scores@.take(i + 1);
        assert(more.drop_last() =~= done);
        if let Some(score) = scores[i] {
            let at = place(scores, &order, i, score);
            let ghost before = order@;
            order.insert(at, i);
            proof {
                ranking_grows(done, before, more, at as int, order@);
            }
        } else {
            proof {
                ranking_stays(done, order@, more);
            }
        }
        i += 1;
    }
    assert(scores@.take(i as int) =~= scores@);
    assert forall|k: int, l: int| 0 <= k < l < order@.len() implies comes_before(
        scores@,
        #[trigger] order@[k] as int,
        #[trigger] order@[l] as int,
    ) by {}
    order
}

/// Where a new position with this score goes: behind those whose score is not lower.
fn place(scores: &Vec<Option<i64>>, order: &Vec<usize>, i: usize, score: i64) -> (at: usize)
    requires
        i < scores@.len(),
        is_ranking(scores@.take(i as int), order@),
    ensures
        at <= order@.len(),
        forall|k: int| 0 <= k < at ==> scores@[#[trigger] order@[k] as int]->0 >= score,
        forall|k: int|
            at <= k < order@.len() ==> scores@[#[trigger] order@[k] as int]->0 < score,
{
    let mut at: usize = order.len();
    while at > 0
        invariant
            i < scores@.len(),
            is_ranking(scores@.take(i as int), order@),
            at <= order@.len(),
            forall|k: int|
                at <= k < order@.len() ==> scores@[#[trigger] order@[k] as int]->0 < score,
        decreases at,
    {
        let last: usize = order[at - 1];
        assert(scores@.take(i as int)[last as int] == scores@[last as int]);
        match scores[last] {
            Some(s) => {
                if s >= score {
                    assert forall|k: int| 0 <= k < at implies scores@[#[trigger] order@[
                        k
                    ] as int]->0 >= score by {
                        if k < at - 1 {
                            assert(comes_before(
                                scores@.take(i as int),
                                order@[k] as int,
                                order@[at - 1] as int,
                            ));
                        }
                    }
                    return at;
                }
            },
            None => {},
        }
        at -= 1;
    }
    at
}

/// A ranking with a new last position put in its place is a ranking.
#[verifier::spinoff_prover]
#[verifier::rlimit(40)]
proof fn ranking_grows(
    done: Seq<Option<i64>>,
    order: Seq<usize>,
    more: Seq<Option<i64>>,
    at: int,
    longer: Seq<usize>,
)
    requires
        is_ranking(done, order),
        more.len() == done.len() + 1,
        more.len() <= usize::MAX,
        more.drop_last() == done,
        more.last() is Some,
        0 <= at <= order.len(),
        forall|k: int| 0 <= k < at ==> more[#[trigger] order[k] as int]->0 >= more.last()->0,
        forall|k: int|
            at <= k < order.len() ==> more[#[trigger] order[k] as int]->0 < more.last()->0,
        longer == order.insert(at, done.len() as usize),
    ensures
        is_ranking(more, longer),
{
    let n = done.len() as int;
    assert(forall|i: int| 0 <= i < n ==> #[trigger] more[i] == done[i]);
    assert forall|k: int| 0 <= k < longer.len() implies #[trigger] longer[k] < more.len()
        && more[longer[k] as int] is Some by {
        if k < at {
            assert(longer[k] == order[k]);
        } else if k > at {
            assert(longer[k] == order[k - 1]);
        }
    }
    assert forall|i: int| 0 <= i < more.len() && #[trigger] more[i] is Some implies exists|k: int|
        0 <= k < longer.len() && #[trigger] longer[k] == i by {
        if i == n {
            assert(longer[at] == i);
        } else {
            assert(done[i] is Some);
            let k = choose|k: int| 0 <= k < order.len() && #[trigger] order[k] == i;
            if k < at {
                assert(longer[k] == i);
            } else {
                assert(longer[k + 1] == i);
            }
        }
    }
    assert forall|k: int, l: int| 0 <= k < l < longer.len() implies comes_before(
        more,
        #[trigger] longer[k] as int,
        #[trigger] longer[l] as int,
    ) by {
        let k0 = if k <= at {
            k
        } else {
            k - 1
        };
        let l0 = if l <= at {
            l
        } else {
            l - 1
        };
        if k != at {
            assert(longer[k] == order[k0]);
            assert(order[k0] < done.len());
        }
        if l != at {
            assert(longer[l] == order[l0]);
            assert(order[l0] < done.len());
        }
        if k != at && l != at {
            assert(comes_before(done, order[k0] as int, order[l0] as int));
        }
    }
}

/// A ranking stays one when a position without a score comes.
proof fn ranking_stays(done: Seq<Option<i64>>, order: Seq<usize>, more: Seq<Option<i64>>)
    requires
        is_ranking(done, order),
        more.len() == done.len() + 1,
        more.drop_last() == done,
        more.last() is None,
    ensures
        is_ranking(more, order),
{
    assert(forall|i: int| 0 <= i < done.len() ==> #[trigger] more[i] == done[i]);
    assert forall|i: int| 0 <= i < more.len() && #[trigger] more[i] is Some implies exists|k: int|
        0 <= k < order.len() && #[trigger] order[k] == i by {
        assert(done[i] is Some);
    }
    assert forall|k: int, l: int| 0 <= k < l < order.len() implies comes_before(
        more,
        #[trigger] order[k] as int,
        #[trigger] order[l] as int,
    ) by {
        assert(comes_before(done, order[k] as int, order[l] as int));
    }
}

/// The events at these positions.
pub open spec fn picked(events: Seq<FileEvent>, order: Seq<usize>) -> Seq<FileEvent> {
    order.map_values(|i: usize| events[i as int])
}

/// `rows` are the events that have a score, best first. Equal scores keep their order.
pub open spec fn is_ranked(
    events: Seq<FileEvent>,
    scores: Seq<Option<i64>>,
    rows: Seq<FileEvent>,
) -> bool {
    exists|order: Seq<usize>| #[trigger]
        is_ranking(scores, order) && rows == picked(events, order)
}

/// Ranks events by the scores that they have.
pub fn rank_events(events: Vec<FileEvent>, scores: &Vec<Option<i64>>) -> (rows: Vec<FileEvent>)
    requires
        scores@.len() == events@.len(),
    ensures
        is_ranked(events@, scores@, rows@),
        exists|order: Seq<usize>| #[trigger]
            order.len() == rows@.len() && (forall|k: int|
                0 <= k < rows@.len() ==> (#[trigger] order[k] < events@.len() && scores@[
                order[k] as int] is Some && rows@[k] == events@[order[k] as int])) && (forall|
                k: int,
                l: int,
            |
                0 <= k < l < rows@.len() ==> (scores@[#[trigger] order[k] as int]->0 > scores@[
                #[trigger] order[l] as int]->0 || scores@[order[k] as int] == scores@[
                order[l] as int] && order[k] < order[l])) && (forall|i: int|
                0 <= i < events@.len() && #[trigger] scores@[i] is Some ==> rows@.contains(
                    events@[i],
                )),
{
    let order = rank(scores);
    let mut rows: Vec<FileEvent> = Vec::new();
    let mut k: usize = 0;
    while k < order.len()
        invariant
            k <= order@.len(),
            scores@.len() == events@.len(),
            is_ranking(scores@, order@),
            rows@ == picked(events@, order@).take(k as int),
        decreases order@.len() - k,
    {
        let i: usize = order[k];
        assert(i < scores@.len());
        rows.push(events[i].clone());
        assert(picked(events@, order@).take(k + 1) =~= picked(events@, order@).take(
            k as int,
        ).push(events@[i as int]));
        k += 1;
    }
    assert(picked(events@, order@).take(k as int) =~= picked(events@, order@));
    proof {
        let at = order@;
        assert(at.len() == rows@.len());
        assert forall|k: int, l: int| 0 <= k < l < rows@.len() implies (scores@[
            #[trigger] at[k] as int]->0 > scores@[#[trigger] at[l] as int]->0 || scores@[
        at[k] as int] == scores@[at[l] as int] && at[k] < at[l]) by {
            assert(comes_before(scores@, at[k] as int, at[l] as int));
        }
        assert forall|i: int| 0 <= i < events@.len() && #[trigger] scores@[i] is Some implies
            rows@.contains(events@[i]) by {
            let k = choose|k: int| 0 <= k < at.len() && #[trigger] at[k] == i;
            assert(rows@[k] == events@[i]);
        }
    }
    rows
}

/// Ranks events by how well they match a query, and leaves out those that do not.
pub fn rank_by_query(events: Vec<FileEvent>, query: &str) -> (rows: Vec<FileEvent>)
    ensures
        is_ranked(events@, event_scores(events@, query@), rows@),
        forall|k: int|
            0 <= k < rows@.len() ==> is_scattered(query@, haystack(#[trigger] rows@[k])),
        forall|i: int|
            0 <= i < events@.len() && is_scattered(query@, haystack(#[trigger] events@[i]))
                && is_scorable(haystack(events@[i]).len(), query@.len()) ==> rows@.contains(
                events@[i],
            ),
        forall|k: int|
            0 <= k < rows@.len() ==> events@.contains(#[trigger] rows@[k]) && fuzzy_score(
                haystack(rows@[k]),
                query@,
            ) is Some,
        forall|k: int, l: int|
            0 <= k < l < rows@.len() ==> fuzzy_score(haystack(#[trigger] rows@[k]), query@)->0
                >= fuzzy_score(haystack(#[trigger] rows@[l]), query@)->0,
        forall|i: int|
            0 <= i < events@.len() && haystack(#[trigger] events@[i]).len() <= 30_000_000
                && fuzzy_score(haystack(events@[i]), query@) is Some ==> rows@.contains(events@[i]),
{
    let scores = score_events(&events, query);
    let ghost all = events@;
    let rows = rank_events(events, &scores);
    proof {
        let order = choose|order: Seq<usize>| #[trigger]
            is_ranking(scores@, order) && rows@ == picked(all, order);
        assert forall|k: int| 0 <= k < rows@.len() implies is_scattered(
            query@,
            haystack(#[trigger] rows@[k]),
        ) by {
            assert(order[k] < scores@.len());
            assert(scores@[order[k] as int] is Some);
        }
        assert forall|i: int|
            0 <= i < all.len() && is_scattered(query@, haystack(#[trigger] all[i])) && is_scorable(
                haystack(all[i]).len(),
                query@.len(),
            ) implies rows@.contains(all[i]) by {
            assert(scores@[i] is Some);
            let k = choose|k: int| 0 <= k < order.len() && #[trigger] order[k] == i;
            assert(rows@[k] == all[i]);
        }
        assert forall|k: int| 0 <= k < rows@.len() implies all.contains(#[trigger] rows@[k])
            && scores@[order[k] as int] == fuzzy_score(haystack(rows@[k]), query@) && scores@[
        order[k] as int] is Some by {
            assert(order[k] < scores@.len());
            assert(rows@[k] == all[order[k] as int]);
        }
        assert forall|k: int, l: int| 0 <= k < l < rows@.len() implies fuzzy_score(
            haystack(#[trigger] rows@[k]),
            query@,
        )->0 >= fuzzy_score(haystack(#[trigger] rows@[l]), query@)->0 by {
            assert(comes_before(scores@, order[k] as int, order[l] as int));
            assert(scores@[order[k] as int] == fuzzy_score(haystack(rows@[k]), query@));
            assert(scores@[order[l] as int] == fuzzy_score(haystack(rows@[l]), query@));
        }
        assert forall|i: int|
            0 <= i < all.len() && haystack(#[trigger] all[i]).len() <= 30_000_000 && fuzzy_score(
                haystack(all[i]),
                query@,
            ) is Some implies rows@.contains(all[i]) by {
            assert(scores@[i] is Some);
            let k = choose|k: int| 0 <= k < order.len() && #[trigger] order[k] == i;
            assert(rows@[k] == all[i]);
        }
    }
    rows
}

} // verus!
