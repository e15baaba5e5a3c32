//! Laws of the answers of the store: a search answers with a part of all rows, in the order of
//! all, and a limit cuts an answer short.

use vstd::prelude::*;

use crate::like::{
    c_text, c_text_keeps, contains_folded, escaped_has_no_nul, fold, folded_at, like,
    search_is_substring, search_pattern,
};
use crate::sqlite::{matching_paths, row_matches};
use crate::table::{are_sound, distinct_activity, is_listed, is_listing, Listed, Rows};
use crate::table_laws::{listing_is_complete, listing_is_determined};

verus! {

/// The empty keyword matches every row.
pub proof fn empty_keyword_matches_all(rows: Rows)
    ensures
        matching_paths(rows, search_pattern(Seq::empty())) == rows.dom(),
{
    let pattern = search_pattern(Seq::empty());
    reveal_with_fuel(c_text, 4);
    assert(pattern =~= seq!['%', '%']);
    assert(pattern.skip(1) =~= seq!['%']);
    assert(seq!['%'].skip(1) =~= Seq::empty());
    assert(c_text(pattern) =~= pattern);
    assert forall|p: Seq<char>| rows.dom().contains(p) implies #[trigger] row_matches(
        pattern,
        p,
        rows[p],
    ) by {
        let text = c_text(p);
        search_is_substring(Seq::empty(), text);
        assert(folded_at(text, Seq::empty(), 0));
        assert(contains_folded(text, Seq::empty()));
        assert(like(pattern, text));
    }
    assert(matching_paths(rows, pattern) =~= rows.dom());
}

/// Characters count as the same in a search if they are, or if they are the same ASCII letter in
/// different case; the replacement character and the two noncharacters at the end of the basic
/// plane count as the same too.
pub proof fn search_disregards_ascii_case(a: char, b: char)
    ensures
        fold(a) == fold(b) <==> {
            ||| a == b
            ||| 65 <= a as u32 <= 90 && b as u32 == a as u32 + 32
            ||| 65 <= b as u32 <= 90 && a as u32 == b as u32 + 32
            ||| 0xFFFD <= a as u32 <= 0xFFFF && 0xFFFD <= b as u32 <= 0xFFFF
        },
{
}

/// A keyword stands in a text, for the search, exactly if the text is something, a part that is the
/// keyword up to characters that count as the same, and something, wherever that part is.
pub proof fn keyword_stands_anywhere(text: Seq<char>, keyword: Seq<char>)
    ensures
        contains_folded(text, keyword) <==> exists|
            before: Seq<char>,
            part: Seq<char>,
            behind: Seq<char>,
        |
            text == #[trigger] (before + part + behind) && part.len() == keyword.len() && forall|
                j: int,
            |
                0 <= j < keyword.len() ==> fold(#[trigger] part[j]) == fold(keyword[j]),
{
    if contains_folded(text, keyword) {
        let at = choose|at: int| #[trigger] folded_at(text, keyword, at);
        let part = text.subrange(at, at + keyword.len());
        assert forall|j: int| 0 <= j < keyword.len() implies fold(#[trigger] part[j]) == fold(
            keyword[j],
        ) by {
            assert(part[j] == text[at + j]);
        }
        assert(text =~= text.take(at) + part + text.skip(at + keyword.len()));
    }
    if exists|before: Seq<char>, part: Seq<char>, behind: Seq<char>|
        text == #[trigger] (before + part + behind) && part.len() == keyword.len() && forall|
            j: int,
        |
            0 <= j < keyword.len() ==> fold(#[trigger] part[j]) == fold(keyword[j]) {
        let (before, part, behind) = choose|
            before: Seq<char>,
            part: Seq<char>,
            behind: Seq<char>,
        |
            text == #[trigger] (before + part + behind) && part.len() == keyword.len() && forall|
                j: int,
            |
                0 <= j < keyword.len() ==> fold(#[trigger] part[j]) == fold(keyword[j]);
        let at = before.len() as int;
        assert forall|j: int| 0 <= j < keyword.len() implies fold(#[trigger] text[at + j]) == fold(
            keyword[j],
        ) by {
            assert(text[at + j] == part[j]);
        }
        assert(folded_at(text, keyword, at));
    }
}

/// A search finds a row exactly if the keyword stands in its path, its process name, its operation
/// or its detail, up to the case of ASCII letters, whatever characters the keyword has and however
/// long it is. SQLite sees a text up to its first NUL, so there must be none.
pub proof fn search_finds_what_contains_the_keyword(
    rows: Rows,
    keyword: Seq<char>,
    path: Seq<char>,
)
    requires
        !keyword.contains('\0'),
        !path.contains('\0'),
        !rows[path].process_name.contains('\0'),
        !rows[path].operation.contains('\0'),
        !rows[path].detail.contains('\0'),
    ensures
        matching_paths(rows, search_pattern(keyword)).contains(path) <==> rows.contains_key(path)
            && (contains_folded(path, keyword) || contains_folded(rows[path].process_name, keyword)
            || contains_folded(rows[path].operation, keyword) || contains_folded(
            rows[path].detail,
            keyword,
        )),
{
    let pattern = search_pattern(keyword);
    let row = rows[path];
    escaped_has_no_nul(keyword);
    assert(!pattern.contains('\0'));
    c_text_keeps(pattern);
    c_text_keeps(path);
    c_text_keeps(row.process_name);
    c_text_keeps(row.operation);
    c_text_keeps(row.detail);
    search_is_substring(keyword, path);
    search_is_substring(keyword, row.process_name);
    search_is_substring(keyword, row.operation);
    search_is_substring(keyword, row.detail);
}

/// A search for the empty keyword answers as the list of the latest rows does, while no two rows
/// have the same activity number.
pub proof fn empty_search_is_recent(
    rows: Rows,
    limit: int,
    found: Seq<Listed>,
    recent: Seq<Listed>,
)
    requires
        rows.dom().finite(),
        distinct_activity(rows),
        is_listing(rows, matching_paths(rows, search_pattern(Seq::empty())), limit, found),
        is_listing(rows, rows.dom(), limit, recent),
    ensures
        found == recent,
{
    empty_keyword_matches_all(rows);
    listing_is_determined(rows, rows.dom(), limit, found, recent);
}

/// A listing without a limit is the listing of all rows without those that are not wanted, while
/// no two rows have the same activity number. So an answer to a search is a part of the list of
/// the latest rows, in the same order.
pub proof fn search_is_part_of_recent(
    rows: Rows,
    wanted: Set<Seq<char>>,
    found: Seq<Listed>,
    recent: Seq<Listed>,
)
    requires
        rows.dom().finite(),
        distinct_activity(rows),
        wanted.subset_of(rows.dom()),
        is_listing(rows, wanted, -1, found),
        is_listing(rows, rows.dom(), -1, recent),
    ensures
        found == recent.filter(|line: Listed| wanted.contains(line.path)),
{
    vstd::set_lib::lemma_set_subset_finite(rows.dom(), wanted);
    let is_wanted = |line: Listed| wanted.contains(line.path);
    let part = recent.filter(is_wanted);
    listing_is_strict(rows, wanted, found);
    listing_is_strict(rows, rows.dom(), recent);
    filter_keeps_order(recent, is_wanted);
    assert forall|line: Listed| found.contains(line) <==> part.contains(line) by {
        if found.contains(line) {
            let i = choose|i: int| 0 <= i < found.len() && found[i] == line;
            assert(rows.dom().contains(found[i].path));
            listing_is_complete(rows, rows.dom(), -1, recent, line.path);
            assert(is_listed(recent, line.path));
            let j = choose|j: int| 0 <= j < recent.len() && (#[trigger] recent[j]).path
                == line.path;
            assert(recent[j] == line);
        }
        if part.contains(line) {
            assert(is_wanted(line) && recent.contains(line));
            let j = choose|j: int| 0 <= j < recent.len() && recent[j] == line;
            assert(recent[j].row == rows[line.path]);
            listing_is_complete(rows, wanted, -1, found, line.path);
            assert(is_listed(found, line.path));
            let i = choose|i: int| 0 <= i < found.len() && (#[trigger] found[i]).path
                == line.path;
            assert(found[i] == line);
        }
    }
    strict_orders_agree(found, part);
}

/// A limit cuts a listing short and changes nothing else, while no two rows have the same activity
/// number.
pub proof fn limit_cuts_a_listing(
    rows: Rows,
    wanted: Set<Seq<char>>,
    limit: int,
    all: Seq<Listed>,
    some: Seq<Listed>,
)
    requires
        rows.dom().finite(),
        distinct_activity(rows),
        wanted.subset_of(rows.dom()),
        0 <= limit,
        is_listing(rows, wanted, -1, all),
        is_listing(rows, wanted, limit, some),
    ensures
        some == all.take(
            if limit <= all.len() {
                limit
            } else {
                all.len() as int
            },
        ),
{
    vstd::set_lib::lemma_set_subset_finite(rows.dom(), wanted);
    let k = if limit <= all.len() {
        limit
    } else {
        all.len() as int
    };
    let start = all.take(k);
    assert(is_listing(rows, wanted, limit, start)) by {
        assert forall|i: int, p: Seq<char>|
            #![trigger start[i], wanted.contains(p)]
            0 <= i < start.len() && wanted.contains(p) && !is_listed(start, p) implies rows[
            p].last_activity <= start[i].row.last_activity by {
            listing_is_complete(rows, wanted, -1, all, p);
            assert(is_listed(all, p));
            let j = choose|j: int| 0 <= j < all.len() && (#[trigger] all[j]).path == p;
            if j < k {
                assert(start[j].path == p);
            }
            assert(start[i] == all[i]);
        }
        assert forall|i: int, j: int| 0 <= i < j < start.len() implies (#[trigger] start[i]).path
            != (#[trigger] start[j]).path && start[i].row.last_activity
            >= start[j].row.last_activity by {
            assert(start[i] == all[i] && start[j] == all[j]);
        }
        assert forall|i: int| 0 <= i < start.len() implies wanted.contains(
            (#[trigger] start[i]).path,
        ) && start[i].row == rows[start[i].path] by {
            assert(start[i] == all[i]);
        }
    }
    listing_is_determined(rows, wanted, limit, some, start);
}

/// The lines of a listing of sound rows, as a store has them in every state that it can reach: no
/// two have the same path, number or activity number, and each has a count and an activity number
/// of at least 1.
pub proof fn listing_of_sound_rows(
    rows: Rows,
    wanted: Set<Seq<char>>,
    limit: int,
    lines: Seq<Listed>,
)
    requires
        are_sound(rows),
        wanted.subset_of(rows.dom()),
        is_listing(rows, wanted, limit, lines),
    ensures
        forall|i: int|
            0 <= i < lines.len() ==> (#[trigger] lines[i]).row.count >= 1
                && lines[i].row.last_activity >= 1,
        forall|i: int, j: int|
            0 <= i < j < lines.len() ==> (#[trigger] lines[i]).path != (#[trigger] lines[j]).path
                && lines[i].row.seq != lines[j].row.seq && lines[i].row.last_activity
                > lines[j].row.last_activity,
{
    assert forall|i: int| 0 <= i < lines.len() implies rows.contains_key(
        (#[trigger] lines[i]).path,
    ) && lines[i].row == rows[lines[i].path] by {
        assert(wanted.contains(lines[i].path));
    }
}

/// The lines are in the order of their activity, latest first, and no two are equally late.
spec fn is_strict(lines: Seq<Listed>) -> bool {
    forall|i: int, j: int|
        0 <= i < j < lines.len() ==> (#[trigger] lines[i]).row.last_activity > (
        #[trigger] lines[j]).row.last_activity
}

proof fn listing_is_strict(rows: Rows, wanted: Set<Seq<char>>, lines: Seq<Listed>)
    requires
        distinct_activity(rows),
        wanted.subset_of(rows.dom()),
        is_listing(rows, wanted, -1, lines),
    ensures
        is_strict(lines),
{
    assert forall|i: int, j: int| 0 <= i < j < lines.len() implies (
    #[trigger] lines[i]).row.last_activity > (#[trigger] lines[j]).row.last_activity by {
        assert(wanted.contains(lines[i].path) && wanted.contains(lines[j].path));
        assert(rows.contains_key(lines[i].path) && rows.contains_key(lines[j].path));
    }
}

/// Leaving lines out keeps the order of the others.
proof fn filter_keeps_order(lines: Seq<Listed>, pred: spec_fn(Listed) -> bool)
    requires
        is_strict(lines),
    ensures
        is_strict(lines.filter(pred)),
        forall|line: Listed| #[trigger]
            lines.filter(pred).contains(line) <==> lines.contains(line) && pred(line),
    decreases lines.len(),
{
    reveal(Seq::filter);
    if lines.len() > 0 {
        let rest = lines.drop_last();
        let last = lines.last();
        assert forall|i: int, j: int| 0 <= i < j < rest.len() implies (
        #[trigger] rest[i]).row.last_activity > (#[trigger] rest[j]).row.last_activity by {
            assert(rest[i] == lines[i] && rest[j] == lines[j]);
        }
        filter_keeps_order(rest, pred);
        let part = rest.filter(pred);
        assert forall|line: Listed| lines.contains(line) <==> rest.contains(line) || line
            == last by {
            if lines.contains(line) {
                let i = choose|i: int| 0 <= i < lines.len() && lines[i] == line;
                if i < rest.len() {
                    assert(rest[i] == line);
                }
            }
            if rest.contains(line) {
                let i = choose|i: int| 0 <= i < rest.len() && rest[i] == line;
                assert(lines[i] == line);
            }
            assert(lines[lines.len() - 1] == last);
        }
        if pred(last) {
            let longer = part.push(last);
            assert forall|line: Listed| longer.contains(line) <==> part.contains(line) || line
                == last by {
                if part.contains(line) {
                    let i = choose|i: int| 0 <= i < part.len() && part[i] == line;
                    assert(longer[i] == line);
                }
                assert(longer[part.len() as int] == last);
            }
            assert forall|i: int| 0 <= i < part.len() implies (
            #[trigger] part[i]).row.last_activity > last.row.last_activity by {
                assert(part.contains(part[i]));
                assert(rest.contains(part[i]));
                let k = choose|k: int| 0 <= k < rest.len() && rest[k] == part[i];
                assert(lines[k].row.last_activity > lines[lines.len() - 1].row.last_activity);
            }
        }
    }
}

/// Two strictly ordered sequences of the same lines are the same.
proof fn strict_orders_agree(a: Seq<Listed>, b: Seq<Listed>)
    requires
        is_strict(a),
        is_strict(b),
        forall|line: Listed| a.contains(line) <==> b.contains(line),
    ensures
        a == b,
    decreases a.len(),
{
    if a.len() == 0 {
        if b.len() > 0 {
            assert(b.contains(b[0]));
            assert(a.contains(b[0]));
        }
        assert(a =~= b);
    } else {
        assert(a.contains(a.last()));
        assert(b.contains(a.last()));
        let j = choose|j: int| 0 <= j < b.len() && b[j] == a.last();
        assert(b.contains(b.last()));
        assert(a.contains(b.last()));
        let i = choose|i: int| 0 <= i < a.len() && a[i] == b.last();
        assert(a.last() == b.last()) by {
            if j < b.len() - 1 && i < a.len() - 1 {
                assert(b[j].row.last_activity > b[b.len() - 1].row.last_activity);
                assert(a[i].row.last_activity > a[a.len() - 1].row.last_activity);
            }
        }
        let x = a.drop_last();
        let y = b.drop_last();
        rest_is_strict(a);
        rest_is_strict(b);
        assert forall|line: Listed| x.contains(line) <==> y.contains(line) by {
            assert(x.contains(line) <==> a.contains(line) && line != a.last());
            assert(y.contains(line) <==> b.contains(line) && line != b.last());
        }
        strict_orders_agree(x, y);
        assert(a =~= x.push(a.last()));
        assert(b =~= y.push(b.last()));
    }
}

/// All lines but the last.
proof fn rest_is_strict(a: Seq<Listed>)
    requires
        is_strict(a),
        a.len() > 0,
    ensures
        is_strict(a.drop_last()),
        forall|line: Listed| #[trigger]
            a.drop_last().contains(line) <==> a.contains(line) && line != a.last(),
{
    let x = a.drop_last();
    assert forall|i: int, j: int| 0 <= i < j < x.len() implies (#[trigger] x[i]).row.last_activity
        > (#[trigger] x[j]).row.last_activity by {
        assert(x[i] == a[i] && x[j] == a[j]);
    }
    assert forall|line: Listed| #[trigger] x.contains(line) <==> a.contains(line) && line
        != a.last() by {
        if x.contains(line) {
            let i = choose|i: int| 0 <= i < x.len() && x[i] == line;
            assert(a[i] == line);
            assert(a[i].row.last_activity > a[a.len() - 1].row.last_activity);
        }
        if a.contains(line) && line != a.last() {
            let i = choose|i: int| 0 <= i < a.len() && a[i] == line;
            assert(x[i] == line);
        }
    }
}

} // verus!
