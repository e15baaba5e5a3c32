//! Laws of the filters: what their lists decide, stated keyword by keyword.

use vstd::prelude::*;

use crate::filter::{
    accepts, any_accepts, compiled, compiled_all, filter_debug, is_skipped, list_debug,
    lists_allow, quoted, skipped_of, texts,
};
use crate::glob::{
    few_braces_are_left_alone, four_characters_make_a_glob, glob_accepts, glob_compiles, slashed,
};
use crate::text::{lowercase, trim_text};
use crate::text_laws::found_is_contained;

verus! {

/// `keyword` looks for `value`.
pub open spec fn keyword_accepts(keyword: Seq<char>, value: Seq<char>) -> bool {
    compiled(keyword) matches Some(m) && accepts(m, value)
}

/// A list looks for a value exactly if one of its keywords does, wherever in the list it stands,
/// and a list looks for nothing exactly if none of its keywords looks for anything.
pub proof fn list_is_its_keywords(keywords: Seq<Seq<char>>, value: Seq<char>)
    ensures
        any_accepts(compiled_all(keywords), value) <==> exists|i: int|
            0 <= i < keywords.len() && keyword_accepts(#[trigger] keywords[i], value),
        compiled_all(keywords).len() == 0 <==> forall|i: int|
            0 <= i < keywords.len() ==> compiled(#[trigger] keywords[i]) is None,
    decreases keywords.len(),
{
    if keywords.len() > 0 {
        let rest = keywords.drop_last();
        let ms = compiled_all(rest);
        list_is_its_keywords(rest, value);
        assert(forall|i: int| 0 <= i < rest.len() ==> #[trigger] rest[i] == keywords[i]);
        assert(keywords[keywords.len() - 1] == keywords.last());
        if compiled(keywords.last()) is Some {
            let m = compiled(keywords.last())->0;
            assert(forall|i: int| 0 <= i < ms.len() ==> #[trigger] ms.push(m)[i] == ms[i]);
            assert(ms.push(m)[ms.len() as int] == m);
        }
        if any_accepts(ms, value) {
            let i = choose|i: int|
                0 <= i < rest.len() && keyword_accepts(#[trigger] rest[i], value);
            assert(keyword_accepts(keywords[i], value));
            let j = choose|j: int| 0 <= j < ms.len() && accepts(#[trigger] ms[j], value);
            assert(accepts(compiled_all(keywords)[j], value));
        }
        if exists|i: int|
            0 <= i < keywords.len() && keyword_accepts(#[trigger] keywords[i], value) {
            let i = choose|i: int|
                0 <= i < keywords.len() && keyword_accepts(#[trigger] keywords[i], value);
            if i < rest.len() {
                assert(keyword_accepts(rest[i], value));
            }
        }
        if forall|i: int| 0 <= i < keywords.len() ==> compiled(#[trigger] keywords[i]) is None {
            assert forall|i: int| 0 <= i < rest.len() implies compiled(
                #[trigger] rest[i],
            ) is None by {
                assert(compiled(keywords[i]) is None);
            }
            assert(compiled(keywords[keywords.len() - 1]) is None);
        }
        if compiled_all(keywords).len() == 0 {
            assert forall|i: int| 0 <= i < keywords.len() implies compiled(
                #[trigger] keywords[i],
            ) is None by {
                if i < rest.len() {
                    assert(compiled(rest[i]) is None);
                }
            }
        }
    }
}

/// The keywords of a list are its texts, each in full, and in order.
pub proof fn keywords_are_taken_in_full(list: Seq<String>)
    ensures
        texts(list).len() == list.len(),
        forall|i: int| 0 <= i < list.len() ==> #[trigger] texts(list)[i] == list[i]@,
{
}

/// The two lists of a filter are asked by themselves: a value goes through exactly if it goes
/// through the whitelist without a blacklist and through the blacklist without a whitelist.
pub proof fn lists_decide_by_themselves(
    white: Seq<Seq<char>>,
    black: Seq<Seq<char>>,
    value: Seq<char>,
)
    ensures
        lists_allow(white, black, value) <==> lists_allow(white, Seq::empty(), value)
            && lists_allow(Seq::empty(), black, value),
{
}

/// A blacklist lets a value through exactly if each of its keywords would by itself.
pub proof fn blacklist_is_its_keywords(black: Seq<Seq<char>>, value: Seq<char>)
    ensures
        lists_allow(Seq::empty(), black, value) <==> forall|j: int|
            0 <= j < black.len() ==> lists_allow(
                Seq::empty(),
                #[trigger] seq![black[j]],
                value,
            ),
{
    list_is_its_keywords(black, value);
    assert forall|j: int| 0 <= j < black.len() implies (keyword_accepts(#[trigger] black[j], value)
        <==> !lists_allow(Seq::empty(), seq![black[j]], value)) by {
        one_keyword_list(black[j], value);
    }
    if forall|j: int|
        0 <= j < black.len() ==> lists_allow(Seq::empty(), #[trigger] seq![black[j]], value) {
        assert forall|j: int| 0 <= j < black.len() implies !keyword_accepts(
            #[trigger] black[j],
            value,
        ) by {
            assert(lists_allow(Seq::empty(), seq![black[j]], value));
        }
    }
}

/// A whitelist lets a value through exactly if one of its keywords would by itself, leaving aside
/// those that look for nothing; if all look for nothing, it lets every value through.
pub proof fn whitelist_is_its_keywords(white: Seq<Seq<char>>, value: Seq<char>)
    ensures
        lists_allow(white, Seq::empty(), value) <==> (forall|i: int|
            0 <= i < white.len() ==> compiled(#[trigger] white[i]) is None) || exists|i: int|
            0 <= i < white.len() && compiled(#[trigger] white[i]) is Some && lists_allow(
                seq![white[i]],
                Seq::empty(),
                value,
            ),
{
    list_is_its_keywords(white, value);
    assert forall|i: int| 0 <= i < white.len() && compiled(#[trigger] white[i]) is Some implies (
    keyword_accepts(white[i], value) <==> lists_allow(seq![white[i]], Seq::empty(), value)) by {
        one_keyword_list(white[i], value);
    }
    if any_accepts(compiled_all(white), value) {
        let i = choose|i: int| 0 <= i < white.len() && keyword_accepts(#[trigger] white[i], value);
        assert(compiled(white[i]) is Some);
    }
    if exists|i: int|
        0 <= i < white.len() && compiled(#[trigger] white[i]) is Some && lists_allow(
            seq![white[i]],
            Seq::empty(),
            value,
        ) {
        let i = choose|i: int|
            0 <= i < white.len() && compiled(#[trigger] white[i]) is Some && lists_allow(
                seq![white[i]],
                Seq::empty(),
                value,
            );
        assert(keyword_accepts(white[i], value));
    }
}

/// What a list of one keyword decides.
proof fn one_keyword_list(keyword: Seq<char>, value: Seq<char>)
    ensures
        lists_allow(Seq::empty(), seq![keyword], value) <==> !keyword_accepts(keyword, value),
        compiled(keyword) is Some ==> (lists_allow(seq![keyword], Seq::empty(), value)
            <==> keyword_accepts(keyword, value)),
        compiled(keyword) is None ==> lists_allow(seq![keyword], Seq::empty(), value),
{
    let list = seq![keyword];
    list_is_its_keywords(list, value);
    assert(list[0] == keyword);
    if keyword_accepts(keyword, value) {
        assert(keyword_accepts(list[0], value));
    }
}

/// A keyword that is blank looks for nothing, on either list.
pub proof fn blank_keyword_decides_nothing(keyword: Seq<char>, value: Seq<char>)
    requires
        trim_text(keyword).len() == 0,
    ensures
        compiled(keyword) is None,
        lists_allow(seq![keyword], Seq::empty(), value),
        lists_allow(Seq::empty(), seq![keyword], value),
{
    one_keyword_list(keyword, value);
}

/// A keyword without one of the four characters of globs is a word: a value is on the list exactly
/// if the word, in lower case, is a part of the value in lower case, wherever it stands and
/// whatever other characters the value has.
pub proof fn word_is_found_in_every_value(keyword: Seq<char>, value: Seq<char>)
    requires
        trim_text(keyword).len() > 0,
        !trim_text(keyword).contains('*'),
        !trim_text(keyword).contains('?'),
        !trim_text(keyword).contains('['),
        !trim_text(keyword).contains('{'),
    ensures
        compiled(keyword) is Some,
        lists_allow(seq![keyword], Seq::empty(), value) <==> exists|
            before: Seq<char>,
            behind: Seq<char>,
        |
            lowercase(value) == #[trigger] (before + lowercase(trim_text(keyword)) + behind),
        lists_allow(Seq::empty(), seq![keyword], value) <==> !exists|
            before: Seq<char>,
            behind: Seq<char>,
        |
            lowercase(value) == #[trigger] (before + lowercase(trim_text(keyword)) + behind),
{
    four_characters_make_a_glob(trim_text(keyword));
    one_keyword_list(keyword, value);
    found_is_contained(lowercase(value), lowercase(trim_text(keyword)));
}

/// A word that is found in a value is found in any longer one, whatever is put before and behind
/// it, as long as that does not change the lower-case form of the value itself.
pub proof fn word_is_found_in_longer_values(
    keyword: Seq<char>,
    value: Seq<char>,
    longer: Seq<char>,
    before: Seq<char>,
    behind: Seq<char>,
)
    requires
        trim_text(keyword).len() > 0,
        !trim_text(keyword).contains('*'),
        !trim_text(keyword).contains('?'),
        !trim_text(keyword).contains('['),
        !trim_text(keyword).contains('{'),
        lowercase(longer) == before + lowercase(value) + behind,
        lists_allow(seq![keyword], Seq::empty(), value),
    ensures
        lists_allow(seq![keyword], Seq::empty(), longer),
        !lists_allow(Seq::empty(), seq![keyword], longer),
{
    word_is_found_in_every_value(keyword, value);
    word_is_found_in_every_value(keyword, longer);
    let word = lowercase(trim_text(keyword));
    let (a, b) = choose|a: Seq<char>, b: Seq<char>| lowercase(value) == #[trigger] (a + word + b);
    assert(lowercase(longer) =~= (before + a) + word + (b + behind));
}

/// A keyword with one of the four characters of globs is a pattern, with slashes for its
/// backslashes. If `globset` takes it, a value is on the list exactly if the pattern matches the
/// whole of it, with slashes for its backslashes too, and without regard to case; if not, it looks
/// for nothing. Patterns with more than 250 opening braces are left out here.
pub proof fn glob_is_matched_by_globset(keyword: Seq<char>, value: Seq<char>)
    requires
        trim_text(keyword).contains('*') || trim_text(keyword).contains('?') || trim_text(
            keyword,
        ).contains('[') || trim_text(keyword).contains('{'),
        slashed(trim_text(keyword)).filter(|c: char| c == '{').len() <= 250,
    ensures
        compiled(keyword) is Some <==> glob_compiles(slashed(trim_text(keyword)), true, true),
        compiled(keyword) is Some ==> (lists_allow(seq![keyword], Seq::empty(), value)
            <==> glob_accepts(slashed(trim_text(keyword)), true, true, slashed(value))),
        compiled(keyword) is Some ==> (lists_allow(Seq::empty(), seq![keyword], value)
            <==> !glob_accepts(slashed(trim_text(keyword)), true, true, slashed(value))),
        is_skipped(keyword) <==> !glob_compiles(slashed(trim_text(keyword)), true, true),
{
    four_characters_make_a_glob(trim_text(keyword));
    few_braces_are_left_alone(slashed(trim_text(keyword)));
    one_keyword_list(keyword, value);
}

/// The keywords that are reported are those that are not blank and look for nothing, in order.
pub proof fn skipped_keywords_are_told(keywords: Seq<Seq<char>>, keyword: Seq<char>)
    ensures
        skipped_of(Seq::empty()).len() == 0,
        trim_text(keyword).len() > 0 && compiled(keyword) is None ==> skipped_of(
            keywords.push(keyword),
        ) == skipped_of(keywords).push(keyword),
        trim_text(keyword).len() == 0 || compiled(keyword) is Some ==> skipped_of(
            keywords.push(keyword),
        ) == skipped_of(keywords),
{
    reveal(Seq::filter);
    assert(keywords.push(keyword).drop_last() =~= keywords);
}

/// The debug form of a list has its texts in quotes, with commas between them and brackets around
/// them.
pub proof fn debug_form_has_all_keywords(list: Seq<Seq<char>>, item: Seq<char>)
    ensures
        list_debug(Seq::empty()) == seq!['[', ']'],
        list_debug(seq![item]) == seq!['['] + quoted(item) + seq![']'],
        list.len() > 0 ==> list_debug(list.push(item)) == list_debug(list).drop_last() + seq![
            ',',
            ' ',
        ] + quoted(item) + seq![']'],
{
    assert(list_debug(Seq::empty()) =~= seq!['[', ']']);
    assert(list.push(item).drop_last() =~= list);
    if list.len() > 0 {
        assert(list_debug(list.push(item)) =~= list_debug(list).drop_last() + seq![',', ' ']
            + quoted(item) + seq![']']);
    }
}

/// The debug form of a filter is its name and its lists.
pub proof fn debug_form_has_both_lists(
    name: Seq<char>,
    white: Seq<Seq<char>>,
    black: Seq<Seq<char>>,
)
    ensures
        filter_debug(name, white, black) == name + " { whitelist: "@ + list_debug(white)
            + ", blacklist: "@ + list_debug(black) + " }"@,
{
}

/// A filter without keywords lets every value through.
pub proof fn empty_filter_allows_all(value: Seq<char>)
    ensures
        lists_allow(Seq::empty(), Seq::empty(), value),
{
}

/// A value that a keyword of the blacklist looks for is left out, whatever the whitelist says.
pub proof fn blacklist_wins(
    white: Seq<Seq<char>>,
    black: Seq<Seq<char>>,
    i: int,
    value: Seq<char>,
)
    requires
        0 <= i < black.len(),
        keyword_accepts(black[i], value),
    ensures
        !lists_allow(white, black, value),
{
    list_is_its_keywords(black, value);
}

/// Where some keyword of the whitelist looks for something, only values that a keyword of it
/// looks for are let through.
pub proof fn whitelist_is_required(
    white: Seq<Seq<char>>,
    black: Seq<Seq<char>>,
    i: int,
    value: Seq<char>,
)
    requires
        0 <= i < white.len(),
        compiled(white[i]) is Some,
        lists_allow(white, black, value),
    ensures
        exists|j: int| 0 <= j < white.len() && keyword_accepts(#[trigger] white[j], value),
{
    list_is_its_keywords(white, value);
}

/// A keyword that looks for nothing, blank or a glob pattern that does not compile, is as good as
/// absent, wherever in a list it stands.
pub proof fn skipped_keyword_is_absent(
    before: Seq<Seq<char>>,
    keyword: Seq<char>,
    after: Seq<Seq<char>>,
    other: Seq<Seq<char>>,
    value: Seq<char>,
)
    requires
        compiled(keyword) is None,
    ensures
        lists_allow(before + seq![keyword] + after, other, value) == lists_allow(
            before + after,
            other,
            value,
        ),
        lists_allow(other, before + seq![keyword] + after, value) == lists_allow(
            other,
            before + after,
            value,
        ),
{
    skipped_keyword_adds_nothing(before, keyword, after);
}

/// A keyword that looks for nothing adds nothing to what a list looks for.
proof fn skipped_keyword_adds_nothing(
    before: Seq<Seq<char>>,
    keyword: Seq<char>,
    after: Seq<Seq<char>>,
)
    requires
        compiled(keyword) is None,
    ensures
        compiled_all(before + seq![keyword] + after) == compiled_all(before + after),
    decreases after.len(),
{
    let with = before + seq![keyword] + after;
    let without = before + after;
    if after.len() == 0 {
        assert(with.drop_last() =~= before);
        assert(without =~= before);
    } else {
        skipped_keyword_adds_nothing(before, keyword, after.drop_last());
        assert(with.drop_last() =~= before + seq![keyword] + after.drop_last());
        assert(without.drop_last() =~= before + after.drop_last());
    }
}

/// One more keyword on the blacklist lets nothing new through.
pub proof fn longer_blacklist_allows_less(
    white: Seq<Seq<char>>,
    black: Seq<Seq<char>>,
    keyword: Seq<char>,
    value: Seq<char>,
)
    requires
        lists_allow(white, black.push(keyword), value),
    ensures
        lists_allow(white, black, value),
{
    let longer = black.push(keyword);
    list_is_its_keywords(black, value);
    list_is_its_keywords(longer, value);
    assert forall|i: int| 0 <= i < black.len() implies !keyword_accepts(
        #[trigger] black[i],
        value,
    ) by {
        assert(longer[i] == black[i]);
    }
}

/// One more keyword on a whitelist that looks for something leaves nothing new out.
pub proof fn longer_whitelist_allows_more(
    white: Seq<Seq<char>>,
    black: Seq<Seq<char>>,
    keyword: Seq<char>,
    value: Seq<char>,
)
    requires
        compiled_all(white).len() > 0,
        lists_allow(white, black, value),
    ensures
        lists_allow(white.push(keyword), black, value),
{
    let longer = white.push(keyword);
    list_is_its_keywords(white, value);
    list_is_its_keywords(longer, value);
    let i = choose|i: int| 0 <= i < white.len() && keyword_accepts(#[trigger] white[i], value);
    assert(longer[i] == white[i]);
}

} // verus!
