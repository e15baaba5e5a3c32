//! The `LIKE` operator with `\` as its escape character, and the patterns of a keyword search.

use vstd::prelude::*;

use crate::text::to_chars;

verus! {

/// The form in which `LIKE` compares a character: upper-case ASCII letters count as lower-case,
/// and the two noncharacters at the end of the basic plane as the replacement character.
pub open spec fn fold(c: char) -> char {
    if 'A' <= c <= 'Z' {
        ((c as u32) + 32) as char
    } else if c == '\u{FFFE}' || c == '\u{FFFF}' {
        '\u{FFFD}'
    } else {
        c
    }
}

/// What `LIKE` sees of a text: the part before its first NUL.
pub open spec fn c_text(s: Seq<char>) -> Seq<char>
    decreases s.len(),
{
    if s.len() == 0 || s[0] == '\0' {
        Seq::empty()
    } else {
        seq![s[0]] + c_text(s.skip(1))
    }
}

/// Whether `text` matches `pattern`: `%` stands for any text, `_` for any one character, `\` takes
/// the character behind it literally, and letters match in either case.
pub open spec fn like(pattern: Seq<char>, text: Seq<char>) -> bool
    decreases pattern.len(), text.len(),
{
    if pattern.len() == 0 {
        text.len() == 0
    } else if pattern[0] == '%' {
        like(pattern.skip(1), text) || (text.len() > 0 && like(pattern, text.skip(1)))
    } else if pattern[0] == '\\' {
        pattern.len() >= 2 && text.len() > 0 && fold(pattern[1]) == fold(text[0]) && like(
            pattern.skip(2),
            text.skip(1),
        )
    } else {
        text.len() > 0 && (pattern[0] == '_' || fold(pattern[0]) == fold(text[0])) && like(
            pattern.skip(1),
            text.skip(1),
        )
    }
}

/// `c` would not stand for itself in a pattern.
pub open spec fn is_special(c: char) -> bool {
    c == '%' || c == '_' || c == '\\'
}

/// `keyword` with a `\` put before each `%`, `_` and `\`.
pub open spec fn escaped(keyword: Seq<char>) -> Seq<char>
    decreases keyword.len(),
{
    if keyword.len() == 0 {
        Seq::empty()
    } else {
        let c = keyword.last();
        if is_special(c) {
            escaped(keyword.drop_last()).push('\\').push(c)
        } else {
            escaped(keyword.drop_last()).push(c)
        }
    }
}

/// The pattern of a search for `keyword`.
pub open spec fn search_pattern(keyword: Seq<char>) -> Seq<char> {
    seq!['%'] + escaped(keyword) + seq!['%']
}

/// `word` stands in `text` from position `at` on, letters in either case.
pub open spec fn folded_at(text: Seq<char>, word: Seq<char>, at: int) -> bool {
    &&& 0 <= at
    &&& at + word.len() <= text.len()
    &&& forall|j: int| 0 <= j < word.len() ==> fold(#[trigger] text[at + j]) == fold(word[j])
}

/// `word` stands somewhere in `text`, letters in either case.
pub open spec fn contains_folded(text: Seq<char>, word: Seq<char>) -> bool {
    exists|at: int| #[trigger] folded_at(text, word, at)
}

/// Builds the pattern of a search for `keyword`.
pub fn like_pattern(keyword: &str) -> (pattern: String)
    ensures
        pattern@ == search_pattern(keyword@),
{
    let chars = to_chars(keyword);
    let mut pattern = String::new();
    pattern.push('%');
    let mut i: usize = 0;
    while i < chars.len()
        invariant
            i <= chars@.len(),
            chars@ == keyword@,
            pattern@ == seq!['%'] + escaped(keyword@.take(i as int)),
        decreases chars@.len() - i,
    {
        let c = chars[i];
        assert(keyword@.take(i + 1).drop_last() =~= keyword@.take(i as int));
        if c == '%' || c == '_' || c == '\\' {
            pattern.push('\\');
        }
        pattern.push(c);
        i += 1;
    }
    assert(keyword@.take(i as int) =~= keyword@);
    pattern.push('%');
    pattern
}

/// `escaped` works on each character by itself, so the first one can be split off.
proof fn lemma_escaped_first(keyword: Seq<char>)
    requires
        keyword.len() > 0,
    ensures
        escaped(keyword) == escaped(keyword.take(1)) + escaped(keyword.skip(1)),
    decreases keyword.len(),
{
    reveal_with_fuel(escaped, 2);
    if keyword.len() == 1 {
        assert(keyword.take(1) =~= keyword);
        assert(keyword.skip(1) =~= Seq::empty());
    } else {
        lemma_escaped_first(keyword.drop_last());
        assert(keyword.drop_last().take(1) =~= keyword.take(1));
        assert(keyword.skip(1).drop_last() =~= keyword.drop_last().skip(1));
        assert(keyword.skip(1).last() == keyword.last());
        assert(escaped(keyword) =~= escaped(keyword.take(1)) + escaped(keyword.skip(1)));
    }
}

/// A pattern that starts with `%` matches when the rest of it matches some end of the text.
proof fn lemma_like_percent(rest: Seq<char>, text: Seq<char>)
    ensures
        like(seq!['%'] + rest, text) <==> exists|i: int|
            0 <= i <= text.len() && like(rest, #[trigger] text.skip(i)),
    decreases text.len(),
{
    let p = seq!['%'] + rest;
    assert(p.skip(1) =~= rest);
    assert(text.skip(0) =~= text);
    if text.len() > 0 {
        let tail = text.skip(1);
        lemma_like_percent(rest, tail);
        if like(p, text) {
            if !like(rest, text.skip(0)) {
                let i = choose|i: int| 0 <= i <= tail.len() && like(rest, #[trigger] tail.skip(i));
                assert(tail.skip(i) =~= text.skip(i + 1));
                assert(like(rest, text.skip(i + 1)));
            }
        }
        if exists|i: int| 0 <= i <= text.len() && like(rest, #[trigger] text.skip(i)) {
            let i = choose|i: int| 0 <= i <= text.len() && like(rest, #[trigger] text.skip(i));
            if i > 0 {
                assert(tail.skip(i - 1) =~= text.skip(i));
            }
        }
    }
}

/// The escaped form of a word, with `%` behind it, matches the texts that start with the word.
proof fn lemma_like_word(word: Seq<char>, text: Seq<char>)
    ensures
        like(escaped(word) + seq!['%'], text) <==> folded_at(text, word, 0),
    decreases word.len(),
{
    let p = escaped(word) + seq!['%'];
    if word.len() == 0 {
        assert(p =~= seq!['%'] + Seq::<char>::empty());
        lemma_like_percent(Seq::empty(), text);
        assert(like(Seq::empty(), text.skip(text.len() as int)));
        assert(folded_at(text, word, 0));
    } else {
        let c = word[0];
        let tail = word.skip(1);
        lemma_escaped_first(word);
        reveal_with_fuel(escaped, 2);
        assert(word.take(1).drop_last() =~= Seq::empty());
        let q = escaped(tail) + seq!['%'];
        if is_special(c) {
            assert(escaped(word.take(1)) =~= seq!['\\', c]);
            assert(p.skip(2) =~= q);
        } else {
            assert(escaped(word.take(1)) =~= seq![c]);
            assert(p.skip(1) =~= q);
        }
        if text.len() > 0 {
            let rest = text.skip(1);
            lemma_like_word(tail, rest);
            assert(like(p, text) <==> fold(c) == fold(text[0]) && like(q, rest));
            if folded_at(text, word, 0) {
                assert(fold(text[0int + 0int]) == fold(word[0]));
                assert forall|j: int| 0 <= j < tail.len() implies fold(#[trigger] rest[0 + j])
                    == fold(tail[j]) by {
                    assert(fold(text[0 + (j + 1)]) == fold(word[j + 1]));
                }
            }
            if fold(c) == fold(text[0]) && folded_at(rest, tail, 0) {
                assert forall|j: int| 0 <= j < word.len() implies fold(#[trigger] text[0 + j])
                    == fold(word[j]) by {
                    if j > 0 {
                        assert(fold(rest[0 + (j - 1)]) == fold(tail[j - 1]));
                    }
                }
            }
        }
    }
}

/// A text without NUL is seen whole.
pub proof fn c_text_keeps(s: Seq<char>)
    requires
        !s.contains('\0'),
    ensures
        c_text(s) == s,
    decreases s.len(),
{
    if s.len() > 0 {
        assert(s.contains(s[0]));
        assert forall|x: char| s.skip(1).contains(x) implies s.contains(x) by {
            let i = choose|i: int| 0 <= i < s.skip(1).len() && s.skip(1)[i] == x;
            assert(s[i + 1] == x);
        }
        c_text_keeps(s.skip(1));
        assert(seq![s[0]] + s.skip(1) =~= s);
    }
}

/// Escaping adds no NUL.
pub proof fn escaped_has_no_nul(keyword: Seq<char>)
    requires
        !keyword.contains('\0'),
    ensures
        !escaped(keyword).contains('\0'),
    decreases keyword.len(),
{
    if keyword.len() > 0 {
        let rest = keyword.drop_last();
        assert forall|i: int| 0 <= i < rest.len() implies rest[i] != '\0' by {
            assert(keyword.contains(keyword[i]));
        }
        assert(keyword.contains(keyword.last()));
        escaped_has_no_nul(rest);
        assert forall|i: int| 0 <= i < escaped(keyword).len() implies escaped(keyword)[i]
            != '\0' by {
            if i < escaped(rest).len() {
                assert(escaped(rest).contains(escaped(rest)[i]));
                assert(escaped(keyword)[i] == escaped(rest)[i]);
            }
        }
    }
}

/// A search finds a text exactly when the keyword stands in it somewhere, letters in either case.
/// A `%`, `_` or `\` in the keyword counts as an ordinary character.
pub proof fn search_is_substring(keyword: Seq<char>, text: Seq<char>)
    ensures
        like(search_pattern(keyword), text) <==> contains_folded(text, keyword),
{
    let rest = escaped(keyword) + seq!['%'];
    assert(search_pattern(keyword) =~= seq!['%'] + rest);
    lemma_like_percent(rest, text);
    assert forall|i: int| 0 <= i <= text.len() implies like(rest, #[trigger] text.skip(i))
        == folded_at(text, keyword, i) by {
        let tail = text.skip(i);
        lemma_like_word(keyword, tail);
        if folded_at(text, keyword, i) {
            assert forall|j: int| 0 <= j < keyword.len() implies fold(#[trigger] tail[0 + j])
                == fold(keyword[j]) by {
                assert(fold(text[i + j]) == fold(keyword[j]));
            }
        }
        if folded_at(tail, keyword, 0) {
            assert forall|j: int| 0 <= j < keyword.len() implies fold(#[trigger] text[i + j])
                == fold(keyword[j]) by {
                assert(fold(tail[0 + j]) == fold(keyword[j]));
            }
        }
    }
    if contains_folded(text, keyword) {
        let at = choose|at: int| #[trigger] folded_at(text, keyword, at);
        assert(like(rest, text.skip(at)));
    }
}

} // verus!
