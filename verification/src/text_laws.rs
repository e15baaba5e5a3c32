//! Laws of texts: trimming, lower case, finding a word, and numbers in digits.

use vstd::prelude::*;

use crate::text::{
    ascii_lower_text, contains_word, digit, is_ascii_text, is_white_space, number_text, signed_text,
    trim_text, without_end, without_start, word_at,
};

verus! {

/// White space is a tab, a line feed, a vertical tab, a form feed, a carriage return, a space, and
/// the spaces and line ends that Unicode has beyond ASCII; nothing else is.
pub proof fn white_space_characters(c: char)
    ensures
        is_white_space(c) <==> {
            let n = c as u32;
            ||| 9 <= n <= 13
            ||| n == 32 || n == 0x85 || n == 0xA0 || n == 0x1680
            ||| 0x2000 <= n <= 0x200A
            ||| n == 0x2028 || n == 0x2029 || n == 0x202F || n == 0x205F || n == 0x3000
        },
{
}

/// Trimming takes white space off both ends, all of it, and nothing else: what is left is a part of
/// the text, with only white space before and behind it, and neither starts nor ends with any.
pub proof fn trimming_takes_off_white_space(s: Seq<char>)
    ensures
        exists|from: int, to: int|
            0 <= from <= to <= s.len() && trim_text(s) == #[trigger] s.subrange(from, to) && (
            forall|i: int| 0 <= i < from || to <= i < s.len() ==> is_white_space(#[trigger] s[i])),
        trim_text(s).len() > 0 ==> !is_white_space(trim_text(s)[0]) && !is_white_space(
            trim_text(s)[trim_text(s).len() - 1],
        ),
{
    let u = without_start(s);
    let t = without_end(u);
    start_comes_off(s);
    end_comes_off(u);
    let from = s.len() - u.len();
    let to = from + t.len();
    assert(t =~= s.subrange(from, to));
    assert forall|i: int| 0 <= i < from || to <= i < s.len() implies is_white_space(
        #[trigger] s[i],
    ) by {
        if to <= i {
            assert(u[i - from] == s[i]);
        }
    }
    assert(trim_text(s) == s.subrange(from, to));
    assert(t.len() > 0 ==> t[0] == u[0]);
}

/// What comes off the start is white space, and all that was there.
proof fn start_comes_off(s: Seq<char>)
    ensures
        without_start(s).len() <= s.len(),
        without_start(s) == s.skip(s.len() - without_start(s).len()),
        forall|i: int|
            0 <= i < s.len() - without_start(s).len() ==> is_white_space(#[trigger] s[i]),
        without_start(s).len() > 0 ==> !is_white_space(without_start(s)[0]),
    decreases s.len(),
{
    if s.len() > 0 && is_white_space(s[0]) {
        let rest = s.skip(1);
        start_comes_off(rest);
        let n = s.len() - without_start(s).len();
        assert(rest.skip(n - 1) =~= s.skip(n));
        assert forall|i: int| 0 <= i < n implies is_white_space(#[trigger] s[i]) by {
            if i > 0 {
                assert(rest[i - 1] == s[i]);
            }
        }
    } else {
        assert(s.skip(0) =~= s);
    }
}

/// What comes off the end is white space, and all that was there.
proof fn end_comes_off(s: Seq<char>)
    ensures
        without_end(s).len() <= s.len(),
        without_end(s) == s.take(without_end(s).len() as int),
        forall|i: int| without_end(s).len() <= i < s.len() ==> is_white_space(#[trigger] s[i]),
        without_end(s).len() > 0 ==> !is_white_space(without_end(s)[without_end(s).len() - 1]),
    decreases s.len(),
{
    if s.len() > 0 && is_white_space(s.last()) {
        let rest = s.drop_last();
        end_comes_off(rest);
        let n = without_end(s).len() as int;
        assert(rest.take(n) =~= s.take(n));
        assert forall|i: int| n <= i < s.len() implies is_white_space(#[trigger] s[i]) by {
            if i < rest.len() {
                assert(rest[i] == s[i]);
            }
        }
    } else {
        assert(s.take(s.len() as int) =~= s);
    }
}

/// Lowering the ASCII letters of a text changes each of the 26 capitals to the letter 32 places
/// behind it, and no other character.
pub proof fn only_ascii_capitals_are_lowered(s: Seq<char>, i: int)
    requires
        0 <= i < s.len(),
    ensures
        ascii_lower_text(s).len() == s.len(),
        ascii_lower_text(s)[i] as u32 == if 65 <= s[i] as u32 <= 90 {
            s[i] as u32 + 32
        } else {
            s[i] as int
        },
{
}

/// ASCII text has no character from 128 on, and any text without one is ASCII.
pub proof fn ascii_ends_below_128(s: Seq<char>)
    ensures
        is_ascii_text(s) <==> forall|i: int| 0 <= i < s.len() ==> (#[trigger] s[i] as u32) < 128,
{
    if is_ascii_text(s) {
        assert forall|i: int| 0 <= i < s.len() implies (#[trigger] s[i] as u32) < 128 by {}
    }
    if forall|i: int| 0 <= i < s.len() ==> (#[trigger] s[i] as u32) < 128 {
        assert forall|i: int| 0 <= i < s.len() implies (#[trigger] s[i]) as u32 <= 127 by {
            assert((s[i] as u32) < 128);
        }
    }
}

/// A word is found wherever it stands, whatever is before and behind it.
pub proof fn word_is_found_anywhere(before: Seq<char>, word: Seq<char>, behind: Seq<char>)
    ensures
        contains_word(before + word + behind, word),
{
    let text = before + word + behind;
    let at = before.len() as int;
    assert(text.subrange(at, at + word.len()) =~= word);
    assert(word_at(text, word, at));
}

/// A word that is found stands somewhere in the text.
pub proof fn found_word_stands_in_the_text(text: Seq<char>, word: Seq<char>)
    requires
        contains_word(text, word),
    ensures
        exists|before: Seq<char>, behind: Seq<char>| text == #[trigger] (before + word + behind),
{
    let at = choose|at: int| #[trigger] word_at(text, word, at);
    assert(text =~= text.take(at) + word + text.skip(at + word.len()));
}

/// A word is found in a text exactly if the text is something, the word, and something.
pub proof fn found_is_contained(text: Seq<char>, word: Seq<char>)
    ensures
        contains_word(text, word) <==> exists|before: Seq<char>, behind: Seq<char>|
            text == #[trigger] (before + word + behind),
{
    if contains_word(text, word) {
        found_word_stands_in_the_text(text, word);
    }
    if exists|before: Seq<char>, behind: Seq<char>| text == #[trigger] (before + word + behind) {
        let (before, behind) = choose|before: Seq<char>, behind: Seq<char>|
            text == #[trigger] (before + word + behind);
        word_is_found_anywhere(before, word, behind);
    }
}

/// What a digit stands for: `0` to `9`, and `a` to `f` from ten on.
pub open spec fn digit_value(c: char) -> int {
    if '0' <= c <= '9' {
        c as int - 48
    } else {
        c as int - 87
    }
}

/// The number that digits stand for.
pub open spec fn digits_value(text: Seq<char>, base: nat) -> int
    decreases text.len(),
{
    if text.len() == 0 {
        0
    } else {
        digits_value(text.drop_last(), base) * base + digit_value(text.last())
    }
}

/// A number in digits reads back as that number: it has digits of the base only, at least one, and
/// does not start with a zero unless it is one.
pub proof fn number_reads_back(n: nat, base: nat)
    requires
        2 <= base <= 16,
    ensures
        number_text(n, base).len() > 0,
        digits_value(number_text(n, base), base) == n,
        n > 0 ==> number_text(n, base)[0] != '0',
        n == 0 ==> number_text(n, base) == seq!['0'],
        forall|i: int|
            0 <= i < number_text(n, base).len() ==> {
                let c = #[trigger] number_text(n, base)[i];
                ('0' <= c <= '9' || 'a' <= c <= 'f') && digit_value(c) < base
            },
    decreases n,
{
    let text = number_text(n, base);
    if n < base {
        assert(text.drop_last() =~= Seq::empty());
        assert(digits_value(text.drop_last(), base) == 0);
        assert(0 * base == 0) by (nonlinear_arith);
        if n == 0 {
            assert(text =~= seq!['0']);
        }
    } else {
        let high = n / base;
        let low = n % base;
        assert(high < n && 0 < high) by (nonlinear_arith)
            requires
                2 <= base <= n,
                high == n / base,
        ;
        assert(low < base) by (nonlinear_arith)
            requires
                2 <= base,
                low == n % base,
        ;
        assert(high * base + low == n) by (nonlinear_arith)
            requires
                2 <= base,
                high == n / base,
                low == n % base,
        ;
        number_reads_back(high, base);
        let rest = number_text(high, base);
        assert(text == rest.push(digit(low)));
        assert(text.drop_last() =~= rest);
        assert(digit_value(digit(low)) == low);
        assert forall|i: int| 0 <= i < text.len() implies {
            let c = #[trigger] text[i];
            ('0' <= c <= '9' || 'a' <= c <= 'f') && digit_value(c) < base
        } by {
            if i < rest.len() {
                assert(text[i] == rest[i]);
            }
        }
        assert(text[0] == rest[0]);
    }
}

/// A negative number is a minus sign and the number without it.
pub proof fn negative_number_has_a_minus(n: int)
    ensures
        n < 0 ==> signed_text(n) == seq!['-'] + number_text((0 - n) as nat, 10),
        n >= 0 ==> signed_text(n) == number_text(n as nat, 10),
{
}

} // verus!
