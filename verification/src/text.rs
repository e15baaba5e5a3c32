//! Text as sequences of characters: reading, searching, trimming and formatting it.

use vstd::prelude::*;

verus! {

/// The characters with the Unicode property White_Space.
pub open spec fn is_white_space(c: char) -> bool {
    ||| '\u{9}' <= c <= '\u{D}'
    ||| c == '\u{20}'
    ||| c == '\u{85}'
    ||| c == '\u{A0}'
    ||| c == '\u{1680}'
    ||| '\u{2000}' <= c <= '\u{200A}'
    ||| c == '\u{2028}'
    ||| c == '\u{2029}'
    ||| c == '\u{202F}'
    ||| c == '\u{205F}'
    ||| c == '\u{3000}'
}

/// `s` without the white space at its start.
pub open spec fn without_start(s: Seq<char>) -> Seq<char>
    decreases s.len(),
{
    if s.len() > 0 && is_white_space(s[0]) {
        without_start(s.skip(1))
    } else {
        s
    }
}

/// `s` without the white space at its end.
pub open spec fn without_end(s: Seq<char>) -> Seq<char>
    decreases s.len(),
{
    if s.len() > 0 && is_white_space(s.last()) {
        without_end(s.drop_last())
    } else {
        s
    }
}

/// `s` without the white space at both ends.
pub open spec fn trim_text(s: Seq<char>) -> Seq<char> {
    without_end(without_start(s))
}

/// What is left does not start with white space.
proof fn without_start_is_clean(s: Seq<char>)
    ensures
        without_start(s).len() > 0 ==> !is_white_space(without_start(s)[0]),
    decreases s.len(),
{
    if s.len() > 0 && is_white_space(s[0]) {
        without_start_is_clean(s.skip(1));
    }
}

/// What is left is a start of the text, and does not end in white space.
proof fn without_end_is_start(s: Seq<char>)
    ensures
        without_end(s).len() <= s.len(),
        without_end(s) == s.take(without_end(s).len() as int),
        without_end(s).len() > 0 ==> !is_white_space(without_end(s).last()),
    decreases s.len(),
{
    if s.len() > 0 && is_white_space(s.last()) {
        without_end_is_start(s.drop_last());
        let n = without_end(s).len() as int;
        assert(s.drop_last().take(n) =~= s.take(n));
    } else {
        assert(s.take(s.len() as int) =~= s);
    }
}

/// Trimming a text again changes nothing.
pub proof fn trim_is_final(s: Seq<char>)
    ensures
        trim_text(trim_text(s)) == trim_text(s),
{
    let u = without_start(s);
    without_start_is_clean(s);
    without_end_is_start(u);
}

/// The lower-case form of an ASCII letter; any other character as it is.
pub open spec fn ascii_lower(c: char) -> char {
    if 'A' <= c <= 'Z' {
        ((c as u32) + 32) as char
    } else {
        c
    }
}

/// `s` with its ASCII letters in lower case.
pub open spec fn ascii_lower_text(s: Seq<char>) -> Seq<char> {
    s.map_values(|c: char| ascii_lower(c))
}

/// The characters below 128.
pub open spec fn is_ascii_text(s: Seq<char>) -> bool {
    forall|i: int| 0 <= i < s.len() ==> (#[trigger] s[i]) as u32 <= 127
}

/// What `str::to_lowercase` makes of a text.
pub uninterp spec fn lowercase(s: Seq<char>) -> Seq<char>;

/// `str::trim` removes the characters with the property White_Space at both ends.
pub assume_specification[ str::trim ](s: &str) -> (r: &str)
    ensures
        r@ == trim_text(s@),
;

/// `str::to_lowercase` lowers a text by the Unicode tables, whose result is only named. Of ASCII
/// text it is stated in full, and of any text that the case of its ASCII letters does not matter.
pub assume_specification[ str::to_lowercase ](s: &str) -> (r: String)
    ensures
        r@ == lowercase(s@),
        r@ == lowercase(ascii_lower_text(s@)),
        is_ascii_text(s@) ==> r@ == ascii_lower_text(s@),
;

/// `String::push` appends one character.
pub assume_specification[ String::push ](s: &mut String, ch: char)
    ensures
        final(s)@ == old(s)@.push(ch),
;

/// `String::push_str` appends a text.
pub assume_specification[ String::push_str ](s: &mut String, string: &str)
    ensures
        final(s)@ == old(s)@ + string@,
;

/// The characters of a text, in order.
pub fn to_chars(s: &str) -> (chars: Vec<char>)
    ensures
        chars@ == s@,
{
    let mut chars: Vec<char> = Vec::new();
    for c in it: s.chars()
        invariant
            it.seq() == s@,
            chars@ == s@.take(it.index() as int),
    {
        chars.push(c);
    }
    chars
}

/// `word` stands in `text` from position `at` on.
pub open spec fn word_at(text: Seq<char>, word: Seq<char>, at: int) -> bool {
    &&& 0 <= at
    &&& at + word.len() <= text.len()
    &&& text.subrange(at, at + word.len()) == word
}

/// `word` stands somewhere in `text`.
pub open spec fn contains_word(text: Seq<char>, word: Seq<char>) -> bool {
    exists|at: int| #[trigger] word_at(text, word, at)
}

/// Whether `word` stands in `text` from position `at` on.
fn is_word_at(text: &Vec<char>, word: &Vec<char>, at: usize) -> (r: bool)
    requires
        at + word.len() <= text.len(),
    ensures
        r == word_at(text@, word@, at as int),
{
    let mut i: usize = 0;
    while i < word.len()
        invariant
            i <= word@.len(),
            at + word.len() <= text.len(),
            forall|j: int| 0 <= j < i ==> text@[at + j] == word@[j],
        decreases word@.len() - i,
    {
        if text[at + i] != word[i] {
            proof {
                let part = text@.subrange(at as int, at + word@.len());
                assert(part[i as int] != word@[i as int]);
            }
            return false;
        }
        i += 1;
    }
    assert(text@.subrange(at as int, at + word@.len()) =~= word@);
    true
}

/// Whether `word` stands somewhere in `text`. The empty word stands in every text.
pub fn contains_text(text: &str, word: &str) -> (r: bool)
    ensures
        r == contains_word(text@, word@),
{
    let text_chars = to_chars(text);
    let word_chars = to_chars(word);
    if word_chars.len() > text_chars.len() {
        return false;
    }
    let last: usize = text_chars.len() - word_chars.len();
    let mut at: usize = 0;
    while at <= last
        invariant
            at <= last + 1,
            last == text_chars@.len() - word_chars@.len(),
            text_chars@ == text@,
            word_chars@ == word@,
            forall|i: int| 0 <= i < at ==> !word_at(text@, word@, i),
        decreases last + 1 - at,
    {
        if is_word_at(&text_chars, &word_chars, at) {
            return true;
        }
        if at == last {
            return false;
        }
        at += 1;
    }
    false
}

/// Whether two texts are the same.
pub fn same_text(a: &str, b: &str) -> (r: bool)
    ensures
        r == (a@ == b@),
{
    let a_chars = to_chars(a);
    let b_chars = to_chars(b);
    if a_chars.len() != b_chars.len() {
        return false;
    }
    let r = is_word_at(&a_chars, &b_chars, 0);
    assert(a@.subrange(0, b@.len() as int) =~= a@);
    r
}

/// The digit of value `d`.
pub open spec fn digit(d: nat) -> char {
    if d < 10 {
        (48 + d) as char
    } else {
        (87 + d) as char
    }
}

/// `n` written in base `base`, without leading zeros.
pub open spec fn number_text(n: nat, base: nat) -> Seq<char>
    decreases n,
{
    if base < 2 || n < base {
        seq![digit(n)]
    } else {
        proof {
            assert(n / base < n) by (nonlinear_arith)
                requires
                    2 <= base <= n,
            ;
        }
        number_text(n / base, base).push(digit(n % base))
    }
}

/// `n` in decimal, with a minus sign if it is negative.
pub open spec fn signed_text(n: int) -> Seq<char> {
    if n < 0 {
        seq!['-'] + number_text((-n) as nat, 10)
    } else {
        number_text(n as nat, 10)
    }
}

/// Appends `n`, written in base `base`.
pub fn push_number(out: &mut String, n: u64, base: u64)
    requires
        2 <= base <= 16,
    ensures
        final(out)@ == old(out)@ + number_text(n as nat, base as nat),
    decreases n,
{
    if n < base {
        out.push(digit_char(n));
        assert(out@ =~= old(out)@ + seq![digit(n as nat)]);
    } else {
        assert(n / base < n) by (nonlinear_arith)
            requires
                2 <= base <= n,
        ;
        assert(n % base < base) by (nonlinear_arith)
            requires
                2 <= base,
        ;
        push_number(out, n / base, base);
        out.push(digit_char(n % base));
        assert(out@ =~= old(out)@ + number_text((n / base) as nat, base as nat).push(
            digit((n % base) as nat),
        ));
    }
}

/// The digit of value `d`.
fn digit_char(d: u64) -> (c: char)
    requires
        d < 16,
    ensures
        c == digit(d as nat),
{
    if d < 10 {
        (48 + d as u8) as char
    } else {
        (87 + d as u8) as char
    }
}

/// Appends `n` in decimal.
pub fn push_signed(out: &mut String, n: i64)
    ensures
        final(out)@ == old(out)@ + signed_text(n as int),
{
    if n < 0 {
        out.push('-');
        let size: u64 = (-(n + 1)) as u64 + 1;
        push_number(out, size, 10);
        assert(out@ =~= old(out)@ + (seq!['-'] + number_text(size as nat, 10)));
    } else {
        push_number(out, n as u64, 10);
    }
}

} // verus!
