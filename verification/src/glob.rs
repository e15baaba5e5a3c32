//! Glob patterns, as the `globset` crate matches them.
//!
//! `globset` takes a backslash for a path separator only where it was built for Windows. Patterns
//! and values are handed to it with slashes instead, so that a pattern for Windows paths means the
//! same everywhere.

use vstd::prelude::*;

use crate::text::{ascii_lower, ascii_lower_text, is_ascii_text, to_chars};

verus! {

/// A compiled set of glob patterns. Its fields stay hidden.
#[verifier::external_type_specification]
#[verifier::external_body]
pub struct ExGlobSet(globset::GlobSet);

/// Why a pattern could not be compiled. Its fields stay hidden.
#[verifier::external_type_specification]
#[verifier::external_body]
pub struct ExGlobError(globset::Error);

/// The patterns that a set was compiled from, each with two settings: whether case is disregarded,
/// and whether `*` and `?` stay within one part of a path.
pub uninterp spec fn glob_patterns(set: globset::GlobSet) -> Seq<(Seq<char>, bool, bool)>;

/// Whether no pattern of a set has a backslash, and all settings but those two are `globset`'s
/// defaults.
pub uninterp spec fn is_plain_set(set: globset::GlobSet) -> bool;

/// Whether `pattern` is a glob pattern that compiles with these settings.
pub uninterp spec fn glob_compiles(pattern: Seq<char>, any_case: bool, in_part: bool) -> bool;

/// Whether `pattern` with these settings matches the whole of `value`.
pub uninterp spec fn glob_accepts(
    pattern: Seq<char>,
    any_case: bool,
    in_part: bool,
    value: Seq<char>,
) -> bool;

/// `GlobBuilder::build` and `GlobSet::new` compile one pattern with two settings and the defaults
/// of the others.
///
/// Both report a pattern they cannot take as an error; `Glob::compile_matcher` would panic where
/// the regular expression of a pattern is too large. A simple pattern that is not too long
/// compiles; which others do is only named. The patterns are turned into regular expressions by a
/// recursion on nested braces, so these must not be nested too deeply. A pattern with a backslash
/// would mean different things on different systems.
#[verifier::external_body]
pub(crate) fn compile_glob(pattern: &str, any_case: bool, in_part: bool) -> (r: Result<
    globset::GlobSet,
    globset::Error,
>)
    requires
        !pattern@.contains('\\'),
        nesting(pattern@).deepest <= MAX_NESTING,
    ensures
        r is Ok == glob_compiles(pattern@, any_case, in_part),
        r matches Ok(set) ==> is_plain_set(set) && glob_patterns(set) =~= seq![
            (pattern@, any_case, in_part),
        ],
        is_simple(pattern@) && pattern@.len() <= MAX_SIMPLE ==> r is Ok,
{
    let mut builder = globset::GlobBuilder::new(pattern);
    let glob = builder.case_insensitive(any_case).literal_separator(in_part).build()?;
    globset::GlobSet::new([&glob])
}

/// `GlobSet::is_match` tells whether a pattern of the set matches the whole of a value. Where all
/// patterns disregard case, the case of ASCII letters in the value does not matter. What a simple
/// pattern matches in ASCII text is stated, for the settings that the filters use; what others
/// match is only named.
#[verifier::external_body]
pub(crate) fn glob_is_match(set: &globset::GlobSet, value: &str) -> (r: bool)
    requires
        is_plain_set(*set),
        !value@.contains('\\'),
    ensures
        r == (exists|i: int|
            0 <= i < glob_patterns(*set).len() && glob_accepts(
                (#[trigger] glob_patterns(*set)[i]).0,
                glob_patterns(*set)[i].1,
                glob_patterns(*set)[i].2,
                value@,
            )),
        disregards_case(*set) ==> r == (exists|i: int|
            0 <= i < glob_patterns(*set).len() && glob_accepts(
                (#[trigger] glob_patterns(*set)[i]).0,
                glob_patterns(*set)[i].1,
                glob_patterns(*set)[i].2,
                ascii_lower_text(value@),
            )),
        is_ascii_text(value@) ==> forall|pattern: Seq<char>|
            glob_patterns(*set) == seq![(pattern, true, true)] && #[trigger] is_simple(pattern)
                ==> r == simple_accepts(pattern, value@),
{
    set.is_match(value)
}

/// `GlobSet::clone` makes a set of the same patterns.
pub assume_specification[ <globset::GlobSet as Clone>::clone ](set: &globset::GlobSet) -> (copy:
    globset::GlobSet)
    ensures
        glob_patterns(copy) == glob_patterns(*set),
        is_plain_set(copy) == is_plain_set(*set),
;

/// All patterns of a set disregard case.
pub open spec fn disregards_case(set: globset::GlobSet) -> bool {
    forall|i: int| 0 <= i < glob_patterns(set).len() ==> (#[trigger] glob_patterns(set)[i]).1
}

/// How deeply the braces of a pattern may be nested. Where braces without text are not nested, a
/// pattern with more has text in 250 of them, and its regular expression would be refused for its
/// own depth.
pub const MAX_NESTING: usize = 250;

/// How long a simple pattern may be to be sure to compile.
pub const MAX_SIMPLE: usize = 1000;

/// Where in a class of characters, such as `[!a-z]`, a position of a pattern lies: outside of any,
/// behind its bracket, behind its negation, or behind its first character.
#[derive(Clone, Copy, Debug, PartialEq, Eq, Structural)]
pub enum ClassPart {
    Outside,
    Start,
    First,
    Inside,
}

/// Where the position behind `c` lies, if the one before it lies in `class`. A bracket right behind
/// the start of a class does not end it.
pub open spec fn class_behind(class: ClassPart, c: char) -> ClassPart {
    match class {
        ClassPart::Outside => if c == '[' {
            ClassPart::Start
        } else {
            ClassPart::Outside
        },
        ClassPart::Start => if c == '!' || c == '^' {
            ClassPart::First
        } else {
            ClassPart::Inside
        },
        ClassPart::First => ClassPart::Inside,
        ClassPart::Inside => if c == ']' {
            ClassPart::Outside
        } else {
            ClassPart::Inside
        },
    }
}

/// Where the position behind `c` lies.
fn next_class(class: ClassPart, c: char) -> (r: ClassPart)
    ensures
        r == class_behind(class, c),
{
    match class {
        ClassPart::Outside => if c == '[' {
            ClassPart::Start
        } else {
            ClassPart::Outside
        },
        ClassPart::Start => if c == '!' || c == '^' {
            ClassPart::First
        } else {
            ClassPart::Inside
        },
        ClassPart::First => ClassPart::Inside,
        ClassPart::Inside => if c == ']' {
            ClassPart::Outside
        } else {
            ClassPart::Inside
        },
    }
}

/// How many braces are open behind a part of a pattern, and how many were at the most.
pub struct Nesting {
    pub depth: nat,
    pub deepest: nat,
    pub class: ClassPart,
}

/// One more character of a pattern. Braces in a class of characters do not count.
pub open spec fn nesting_step(n: Nesting, c: char) -> Nesting {
    let class = class_behind(n.class, c);
    if n.class is Outside && c == '{' {
        Nesting {
            depth: n.depth + 1,
            deepest: if n.depth + 1 > n.deepest {
                n.depth + 1
            } else {
                n.deepest
            },
            class,
        }
    } else if n.class is Outside && c == '}' && n.depth > 0 {
        Nesting { depth: (n.depth - 1) as nat, deepest: n.deepest, class }
    } else {
        Nesting { depth: n.depth, deepest: n.deepest, class }
    }
}

/// How the braces of a pattern are nested.
pub open spec fn nesting(pattern: Seq<char>) -> Nesting
    decreases pattern.len(),
{
    if pattern.len() == 0 {
        Nesting { depth: 0, deepest: 0, class: ClassPart::Outside }
    } else {
        nesting_step(nesting(pattern.drop_last()), pattern.last())
    }
}

/// Whether the braces of a pattern are not nested too deeply.
pub fn nests_little(pattern: &str) -> (r: bool)
    ensures
        r == (nesting(pattern@).deepest <= MAX_NESTING),
{
    let chars = to_chars(pattern);
    let mut depth: usize = 0;
    let mut deepest: usize = 0;
    let mut class = ClassPart::Outside;
    let mut i: usize = 0;
    while i < chars.len()
        invariant
            i <= chars@.len(),
            chars@ == pattern@,
            depth <= i,
            nesting(pattern@.take(i as int)) == (Nesting {
                depth: depth as nat,
                deepest: deepest as nat,
                class,
            }),
        decreases chars@.len() - i,
    {
        let c = chars[i];
        assert(pattern@.take(i + 1).drop_last() =~= pattern@.take(i as int));
        let outside = class == ClassPart::Outside;
        if outside && c == '{' {
            depth += 1;
            if depth > deepest {
                deepest = depth;
            }
        } else if outside && c == '}' && depth > 0 {
            depth -= 1;
        }
        class = next_class(class, c);
        i += 1;
    }
    assert(pattern@.take(i as int) =~= pattern@);
    deepest <= MAX_NESTING
}

/// A part of a pattern with its braces flattened: the text so far, and for each open brace where
/// it stands and whether there is text behind it.
pub struct Flat {
    pub text: Seq<char>,
    pub opens: Seq<(int, bool)>,
    pub class: ClassPart,
}

/// There is text behind the innermost open brace.
pub open spec fn with_text(opens: Seq<(int, bool)>) -> Seq<(int, bool)> {
    if opens.len() > 0 {
        opens.drop_last().push((opens.last().0, true))
    } else {
        opens
    }
}

/// One more character of a pattern. A pair of braces that closes without text in it becomes an
/// empty one. Text is anything but braces and the commas between alternatives.
pub open spec fn flat_step(flat: Flat, c: char) -> Flat {
    let class = class_behind(flat.class, c);
    if !(flat.class is Outside) {
        Flat { text: flat.text.push(c), opens: flat.opens, class }
    } else if c == '{' {
        Flat {
            text: flat.text.push(c),
            opens: flat.opens.push((flat.text.len() as int, false)),
            class,
        }
    } else if c == '}' && flat.opens.len() > 0 {
        if flat.opens.last().1 {
            Flat { text: flat.text.push(c), opens: with_text(flat.opens.drop_last()), class }
        } else {
            Flat {
                text: flat.text.take(flat.opens.last().0).push('{').push('}'),
                opens: flat.opens.drop_last(),
                class,
            }
        }
    } else if c == ',' && flat.opens.len() > 0 {
        Flat { text: flat.text.push(c), opens: flat.opens, class }
    } else {
        Flat { text: flat.text.push(c), opens: with_text(flat.opens), class }
    }
}

/// A pattern with its braces flattened, character by character.
pub open spec fn flat(pattern: Seq<char>) -> Flat
    decreases pattern.len(),
{
    if pattern.len() == 0 {
        Flat { text: Seq::empty(), opens: Seq::empty(), class: ClassPart::Outside }
    } else {
        flat_step(flat(pattern.drop_last()), pattern.last())
    }
}

/// What is handed to `globset` for a pattern: the pattern itself, unless its braces are nested too
/// deeply. Then each pair of braces without text in it becomes an empty pair. `globset` takes no
/// notice of either, so both forms mean the same.
pub open spec fn glob_form(pattern: Seq<char>) -> Seq<char> {
    if nesting(pattern).deepest <= MAX_NESTING {
        pattern
    } else {
        flat(pattern).text
    }
}

/// The positions and marks of open braces.
spec fn open_braces(opens: Seq<(usize, bool)>) -> Seq<(int, bool)> {
    opens.map_values(|open: (usize, bool)| (open.0 as int, open.1))
}

/// Marks that there is text behind the innermost open brace.
fn mark_text(opens: &mut Vec<(usize, bool)>)
    ensures
        open_braces(final(opens)@) == with_text(open_braces(old(opens)@)),
        final(opens)@.len() == old(opens)@.len(),
        forall|i: int|
            0 <= i < old(opens)@.len() ==> (#[trigger] final(opens)@[i]).0 == old(opens)@[i].0,
{
    match opens.pop() {
        Some(open) => {
            opens.push((open.0, true));
            assert(open_braces(opens@) =~= with_text(open_braces(old(opens)@)));
        },
        None => {},
    }
}

/// Flattens the braces of a pattern: each pair without text in it becomes an empty pair.
fn flatten(pattern: &str) -> (r: String)
    requires
        !pattern@.contains('\\'),
    ensures
        r@ == flat(pattern@).text,
        !r@.contains('\\'),
{
    let chars = to_chars(pattern);
    let mut text: Vec<char> = Vec::new();
    let mut opens: Vec<(usize, bool)> = Vec::new();
    let mut class = ClassPart::Outside;
    let mut i: usize = 0;
    assert(open_braces(opens@) =~= Seq::empty());
    while i < chars.len()
        invariant
            i <= chars@.len(),
            chars@ == pattern@,
            !pattern@.contains('\\'),
            flat(pattern@.take(i as int)) == (Flat {
                text: text@,
                opens: open_braces(opens@),
                class,
            }),
            !text@.contains('\\'),
            forall|k: int| 0 <= k < opens@.len() ==> (#[trigger] opens@[k]).0 < text@.len(),
            forall|k: int, l: int|
                0 <= k < l < opens@.len() ==> (#[trigger] opens@[k]).0 < (#[trigger] opens@[l]).0,
        decreases chars@.len() - i,
    {
        let c = chars[i];
        let ghost text_before = text@;
        let ghost opens_before = opens@;
        assert(pattern@.take(i + 1).drop_last() =~= pattern@.take(i as int));
        assert(c != '\\') by {
            assert(pattern@.contains(pattern@[i as int]));
        }
        let outside = class == ClassPart::Outside;
        let mut closed = false;
        if outside && c == '{' {
            opens.push((text.len(), false));
            assert(open_braces(opens@) =~= open_braces(opens_before).push(
                (text@.len() as int, false),
            ));
        } else if outside && c == '}' && opens.len() > 0 {
            let last = opens.len() - 1;
            assert(open_braces(opens@).last() == (opens@[last as int].0 as int, opens@[
                last as int
            ].1));
            let open = opens[last];
            opens.truncate(last);
            assert(open_braces(opens@) =~= open_braces(opens_before).drop_last());
            if open.1 {
                mark_text(&mut opens);
            } else {
                text.truncate(open.0);
                text.push('{');
                closed = true;
            }
        } else if outside && !(c == ',' && opens.len() > 0) {
            mark_text(&mut opens);
        }
        text.push(c);
        assert(text@ =~= if closed {
            text_before.take(opens_before.last().0 as int).push('{').push('}')
        } else {
            text_before.push(c)
        });
        class = next_class(class, c);
        i += 1;
    }
    assert(pattern@.take(i as int) =~= pattern@);
    let mut r = String::new();
    let mut k: usize = 0;
    while k < text.len()
        invariant
            k <= text@.len(),
            r@ == text@.take(k as int),
        decreases text@.len() - k,
    {
        r.push(text[k]);
        assert(text@.take(k + 1) =~= text@.take(k as int).push(text@[k as int]));
        k += 1;
    }
    assert(text@.take(k as int) =~= text@);
    r
}

/// What is handed to `globset` for a pattern.
pub fn to_glob_form(pattern: &str) -> (r: String)
    requires
        !pattern@.contains('\\'),
    ensures
        r@ == glob_form(pattern@),
        !r@.contains('\\'),
{
    if nests_little(pattern) {
        pattern.to_owned()
    } else {
        flatten(pattern)
    }
}

/// A pattern of ASCII characters without classes and alternatives, in which each `**` is a part of
/// a path by itself and does not stand behind another.
pub open spec fn is_simple(pattern: Seq<char>) -> bool {
    &&& is_ascii_text(pattern)
    &&& forall|i: int| 0 <= i < pattern.len() ==> !is_bracket(#[trigger] pattern[i])
    &&& forall|i: int| #[trigger] is_double_star(pattern, i) ==> is_own_part(pattern, i)
}

/// The characters that start or end a class or alternatives, or take the next one literally.
pub open spec fn is_bracket(c: char) -> bool {
    c == '[' || c == '{' || c == '}' || c == '\\'
}

/// Two stars stand at `i`.
pub open spec fn is_double_star(pattern: Seq<char>, i: int) -> bool {
    0 <= i && i + 1 < pattern.len() && pattern[i] == '*' && pattern[i + 1] == '*'
}

/// The two stars at `i` are a part of a path by themselves, and do not stand behind two others.
pub open spec fn is_own_part(pattern: Seq<char>, i: int) -> bool {
    &&& i == 0 || pattern[i - 1] == '/'
    &&& i + 2 == pattern.len() || pattern[i + 2] == '/'
    &&& !(i >= 3 && is_double_star(pattern, i - 3))
}

/// What a simple pattern matches in ASCII text: `**` any number of parts of a path, `*` any text
/// within a part, `?` one character within a part, and any other character itself in either case.
pub open spec fn simple_accepts(pattern: Seq<char>, value: Seq<char>) -> bool {
    if pattern == seq!['*', '*'] || pattern == seq!['*', '*', '/'] {
        true
    } else if pattern.len() > 3 && pattern.take(3) == seq!['*', '*', '/'] {
        rest_accepts(pattern.skip(3), value) || exists|k: int|
            1 <= k <= value.len() && value[k - 1] == '/' && rest_accepts(
                pattern.skip(3),
                #[trigger] value.skip(k),
            )
    } else {
        rest_accepts(pattern, value)
    }
}

/// What the rest of a simple pattern matches, behind a `**` that it may start with.
pub open spec fn rest_accepts(pattern: Seq<char>, value: Seq<char>) -> bool
    decreases pattern.len(),
{
    if pattern.len() == 0 {
        value.len() == 0
    } else if pattern == seq!['/', '*', '*'] {
        value.len() > 0 && value[0] == '/'
    } else if pattern.len() >= 4 && pattern.take(4) == seq!['/', '*', '*', '/'] {
        value.len() > 0 && value[0] == '/' && exists|k: int|
            1 <= k <= value.len() && value[k - 1] == '/' && rest_accepts(
                pattern.skip(4),
                #[trigger] value.skip(k),
            )
    } else if pattern[0] == '*' {
        exists|k: int|
            0 <= k <= value.len() && !value.take(k).contains('/') && rest_accepts(
                pattern.skip(1),
                #[trigger] value.skip(k),
            )
    } else {
        value.len() > 0 && one_accepts(pattern[0], value[0]) && rest_accepts(
            pattern.skip(1),
            value.skip(1),
        )
    }
}

/// What one character of a pattern matches.
pub open spec fn one_accepts(p: char, c: char) -> bool {
    if p == '?' {
        c != '/'
    } else {
        ascii_lower(c) == ascii_lower(p)
    }
}

/// Without braces nothing is nested.
pub proof fn no_braces_no_nesting(pattern: Seq<char>)
    requires
        forall|i: int| 0 <= i < pattern.len() ==> !is_bracket(#[trigger] pattern[i]),
    ensures
        nesting(pattern) == (Nesting { depth: 0, deepest: 0, class: ClassPart::Outside }),
    decreases pattern.len(),
{
    if pattern.len() > 0 {
        let rest = pattern.drop_last();
        assert forall|i: int| 0 <= i < rest.len() implies !is_bracket(#[trigger] rest[i]) by {
            assert(rest[i] == pattern[i]);
        }
        no_braces_no_nesting(rest);
        assert(!is_bracket(pattern[pattern.len() - 1]));
    }
}

/// Braces are nested no more deeply than there are opening ones.
proof fn nesting_is_bounded(pattern: Seq<char>)
    ensures
        nesting(pattern).depth <= nesting(pattern).deepest,
        nesting(pattern).deepest <= pattern.filter(|c: char| c == '{').len(),
    decreases pattern.len(),
{
    reveal(Seq::filter);
    if pattern.len() > 0 {
        nesting_is_bounded(pattern.drop_last());
    }
}

/// A pattern with no more than 250 opening braces is handed on as it is, however they are nested.
pub proof fn few_braces_are_left_alone(pattern: Seq<char>)
    requires
        pattern.filter(|c: char| c == '{').len() <= 250,
    ensures
        nesting(pattern).deepest <= 250,
        glob_form(pattern) == pattern,
{
    nesting_is_bounded(pattern);
}

/// Whatever pattern is handed on, nothing of it is lost but braces and commas: without these it is
/// the same as before.
pub proof fn only_braces_and_commas_are_left_out(pattern: Seq<char>)
    ensures
        glob_form(pattern).filter(|c: char| !(c == '{' || c == '}' || c == ','))
            == pattern.filter(|c: char| !(c == '{' || c == '}' || c == ',')),
{
    if nesting(pattern).deepest > MAX_NESTING {
        flat_keeps_text(pattern);
    }
}

/// All characters from the open brace `k` on are braces and commas.
spec fn is_bare(flat: Flat, k: int) -> bool {
    forall|i: int|
        flat.opens[k].0 <= i < flat.text.len() ==> ((#[trigger] flat.text[i]) == '{' || flat.text[i]
            == '}' || flat.text[i] == ',')
}

/// There is no text behind the open brace `k`, nor behind those in it.
spec fn is_textless(flat: Flat, k: int) -> bool {
    0 <= k < flat.opens.len() && forall|j: int|
        k <= j < flat.opens.len() ==> !(#[trigger] flat.opens[j]).1
}

/// Flattening keeps all characters but braces and commas: where there is no text behind an open
/// brace, there is nothing else.
proof fn flat_keeps_text(pattern: Seq<char>)
    ensures
        flat(pattern).text.filter(|c: char| !(c == '{' || c == '}' || c == ','))
            == pattern.filter(|c: char| !(c == '{' || c == '}' || c == ',')),
        forall|k: int|
            0 <= k < flat(pattern).opens.len() ==> 0 <= (#[trigger] flat(pattern).opens[k]).0
                < flat(pattern).text.len(),
        forall|k: int, l: int|
            0 <= k < l < flat(pattern).opens.len() ==> (#[trigger] flat(pattern).opens[k]).0 < (
            #[trigger] flat(pattern).opens[l]).0,
        flat(pattern).opens.len() > 0 && !flat(pattern).opens.last().1 ==> flat(
            pattern,
        ).class is Outside,
        forall|k: int| #[trigger] is_textless(flat(pattern), k) ==> is_bare(flat(pattern), k),
    decreases pattern.len(),
{
    let is_text = |c: char| !(c == '{' || c == '}' || c == ',');
    if pattern.len() > 0 {
        let rest = pattern.drop_last();
        let c = pattern.last();
        flat_keeps_text(rest);
        let before = flat(rest);
        let after = flat(pattern);
        assert(pattern =~= rest.push(c));
        filter_push(rest, c, is_text);
        filter_push(before.text, c, is_text);
        if before.class is Outside && c == '}' && before.opens.len() > 0 && !before.opens.last().1 {
            let n = before.opens.len() - 1;
            let start = before.opens.last().0;
            let kept = before.text.take(start);
            let gone = before.text.skip(start);
            assert(is_textless(before, n));
            assert(is_bare(before, n));
            assert(before.text =~= kept + gone);
            filter_of_both(kept, gone, is_text);
            assert forall|i: int| 0 <= i < gone.len() implies !is_text(#[trigger] gone[i]) by {
                assert(gone[i] == before.text[start + i]);
            }
            filter_of_nothing(gone, is_text);
            filter_push(kept, '{', is_text);
            filter_push(kept.push('{'), '}', is_text);
            assert(kept.filter(is_text) + gone.filter(is_text) =~= kept.filter(is_text));
        }
        assert forall|k: int| #[trigger] is_textless(after, k) implies is_bare(after, k) by {
            textless_stays_bare(before, c, k);
        }
    }
}

/// One more character leaves bare what has no text.
proof fn textless_stays_bare(before: Flat, c: char, k: int)
    requires
        forall|l: int| #[trigger] is_textless(before, l) ==> is_bare(before, l),
        forall|l: int|
            0 <= l < before.opens.len() ==> 0 <= (#[trigger] before.opens[l]).0
                < before.text.len(),
        forall|l: int, m: int|
            0 <= l < m < before.opens.len() ==> (#[trigger] before.opens[l]).0 < (
            #[trigger] before.opens[m]).0,
        before.opens.len() > 0 && !before.opens.last().1 ==> before.class is Outside,
        is_textless(flat_step(before, c), k),
    ensures
        is_bare(flat_step(before, c), k),
{
    let after = flat_step(before, c);
    let n = before.opens.len() - 1;
    assert(!after.opens[after.opens.len() - 1].1);
    if before.class is Outside && c == '{' {
        if k <= n {
            assert forall|j: int| k <= j < before.opens.len() implies !(
            #[trigger] before.opens[j]).1 by {
                assert(after.opens[j] == before.opens[j]);
            }
            assert(is_textless(before, k));
        }
    } else if before.class is Outside && c == '}' && before.opens.len() > 0 {
        assert(!before.opens.last().1);
        assert forall|j: int| k <= j < before.opens.len() implies !(
        #[trigger] before.opens[j]).1 by {
            if j < n {
                assert(after.opens[j] == before.opens[j]);
            }
        }
        assert(is_textless(before, k));
        assert(before.opens[k].0 < before.opens[n].0);
        assert forall|i: int| after.opens[k].0 <= i < after.text.len() implies ((
        #[trigger] after.text[i]) == '{' || after.text[i] == '}' || after.text[i] == ',') by {
            if i < before.opens[n].0 {
                assert(after.text[i] == before.text[i]);
            }
        }
    } else {
        assert(is_textless(before, k));
    }
}

/// A filter leaves nothing of a text without characters that it keeps.
proof fn filter_of_nothing(s: Seq<char>, keep: spec_fn(char) -> bool)
    requires
        forall|i: int| 0 <= i < s.len() ==> !keep(#[trigger] s[i]),
    ensures
        s.filter(keep).len() == 0,
    decreases s.len(),
{
    reveal(Seq::filter);
    if s.len() > 0 {
        assert forall|i: int| 0 <= i < s.len() - 1 implies !keep(#[trigger] s.drop_last()[i]) by {
            assert(s.drop_last()[i] == s[i]);
        }
        filter_of_nothing(s.drop_last(), keep);
        assert(!keep(s[s.len() - 1]));
    }
}

/// What a filter leaves of a text with one more character.
proof fn filter_push(s: Seq<char>, c: char, keep: spec_fn(char) -> bool)
    ensures
        s.push(c).filter(keep) == if keep(c) {
            s.filter(keep).push(c)
        } else {
            s.filter(keep)
        },
{
    reveal(Seq::filter);
    assert(s.push(c).drop_last() =~= s);
}

/// What a filter leaves of two texts, one behind the other.
proof fn filter_of_both(a: Seq<char>, b: Seq<char>, keep: spec_fn(char) -> bool)
    ensures
        (a + b).filter(keep) == a.filter(keep) + b.filter(keep),
    decreases b.len(),
{
    reveal(Seq::filter);
    if b.len() == 0 {
        assert(a + b =~= a);
        assert(a.filter(keep) + b.filter(keep) =~= a.filter(keep));
    } else {
        filter_of_both(a, b.drop_last(), keep);
        assert((a + b).drop_last() =~= a + b.drop_last());
        assert((a + b).filter(keep) =~= a.filter(keep) + b.filter(keep));
    }
}

/// Putting slashes for backslashes changes no other character, and the length of no text.
pub proof fn only_backslashes_become_slashes(s: Seq<char>, i: int)
    requires
        0 <= i < s.len(),
    ensures
        slashed(s).len() == s.len(),
        s[i] == '\\' ==> slashed(s)[i] == '/',
        s[i] != '\\' ==> slashed(s)[i] == s[i],
{
}

/// The characters that make a keyword a glob pattern are these four.
pub proof fn four_characters_make_a_glob(s: Seq<char>)
    ensures
        has_meta(s) <==> s.contains('*') || s.contains('?') || s.contains('[') || s.contains('{'),
{
    if has_meta(s) {
        let i = choose|i: int| 0 <= i < s.len() && is_glob_meta(#[trigger] s[i]);
        assert(s.contains(s[i]));
    }
    if s.contains('*') || s.contains('?') || s.contains('[') || s.contains('{') {
        let i = choose|i: int|
            0 <= i < s.len() && (s[i] == '*' || s[i] == '?' || s[i] == '[' || s[i] == '{');
        assert(is_glob_meta(s[i]));
    }
}

/// `*` and `?` do not cross parts of a path: a pattern without a separator and without `**` matches
/// only values without a separator.
pub proof fn stars_stay_in_their_part(pattern: Seq<char>, value: Seq<char>)
    requires
        !pattern.contains('/'),
        forall|i: int| !#[trigger] is_double_star(pattern, i),
        simple_accepts(pattern, value),
    ensures
        !value.contains('/'),
{
    if pattern == seq!['*', '*'] || pattern == seq!['*', '*', '/'] || (pattern.len() > 3
        && pattern.take(3) == seq!['*', '*', '/']) {
        assert(pattern[0] == pattern.take(2)[0]);
        assert(pattern.len() > 3 ==> pattern[0] == pattern.take(3)[0] && pattern[1]
            == pattern.take(3)[1]);
        assert(is_double_star(pattern, 0));
    }
    rest_stays_in_its_part(pattern, value);
}

proof fn rest_stays_in_its_part(pattern: Seq<char>, value: Seq<char>)
    requires
        !pattern.contains('/'),
        rest_accepts(pattern, value),
    ensures
        !value.contains('/'),
    decreases pattern.len(),
{
    if pattern.len() > 0 {
        assert(pattern.contains(pattern[0]));
        assert(pattern.len() >= 4 ==> pattern.take(4)[0] == pattern[0]);
        let rest = pattern.skip(1);
        assert(!rest.contains('/')) by {
            if rest.contains('/') {
                let i = choose|i: int| 0 <= i < rest.len() && rest[i] == '/';
                assert(pattern[i + 1] == '/');
            }
        }
        let k = if pattern[0] == '*' {
            choose|k: int|
                0 <= k <= value.len() && !value.take(k).contains('/') && rest_accepts(
                    rest,
                    #[trigger] value.skip(k),
                )
        } else {
            1
        };
        rest_stays_in_its_part(rest, value.skip(k));
        if value.contains('/') {
            let i = choose|i: int| 0 <= i < value.len() && value[i] == '/';
            if i < k {
                assert(value.take(k)[i] == '/');
            } else {
                assert(value.skip(k)[i - k] == '/');
            }
        }
    }
}

/// A backslash as a slash; any other character as it is.
pub open spec fn slash(c: char) -> char {
    if c == '\\' {
        '/'
    } else {
        c
    }
}

/// `s` with slashes for its backslashes.
pub open spec fn slashed(s: Seq<char>) -> Seq<char> {
    s.map_values(|c: char| slash(c))
}

/// Puts slashes for the backslashes of `s`.
pub fn with_slashes(s: &str) -> (r: String)
    ensures
        r@ == slashed(s@),
        !r@.contains('\\'),
{
    let chars = to_chars(s);
    let mut r = String::new();
    let mut i: usize = 0;
    while i < chars.len()
        invariant
            i <= chars@.len(),
            chars@ == s@,
            r@ == slashed(s@.take(i as int)),
        decreases chars@.len() - i,
    {
        let c = chars[i];
        r.push(if c == '\\' {
            '/'
        } else {
            c
        });
        assert(slashed(s@.take(i + 1)) =~= slashed(s@.take(i as int)).push(slash(c)));
        i += 1;
    }
    assert(s@.take(i as int) =~= s@);
    r
}

/// The characters that make a keyword a glob pattern.
pub open spec fn is_glob_meta(c: char) -> bool {
    c == '*' || c == '?' || c == '[' || c == '{'
}

/// `s` has a character that makes it a glob pattern.
pub open spec fn has_meta(s: Seq<char>) -> bool {
    exists|i: int| 0 <= i < s.len() && is_glob_meta(#[trigger] s[i])
}

/// Whether `s` has a character that makes it a glob pattern. A `!` has a meaning only inside
/// brackets and does not count by itself.
pub fn has_glob_meta(s: &str) -> (r: bool)
    ensures
        r == has_meta(s@),
{
    let chars = to_chars(s);
    let mut i: usize = 0;
    while i < chars.len()
        invariant
            i <= chars@.len(),
            chars@ == s@,
            forall|j: int| 0 <= j < i ==> !is_glob_meta(#[trigger] s@[j]),
        decreases chars@.len() - i,
    {
        let c = chars[i];
        if c == '*' || c == '?' || c == '[' || c == '{' {
            assert(is_glob_meta(s@[i as int]));
            return true;
        }
        i += 1;
    }
    false
}

} // verus!
