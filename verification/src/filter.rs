//! Filters that let events through by process name or by path.

use vstd::prelude::*;

use crate::glob::{
    compile_glob, glob_accepts, glob_compiles, glob_form, glob_is_match, glob_patterns,
    has_glob_meta, has_meta, is_plain_set, is_simple, nesting, nests_little, no_braces_no_nesting,
    simple_accepts, slashed, to_glob_form, with_slashes, MAX_NESTING, MAX_SIMPLE,
};
use crate::text::{
    ascii_lower_text, contains_text, contains_word, is_ascii_text, lowercase, trim_text,
};
use crate::text_laws::found_is_contained;

verus! {

/// What a keyword looks for: a word that stands in the lower-case form of a value, or a pattern
/// that matches a whole value.
pub enum Matcher {
    Substring(Seq<char>),
    Glob(Seq<char>),
}

/// Keywords are matched in either case.
pub const ANY_CASE: bool = true;

/// In a glob pattern, `*` and `?` stay within one part of a path.
pub const WITHIN_PART: bool = true;

/// A valid glob pattern: one that `globset` takes. Text in too many braces makes none.
pub open spec fn is_glob(pattern: Seq<char>) -> bool {
    nesting(glob_form(pattern)).deepest <= MAX_NESTING && glob_compiles(
        glob_form(pattern),
        ANY_CASE,
        WITHIN_PART,
    )
}

/// What `keyword` looks for. A blank keyword looks for nothing, and so does one that is to be a
/// glob pattern and is no valid one.
pub open spec fn compiled(keyword: Seq<char>) -> Option<Matcher> {
    let kw = trim_text(keyword);
    if kw.len() == 0 {
        None
    } else if has_meta(kw) {
        if is_glob(slashed(kw)) {
            Some(Matcher::Glob(glob_form(slashed(kw))))
        } else {
            None
        }
    } else {
        Some(Matcher::Substring(lowercase(kw)))
    }
}

/// `kw` is a word of ASCII characters and no glob pattern.
pub open spec fn plain_ascii(kw: Seq<char>) -> bool {
    kw.len() > 0 && is_ascii_text(kw) && !has_meta(kw)
}

/// `kw` is a simple glob pattern that is not too long.
pub open spec fn simple_glob(kw: Seq<char>) -> bool {
    has_meta(kw) && is_simple(slashed(kw)) && kw.len() <= MAX_SIMPLE
}

/// `kw` is a word of ASCII characters or a simple glob pattern.
pub open spec fn is_simple_keyword(kw: Seq<char>) -> bool {
    plain_ascii(kw) || simple_glob(kw)
}

/// What the keywords of a list look for, without those that look for nothing.
pub open spec fn compiled_all(keywords: Seq<Seq<char>>) -> Seq<Matcher>
    decreases keywords.len(),
{
    if keywords.len() == 0 {
        Seq::empty()
    } else {
        match compiled(keywords.last()) {
            Some(m) => compiled_all(keywords.drop_last()).push(m),
            None => compiled_all(keywords.drop_last()),
        }
    }
}

/// Whether `value` is what `m` looks for.
pub open spec fn accepts(m: Matcher, value: Seq<char>) -> bool {
    match m {
        Matcher::Substring(word) => contains_word(lowercase(value), word),
        Matcher::Glob(pattern) => glob_accepts(pattern, ANY_CASE, WITHIN_PART, slashed(value)),
    }
}

/// Whether `value` is what one of `ms` looks for.
pub open spec fn any_accepts(ms: Seq<Matcher>, value: Seq<char>) -> bool {
    exists|i: int| 0 <= i < ms.len() && accepts(#[trigger] ms[i], value)
}

/// Whether a filter with these lists lets `value` through: it must be on the whitelist if there is
/// one, and must not be on the blacklist.
pub open spec fn lists_allow(
    whitelist: Seq<Seq<char>>,
    blacklist: Seq<Seq<char>>,
    value: Seq<char>,
) -> bool {
    &&& compiled_all(whitelist).len() == 0 || any_accepts(compiled_all(whitelist), value)
    &&& !any_accepts(compiled_all(blacklist), value)
}

/// All keywords of a list are words of ASCII characters or simple glob patterns.
pub open spec fn all_plain(keywords: Seq<Seq<char>>) -> bool {
    forall|i: int|
        0 <= i < keywords.len() ==> is_simple_keyword(trim_text(#[trigger] keywords[i]))
}

/// A word stands somewhere in `value`, letters in either case; a glob pattern matches the whole of
/// it, with backslashes taken for slashes.
pub open spec fn plain_accepts(keyword: Seq<char>, value: Seq<char>) -> bool {
    let kw = trim_text(keyword);
    if has_meta(kw) {
        simple_accepts(slashed(kw), slashed(value))
    } else {
        contains_word(ascii_lower_text(value), ascii_lower_text(kw))
    }
}

/// One of the keywords looks for `value`.
pub open spec fn any_plain_accepts(keywords: Seq<Seq<char>>, value: Seq<char>) -> bool {
    exists|i: int| 0 <= i < keywords.len() && plain_accepts(#[trigger] keywords[i], value)
}

/// What [`lists_allow`] comes to where all keywords are words of ASCII characters or simple glob
/// patterns, and the value is ASCII text.
pub open spec fn plain_lists_allow(
    whitelist: Seq<Seq<char>>,
    blacklist: Seq<Seq<char>>,
    value: Seq<char>,
) -> bool {
    &&& whitelist.len() == 0 || any_plain_accepts(whitelist, value)
    &&& !any_plain_accepts(blacklist, value)
}

/// What simple keywords look for is known.
spec fn lowered(keywords: Seq<Seq<char>>) -> bool {
    forall|i: int|
        0 <= i < keywords.len() && is_simple_keyword(trim_text(#[trigger] keywords[i]))
            ==> compiled(keywords[i]) == Some(simple_matcher(trim_text(keywords[i])))
}

/// What a simple keyword looks for.
spec fn simple_matcher(kw: Seq<char>) -> Matcher {
    if has_meta(kw) {
        Matcher::Glob(slashed(kw))
    } else {
        Matcher::Substring(ascii_lower_text(kw))
    }
}

/// Whether `value` is what one of `ms` looks for, if `value` is ASCII text.
spec fn any_accepts_ascii(ms: Seq<Matcher>, value: Seq<char>) -> bool {
    exists|i: int| 0 <= i < ms.len() && accepts_ascii(#[trigger] ms[i], value)
}

/// Whether `value` is what `m` looks for, if `value` is ASCII text.
spec fn accepts_ascii(m: Matcher, value: Seq<char>) -> bool {
    match m {
        Matcher::Substring(word) => contains_word(ascii_lower_text(value), word),
        Matcher::Glob(pattern) => if is_simple(pattern) {
            simple_accepts(pattern, slashed(value))
        } else {
            accepts(m, value)
        },
    }
}

/// A list of plain keywords looks for what its keywords say, one by one.
proof fn plain_list_accepts(keywords: Seq<Seq<char>>, value: Seq<char>)
    requires
        all_plain(keywords),
        lowered(keywords),
    ensures
        compiled_all(keywords).len() == keywords.len(),
        any_accepts_ascii(compiled_all(keywords), value) == any_plain_accepts(keywords, value),
{
    plain_list_compiles(keywords);
    let ms = compiled_all(keywords);
    if any_accepts_ascii(ms, value) {
        let i = choose|i: int| 0 <= i < ms.len() && accepts_ascii(#[trigger] ms[i], value);
        assert(plain_accepts(keywords[i], value));
    }
    if any_plain_accepts(keywords, value) {
        let i = choose|i: int|
            0 <= i < keywords.len() && plain_accepts(#[trigger] keywords[i], value);
        assert(accepts_ascii(ms[i], value));
    }
}

/// Each keyword of a list of simple keywords compiles to a matcher of its own.
proof fn plain_list_compiles(keywords: Seq<Seq<char>>)
    requires
        all_plain(keywords),
        lowered(keywords),
    ensures
        compiled_all(keywords).len() == keywords.len(),
        forall|i: int|
            0 <= i < keywords.len() ==> #[trigger] compiled_all(keywords)[i] == simple_matcher(
                trim_text(keywords[i]),
            ),
    decreases keywords.len(),
{
    if keywords.len() > 0 {
        let rest = keywords.drop_last();
        assert forall|i: int| 0 <= i < rest.len() implies is_simple_keyword(
            trim_text(#[trigger] rest[i]),
        ) && compiled(rest[i]) == Some(simple_matcher(trim_text(rest[i]))) by {
            assert(rest[i] == keywords[i]);
        }
        plain_list_compiles(rest);
        assert(keywords.last() == keywords[keywords.len() - 1]);
        assert(is_simple_keyword(trim_text(keywords[keywords.len() - 1])));
    }
}

/// The characters of the keywords of a list.
pub open spec fn texts(list: Seq<String>) -> Seq<Seq<char>> {
    list.map_values(|s: String| s@)
}

/// A compiled keyword.
pub enum MatcherEntry {
    /// A word in lower case, to be found in the lower-case form of a value.
    Substring(String),
    /// A glob pattern, to be matched against a whole value.
    Glob(globset::GlobSet),
}

impl MatcherEntry {
    /// The entry holds one pattern, with the settings of the filters, if it is a glob entry.
    pub open spec fn well_formed(self) -> bool {
        match self {
            MatcherEntry::Substring(_) => true,
            MatcherEntry::Glob(set) => {
                &&& is_plain_set(set)
                &&& glob_patterns(set) == seq![
                    (glob_patterns(set)[0].0, ANY_CASE, WITHIN_PART),
                ]
            },
        }
    }

    /// What the entry looks for.
    pub open spec fn matcher(self) -> Matcher {
        match self {
            MatcherEntry::Substring(word) => Matcher::Substring(word@),
            MatcherEntry::Glob(set) => Matcher::Glob(glob_patterns(set)[0].0),
        }
    }

    /// Compiles a keyword. `None` means that it is to be left out: it is blank, or is
    /// to be a glob pattern and is no valid one.
    pub fn compile(raw: &str) -> (r: Option<MatcherEntry>)
        ensures
            match compiled(raw@) {
                Some(m) => r matches Some(entry) && entry.well_formed() && entry.matcher() == m,
                None => r is None,
            },
            plain_ascii(trim_text(raw@)) ==> (r matches Some(MatcherEntry::Substring(word))
                && word@ == ascii_lower_text(trim_text(raw@))),
            simple_glob(trim_text(raw@)) ==> (r matches Some(entry) && entry.matcher()
                == Matcher::Glob(slashed(trim_text(raw@)))),
            trim_text(raw@).len() == 0 ==> r is None,
            trim_text(raw@).len() > 0 && !has_meta(trim_text(raw@)) ==> (r matches Some(
                MatcherEntry::Substring(word),
            ) && word@ == lowercase(trim_text(raw@))),
            has_meta(trim_text(raw@)) && r is Some ==> (r matches Some(MatcherEntry::Glob(set))
                && glob_patterns(set) == seq![(glob_form(slashed(trim_text(raw@))), true, true)]),
    {
        let kw = raw.trim();
        if kw.is_empty() {
            return None;
        }
        if has_glob_meta(kw) {
            let slashes = with_slashes(kw);
            let pattern = to_glob_form(&slashes);
            proof {
                if simple_glob(kw@) {
                    no_braces_no_nesting(slashes@);
                }
            }
            if !nests_little(&pattern) {
                return None;
            }
            match compile_glob(&pattern, ANY_CASE, WITHIN_PART) {
                Ok(set) => Some(MatcherEntry::Glob(set)),
                Err(_) => None,
            }
        } else {
            Some(MatcherEntry::Substring(kw.to_lowercase()))
        }
    }

    /// Whether `value` is what the entry looks for. The case of ASCII letters in it does not
    /// matter.
    pub fn matches(&self, value: &str) -> (r: bool)
        requires
            self.well_formed(),
        ensures
            r == accepts(self.matcher(), value@),
            r == accepts(self.matcher(), ascii_lower_text(value@)),
            is_ascii_text(value@) ==> (self matches MatcherEntry::Substring(word) ==> r
                == contains_word(ascii_lower_text(value@), word@)),
            is_ascii_text(value@) ==> (self.matcher() matches Matcher::Glob(pattern) ==> is_simple(
                pattern,
            ) ==> r == simple_accepts(pattern, slashed(value@))),
            self matches MatcherEntry::Substring(word) ==> (r <==> exists|
                before: Seq<char>,
                behind: Seq<char>,
            |
                lowercase(value@) == #[trigger] (before + word@ + behind)),
            self matches MatcherEntry::Glob(set) ==> r == glob_accepts(
                glob_patterns(*set)[0].0,
                true,
                true,
                slashed(value@),
            ),
    {
        match self {
            MatcherEntry::Substring(word) => {
                let lowered = value.to_lowercase();
                proof {
                    found_is_contained(lowered@, word@);
                }
                contains_text(&lowered, word)
            },
            MatcherEntry::Glob(set) => {
                let path = with_slashes(value);
                proof {
                    slashes_keep_case(value@);
                }
                let ghost pattern = self.matcher()->Glob_0;
                assert(glob_patterns(*set)[0].0 == pattern);
                let r = glob_is_match(set, &path);
                assert(is_ascii_text(value@) ==> is_ascii_text(path@));
                assert(is_simple(pattern) ==> is_simple(glob_patterns(*set)[0].0));
                r
            },
        }
    }
}

impl Clone for MatcherEntry {
    fn clone(&self) -> (copy: MatcherEntry)
        ensures
            copy.matcher() == self.matcher(),
            copy.well_formed() == self.well_formed(),
    {
        match self {
            MatcherEntry::Substring(word) => MatcherEntry::Substring(word.clone()),
            MatcherEntry::Glob(set) => MatcherEntry::Glob(set.clone()),
        }
    }
}

/// Putting slashes for backslashes and lowering ASCII letters can be done in either order.
proof fn slashes_keep_case(s: Seq<char>)
    ensures
        slashed(ascii_lower_text(s)) == ascii_lower_text(slashed(s)),
{
    assert(slashed(ascii_lower_text(s)) =~= ascii_lower_text(slashed(s)));
}

/// Whether a filter lets a value through, from what its lists say of it.
pub fn decide(has_whitelist: bool, on_whitelist: bool, on_blacklist: bool) -> (r: bool)
    ensures
        r == ((!has_whitelist || on_whitelist) && !on_blacklist),
{
    if has_whitelist && !on_whitelist {
        return false;
    }
    !on_blacklist
}

/// What the entries of a list look for.
pub open spec fn matchers(entries: Seq<MatcherEntry>) -> Seq<Matcher> {
    entries.map_values(|entry: MatcherEntry| entry.matcher())
}

/// All entries of a list are well formed.
pub open spec fn all_well_formed(entries: Seq<MatcherEntry>) -> bool {
    forall|i: int| 0 <= i < entries.len() ==> (#[trigger] entries[i]).well_formed()
}

/// Compiles the keywords of a list, leaving out those that look for nothing.
fn compile_list(keywords: &Vec<String>) -> (entries: Vec<MatcherEntry>)
    ensures
        matchers(entries@) == compiled_all(texts(keywords@)),
        all_well_formed(entries@),
        lowered(texts(keywords@)),
{
    let mut entries: Vec<MatcherEntry> = Vec::new();
    let mut i: usize = 0;
    while i < keywords.len()
        invariant
            i <= keywords@.len(),
            matchers(entries@) == compiled_all(texts(keywords@).take(i as int)),
            all_well_formed(entries@),
            lowered(texts(keywords@).take(i as int)),
        decreases keywords@.len() - i,
    {
        let ghost before = entries@;
        assert(texts(keywords@).take(i + 1).drop_last() =~= texts(keywords@).take(i as int));
        match MatcherEntry::compile(&keywords[i]) {
            Some(entry) => {
                entries.push(entry);
                assert(matchers(entries@) =~= matchers(before).push(entry.matcher()));
            },
            None => {},
        }
        assert forall|j: int|
            0 <= j < i + 1 && is_simple_keyword(
                trim_text(#[trigger] texts(keywords@).take(i + 1)[j]),
            ) implies compiled(texts(keywords@).take(i + 1)[j]) == Some(
            simple_matcher(trim_text(texts(keywords@).take(i + 1)[j])),
        ) by {
            if j < i {
                assert(texts(keywords@).take(i as int)[j] == texts(keywords@)[j]);
            }
        }
        i += 1;
    }
    assert(texts(keywords@).take(i as int) =~= texts(keywords@));
    entries
}

/// Whether `value` is what one of the entries looks for.
fn any_matches(entries: &Vec<MatcherEntry>, value: &str) -> (r: bool)
    requires
        all_well_formed(entries@),
    ensures
        r == any_accepts(matchers(entries@), value@),
        r == any_accepts(matchers(entries@), ascii_lower_text(value@)),
        is_ascii_text(value@) ==> r == any_accepts_ascii(matchers(entries@), value@),
{
    let mut i: usize = 0;
    while i < entries.len()
        invariant
            i <= entries@.len(),
            all_well_formed(entries@),
            forall|j: int|
                0 <= j < i ==> !accepts(#[trigger] matchers(entries@)[j], value@) && !accepts(
                    matchers(entries@)[j],
                    ascii_lower_text(value@),
                ) && (is_ascii_text(value@) ==> !accepts_ascii(matchers(entries@)[j], value@)),
        decreases entries@.len() - i,
    {
        assert(matchers(entries@)[i as int] == entries@[i as int].matcher());
        if entries[i].matches(value) {
            return true;
        }
        i += 1;
    }
    false
}

/// `keyword` is left out though it is not blank: it is no valid glob pattern.
pub open spec fn is_skipped(keyword: Seq<char>) -> bool {
    trim_text(keyword).len() > 0 && compiled(keyword) is None
}

/// The keywords of a list that are left out though they are not blank, in order.
pub open spec fn skipped_of(keywords: Seq<Seq<char>>) -> Seq<Seq<char>> {
    keywords.filter(|kw: Seq<char>| is_skipped(kw))
}

/// Appends the keywords of a list that are left out though they are not blank.
fn push_skipped(out: &mut Vec<String>, list: &Vec<String>)
    ensures
        texts(final(out)@) == texts(old(out)@) + skipped_of(texts(list@)),
{
    let ghost start = out@;
    let mut i: usize = 0;
    proof {
        reveal(Seq::filter);
        assert(texts(out@) =~= texts(start) + skipped_of(texts(list@).take(0)));
    }
    while i < list.len()
        invariant
            i <= list@.len(),
            texts(out@) == texts(start) + skipped_of(texts(list@).take(i as int)),
        decreases list@.len() - i,
    {
        let ghost before = out@;
        let ghost shorter = texts(list@).take(i as int);
        let ghost longer = texts(list@).take(i + 1);
        proof {
            reveal(Seq::filter);
            assert(longer.drop_last() =~= shorter);
        }
        let blank = list[i].trim().is_empty();
        if !blank && MatcherEntry::compile(&list[i]).is_none() {
            out.push(list[i].clone());
            assert(texts(out@) =~= texts(before).push(list@[i as int]@));
            assert(texts(out@) =~= texts(start) + skipped_of(longer));
        }
        i += 1;
    }
    assert(texts(list@).take(i as int) =~= texts(list@));
}

/// Copies the keywords of a list.
fn copy_list(list: &Vec<String>) -> (copy: Vec<String>)
    ensures
        copy@ == list@,
{
    let mut copy: Vec<String> = Vec::new();
    let mut i: usize = 0;
    while i < list.len()
        invariant
            i <= list@.len(),
            copy@ == list@.take(i as int),
        decreases list@.len() - i,
    {
        copy.push(list[i].clone());
        assert(list@.take(i + 1) =~= list@.take(i as int).push(list@[i as int]));
        i += 1;
    }
    assert(list@.take(i as int) =~= list@);
    copy
}

/// Copies the entries of a list.
fn copy_entries(entries: &Vec<MatcherEntry>) -> (copy: Vec<MatcherEntry>)
    requires
        all_well_formed(entries@),
    ensures
        matchers(copy@) == matchers(entries@),
        all_well_formed(copy@),
{
    let mut copy: Vec<MatcherEntry> = Vec::new();
    let mut i: usize = 0;
    while i < entries.len()
        invariant
            i <= entries@.len(),
            all_well_formed(entries@),
            matchers(copy@) == matchers(entries@).take(i as int),
            all_well_formed(copy@),
        decreases entries@.len() - i,
    {
        let ghost before = copy@;
        let entry = entries[i].clone();
        copy.push(entry);
        assert(matchers(copy@) =~= matchers(before).push(entry.matcher()));
        assert(matchers(entries@).take(i + 1) =~= matchers(entries@).take(i as int).push(
            entry.matcher(),
        ));
        i += 1;
    }
    assert(matchers(entries@).take(i as int) =~= matchers(entries@));
    copy
}

/// What stands before the whitelist in a filter's debug text.
const WHITELIST_LABEL: &'static str = " { whitelist: ";

/// What stands before the blacklist in a filter's debug text.
const BLACKLIST_LABEL: &'static str = ", blacklist: ";

/// What ends a filter's debug text.
const DEBUG_END: &'static str = " }";

/// What the debug form of a text looks like.
pub uninterp spec fn quoted(s: Seq<char>) -> Seq<char>;

/// `str`'s `Debug` puts a text between quotes and escapes what is in it. The result is only named.
#[verifier::external_body]
fn quote(s: &str) -> (r: String)
    ensures
        r@ == quoted(s@),
{
    format!("{:?}", s)
}

/// The debug forms of the texts of a list, with commas between them.
pub open spec fn quoted_items(list: Seq<Seq<char>>) -> Seq<char>
    decreases list.len(),
{
    if list.len() == 0 {
        Seq::empty()
    } else if list.len() == 1 {
        quoted(list[0])
    } else {
        quoted_items(list.drop_last()) + seq![',', ' '] + quoted(list.last())
    }
}

/// The debug form of a list of texts.
pub open spec fn list_debug(list: Seq<Seq<char>>) -> Seq<char> {
    seq!['['] + quoted_items(list) + seq![']']
}

/// The debug form of a filter: its name and its lists.
pub open spec fn filter_debug(
    name: Seq<char>,
    white: Seq<Seq<char>>,
    black: Seq<Seq<char>>,
) -> Seq<char> {
    name + " { whitelist: "@ + list_debug(white) + ", blacklist: "@ + list_debug(black) + " }"@
}

/// Appends the debug form of a list.
fn push_list_debug(out: &mut String, list: &Vec<String>)
    ensures
        final(out)@ == old(out)@ + list_debug(texts(list@)),
{
    out.push('[');
    let ghost start = out@;
    let mut i: usize = 0;
    assert(out@ =~= start + quoted_items(texts(list@).take(0)));
    while i < list.len()
        invariant
            i <= list@.len(),
            out@ == start + quoted_items(texts(list@).take(i as int)),
        decreases list@.len() - i,
    {
        let ghost before = texts(list@).take(i as int);
        let ghost after = texts(list@).take(i + 1);
        assert(after.drop_last() =~= before);
        if i > 0 {
            out.push(',');
            out.push(' ');
        }
        let item = quote(&list[i]);
        out.push_str(&item);
        assert(out@ =~= start + quoted_items(after));
        i += 1;
    }
    assert(texts(list@).take(i as int) =~= texts(list@));
    out.push(']');
    assert(out@ =~= old(out)@ + list_debug(texts(list@)));
}

/// A whitelist and a blacklist of keywords, compiled once so that a test costs little.
///
/// A keyword with one of `*`, `?`, `[` and `{` is a glob pattern for the whole value; `*` and `?`
/// stay within one part of a path, and `**` crosses parts. Any other keyword is a word that
/// stands anywhere in the value. Case does not matter in either.
pub struct KeywordFilter {
    whitelist: Vec<String>,
    blacklist: Vec<String>,
    whitelist_matchers: Vec<MatcherEntry>,
    blacklist_matchers: Vec<MatcherEntry>,
}

impl KeywordFilter {
    /// The keywords of the whitelist.
    pub closed spec fn white(self) -> Seq<Seq<char>> {
        texts(self.whitelist@)
    }

    /// The keywords of the blacklist.
    pub closed spec fn black(self) -> Seq<Seq<char>> {
        texts(self.blacklist@)
    }

    /// The entries are those of the keywords.
    #[verifier::type_invariant]
    spec fn entries_match_keywords(self) -> bool {
        &&& matchers(self.whitelist_matchers@) == compiled_all(texts(self.whitelist@))
        &&& matchers(self.blacklist_matchers@) == compiled_all(texts(self.blacklist@))
        &&& lowered(texts(self.whitelist@))
        &&& lowered(texts(self.blacklist@))
        &&& all_well_formed(self.whitelist_matchers@)
        &&& all_well_formed(self.blacklist_matchers@)
    }

    /// Makes a filter of a whitelist and a blacklist.
    pub fn new(whitelist: Vec<String>, blacklist: Vec<String>) -> (filter: KeywordFilter)
        ensures
            filter.white() == texts(whitelist@),
            filter.black() == texts(blacklist@),
    {
        let whitelist_matchers = compile_list(&whitelist);
        let blacklist_matchers = compile_list(&blacklist);
        KeywordFilter { whitelist, blacklist, whitelist_matchers, blacklist_matchers }
    }

    /// Whether both lists are empty.
    pub fn is_empty(&self) -> (r: bool)
        ensures
            r == (self.white().len() == 0 && self.black().len() == 0),
    {
        self.whitelist.len() == 0 && self.blacklist.len() == 0
    }

    /// Whether the filter lets `value` through. The case of ASCII letters in it does not matter.
    pub fn allows(&self, value: &str) -> (r: bool)
        ensures
            r == lists_allow(self.white(), self.black(), value@),
            r == lists_allow(self.white(), self.black(), ascii_lower_text(value@)),
            is_ascii_text(value@) && all_plain(self.white()) && all_plain(self.black()) ==> r
                == plain_lists_allow(self.white(), self.black(), value@),
    {
        proof {
            use_type_invariant(self);
        }
        proof {
            if all_plain(self.white()) && all_plain(self.black()) {
                plain_list_accepts(self.white(), value@);
                plain_list_accepts(self.black(), value@);
            }
        }
        let has_whitelist = self.whitelist_matchers.len() > 0;
        let on_whitelist = any_matches(&self.whitelist_matchers, value);
        let on_blacklist = any_matches(&self.blacklist_matchers, value);
        decide(has_whitelist, on_whitelist, on_blacklist)
    }

    /// Replaces the whitelist.
    pub fn set_whitelist(&mut self, whitelist: Vec<String>)
        ensures
            final(self).white() == texts(whitelist@),
            final(self).black() == old(self).black(),
    {
        *self = KeywordFilter::new(whitelist, copy_list(&self.blacklist));
    }

    /// Replaces the blacklist.
    pub fn set_blacklist(&mut self, blacklist: Vec<String>)
        ensures
            final(self).white() == old(self).white(),
            final(self).black() == texts(blacklist@),
    {
        *self = KeywordFilter::new(copy_list(&self.whitelist), blacklist);
    }

    /// The keywords that are left out though they are not blank: those of the whitelist, then those
    /// of the blacklist.
    pub fn skipped_keywords(&self) -> (skipped: Vec<String>)
        ensures
            texts(skipped@) == skipped_of(self.white()) + skipped_of(self.black()),
    {
        let mut skipped: Vec<String> = Vec::new();
        assert(texts(skipped@) =~= Seq::empty());
        push_skipped(&mut skipped, &self.whitelist);
        push_skipped(&mut skipped, &self.blacklist);
        assert(texts(skipped@) =~= skipped_of(self.white()) + skipped_of(self.black()));
        skipped
    }

    /// Appends the lists, with `name` before them.
    fn push_debug(&self, out: &mut String, name: &str)
        ensures
            final(out)@ == old(out)@ + filter_debug(name@, self.white(), self.black()),
    {
        out.push_str(name);
        out.push_str(WHITELIST_LABEL);
        push_list_debug(out, &self.whitelist);
        out.push_str(BLACKLIST_LABEL);
        push_list_debug(out, &self.blacklist);
        out.push_str(DEBUG_END);
        assert(out@ =~= old(out)@ + filter_debug(name@, self.white(), self.black()));
    }
}

impl Clone for KeywordFilter {
    fn clone(&self) -> (copy: KeywordFilter)
        ensures
            copy.white() == self.white(),
            copy.black() == self.black(),
    {
        proof {
            use_type_invariant(self);
        }
        let whitelist_matchers = copy_entries(&self.whitelist_matchers);
        let blacklist_matchers = copy_entries(&self.blacklist_matchers);
        KeywordFilter {
            whitelist: copy_list(&self.whitelist),
            blacklist: copy_list(&self.blacklist),
            whitelist_matchers,
            blacklist_matchers,
        }
    }
}

impl Default for KeywordFilter {
    fn default() -> (filter: KeywordFilter)
        ensures
            filter.white() == Seq::<Seq<char>>::empty(),
            filter.black() == Seq::<Seq<char>>::empty(),
    {
        let filter = KeywordFilter::new(Vec::new(), Vec::new());
        assert(filter.white() =~= Seq::<Seq<char>>::empty());
        assert(filter.black() =~= Seq::<Seq<char>>::empty());
        filter
    }
}

/// A filter on process names. With a whitelist only the processes on it are kept, and those on the
/// blacklist are left out; with neither, all are kept.
pub struct FilterConfig {
    lists: KeywordFilter,
}

impl FilterConfig {
    /// The keywords of the whitelist.
    pub closed spec fn white(self) -> Seq<Seq<char>> {
        self.lists.white()
    }

    /// The keywords of the blacklist.
    pub closed spec fn black(self) -> Seq<Seq<char>> {
        self.lists.black()
    }

    /// Makes a filter of a whitelist and a blacklist.
    pub fn new(whitelist: Vec<String>, blacklist: Vec<String>) -> (filter: FilterConfig)
        ensures
            filter.white() == texts(whitelist@),
            filter.black() == texts(blacklist@),
    {
        FilterConfig { lists: KeywordFilter::new(whitelist, blacklist) }
    }

    /// Replaces the whitelist.
    pub fn set_whitelist(&mut self, whitelist: Vec<String>)
        ensures
            final(self).white() == texts(whitelist@),
            final(self).black() == old(self).black(),
    {
        self.lists.set_whitelist(whitelist);
    }

    /// Replaces the blacklist.
    pub fn set_blacklist(&mut self, blacklist: Vec<String>)
        ensures
            final(self).white() == old(self).white(),
            final(self).black() == texts(blacklist@),
    {
        self.lists.set_blacklist(blacklist);
    }

    /// Whether both lists are empty.
    pub fn is_empty(&self) -> (r: bool)
        ensures
            r == (self.white().len() == 0 && self.black().len() == 0),
    {
        self.lists.is_empty()
    }

    /// Whether events of the process `process_name` are to be kept. The case of ASCII letters does
    /// not matter.
    pub fn allows(&self, process_name: &str) -> (r: bool)
        ensures
            r == lists_allow(self.white(), self.black(), process_name@),
            r == lists_allow(self.white(), self.black(), ascii_lower_text(process_name@)),
            is_ascii_text(process_name@) && all_plain(self.white()) && all_plain(self.black()) ==> r
                == plain_lists_allow(self.white(), self.black(), process_name@),
    {
        self.lists.allows(process_name)
    }

    /// The keywords that are left out though they are not blank, to be reported: those of the
    /// whitelist, then those of the blacklist.
    pub fn skipped_keywords(&self) -> (skipped: Vec<String>)
        ensures
            texts(skipped@) == skipped_of(self.white()) + skipped_of(self.black()),
    {
        self.lists.skipped_keywords()
    }

    /// The filter's name and lists, for logs.
    pub fn debug_text(&self) -> (r: String)
        ensures
            r@ == filter_debug("FilterConfig"@, self.white(), self.black()),
    {
        let mut out = String::new();
        self.lists.push_debug(&mut out, "FilterConfig");
        assert(out@ =~= filter_debug("FilterConfig"@, self.white(), self.black()));
        out
    }
}

impl Clone for FilterConfig {
    fn clone(&self) -> (copy: FilterConfig)
        ensures
            copy.white() == self.white(),
            copy.black() == self.black(),
    {
        FilterConfig { lists: self.lists.clone() }
    }
}

impl Default for FilterConfig {
    fn default() -> (filter: FilterConfig)
        ensures
            filter.white() == Seq::<Seq<char>>::empty(),
            filter.black() == Seq::<Seq<char>>::empty(),
    {
        FilterConfig { lists: KeywordFilter::default() }
    }
}

/// A filter on paths, which decides as [`FilterConfig`] does. It is asked about translated paths,
/// so its keywords are written as `C:\Windows` and not as `\Device\HarddiskVolume9\Windows`.
pub struct PathFilterConfig {
    lists: KeywordFilter,
}

impl PathFilterConfig {
    /// The keywords of the whitelist.
    pub closed spec fn white(self) -> Seq<Seq<char>> {
        self.lists.white()
    }

    /// The keywords of the blacklist.
    pub closed spec fn black(self) -> Seq<Seq<char>> {
        self.lists.black()
    }

    /// Makes a filter of a whitelist and a blacklist.
    pub fn new(whitelist: Vec<String>, blacklist: Vec<String>) -> (filter: PathFilterConfig)
        ensures
            filter.white() == texts(whitelist@),
            filter.black() == texts(blacklist@),
    {
        PathFilterConfig { lists: KeywordFilter::new(whitelist, blacklist) }
    }

    /// Replaces the whitelist.
    pub fn set_whitelist(&mut self, whitelist: Vec<String>)
        ensures
            final(self).white() == texts(whitelist@),
            final(self).black() == old(self).black(),
    {
        self.lists.set_whitelist(whitelist);
    }

    /// Replaces the blacklist.
    pub fn set_blacklist(&mut self, blacklist: Vec<String>)
        ensures
            final(self).white() == old(self).white(),
            final(self).black() == texts(blacklist@),
    {
        self.lists.set_blacklist(blacklist);
    }

    /// Whether both lists are empty.
    pub fn is_empty(&self) -> (r: bool)
        ensures
            r == (self.white().len() == 0 && self.black().len() == 0),
    {
        self.lists.is_empty()
    }

    /// Whether events on `path` are to be kept. The case of ASCII letters does not matter.
    pub fn allows(&self, path: &str) -> (r: bool)
        ensures
            r == lists_allow(self.white(), self.black(), path@),
            r == lists_allow(self.white(), self.black(), ascii_lower_text(path@)),
            is_ascii_text(path@) && all_plain(self.white()) && all_plain(self.black()) ==> r
                == plain_lists_allow(self.white(), self.black(), path@),
    {
        self.lists.allows(path)
    }

    /// The keywords that are left out though they are not blank, to be reported: those of the
    /// whitelist, then those of the blacklist.
    pub fn skipped_keywords(&self) -> (skipped: Vec<String>)
        ensures
            texts(skipped@) == skipped_of(self.white()) + skipped_of(self.black()),
    {
        self.lists.skipped_keywords()
    }

    /// The filter's name and lists, for logs.
    pub fn debug_text(&self) -> (r: String)
        ensures
            r@ == filter_debug("PathFilterConfig"@, self.white(), self.black()),
    {
        let mut out = String::new();
        self.lists.push_debug(&mut out, "PathFilterConfig");
        assert(out@ =~= filter_debug("PathFilterConfig"@, self.white(), self.black()));
        out
    }
}

impl Clone for PathFilterConfig {
    fn clone(&self) -> (copy: PathFilterConfig)
        ensures
            copy.white() == self.white(),
            copy.black() == self.black(),
    {
        PathFilterConfig { lists: self.lists.clone() }
    }
}

impl Default for PathFilterConfig {
    fn default() -> (filter: PathFilterConfig)
        ensures
            filter.white() == Seq::<Seq<char>>::empty(),
            filter.black() == Seq::<Seq<char>>::empty(),
    {
        PathFilterConfig { lists: KeywordFilter::default() }
    }
}

} // verus!
