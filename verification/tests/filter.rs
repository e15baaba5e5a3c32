//! Tests of the filters and their keywords.

use evemon::filter::{decide, FilterConfig, KeywordFilter, MatcherEntry, PathFilterConfig};
use evemon::glob::{has_glob_meta, nests_little, to_glob_form, with_slashes};

fn list(keywords: &[&str]) -> Vec<String> {
    keywords.iter().map(|kw| kw.to_string()).collect()
}

fn path_filter(keyword: &str) -> PathFilterConfig {
    PathFilterConfig::new(list(&[keyword]), Vec::new())
}

#[test]
fn substring_keyword_ignores_case() {
    let filter = FilterConfig::new(list(&["chrome"]), Vec::new());
    assert!(filter.allows("chrome.exe"));
    assert!(filter.allows("Chrome.EXE"));
    assert!(!filter.allows("chromium.exe"));
    assert!(!filter.allows("firefox.exe"));
    let shouted = FilterConfig::new(list(&["CHROME"]), Vec::new());
    assert!(shouted.allows("chrome.exe"));
}

#[test]
fn substring_keyword_matches_paths() {
    let filter = path_filter("D:\\work_flow");
    assert!(filter.allows("D:\\work_flow\\foo\\bar.java"));
    assert!(filter.allows("d:\\WORK_FLOW"));
    assert!(!filter.allows("D:\\work\\flow"));
}

#[test]
fn substring_keyword_ignores_case_beyond_ascii() {
    let filter = path_filter("Ärger");
    assert!(filter.allows("C:\\äRGER.txt"));
}

#[test]
fn glob_crosses_directories_with_two_stars() {
    let filter = path_filter("D:\\work_flow\\**\\*.java");
    assert!(filter.allows("D:\\work_flow\\sub\\foo.java"));
    assert!(filter.allows("D:\\work_flow\\a\\b\\c\\foo.JAVA"));
    assert!(filter.allows("D:\\work_flow\\foo.java"));
    assert!(!filter.allows("D:\\work_flow\\sub\\foo.class"));
    assert!(!filter.allows("E:\\work_flow\\sub\\foo.java"));
}

#[test]
fn glob_matches_the_whole_value() {
    let filter = FilterConfig::new(list(&["chrome.*"]), Vec::new());
    assert!(filter.allows("chrome.exe"));
    assert!(filter.allows("Chrome.EXE"));
    assert!(!filter.allows("chrome"));
    assert!(!filter.allows("my chrome.exe"));
}

#[test]
fn one_star_stays_within_a_directory() {
    let near = path_filter("*.tmp");
    assert!(near.allows("foo.tmp"));
    assert!(!near.allows("dir\\foo.tmp"));
    let far = path_filter("**\\*.tmp");
    assert!(far.allows("foo.tmp"));
    assert!(far.allows("dir\\foo.tmp"));
    assert!(far.allows("C:\\a\\b\\foo.tmp"));
}

#[test]
fn question_mark_stays_within_a_directory() {
    let filter = path_filter("a?b");
    assert!(filter.allows("axb"));
    assert!(!filter.allows("a\\b"));
}

#[test]
fn glob_alternatives() {
    let filter = path_filter("{*.log,*.bak}");
    assert!(filter.allows("a.log"));
    assert!(filter.allows("a.bak"));
    assert!(!filter.allows("a.txt"));
}

#[test]
fn glob_classes() {
    let filter = path_filter("file[0-9].txt");
    assert!(filter.allows("FILE7.txt"));
    assert!(!filter.allows("filex.txt"));
    let negated = path_filter("file[!0-9].txt");
    assert!(negated.allows("fileX.txt"));
    assert!(!negated.allows("file7.txt"));
}

#[test]
fn broken_glob_is_as_good_as_absent() {
    assert!(MatcherEntry::compile("[").is_none());
    assert!(MatcherEntry::compile("{a").is_none());
    let white = FilterConfig::new(list(&["[", "chrome"]), Vec::new());
    assert!(white.allows("chrome.exe"));
    assert!(!white.allows("[.exe"));
    let only_broken = FilterConfig::new(list(&["["]), Vec::new());
    assert!(only_broken.allows("anything"));
    assert!(!only_broken.is_empty());
    let black = FilterConfig::new(Vec::new(), list(&["["]));
    assert!(black.allows("["));
}

#[test]
fn skipped_keywords_are_told() {
    let filter = FilterConfig::new(list(&["chrome", " [ ", ""]), list(&["{a", "*.exe"]));
    assert_eq!(filter.skipped_keywords(), [" [ ", "{a"]);
    let filter = PathFilterConfig::new(list(&["a*"]), list(&["[z-a]"]));
    assert_eq!(filter.skipped_keywords(), ["[z-a]"]);
    assert!(PathFilterConfig::default().skipped_keywords().is_empty());
}

#[test]
fn deeply_nested_braces_are_skipped() {
    let nested = |depth: usize| format!("{}a{}", "{".repeat(depth), "}".repeat(depth));
    assert!(nests_little(&nested(250)));
    assert!(!nests_little(&nested(251)));
    assert!(nests_little(&"{a}".repeat(1000)));
    assert!(nests_little(&"[{]".repeat(1000)));
    assert!(!nests_little(&"{[}]".repeat(251)));
    assert!(nests_little(&"[!]{]".repeat(1000)));
    assert!(MatcherEntry::compile(&nested(100_000)).is_none());
    assert!(MatcherEntry::compile(&nested(3)).unwrap().matches("A"));
    assert!(MatcherEntry::compile(&"{a}".repeat(300)).unwrap().matches(&"a".repeat(300)));
}

#[test]
fn braces_without_text_match_the_empty_text_at_any_depth() {
    let nested = |depth: usize| format!("{}{}", "{".repeat(depth), "}".repeat(depth));
    for depth in [1, 249, 250, 251, 100_000] {
        let entry = MatcherEntry::compile(&nested(depth)).unwrap();
        assert!(entry.matches(""));
        assert!(!entry.matches("{}"));
        assert!(!entry.matches("chrome.exe"));
    }
    let white = FilterConfig::new(list(&[&nested(251)]), Vec::new());
    assert!(!white.allows("chrome.exe"));
    assert!(white.skipped_keywords().is_empty());
    let inside = format!("a{{b,{}}}c", nested(300));
    let entry = MatcherEntry::compile(&inside).unwrap();
    assert!(entry.matches("abc"));
    assert!(!entry.matches("a{}c"));
}

#[test]
fn only_braces_without_text_are_flattened() {
    let deep = |inner: &str| format!("{}{}{}", "{".repeat(300), inner, "}".repeat(300));
    let cases = [
        ("{{}}".to_string(), "{{}}".to_string()),
        (deep(""), "{}".to_string()),
        (deep(",{,},"), "{}".to_string()),
        (deep("a"), deep("a")),
        (deep("a,{,}"), deep("a,{}")),
        (deep("[{]"), deep("[{]")),
        (format!("x{{a,{}}},y", deep("")), "x{a,{}},y".to_string()),
        (format!("[!]{}]{}*", "{{", deep("")), "[!]{{]{}*".to_string()),
        (format!("}}{}", deep("")), "}{}".to_string()),
        ("{".repeat(300), "{".repeat(300)),
    ];
    for (pattern, form) in cases {
        assert_eq!(to_glob_form(&pattern), form);
    }
}

#[test]
fn text_in_many_braces_is_no_glob() {
    let nested = |depth: usize| format!("{}a{}", "{".repeat(depth), "}".repeat(depth));
    assert!(MatcherEntry::compile(&nested(249)).unwrap().matches("a"));
    assert!(MatcherEntry::compile(&nested(250)).is_none());
    assert!(MatcherEntry::compile(&nested(251)).is_none());
    let filter = FilterConfig::new(list(&[&nested(251)]), Vec::new());
    assert_eq!(filter.skipped_keywords(), [nested(251)]);
    assert!(filter.allows("chrome.exe"));
}

#[test]
fn double_stars_stand_for_parts() {
    let cases = [
        ("**", "a\\b", true),
        ("**/", "", true),
        ("a/**", "a/", true),
        ("a/**", "a/b/c", true),
        ("a/**", "a", false),
        ("a/**/b", "a/b", true),
        ("a/**/b", "A/x/y/B", true),
        ("a/**/b", "ab", false),
        ("a/**/b", "a/xb", false),
        ("**/b", "b", true),
        ("**/b", "/b", true),
        ("**/b", "x/y/b", true),
        ("**/b", "xb", false),
        ("**/..", "a/..", true),
        ("a*c", "abc", true),
        ("a*c", "a/c", false),
        ("a*c", "ac", true),
        ("?", "", false),
        ("*", "a\nb", true),
        ("a/**/*.java", "a/b.java", true),
        ("a/**/", "a/", true),
        ("a/**/", "a/b/", true),
        ("a/**/", "a", false),
    ];
    for (pattern, value, expected) in cases {
        let entry = MatcherEntry::compile(pattern).unwrap();
        assert_eq!(entry.matches(value), expected, "{pattern} {value}");
    }
}

#[test]
fn blank_keyword_is_as_good_as_absent() {
    assert!(MatcherEntry::compile("").is_none());
    assert!(MatcherEntry::compile(" \t\u{3000} ").is_none());
    let filter = FilterConfig::new(list(&["  "]), list(&[""]));
    assert!(filter.allows("anything"));
    assert!(!filter.is_empty());
}

#[test]
fn keyword_is_trimmed() {
    match MatcherEntry::compile("  Chrome\t") {
        Some(MatcherEntry::Substring(word)) => assert_eq!(word, "chrome"),
        _ => panic!("no word"),
    }
    let filter = FilterConfig::new(list(&[" *.exe "]), Vec::new());
    assert!(filter.allows("a.exe"));
}

#[test]
fn matcher_entries_can_be_copied() {
    let word = MatcherEntry::compile("abc").unwrap();
    assert!(word.clone().matches("xABCx"));
    assert!(!word.clone().matches("xABx"));
    let glob = MatcherEntry::compile("a*").unwrap();
    assert!(glob.clone().matches("Abc"));
    assert!(!glob.clone().matches("bc"));
}

#[test]
fn empty_filter_allows_everything() {
    let filter = FilterConfig::default();
    assert!(filter.is_empty());
    assert!(filter.allows(""));
    assert!(filter.allows("chrome.exe"));
    let filter = PathFilterConfig::default();
    assert!(filter.is_empty());
    assert!(filter.allows("C:\\"));
}

#[test]
fn blacklist_wins_over_whitelist() {
    let filter = FilterConfig::new(list(&["chrome"]), list(&["helper"]));
    assert!(filter.allows("chrome.exe"));
    assert!(!filter.allows("chrome_helper.exe"));
    assert!(!filter.allows("helper.exe"));
    assert!(!filter.allows("other.exe"));
    assert!(!filter.is_empty());
}

#[test]
fn blacklist_alone_leaves_the_rest() {
    let filter = PathFilterConfig::new(Vec::new(), list(&["C:\\Windows", "**\\*.tmp"]));
    assert!(!filter.allows("c:\\windows\\system32"));
    assert!(!filter.allows("D:\\x\\y.TMP"));
    assert!(filter.allows("D:\\x\\y.txt"));
}

#[test]
fn order_of_keywords_does_not_matter() {
    let one = FilterConfig::new(list(&["a", "*.log", "c"]), Vec::new());
    let two = FilterConfig::new(list(&["c", "a", "*.log"]), Vec::new());
    for value in ["xax", "b.log", "c", "d", "b.txt"] {
        assert_eq!(one.allows(value), two.allows(value));
    }
    assert!(!one.allows("d"));
}

#[test]
fn longer_lists_change_the_verdict_one_way() {
    let short = FilterConfig::new(list(&["a"]), list(&["x"]));
    let more_white = FilterConfig::new(list(&["a", "b"]), list(&["x"]));
    let more_black = FilterConfig::new(list(&["a"]), list(&["x", "y"]));
    for value in ["a", "b", "ax", "ay", "by", "c"] {
        assert!(!short.allows(value) || more_white.allows(value));
        assert!(!more_black.allows(value) || short.allows(value));
    }
    assert!(more_white.allows("b") && !short.allows("b"));
    assert!(short.allows("ay") && !more_black.allows("ay"));
}

#[test]
fn lists_can_be_replaced() {
    let mut filter = FilterConfig::new(list(&["a"]), list(&["b"]));
    filter.set_whitelist(list(&["c"]));
    assert!(filter.allows("c"));
    assert!(!filter.allows("a"));
    assert!(!filter.allows("cb"));
    filter.set_blacklist(Vec::new());
    assert!(filter.allows("cb"));
    let mut filter = PathFilterConfig::default();
    filter.set_blacklist(list(&["*.log"]));
    assert!(!filter.allows("a.log"));
    filter.set_whitelist(list(&["x"]));
    assert!(!filter.allows("a.doc"));
    assert!(filter.allows("x.doc"));
}

#[test]
fn copies_decide_alike() {
    let filter = FilterConfig::new(list(&["a*", "b"]), list(&["c"]));
    let copy = filter.clone();
    for value in ["abc", "ab", "xb", "d", ""] {
        assert_eq!(filter.allows(value), copy.allows(value));
    }
    let filter = PathFilterConfig::new(list(&["a*", "b"]), list(&["c"]));
    let copy = filter.clone();
    assert!(copy.allows("ab"));
    assert!(!copy.allows("abc"));
    assert_eq!(filter.debug_text(), copy.debug_text());
}

#[test]
fn debug_text_shows_the_lists() {
    let filter = FilterConfig::new(list(&["a", "b\"c"]), Vec::new());
    assert_eq!(
        filter.debug_text(),
        "FilterConfig { whitelist: [\"a\", \"b\\\"c\"], blacklist: [] }"
    );
    let filter = PathFilterConfig::new(Vec::new(), list(&["x", "y", "z"]));
    assert_eq!(
        filter.debug_text(),
        "PathFilterConfig { whitelist: [], blacklist: [\"x\", \"y\", \"z\"] }"
    );
}

#[test]
fn keyword_filter_is_what_both_are_made_of() {
    let filter = KeywordFilter::new(list(&["a"]), list(&["b"]));
    assert!(filter.allows("A"));
    assert!(!filter.allows("ab"));
    assert!(!filter.is_empty());
    assert!(KeywordFilter::default().is_empty());
}

#[test]
fn decision_table() {
    assert!(decide(false, false, false));
    assert!(!decide(false, false, true));
    assert!(!decide(true, false, false));
    assert!(decide(true, true, false));
    assert!(!decide(true, true, true));
}

#[test]
fn glob_meta_characters() {
    assert!(has_glob_meta("*.java"));
    assert!(has_glob_meta("a?"));
    assert!(has_glob_meta("[a]"));
    assert!(has_glob_meta("{a,b}"));
    assert!(!has_glob_meta("chrome"));
    assert!(!has_glob_meta("!]}"));
    assert!(!has_glob_meta(""));
}

#[test]
fn backslashes_become_slashes() {
    assert_eq!(with_slashes("C:\\a\\b/c"), "C:/a/b/c");
    assert_eq!(with_slashes(""), "");
}
