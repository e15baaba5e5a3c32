//! Tests of the saved settings.

use evemon::config::{
    config_text, load, trim_keywords, AppConfig, ConfigRead, FilterConfigDto, FilterModeDto,
};

fn dto(mode: FilterModeDto, keywords: &[&str]) -> FilterConfigDto {
    FilterConfigDto { mode, keywords: keywords.iter().map(|kw| kw.to_string()).collect() }
}

fn config(process: FilterConfigDto, path: FilterConfigDto) -> AppConfig {
    AppConfig { process_filter: process, path_filter: path }
}

#[test]
fn defaults_are_off() {
    let config = AppConfig::default();
    assert_eq!(config.process_filter.mode, FilterModeDto::Off);
    assert!(config.process_filter.keywords.is_empty());
    assert_eq!(config.path_filter.mode, FilterModeDto::Off);
    assert!(config.path_filter.keywords.is_empty());
    assert_eq!(FilterModeDto::default(), FilterModeDto::Off);
    assert!(config.to_process_filter().is_empty());
    assert!(config.to_path_filter().is_empty());
}

#[test]
fn off_ignores_the_keywords() {
    let config = config(
        dto(FilterModeDto::Off, &["chrome"]),
        dto(FilterModeDto::Off, &["C:\\"]),
    );
    assert!(config.to_process_filter().is_empty());
    assert!(config.to_process_filter().allows("firefox.exe"));
    assert!(config.to_path_filter().is_empty());
    assert!(config.to_path_filter().allows("D:\\x"));
}

#[test]
fn whitelist_takes_effect() {
    let config = config(
        dto(FilterModeDto::Whitelist, &["chrome", " firefox "]),
        dto(FilterModeDto::Whitelist, &["**\\*.java"]),
    );
    let process = config.to_process_filter();
    assert!(process.allows("Chrome.exe"));
    assert!(process.allows("firefox.exe"));
    assert!(!process.allows("edge.exe"));
    let path = config.to_path_filter();
    assert!(path.allows("D:\\a\\b.java"));
    assert!(!path.allows("D:\\a\\b.class"));
}

#[test]
fn blacklist_takes_effect() {
    let config = config(
        dto(FilterModeDto::Blacklist, &["chrome"]),
        dto(FilterModeDto::Blacklist, &["C:\\Windows"]),
    );
    assert!(!config.to_process_filter().allows("chrome.exe"));
    assert!(config.to_process_filter().allows("edge.exe"));
    assert!(!config.to_path_filter().allows("c:\\windows\\x"));
    assert!(config.to_path_filter().allows("D:\\x"));
}

#[test]
fn the_two_filters_are_independent() {
    let config = config(
        dto(FilterModeDto::Whitelist, &["a"]),
        dto(FilterModeDto::Blacklist, &["b"]),
    );
    assert!(!config.to_process_filter().allows("b"));
    assert!(config.to_path_filter().allows("a"));
    assert_eq!(
        config.to_process_filter().debug_text(),
        "FilterConfig { whitelist: [\"a\"], blacklist: [] }"
    );
    assert_eq!(
        config.to_path_filter().debug_text(),
        "PathFilterConfig { whitelist: [], blacklist: [\"b\"] }"
    );
}

#[test]
fn blank_keywords_make_an_empty_filter() {
    let config = config(
        dto(FilterModeDto::Whitelist, &["", "  ", "\t"]),
        dto(FilterModeDto::Blacklist, &[]),
    );
    assert!(config.to_process_filter().is_empty());
    assert!(config.to_process_filter().allows("x"));
    assert!(config.to_path_filter().is_empty());
}

#[test]
fn keywords_are_trimmed_in_order() {
    let raw: Vec<String> =
        ["  a ", "", "b", " \u{3000} ", "\tc d\r\n"].iter().map(|s| s.to_string()).collect();
    let trimmed = trim_keywords(&raw);
    assert_eq!(trimmed, ["a", "b", "c d"]);
    assert_eq!(trim_keywords(&trimmed), trimmed);
    assert!(trim_keywords(&[]).is_empty());
}

#[test]
fn missing_and_malformed_files_give_the_defaults() {
    let missing = load(ConfigRead::Missing).unwrap();
    assert_eq!(missing.process_filter.mode, FilterModeDto::Off);
    assert!(missing.path_filter.keywords.is_empty());
    let malformed = load(ConfigRead::Malformed("expected `,`".to_string())).unwrap();
    assert_eq!(malformed.path_filter.mode, FilterModeDto::Off);
    assert!(malformed.process_filter.keywords.is_empty());
}

#[test]
fn unreadable_file_is_an_error() {
    let error = load(ConfigRead::Unreadable("permission denied".to_string())).unwrap_err();
    assert_eq!(error.reason, "permission denied");
}

#[test]
fn parsed_settings_are_taken_as_they_are() {
    let parsed = config(
        dto(FilterModeDto::Whitelist, &[" chrome "]),
        dto(FilterModeDto::Off, &["x"]),
    );
    let loaded = load(ConfigRead::Parsed(parsed.clone())).unwrap();
    assert_eq!(loaded.process_filter.mode, FilterModeDto::Whitelist);
    assert_eq!(loaded.process_filter.keywords, [" chrome "]);
    assert_eq!(loaded.path_filter.mode, FilterModeDto::Off);
    assert_eq!(loaded.path_filter.keywords, ["x"]);
    assert_eq!(parsed.process_filter.keywords, [" chrome "]);
}

#[test]
fn file_text_ends_the_line() {
    assert_eq!(config_text("{}".to_string()), "{}\n");
}
