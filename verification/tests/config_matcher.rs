use ftm::config::Config;

#[test]
fn default_config_values() {
    let c = Config::default();
    assert_eq!(c.settings.max_history, 10000);
    assert_eq!(c.settings.max_file_size, 30 * 1024 * 1024);
    assert_eq!(c.settings.max_quota, 1024 * 1024 * 1024);
    assert_eq!(c.settings.scan_interval, 300);
    assert_eq!(c.settings.clean_interval, 3600);
    assert_eq!(c.watch.patterns.len(), 14);
    assert_eq!(c.watch.patterns[0], "*.rs");
    assert_eq!(c.watch.exclude.len(), 4);
    assert_eq!(c.watch.exclude[3], "**/.ftm/**");
}

#[test]
fn matches_path_by_extension() {
    let c = Config::default();
    assert!(c.matches_path("src/main.rs"));
    assert!(c.matches_path("notes.md"));
    assert!(!c.matches_path("binary.exe"));
    assert!(!c.matches_path("no_extension"));
    assert!(!c.matches_path(".gitignore"));
}

#[test]
fn matches_path_respects_excludes() {
    let c = Config::default();
    assert!(!c.matches_path("target/debug/build.rs"));
    assert!(!c.matches_path("sub/node_modules/pkg/index.js"));
    assert!(!c.matches_path(".ftm/index.json"));
    assert!(c.matches_path("src/lib.rs"));
}

#[test]
fn matches_path_normalizes_separators() {
    let c = Config::default();
    assert!(c.matches_path("dir\\file.rs"));
    assert!(!c.matches_path("target\\file.rs"));
}

#[test]
fn excluded_dir_prunes_with_trailing_slash() {
    let mut c = Config::default();
    c.set_value("watch.exclude", "build/**").unwrap();
    // "build" itself matches only through the directory form "build/".
    assert!(c.is_excluded_dir("build"));
    assert!(!c.is_excluded_dir("src"));
}

#[test]
fn invalid_exclude_pattern_matches_nothing() {
    let mut c = Config::default();
    c.set_value("watch.exclude", "a[").unwrap();
    assert!(c.matches_path("a.rs"));
}

#[test]
fn config_get_known_keys() {
    let c = Config::default();
    assert_eq!(c.get_value("settings.max_history").unwrap(), "10000");
    assert_eq!(c.get_value("settings.max_quota").unwrap(), "1073741824");
    let pats = c.get_value("watch.patterns").unwrap();
    assert!(pats.starts_with("*.rs,*.py,"));
    assert_eq!(
        c.get_value("watch.exclude").unwrap(),
        "**/target/**,**/node_modules/**,**/.git/**,**/.ftm/**"
    );
}

#[test]
fn config_get_unknown_key_fails() {
    let c = Config::default();
    assert!(c.get_value("settings.web_port").is_err());
}

#[test]
fn config_set_numeric_keys() {
    let mut c = Config::default();
    c.set_value("settings.max_history", "50").unwrap();
    assert_eq!(c.settings.max_history, 50);
    c.set_value("settings.max_file_size", "1024").unwrap();
    assert_eq!(c.settings.max_file_size, 1024);
    c.set_value("settings.max_quota", "99").unwrap();
    assert_eq!(c.settings.max_quota, 99);
}

#[test]
fn config_set_rejects_bad_numbers() {
    let mut c = Config::default();
    assert!(c.set_value("settings.max_history", "abc").is_err());
    assert!(c.set_value("settings.max_history", "").is_err());
    assert!(c.set_value("settings.max_history", "-3").is_err());
    assert_eq!(c.settings.max_history, 10000);
}

#[test]
fn config_set_quota_must_be_positive() {
    let mut c = Config::default();
    assert!(c.set_value("settings.max_quota", "0").is_err());
    assert_eq!(c.settings.max_quota, 1024 * 1024 * 1024);
}

#[test]
fn config_set_intervals_have_minimum() {
    let mut c = Config::default();
    assert!(c.set_value("settings.scan_interval", "1").is_err());
    c.set_value("settings.scan_interval", "2").unwrap();
    assert_eq!(c.settings.scan_interval, 2);
    assert!(c.set_value("settings.clean_interval", "0").is_err());
    c.set_value("settings.clean_interval", "7200").unwrap();
    assert_eq!(c.settings.clean_interval, 7200);
}

#[test]
fn config_set_list_splits_and_trims() {
    let mut c = Config::default();
    c.set_value("watch.patterns", "*.rs, *.go ,*.c").unwrap();
    assert_eq!(c.watch.patterns, vec!["*.rs", "*.go", "*.c"]);
    assert_eq!(c.get_value("watch.patterns").unwrap(), "*.rs,*.go,*.c");
}

#[test]
fn config_set_unknown_key_fails() {
    let mut c = Config::default();
    assert!(c.set_value("settings.unknown", "1").is_err());
}

#[test]
fn config_set_patterns_changes_matching() {
    let mut c = Config::default();
    assert!(!c.matches_path("main.zig"));
    c.set_value("watch.patterns", "*.zig").unwrap();
    assert!(c.matches_path("main.zig"));
    assert!(!c.matches_path("main.rs"));
}
