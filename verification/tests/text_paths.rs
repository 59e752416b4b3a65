use ftm::path_util::{
    file_extension, normalize_rel_path, path_under_prefix, trim_trailing_slashes,
};
use ftm::path_util::is_valid_rel_key;
use ftm::text::{
    join_comma, parse_u64, split_string, str_ends_with, str_less, str_starts_with, trim_str,
    u64_to_string,
};

#[test]
fn normalize_replaces_backslashes() {
    assert_eq!(normalize_rel_path("a\\b\\c.txt"), "a/b/c.txt");
    assert_eq!(normalize_rel_path("a/b"), "a/b");
    assert_eq!(normalize_rel_path(""), "");
}

#[test]
fn extension_follows_last_dot_of_name() {
    assert_eq!(file_extension("a/b.tar.gz"), Some("gz".to_string()));
    assert_eq!(file_extension("a.rs"), Some("rs".to_string()));
    assert_eq!(file_extension("dir.d/plain"), None);
    assert_eq!(file_extension(".gitignore"), None);
    assert_eq!(file_extension("a/.hidden.txt"), Some("txt".to_string()));
    assert_eq!(file_extension("trailing."), Some("".to_string()));
}

#[test]
fn prefix_relation_is_component_wise() {
    assert!(path_under_prefix("dir/a.txt", "dir"));
    assert!(path_under_prefix("dir", "dir"));
    assert!(!path_under_prefix("dir2/a.txt", "dir"));
    assert!(!path_under_prefix("di", "dir"));
}

#[test]
fn trailing_slashes_are_trimmed() {
    assert_eq!(trim_trailing_slashes("dir///"), "dir");
    assert_eq!(trim_trailing_slashes("dir"), "dir");
    assert_eq!(trim_trailing_slashes("///"), "");
}

#[test]
fn parse_u64_accepts_digits_only() {
    assert_eq!(parse_u64("0"), Some(0));
    assert_eq!(parse_u64("12345"), Some(12345));
    assert_eq!(parse_u64("18446744073709551615"), Some(u64::MAX));
    assert_eq!(parse_u64("18446744073709551616"), None);
    assert_eq!(parse_u64(""), None);
    assert_eq!(parse_u64("1a"), None);
    assert_eq!(parse_u64("-1"), None);
    assert_eq!(parse_u64("+1"), None);
}

#[test]
fn u64_renders_in_decimal() {
    assert_eq!(u64_to_string(0), "0");
    assert_eq!(u64_to_string(7), "7");
    assert_eq!(u64_to_string(12345), "12345");
    assert_eq!(u64_to_string(u64::MAX), "18446744073709551615");
}

#[test]
fn split_and_join_round() {
    let parts = split_string("a,b,,c", ',');
    assert_eq!(parts, vec!["a", "b", "", "c"]);
    assert_eq!(split_string("", ','), vec![""]);
    let joined = join_comma(&vec!["x".to_string(), "y".to_string()]);
    assert_eq!(joined, "x,y");
    assert_eq!(join_comma(&vec![]), "");
}

#[test]
fn trim_removes_blanks_on_both_sides() {
    assert_eq!(trim_str("  a b \t"), "a b");
    assert_eq!(trim_str("ab"), "ab");
    assert_eq!(trim_str(" \t "), "");
}

#[test]
fn string_prefix_and_suffix_checks() {
    assert!(str_starts_with("abcdef", "abc"));
    assert!(!str_starts_with("ab", "abc"));
    assert!(str_ends_with("main.rs", ".rs"));
    assert!(!str_ends_with("main.rss", ".rs"));
    assert!(str_ends_with("x", ""));
}

#[test]
fn rel_keys_reject_upward_and_absolute_paths() {
    assert!(is_valid_rel_key("a.txt"));
    assert!(is_valid_rel_key("dir\\a.txt"));
    assert!(is_valid_rel_key("a..b/c"));
    assert!(is_valid_rel_key("..a/b"));
    assert!(!is_valid_rel_key(""));
    assert!(!is_valid_rel_key("/etc/passwd"));
    assert!(!is_valid_rel_key("../x"));
    assert!(!is_valid_rel_key("a/../b"));
    assert!(!is_valid_rel_key("a/.."));
}

#[test]
fn lexicographic_order_on_strings() {
    assert!(str_less("abc", "abd"));
    assert!(str_less("ab", "abc"));
    assert!(!str_less("abc", "abc"));
    assert!(!str_less("b", "abc"));
}
