use cup::address::text_before;
use cup::text::{
    chars_of, contains_parent_segment, is_valid_relative, join_paths, starts_with, strip_base,
    tail_from,
};

fn chars(s: &str) -> Vec<char> {
    s.chars().collect()
}

#[test]
fn chars_of_keeps_every_character() {
    assert_eq!(chars_of("a/é.ö"), vec!['a', '/', 'é', '.', 'ö']);
    assert!(chars_of("").is_empty());
}

#[test]
fn starts_with_compares_the_head() {
    assert!(starts_with(&chars("user/a"), &chars("user/")));
    assert!(starts_with(&chars("user/"), &chars("user/")));
    assert!(starts_with(&chars("user/"), &chars("")));
    assert!(!starts_with(&chars("user"), &chars("user/")));
    assert!(!starts_with(&chars("usex/a"), &chars("user/")));
}

#[test]
fn parent_segments_are_whole_segments() {
    for path in ["..", "../a", "a/..", "a/../b", "/..", "../"] {
        assert!(contains_parent_segment(&chars(path)), "{:?}", path);
    }
    for path in ["", ".", "a", "...", "a..", "..a", "a/..b/c", "a/b../c", ".a./.b."] {
        assert!(!contains_parent_segment(&chars(path)), "{:?}", path);
    }
}

#[test]
fn valid_relative_paths() {
    assert!(is_valid_relative(&chars(".config/nvim/init.lua")));
    assert!(!is_valid_relative(&chars("")));
    assert!(!is_valid_relative(&chars("/etc")));
    assert!(!is_valid_relative(&chars("a/..")));
}

#[test]
fn join_paths_puts_one_separator_between() {
    assert_eq!(join_paths("/home/ana", ".bashrc"), "/home/ana/.bashrc");
    assert_eq!(join_paths("/home/ana/", ".bashrc"), "/home/ana/.bashrc");
    assert_eq!(join_paths("/", "etc/hosts"), "/etc/hosts");
    assert_eq!(join_paths("", "etc/hosts"), "etc/hosts");
    assert_eq!(join_paths("/home/ana", ""), "/home/ana/");
    assert_eq!(join_paths("/höme", "ä"), "/höme/ä");
}

#[test]
fn tail_from_counts_characters() {
    assert_eq!(tail_from("~/é/b", 2), "é/b");
    assert_eq!(tail_from("éa", 1), "a");
    assert_eq!(tail_from("ab", 2), "");
    assert_eq!(tail_from("ab", 0), "ab");
    assert_eq!(tail_from("ab", 3), "");
}

#[test]
fn strip_base_needs_a_whole_directory() {
    assert_eq!(strip_base("/home/ana", "/home/ana/.bashrc"), Some(".bashrc".to_string()));
    assert_eq!(strip_base("/home/ana/", "/home/ana/.bashrc"), Some(".bashrc".to_string()));
    assert_eq!(strip_base("/home/ana", "/home/ana/"), Some("".to_string()));
    assert_eq!(strip_base("/home/ana", "/home/ana"), None);
    assert_eq!(strip_base("/home/ana", "/home/anabel/x"), None);
    assert_eq!(strip_base("/", "/etc/hosts"), Some("etc/hosts".to_string()));
    assert_eq!(strip_base("", "etc"), Some("etc".to_string()));
}

#[test]
fn text_order_is_by_character_code() {
    assert!(text_before("", "a"));
    assert!(!text_before("a", ""));
    assert!(!text_before("", ""));
    assert!(text_before("a", "ab"));
    assert!(text_before("ab", "b"));
    assert!(text_before("B", "a"));
    assert!(!text_before("abc", "abc"));
    let mut words = vec!["b", "é", "a", "Z", "ab", "", "z", "\u{10000}", "\u{ffff}"];
    words.sort();
    for i in 0..words.len() {
        for j in 0..words.len() {
            assert_eq!(text_before(words[i], words[j]), i < j, "{:?} {:?}", words[i], words[j]);
        }
    }
}
