use trangarbot::scrape::{extract_alt_facts, extract_facts, extract_version};
use trangarbot::strutil::{
    contains_char, join_with, remove_hash, replace_amp, split_char, starts_with, str_eq, trim,
    u64_to_string,
};

#[test]
fn str_eq_compares_by_characters() {
    assert!(str_eq("", ""));
    assert!(str_eq("abc", "abc"));
    assert!(!str_eq("abc", "abd"));
    assert!(!str_eq("abc", "ab"));
}

#[test]
fn starts_with_checks_prefixes() {
    assert!(starts_with("!learn ping", "!learn"));
    assert!(starts_with("abc", ""));
    assert!(!starts_with("ab", "abc"));
    assert!(!starts_with("xlearn", "!learn"));
}

#[test]
fn trim_strips_whitespace_on_both_sides() {
    assert_eq!(trim("  hello \t"), "hello");
    assert_eq!(trim("hello"), "hello");
    assert_eq!(trim(" \r\n "), "");
    assert_eq!(trim(""), "");
}

#[test]
fn split_and_join_round_trip() {
    let parts = split_char("a|b||c", '|');
    assert_eq!(parts, vec!["a", "b", "", "c"]);
    assert_eq!(join_with(&parts, "|"), "a|b||c");
    assert_eq!(split_char("", '|'), vec![""]);
    assert_eq!(join_with(&split_char("x", '|'), " | "), "x");
}

#[test]
fn contains_char_scans_the_text() {
    assert!(contains_char("a=b", '='));
    assert!(!contains_char("ab", '='));
}

#[test]
fn replace_amp_decodes_the_entity() {
    assert_eq!(replace_amp("a&amp;b&amp;c"), "a&b&c");
    assert_eq!(replace_amp("&amp;amp;"), "&amp;");
    assert_eq!(replace_amp("plain"), "plain");
    assert_eq!(replace_amp(""), "");
}

#[test]
fn remove_hash_strips_every_mark() {
    assert_eq!(remove_hash("#123"), "123");
    assert_eq!(remove_hash("1#2#"), "12");
    assert_eq!(remove_hash("12"), "12");
}

#[test]
fn u64_to_string_renders_decimals() {
    assert_eq!(u64_to_string(0), "0");
    assert_eq!(u64_to_string(7), "7");
    assert_eq!(u64_to_string(105), "105");
    assert_eq!(u64_to_string(18446744073709551615), "18446744073709551615");
}

#[test]
fn extract_version_finds_link_and_version() {
    let html =
        r#"<ul><li><a href="./viewtopic.php?f=3&amp;t=99" class="topictitle">Version 1.2.3</a></li></ul>"#;
    let (url, version) = extract_version(html).expect("the page holds a version post");
    assert_eq!(url, "./viewtopic.php?f=3&t=99");
    assert_eq!(version, "1.2.3");
    assert!(extract_version("<p>nothing here</p>").is_none());
}

#[test]
fn extract_facts_finds_the_post_number() {
    assert_eq!(
        extract_facts("<h2>Friday Facts #389 - whatever</h2>").as_deref(),
        Some("389")
    );
    assert!(extract_facts("no facts").is_none());
}

#[test]
fn extract_alt_facts_strips_the_hash() {
    assert_eq!(extract_alt_facts("latest post: #42.5 hooray").as_deref(), Some("42.5"));
    assert!(extract_alt_facts("no numbers").is_none());
}
