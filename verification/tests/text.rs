use adonword::hashing::{digest_text, sha256_hex};
use adonword::paths::{join_path, path_string, Dir};
use adonword::text::{comes_before, decimal_text, numeral_text, same_text, starts_with, trim};
use adonword::textmap::TextMap;

#[test]
fn content_hashes_are_those_of_sha256() {
    assert_eq!(
        sha256_hex(b""),
        "e3b0c44298fc1c149afbf4c8996fb92427ae41e4649b934ca495991b7852b855"
    );
    assert_eq!(
        sha256_hex(b"abc"),
        "ba7816bf8f01cfea414140de5dae2223b00361a396177a9cb410ff61f20015ad"
    );
    assert_eq!(digest_text(&[0, 15, 160, 255]), "000fa0ff");
}

#[test]
fn numerals_have_no_leading_zero() {
    assert_eq!(decimal_text(0), "0");
    assert_eq!(decimal_text(10), "10");
    assert_eq!(decimal_text(u64::MAX), "18446744073709551615");
    assert_eq!(numeral_text(255, 16), "ff");
    assert_eq!(numeral_text(4096, 16), "1000");
}

#[test]
fn white_space_is_trimmed_on_both_sides() {
    assert_eq!(trim("  a b\t\n"), "a b");
    assert_eq!(trim("\u{3000}x\u{a0}"), "x");
    assert_eq!(trim(" \r\n "), "");
    assert_eq!(trim("x"), "x");
}

#[test]
fn texts_are_ordered_by_their_characters() {
    assert!(comes_before("a", "b"));
    assert!(comes_before("a", "aa"));
    assert!(comes_before("Z", "a"));
    assert!(comes_before("", "a"));
    assert!(!comes_before("a", "a"));
    assert!(comes_before("z", "é"));
    assert!(same_text("é", "é"));
    assert!(!same_text("é", "e"));
    assert!(starts_with("notifications/x", "notifications/"));
    assert!(!starts_with("note", "notifications/"));
}

#[test]
fn paths_have_slashes() {
    assert_eq!(path_string("C:\\dir\\file"), "C:/dir/file");
    assert_ne!(join_path(&Dir::new("/d", '/'), "a"), join_path(&Dir::new("/d", '/'), "b"));
}

#[test]
fn paths_are_joined_as_the_platform_does() {
    let unix = |dir: &str| join_path(&Dir::new(dir, '/'), "state.json");
    assert_eq!(unix("/data"), "/data/state.json");
    assert_eq!(unix("/data/"), "/data/state.json");
    assert_eq!(unix("a\\"), "a\\/state.json");
    assert_eq!(unix(""), "state.json");
    assert_eq!(unix("c:"), "c:/state.json");
    let windows = |dir: &str| join_path(&Dir::new(dir, '\\'), "state.json");
    assert_eq!(windows("C:\\data"), "C:\\data\\state.json");
    assert_eq!(windows("C:\\data\\"), "C:\\data\\state.json");
    assert_eq!(windows("C:/data/"), "C:/data/state.json");
    assert_eq!(windows("C:"), "C:state.json");
}

#[test]
fn a_text_map_keeps_its_keys_in_order() {
    let map: TextMap<u32> = TextMap::new();
    assert!(map.is_empty());
    let map = map
        .with("b".to_string(), 2)
        .with("a".to_string(), 1)
        .with("c".to_string(), 3)
        .with("b".to_string(), 20)
        .with_first("a".to_string(), 10);
    assert_eq!(map.len(), 3);
    assert_eq!(map.entry(0).0, "a");
    assert_eq!(map.entry(1).0, "b");
    assert_eq!(map.entry(2).0, "c");
    assert_eq!(map.get("a"), Some(&1));
    assert_eq!(map.get("b"), Some(&20));
    assert_eq!(map.get("x"), None);
    assert!(map.contains_key("c"));
}
