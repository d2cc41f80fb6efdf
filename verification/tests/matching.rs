use adonword::matching::{any_match, glob_match, name_matches};

#[test]
fn glob_match_supports_wildcards() {
    assert!(glob_match("keylog*", "keylogger.exe"));
    assert!(glob_match("*logger.exe", "keylogger.exe"));
    assert!(glob_match("a*b*c", "aXXbYYc"));
    assert!(!glob_match("a*b*c", "aXXbYY"));
    assert!(glob_match("exact", "exact"));
    assert!(!glob_match("exact", "exactx"));
    assert!(glob_match(".*", ".hidden"));
    assert!(!glob_match(".*", "visible.txt"));
    assert!(glob_match("*", "anything"));
}

#[test]
fn name_matches_is_case_insensitive_with_globs() {
    let exact = vec!["keylogger.exe".to_string()];
    assert!(name_matches("KEYLOGGER.EXE", &exact));
    assert!(!name_matches("explorer.exe", &exact));
    let wild = vec!["keylog*".to_string()];
    assert!(name_matches("KeyloggerX", &wild));
    assert!(!name_matches("Keychain", &wild));
    assert!(name_matches("anything", &["*".to_string()]));
}

#[test]
fn a_star_takes_characters_of_any_width() {
    assert!(glob_match("*", ""));
    assert!(glob_match("*ß", "straß"));
    assert!(glob_match("日*語", "日本語"));
    assert!(!glob_match("日*語", "日本"));
    assert!(glob_match("**a**", "bab"));
    assert!(!glob_match("", "x"));
    assert!(glob_match("", ""));
}

#[test]
fn lower_case_goes_beyond_ascii() {
    assert!(name_matches("ÄRGER", &["ärger".to_string()]));
    assert!(name_matches("ärger", &["ÄR*".to_string()]));
    assert!(!name_matches("anything", &[]));
}

#[test]
fn one_pattern_of_several_is_enough() {
    let patterns = vec!["a".to_string(), "b*".to_string()];
    assert!(any_match(&patterns, "bee"));
    assert!(!any_match(&patterns, "ab"));
}
