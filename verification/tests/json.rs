use adonword::json::{
    merge_value, parse_json, parse_toml, render_compact, render_pretty, sort_keys, Json,
};

fn json(text: &str) -> Json {
    match parse_json(text.as_bytes()) {
        Ok(j) => j,
        Err(e) => panic!("{e}"),
    }
}

#[test]
fn documents_are_read_and_printed() {
    let text = r#"{"b":[1,-2,2.5,null,true,"x\n"],"a":{}}"#;
    assert_eq!(render_compact(&json(text)), text);
    assert_eq!(
        render_pretty(&json(r#"{"a":[1]}"#)),
        "{\n  \"a\": [\n    1\n  ]\n}"
    );
}

#[test]
fn pretty_text_reads_back() {
    let j = json(r#"{"k":["v",{"n":18446744073709551615}],"z":-9223372036854775808}"#);
    let again = json(&render_pretty(&j));
    assert_eq!(render_compact(&again), render_compact(&j));
}

#[test]
fn what_is_no_json_is_an_error() {
    assert!(parse_json(b"{").is_err());
    assert!(parse_json(b"1 2").is_err());
    assert!(parse_json(&[34, 255, 34]).is_err());
    assert!(parse_toml("a = ").is_err());
}

#[test]
fn toml_becomes_a_document() {
    match parse_toml("[a]\nb = [1, \"x\"]\nc = true\n") {
        Ok(j) => assert_eq!(render_compact(&sort_keys(&j)), r#"{"a":{"b":[1,"x"],"c":true}}"#),
        Err(e) => panic!("{e}"),
    }
}

#[test]
fn patches_merge_objects_and_replace_all_else() {
    let target = json(r#"{"a":{"x":1,"y":[1,2]},"b":1}"#);
    let patch = json(r#"{"a":{"y":[3],"z":{}},"b":{"c":2},"d":null}"#);
    assert_eq!(
        render_compact(&sort_keys(&merge_value(&target, &patch))),
        r#"{"a":{"x":1,"y":[3],"z":{}},"b":{"c":2},"d":null}"#
    );
    assert_eq!(render_compact(&merge_value(&target, &json("7"))), "7");
}

#[test]
fn keys_are_sorted_at_every_level() {
    assert_eq!(
        render_compact(&sort_keys(&json(r#"{"b":{"d":1,"c":2},"a":[{"y":1,"x":2}]}"#))),
        r#"{"a":[{"x":2,"y":1}],"b":{"c":2,"d":1}}"#
    );
}

#[test]
fn members_are_found_by_kind() {
    let j = json(r#"{"s":"t","n":5,"m":-5,"f":1.5,"e":1e2}"#);
    assert_eq!(j.get_str("s"), Some("t"));
    assert_eq!(j.get_str("n"), None);
    assert_eq!(j.get_u64("n"), Some(5));
    assert_eq!(j.get_u64("m"), None);
    assert_eq!(j.get_u64("f"), None);
    assert_eq!(j.get_u64("e"), None);
    assert!(j.get("x").is_none());
    assert!(json("[1]").get("0").is_none());
    assert_eq!(render_compact(&j.copy()), render_compact(&j));
}
