use adonword::config::{
    apply_config_overrides, config_path, data_dir, default_true, load_effective, settle_config,
    Config, ConfigError,
};
use adonword::json::{parse_json, parse_toml, Json};
use adonword::paths::Dir;
use adonword::ports::{expand_ports, parse_port, parse_range, PortSpec, RangeError};

fn json(text: &str) -> Json {
    match parse_json(text.as_bytes()) {
        Ok(j) => j,
        Err(e) => panic!("{e}"),
    }
}

fn from_toml(text: &str) -> Config {
    match load_effective(true, "adonword.toml", Some(text), None) {
        Ok((cfg, warnings)) => {
            assert!(warnings.is_empty());
            cfg
        }
        Err(e) => panic!("{}", e.message()),
    }
}

#[test]
fn default_config_has_alert_unlisted_true() {
    let cfg = from_toml("");
    assert!(cfg.ports.alert_unlisted);
    assert!(cfg.watch.paths.is_empty());
    assert!(cfg.process.blocklist.is_empty());
    assert_eq!(cfg.ports.allowed.len(), 5);
}

#[test]
fn parse_full_config() {
    let text = r#"
[watch]
paths = ["/tmp/a", "/tmp/b"]
exclude = [".*"]

[process]
blocklist = ["keylogger.exe"]
allowlist = []

[ports]
allowed = [8751, "8000-8100"]
alert_unlisted = false

[alert]
webhook_url = "http://example.com/hook"
"#;
    let cfg = from_toml(text);
    assert_eq!(cfg.watch.paths, vec!["/tmp/a", "/tmp/b"]);
    assert_eq!(cfg.watch.exclude, vec![".*"]);
    assert_eq!(cfg.process.blocklist, vec!["keylogger.exe"]);
    assert!(!cfg.ports.alert_unlisted);
    assert_eq!(cfg.ports.allowed.len(), 2);
    assert_eq!(cfg.alert.webhook_url, "http://example.com/hook");
}

#[test]
fn expand_ports_single_range_mixed() {
    let specs = vec![
        PortSpec::Port(8751),
        PortSpec::Range("8000-8100".to_string()),
        PortSpec::Port(9001),
    ];
    let (ports, warnings) = expand_ports(&specs);
    assert!(warnings.is_empty(), "unexpected warnings: {warnings:?}");
    assert_eq!(ports.len(), 103); // 8751 + 8000..=8100 (101) + 9001
    assert!(ports.contains(&8751));
    assert!(ports.contains(&8000));
    assert!(ports.contains(&8100));
    assert!(ports.contains(&9001));
}

#[test]
fn expand_ports_deduplicates_overlaps() {
    let specs = vec![
        PortSpec::Port(8754),
        PortSpec::Range("8750-8760".to_string()),
    ];
    let (ports, warnings) = expand_ports(&specs);
    assert!(warnings.is_empty());
    assert_eq!(ports.len(), 11);
}

#[test]
fn expand_ports_invalid_entries_warn() {
    let specs = vec![
        PortSpec::Range("abc".to_string()),
        PortSpec::Range("10-5".to_string()),
    ];
    let (ports, warnings) = expand_ports(&specs);
    assert!(ports.is_empty());
    assert_eq!(warnings.len(), 2);
}

#[test]
fn stdin_overrides_replace_sections_and_keep_defaults() {
    let cfg = Config::default();
    let stdin = json(r#"{"watch":{"paths":["/tmp/x"]}}"#);
    let merged = match apply_config_overrides(&cfg, &stdin) {
        Ok(c) => c,
        Err(e) => panic!("{}", e.message()),
    };
    assert_eq!(merged.watch.paths, vec!["/tmp/x"]);
    assert!(merged.ports.alert_unlisted);
    assert_eq!(merged.ports.allowed.len(), 5);
}

#[test]
fn expand_ports_says_what_is_wrong() {
    let specs = vec![
        PortSpec::Range("abc".to_string()),
        PortSpec::Range("10-5".to_string()),
        PortSpec::Range(" 1 - 99999 ".to_string()),
    ];
    let (_, warnings) = expand_ports(&specs);
    assert_eq!(warnings.len(), 3);
    assert!(warnings[0].contains("'abc'"));
    assert!(warnings[0].contains("expected format 'start-end', e.g. '8000-8100'"));
    assert!(warnings[1].contains("start port 10 is greater than end port 5"));
    assert!(warnings[2].contains("'99999' is not a valid port"));
}

#[test]
fn ranges_are_inclusive_and_tell_their_errors() {
    assert_eq!(parse_range("8-10"), Ok(vec![8, 9, 10]));
    assert_eq!(parse_range(" 7 - 7 "), Ok(vec![7]));
    assert_eq!(parse_range("8000"), Err(RangeError::NoDash));
    assert_eq!(
        parse_range("x-1"),
        Err(RangeError::BadPort("x".to_string()))
    );
    assert_eq!(
        parse_range("1-2-3"),
        Err(RangeError::BadPort("2-3".to_string()))
    );
    assert_eq!(parse_range("9-8"), Err(RangeError::Reversed(9, 8)));
    assert_eq!(
        RangeError::Reversed(9, 8).message(),
        "start port 9 is greater than end port 8"
    );
    assert_eq!(
        RangeError::BadPort("x".to_string()).message(),
        "'x' is not a valid port"
    );
}

#[test]
fn the_whole_range_of_ports_is_admitted() {
    let specs = vec![PortSpec::Range("0-65535".to_string())];
    let (ports, warnings) = expand_ports(&specs);
    assert!(warnings.is_empty());
    assert_eq!(ports.len(), 65536);
}

#[test]
fn ports_are_parsed_like_numbers() {
    assert_eq!(parse_port("0"), Some(0));
    assert_eq!(parse_port("65535"), Some(65535));
    assert_eq!(parse_port("65536"), None);
    assert_eq!(parse_port("+80"), Some(80));
    assert_eq!(parse_port("00080"), Some(80));
    assert_eq!(parse_port("-1"), None);
    assert_eq!(parse_port("+"), None);
    assert_eq!(parse_port(""), None);
}

#[test]
fn two_allowlists_admit_what_either_admits() {
    let both = vec![
        PortSpec::Range("1-3".to_string()),
        PortSpec::Port(9),
        PortSpec::Range("bad".to_string()),
    ];
    let (ports, warnings) = expand_ports(&both);
    let list: Vec<u16> = ports.into_iter().collect();
    assert_eq!(list, vec![1, 2, 3, 9]);
    assert_eq!(warnings.len(), 1);
}

#[test]
fn overrides_change_only_the_fields_they_name() {
    let cfg = from_toml("[watch]\npaths = [\"/a\"]\nexclude = [\"*.log\"]\n");
    let stdin = json(r#"{"watch":{"paths":["/b"]},"ports":{"alert_unlisted":false},"junk":1}"#);
    let merged = match apply_config_overrides(&cfg, &stdin) {
        Ok(c) => c,
        Err(e) => panic!("{}", e.message()),
    };
    assert_eq!(merged.watch.paths, vec!["/b"]);
    assert_eq!(merged.watch.exclude, vec!["*.log"]);
    assert!(!merged.ports.alert_unlisted);
    assert_eq!(merged.ports.allowed.len(), 5);
}

#[test]
fn overrides_without_sections_change_nothing() {
    let cfg = from_toml("[process]\nblocklist = [\"x\"]\n");
    let merged = match apply_config_overrides(&cfg, &json(r#"{"interval":5}"#)) {
        Ok(c) => c,
        Err(e) => panic!("{}", e.message()),
    };
    assert_eq!(merged.process.blocklist, vec!["x"]);
}

#[test]
fn overrides_of_the_wrong_shape_are_refused() {
    let stdin = json(r#"{"watch":{"paths":"/tmp"}}"#);
    match load_effective(true, "c.toml", Some(""), Some(&stdin)) {
        Err(ConfigError::Override(e)) => assert_eq!(e, "unexpected value at watch.paths"),
        _ => panic!("an error was expected"),
    }
}

#[test]
fn a_missing_config_is_an_error_only_where_it_was_asked_for() {
    match load_effective(false, "/d/adonword.toml", None, None) {
        Ok((cfg, warnings)) => {
            assert!(cfg.ports.alert_unlisted);
            assert_eq!(
                warnings,
                vec!["warning: no config file at /d/adonword.toml; using defaults"]
            );
        }
        Err(_) => panic!("defaults were expected"),
    }
    match load_effective(true, "/d/adonword.toml", None, None) {
        Err(e) => assert_eq!(e.message(), "config file not found: /d/adonword.toml"),
        Ok(_) => panic!("an error was expected"),
    }
}

#[test]
fn a_config_that_is_no_toml_is_an_error() {
    match load_effective(true, "c.toml", Some("[watch"), None) {
        Err(ConfigError::Parse(path, _)) => assert_eq!(path, "c.toml"),
        _ => panic!("an error was expected"),
    }
    match load_effective(false, "c.toml", Some("[watch]\npaths = 3\n"), None) {
        Err(e) => assert!(e.message().starts_with("failed to parse config file c.toml: ")),
        Ok(_) => panic!("an error was expected"),
    }
}

#[test]
fn a_config_is_settled_from_what_was_read() {
    let read = parse_toml("[alert]\nwebhook_url = \"http://h\"\n");
    match settle_config(false, "c.toml", Some(read), None) {
        Ok((cfg, _)) => assert_eq!(cfg.alert.webhook_url, "http://h"),
        Err(_) => panic!("a configuration was expected"),
    }
    match settle_config(false, "c.toml", Some(Err("boom".to_string())), None) {
        Err(e) => assert_eq!(e.message(), "failed to parse config file c.toml: boom"),
        Ok(_) => panic!("an error was expected"),
    }
}

#[test]
fn a_config_survives_being_written_and_read() {
    let cfg = from_toml("[ports]\nallowed = [1, \"2-3\"]\nalert_unlisted = false\n");
    match Config::from_json(&cfg.to_json()) {
        Ok(back) => {
            assert_eq!(back.ports.allowed.len(), 2);
            assert!(matches!(back.ports.allowed[0], PortSpec::Port(1)));
            assert!(!back.ports.alert_unlisted);
        }
        Err(e) => panic!("{}", e.message()),
    }
}

#[test]
fn the_data_dir_comes_from_the_environment_or_the_home() {
    let dir = |env, home| data_dir(env, home, '/').path;
    assert_eq!(dir(Some("/data"), Some("/home/me")), "/data");
    assert_eq!(dir(Some("  "), Some("/home/me")), "/home/me/.adonword");
    assert_eq!(dir(None, Some("/home/me")), "/home/me/.adonword");
    assert_eq!(dir(None, None), "./.adonword");
    assert_eq!(data_dir(None, Some("C:\\me"), '\\').path, "C:\\me\\.adonword");
    assert_eq!(config_path(None, &Dir::new("/data", '/')), "/data/adonword.toml");
    assert_eq!(config_path(None, &Dir::new("D:\\d", '\\')), "D:\\d\\adonword.toml");
    assert_eq!(config_path(Some("x.toml"), &Dir::new("/data", '/')), "x.toml");
    assert!(default_true());
}

#[test]
fn surplus_items_of_a_section_are_passed_over_in_toml_only() {
    let cfg = from_toml("watch = [[\"/a\"], [\"*.log\"], 7]\nalert = [\"http://h\", 1, 2]\n");
    assert_eq!(cfg.watch.paths, vec!["/a"]);
    assert_eq!(cfg.watch.exclude, vec!["*.log"]);
    assert_eq!(cfg.alert.webhook_url, "http://h");
    let short = from_toml("ports = [[1]]\n");
    assert_eq!(short.ports.allowed.len(), 1);
    assert!(short.ports.alert_unlisted);
    let surplus = json(r#"{"watch":[["/a"],[],7]}"#);
    match apply_config_overrides(&cfg, &surplus) {
        Err(e) => assert_eq!(e.message(), "unexpected value at watch"),
        Ok(_) => panic!("an error was expected"),
    }
    assert!(apply_config_overrides(&cfg, &json(r#"{"watch":[["/a"],[]]}"#)).is_ok());
}
