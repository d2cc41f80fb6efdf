use adonword::baseline::{update, Baseline, Snapshot};
use adonword::cli::{
    apply_cli_overrides, exit_code, print_check, print_error, print_report, print_scan, print_update,
    read_stdin_overrides, take_overrides, BaselineAction, Command,
};
use adonword::config::{load_effective, Config};
use adonword::engine::{Observed, ScanResult};
use adonword::json::{parse_json, render_compact, Json};
use adonword::paths::Dir;
use adonword::sockets::{TcpSocket, TcpState};
use adonword::state::load_scan;
use adonword::watch::scan_once;
use serde_json::Value;

fn data() -> Dir {
    Dir::new("/data", '/')
}

fn snapshot(files: &[(&str, &[u8])]) -> Snapshot {
    let mut out = Snapshot::new(vec![]);
    for (rel, bytes) in files {
        out = out.record(rel, 1, Ok(bytes.to_vec()));
    }
    out
}

fn config(text: &str, stdin: Option<&Json>) -> Config {
    match load_effective(false, "/data/adonword.toml", Some(text), stdin) {
        Ok((cfg, _)) => cfg,
        Err(e) => panic!("{}", e.message()),
    }
}

fn watching() -> Config {
    config(
        "[watch]\npaths = [\"/w\"]\n\n[ports]\nallowed = []\nalert_unlisted = true\n",
        None,
    )
}

fn parse(out: &[String]) -> Value {
    assert_eq!(out.len(), 1);
    match serde_json::from_str(&out[0]) {
        Ok(v) => v,
        Err(e) => panic!("{e}"),
    }
}

fn json(text: &str) -> Json {
    match parse_json(text.as_bytes()) {
        Ok(j) => j,
        Err(e) => panic!("{e}"),
    }
}

fn scan(cfg: &Config, baseline: Option<&Baseline>) -> (ScanResult, String) {
    let observed = Observed {
        snapshot: snapshot(&[("a.txt", b"x")]),
        processes: vec![],
        sockets: Ok(vec![TcpSocket {
            state: TcpState::Listen,
            addr: "127.0.0.1".to_string(),
            port: 4000,
            pids: vec![],
        }]),
    };
    match scan_once(cfg, &data(), Ok(baseline.map(|b| b.to_text())), &observed) {
        Ok(round) => (round.result, round.text),
        Err(e) => panic!("{}", e.full()),
    }
}

#[test]
fn baseline_update_then_check_detects_modified() {
    let before = snapshot(&[("a.txt", b"hello"), ("sub/b.txt", b"world")]);
    let (baseline, warnings) = update(before);
    let out = print_update(true, &data(), &baseline, &warnings);
    assert_eq!(out.code, 0, "stderr: {:?}", out.err);
    let v = parse(&out.out);
    assert_eq!(v["status"], "updated");
    assert_eq!(v["files"], 2);

    // tamper with a file
    let tampered = snapshot(&[("a.txt", b"tampered"), ("sub/b.txt", b"world")]);
    let out = print_check(true, Some(&baseline), &tampered);
    assert_eq!(
        out.code, 1,
        "changed tree must exit 1; stderr: {:?}",
        out.err
    );
    let v = parse(&out.out);
    assert_eq!(v["status"], "changed");
    let modified = v["modified"].as_array().expect("modified");
    assert!(
        modified.contains(&Value::String("a.txt".into())),
        "{modified:?}"
    );
    assert!(!modified.contains(&Value::String("sub/b.txt".into())));

    // restore -> clean again, exit 0
    let restored = snapshot(&[("a.txt", b"hello"), ("sub/b.txt", b"world")]);
    let out = print_check(false, Some(&baseline), &restored);
    assert_eq!(out.code, 0, "stderr: {:?}", out.err);
    assert!(out.out[0].contains("clean"), "stdout: {:?}", out.out);
}

#[test]
fn baseline_check_detects_added_and_removed() {
    let (baseline, _) = update(snapshot(&[("a.txt", b"x")]));
    let out = print_check(
        true,
        Some(&baseline),
        &snapshot(&[("a.txt", b"x"), ("new.txt", b"newcomer")]),
    );
    assert_eq!(out.code, 1);
    let v = parse(&out.out);
    let added = v["added"].as_array().expect("added");
    assert!(
        added.contains(&Value::String("new.txt".into())),
        "{added:?}"
    );

    let out = print_check(true, Some(&baseline), &snapshot(&[("new.txt", b"newcomer")]));
    assert_eq!(out.code, 1);
    let v = parse(&out.out);
    let removed = v["removed"].as_array().expect("removed");
    assert!(
        removed.contains(&Value::String("a.txt".into())),
        "{removed:?}"
    );
}

#[test]
fn baseline_check_without_baseline_exits_two() {
    let out = print_check(true, None, &snapshot(&[("a.txt", b"x")]));
    assert_eq!(out.code, 2);
    let v = parse(&out.out);
    assert_eq!(v["status"], "missing");
}

#[test]
fn stdin_json_overrides_config_watch_paths() {
    let (overrides, warnings) = read_stdin_overrides("{\"watch\":{\"paths\":[\"/w\"]}}");
    assert!(warnings.is_empty());
    let cfg = config("[watch]\npaths = []\n", overrides.as_ref());
    assert_eq!(cfg.watch.paths, vec!["/w"]);
    let (baseline, warnings) = update(snapshot(&[("only.txt", b"1")]));
    let out = print_update(true, &data(), &baseline, &warnings);
    assert_eq!(out.code, 0, "stderr: {:?}", out.err);
    assert_eq!(parse(&out.out)["files"], 1);
}

#[test]
fn scan_reports_unlisted_port_finding() {
    let (result, text) = scan(&watching(), None);
    assert_eq!(
        exit_code(&Command::Scan, None),
        0,
        "scan exits 0 even with findings"
    );
    let v = parse(&print_scan(&result, true));
    let findings = v["findings"].as_array().expect("findings");
    assert!(
        findings
            .iter()
            .any(|f| f["kind"] == "unlisted_port" && f["severity"] == "warn"),
        "expected an unlisted_port finding, got: {findings:?}"
    );
    assert!(v["summary"]["total"].as_u64().expect("total") >= 1);

    // the scan result is persisted for `report`
    let stored = match load_scan(&data(), Ok(Some(text))) {
        Ok(s) => s,
        Err(e) => panic!("{}", e.full()),
    };
    assert_eq!(exit_code(&Command::Report, None), 0);
    let v = parse(&print_report(stored.as_ref(), true));
    assert_eq!(v["status"], "ok");
}

#[test]
fn scan_without_baseline_reports_baseline_missing() {
    let (result, _) = scan(&watching(), None);
    assert_eq!(exit_code(&Command::Scan, None), 0);
    let v = parse(&print_scan(&result, true));
    assert!(v["findings"]
        .as_array()
        .expect("findings")
        .iter()
        .any(|f| f["kind"] == "baseline_missing"));
}

#[test]
fn missing_config_file_is_an_error() {
    match load_effective(true, "/nonexistent/adonword.toml", None, None) {
        Err(e) => {
            let out = print_error(&e.message());
            assert_ne!(out.code, 0);
            assert!(
                out.err[0].contains("config file not found"),
                "stderr: {:?}",
                out.err
            );
        }
        Ok(_) => panic!("an error was expected"),
    }
}

#[test]
fn a_scan_with_a_stored_baseline_compares() {
    let (baseline, _) = update(snapshot(&[("a.txt", b"old")]));
    let (result, _) = scan(&watching(), Some(&baseline));
    assert_eq!(result.findings[0].kind, "file_modified");
    assert_eq!(result.findings[0].detail, "modified: a.txt");
}

#[test]
fn stdin_that_holds_no_object_is_ignored() {
    let (value, warnings) = read_stdin_overrides("  \n");
    assert!(value.is_none() && warnings.is_empty());
    let (value, warnings) = read_stdin_overrides(" [1] ");
    assert!(value.is_none());
    assert_eq!(warnings, vec!["warning: stdin JSON must be an object; ignoring"]);
    let (value, warnings) = read_stdin_overrides("2.5");
    assert!(value.is_none());
    assert_eq!(warnings, vec!["warning: stdin JSON must be an object; ignoring"]);
    let (value, warnings) = read_stdin_overrides("{");
    assert!(value.is_none());
    assert_eq!(warnings.len(), 1);
    assert!(warnings[0].starts_with("warning: failed to parse stdin JSON ("));
    assert!(warnings[0].ends_with("); ignoring"));
    let (value, warnings) = take_overrides(Err("boom".to_string()));
    assert!(value.is_none());
    assert_eq!(
        warnings,
        vec!["warning: failed to parse stdin JSON (boom); ignoring"]
    );
}

#[test]
fn unknown_stdin_keys_are_named_in_order() {
    let (value, warnings) = read_stdin_overrides(
        r#"{"zeta":1,"watch":{},"process":{},"ports":{},"alert":{},"interval":1,"host":"h","port":2,"token":"t","alpha":2}"#,
    );
    assert_eq!(
        warnings,
        vec![
            "warning: ignoring unknown stdin key 'alpha'",
            "warning: ignoring unknown stdin key 'zeta'",
        ]
    );
    match value {
        Some(v) => assert!(render_compact(&v).starts_with("{\"alert\":{},\"alpha\":2,")),
        None => panic!("overrides were expected"),
    }
}

#[test]
fn what_is_piped_in_wins_over_arguments() {
    let value = json(r#"{"interval":5,"host":"0.0.0.0","port":80,"token":"t"}"#);
    match apply_cli_overrides(Command::Watch { interval: 30 }, &value) {
        Command::Watch { interval } => assert_eq!(interval, 5),
        other => panic!("{other:?}"),
    }
    let serve = || Command::Serve {
        host: "127.0.0.1".to_string(),
        port: 8754,
        token: None,
    };
    match apply_cli_overrides(serve(), &value) {
        Command::Serve { host, port, token } => {
            assert_eq!(host, "0.0.0.0");
            assert_eq!(port, 80);
            assert_eq!(token, Some("t".to_string()));
        }
        other => panic!("{other:?}"),
    }
    match apply_cli_overrides(serve(), &json(r#"{"port":65536,"host":1,"interval":"x"}"#)) {
        Command::Serve { host, port, token } => {
            assert_eq!(host, "127.0.0.1");
            assert_eq!(port, 8754);
            assert_eq!(token, None);
        }
        other => panic!("{other:?}"),
    }
    let check = Command::Baseline {
        action: BaselineAction::Check,
    };
    assert!(matches!(
        apply_cli_overrides(check, &value),
        Command::Baseline {
            action: BaselineAction::Check
        }
    ));
}

#[test]
fn commands_print_lines() {
    let snap = Snapshot::new(vec!["careful".to_string()]).record("a", 1, Ok(vec![]));
    let (baseline, warnings) = update(snap);
    let out = print_update(false, &data(), &baseline, &warnings);
    assert_eq!(out.out, vec!["baseline updated: 1 files -> /data/baseline.json"]);
    assert_eq!(out.err, vec!["warning: careful"]);

    let now = snapshot(&[("b", b"")]);
    let out = print_check(false, Some(&baseline), &now);
    assert_eq!(out.out, vec!["status: changed", "added: b", "removed: a"]);
    assert_eq!(out.code, 1);

    let out = print_check(false, None, &now);
    assert!(out.out.is_empty());
    assert_eq!(
        out.err,
        vec!["error: no baseline found; run `adonword baseline update` first"]
    );
    assert_eq!(out.code, 2);

    let mut result = ScanResult::at("T".to_string());
    result.push("k", "crit", "d".to_string());
    let lines = vec!["scan at T:", "[crit] k d", "1 findings (1 crit, 0 warn)"];
    assert_eq!(print_scan(&result, false), lines);
    assert_eq!(print_report(Some(&result), false), lines);
    assert_eq!(
        print_report(None, false),
        vec!["no scan report available; run `adonword scan` first"]
    );
}

#[test]
fn commands_print_json() {
    let mut result = ScanResult::at("T".to_string());
    result.push("k", "warn", "d".to_string());
    assert!(print_scan(&result, true)[0].starts_with("{\n  \"scanned_at\": \"T\""));
    assert!(print_report(Some(&result), true)[0].starts_with("{\n  \"report\": {\n    \"findings\""));
    assert_eq!(
        print_report(None, true),
        vec!["{\n  \"report\": null,\n  \"status\": \"no_report\"\n}"]
    );
    let out = print_check(true, None, &snapshot(&[]));
    assert_eq!(
        out.out,
        vec![
            "{\n  \"added\": [],\n  \"modified\": [],\n  \"removed\": [],\n  \"status\": \"missing\"\n}"
        ]
    );
    let (baseline, warnings) = update(snapshot(&[]));
    let out = print_update(true, &data(), &baseline, &warnings);
    assert!(out.out[0].starts_with("{\n  \"files\": 0,\n  \"generated_at\": \""));
    let out = print_check(true, Some(&baseline), &snapshot(&[]));
    assert!(out.out[0].starts_with("{\n  \"status\": \"clean\",\n  \"added\": []"));
    assert_eq!(out.code, 0);
}

#[test]
fn only_a_check_tells_by_its_code() {
    let check = Command::Baseline {
        action: BaselineAction::Check,
    };
    let (baseline, _) = update(snapshot(&[("a", b"x")]));
    let same = adonword::baseline::check(&snapshot(&[("a", b"x")]), &baseline);
    let other = adonword::baseline::check(&snapshot(&[("b", b"x")]), &baseline);
    assert_eq!(exit_code(&check, Some(&same)), 0);
    assert_eq!(exit_code(&check, Some(&other)), 1);
    assert_eq!(exit_code(&check, None), 2);
    let all_others = [
        Command::Baseline {
            action: BaselineAction::Update,
        },
        Command::Scan,
        Command::Watch { interval: 1 },
        Command::Report,
        Command::Serve {
            host: String::new(),
            port: 1,
            token: None,
        },
    ];
    for command in &all_others {
        assert_eq!(exit_code(command, None), 0);
        assert_eq!(exit_code(command, Some(&other)), 0);
    }
    let out = print_error("no luck");
    assert!(out.out.is_empty());
    assert_eq!(out.err, vec!["error: no luck"]);
    assert_eq!(out.code, 2);
}
