use adonword::baseline::Snapshot;
use adonword::clock::now_rfc3339;
use adonword::config::Config;
use adonword::engine::{Finding, Observed, ScanResult};
use adonword::failure::Failure;
use adonword::paths::Dir;
use adonword::state::{load_scan, save_scan, state_path};
use adonword::watch::{
    alert_line, alert_round, round_interval, round_line, scan_once, send_webhook, start_line,
    webhook_error_line, webhook_reply_line, AlertLog, DEDUP_WINDOW, WEBHOOK_TIMEOUT,
};

const SECOND: u128 = 1_000_000_000;

fn data() -> Dir {
    Dir::new("/data", '/')
}

fn finding(kind: &str, detail: &str) -> Finding {
    Finding {
        kind: kind.to_string(),
        severity: "warn".to_string(),
        detail: detail.to_string(),
        triggered_at: "T".to_string(),
    }
}

fn result() -> ScanResult {
    let mut r = ScanResult::at("T".to_string());
    r.push("k", "crit", "d \"quoted\"".to_string());
    r.push("k", "warn", "e".to_string());
    r
}

#[test]
fn send_webhook_is_noop_for_empty_url() {
    let finding = Finding {
        kind: "test".into(),
        severity: "warn".into(),
        detail: "d".into(),
        triggered_at: now_rfc3339(),
    };
    assert!(send_webhook("", &finding).is_none());
    assert!(send_webhook("   ", &finding).is_none());
}

#[test]
fn webhook_posts_finding_json() {
    let finding = Finding {
        kind: "unlisted_port".into(),
        severity: "warn".into(),
        detail: "listening on 127.0.0.1:9999".into(),
        triggered_at: "2026-01-01T00:00:00Z".into(),
    };
    let request = match send_webhook("http://127.0.0.1:1/hook", &finding) {
        Some(r) => r,
        None => panic!("a request was expected"),
    };
    assert!(request.url.ends_with("/hook"));
    assert_eq!(request.timeout_secs, 10);
    assert!(request.body.contains("\"kind\":\"unlisted_port\""));
    assert!(request.body.contains("\"severity\":\"warn\""));
    assert_eq!(
        request.body,
        "{\"detail\":\"listening on 127.0.0.1:9999\",\"kind\":\"unlisted_port\",\
         \"severity\":\"warn\",\"triggered_at\":\"2026-01-01T00:00:00Z\"}"
    );
}

#[test]
fn the_same_finding_alerts_once_within_five_minutes() {
    assert_eq!(DEDUP_WINDOW, 300 * SECOND);
    assert_eq!(WEBHOOK_TIMEOUT, 10);
    let findings = vec![finding("a", "x"), finding("a", "y"), finding("a", "x")];
    let (log, alerts) = alert_round(AlertLog::new(), &findings, 0);
    assert_eq!(alerts, vec![0, 1]);
    let (log, alerts) = alert_round(log, &findings, 299 * SECOND);
    assert!(alerts.is_empty());
    let (log, alerts) = alert_round(log, &findings[..1].to_vec(), 300 * SECOND);
    assert_eq!(alerts, vec![0]);
    assert_eq!(log.get("a", "x"), Some(300 * SECOND));
    // what left the window is forgotten
    assert_eq!(log.get("a", "y"), None);
    let (_, alerts) = alert_round(log, &findings, 599 * SECOND);
    assert_eq!(alerts, vec![1]);
}

#[test]
fn a_new_kind_or_detail_alerts_at_once() {
    let (log, _) = alert_round(AlertLog::new(), &vec![finding("a", "x")], 0);
    let (_, alerts) = alert_round(log, &vec![finding("b", "x"), finding("a", "z")], 1);
    assert_eq!(alerts, vec![0, 1]);
}

#[test]
fn alerts_and_rounds_print_one_line() {
    assert_eq!(alert_line(&finding("k", "d")), "[ALERT] [warn] k d (at T)");
    assert_eq!(
        round_line(&result(), false),
        "T scan complete: 2 findings (1 crit, 1 warn)"
    );
    assert_eq!(
        round_line(&result(), true),
        "{\"scanned_at\":\"T\",\"findings\":[{\"kind\":\"k\",\"severity\":\"crit\",\
         \"detail\":\"d \\\"quoted\\\"\",\"triggered_at\":\"T\"},{\"kind\":\"k\",\
         \"severity\":\"warn\",\"detail\":\"e\",\"triggered_at\":\"T\"}],\
         \"summary\":{\"total\":2,\"warn\":1,\"crit\":1}}"
    );
    assert_eq!(
        start_line(30, "/data"),
        "adonword watch started (interval 30s, data dir /data, ctrl-c to stop)"
    );
}

#[test]
fn rounds_are_a_second_apart_at_least() {
    assert_eq!(round_interval(0), 1);
    assert_eq!(round_interval(1), 1);
    assert_eq!(round_interval(30), 30);
}

#[test]
fn failed_alerts_are_told() {
    assert_eq!(webhook_reply_line(399), None);
    assert_eq!(
        webhook_reply_line(400),
        Some("[webhook] unexpected status 400".to_string())
    );
    assert_eq!(
        webhook_error_line("refused"),
        "[webhook] failed to send alert: refused"
    );
}

#[test]
fn a_stored_scan_loads_as_it_was() {
    let (path, text) = save_scan(&data(), &result());
    assert_eq!(path, "/data/state.json");
    assert_eq!(path, state_path(&data()));
    assert!(text.starts_with("{\n  \"scanned_at\": \"T\",\n  \"findings\": ["));
    let back = match load_scan(&data(), Ok(Some(text.clone()))) {
        Ok(Some(r)) => r,
        _ => panic!("a result was expected"),
    };
    assert_eq!(save_scan(&data(), &back).1, text);
    assert_eq!(back.findings.len(), 2);
    assert_eq!(back.findings[0].detail, "d \"quoted\"");
    assert_eq!(back.summary.crit, 1);
}

#[test]
fn a_state_that_cannot_be_read_is_an_error() {
    assert!(matches!(load_scan(&data(), Ok(None)), Ok(None)));
    let messages = [
        ("{\"findings\":[]}", "scanned_at"),
        ("[\"t\",{}]", "findings"),
        ("[\"t\",[{\"kind\":\"k\"}]]", "findings"),
        ("[\"t\",[]]", "summary"),
        (
            "{\"scanned_at\":\"t\",\"findings\":[],\"summary\":{\"total\":-1,\"warn\":0,\"crit\":0}}",
            "summary",
        ),
        ("3", "scan"),
    ];
    for (text, place) in messages {
        match load_scan(&data(), Ok(Some(text.to_string()))) {
            Err(e) => assert_eq!(
                e.full(),
                format!("failed to parse /data/state.json: unexpected value at {place}")
            ),
            Ok(_) => panic!("an error was expected"),
        }
    }
    match load_scan(&data(), Err("denied".to_string())) {
        Err(e) => assert_eq!(e.full(), "failed to read /data/state.json: denied"),
        Ok(_) => panic!("an error was expected"),
    }
}

#[test]
fn a_round_stores_what_it_found() {
    let observed = Observed {
        snapshot: Snapshot::new(vec![]),
        processes: vec![],
        sockets: Ok(vec![]),
    };
    let round = match scan_once(&Config::default(), &data(), Ok(None), &observed) {
        Ok(r) => r,
        Err(e) => panic!("{}", e.full()),
    };
    assert_eq!(round.path, "/data/state.json");
    assert_eq!(round.result.findings[0].kind, "config");
    match load_scan(&data(), Ok(Some(round.text))) {
        Ok(Some(back)) => assert_eq!(back.scanned_at, round.result.scanned_at),
        _ => panic!("a result was expected"),
    }
    let failed: Result<_, Failure> =
        scan_once(&Config::default(), &data(), Ok(Some("x".to_string())), &observed);
    match failed {
        Err(e) => assert_eq!(e.context, "failed to parse baseline /data/baseline.json"),
        Ok(_) => panic!("an error was expected"),
    }
}

#[test]
fn a_stored_record_with_a_field_twice_is_refused() {
    let finding = r#"{"kind":"k","severity":"warn","detail":"d","triggered_at":"T"}"#;
    let summary = r#"{"total":1,"warn":1,"crit":0}"#;
    let stored = |finding: &str, summary: &str, more: &str| {
        let text = format!(
            "{{\"scanned_at\":\"T\",\"findings\":[{finding}],\"summary\":{summary}{more}}}"
        );
        load_scan(&data(), Ok(Some(text)))
    };
    assert!(stored(finding, summary, "").is_ok());
    assert!(stored(finding, summary, r#","x":1,"x":2"#).is_ok());
    for more in [r#","scanned_at":"T""#, r#","findings":[]"#, r#","summary":null"#] {
        assert!(stored(finding, summary, more).is_err(), "{more}");
    }
    for name in ["kind", "severity", "detail", "triggered_at"] {
        let doubled = finding.replace('}', &format!(",\"{name}\":\"x\"}}"));
        assert!(stored(&doubled, summary, "").is_err(), "{name}");
    }
    for name in ["total", "warn", "crit"] {
        let doubled = summary.replace('}', &format!(",\"{name}\":1}}"));
        assert!(stored(finding, &doubled, "").is_err(), "{name}");
    }
}

#[test]
fn what_is_printed_for_machines_has_no_line_break() {
    let request = match send_webhook("http://x", &finding("k", "one\ntwo\r\nthree")) {
        Some(request) => request,
        None => panic!("a request was expected"),
    };
    assert_eq!(
        request.body,
        r#"{"detail":"one\ntwo\r\nthree","kind":"k","severity":"warn","triggered_at":"T"}"#
    );
}
