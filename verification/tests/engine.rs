use adonword::baseline::{baseline_at, Baseline, Snapshot};
use adonword::clock::now_rfc3339;
use adonword::config::{AlertConfig, Config, PortsConfig, ProcessConfig, WatchConfig};
use adonword::engine::{run_scan, scan_at, Observed, ScanResult, Summary};
use adonword::ports::PortSpec;
use adonword::processes::{blocked_processes, collect_processes, unlisted_processes};
use adonword::sockets::{collect_listening_tcp, TcpSocket, TcpState};

fn texts(list: &[&str]) -> Vec<String> {
    list.iter().map(|s| s.to_string()).collect()
}

fn socket(state: TcpState, addr: &str, port: u16, pids: &[u32]) -> TcpSocket {
    TcpSocket {
        state,
        addr: addr.to_string(),
        port,
        pids: pids.to_vec(),
    }
}

fn seen() -> Observed {
    Observed {
        snapshot: Snapshot::new(vec![]),
        processes: vec![],
        sockets: Ok(vec![]),
    }
}

fn watching() -> Config {
    Config {
        watch: WatchConfig {
            paths: texts(&["/w"]),
            exclude: vec![],
        },
        process: ProcessConfig::default(),
        ports: PortsConfig {
            allowed: vec![],
            alert_unlisted: true,
        },
        alert: AlertConfig::default(),
    }
}

fn base(files: &[(&str, &[u8])]) -> Baseline {
    let mut snap = Snapshot::new(vec![]);
    for (rel, bytes) in files {
        snap = snap.record(rel, 0, Ok(bytes.to_vec()));
    }
    baseline_at("t".to_string(), snap).0
}

fn lines(result: &ScanResult) -> Vec<String> {
    result
        .findings
        .iter()
        .map(|f| format!("{} {} {}", f.severity, f.kind, f.detail))
        .collect()
}

#[test]
fn scan_flags_missing_baseline_and_unlisted_ports() {
    let cfg = watching();
    let mut observed = seen();
    observed.sockets = Ok(vec![socket(TcpState::Listen, "127.0.0.1", 4000, &[])]);
    let result = run_scan(&cfg, None, &observed);
    assert!(result.findings.iter().any(|f| f.kind == "baseline_missing"));
    assert!(result.findings.iter().any(|f| f.kind == "unlisted_port"));
    assert_eq!(result.summary.total, result.findings.len());
}

#[test]
fn a_scan_reports_everything_in_order() {
    let mut cfg = watching();
    cfg.process.blocklist = texts(&["keylog*"]);
    cfg.process.allowlist = texts(&["init"]);
    cfg.ports.allowed = vec![PortSpec::Port(80), PortSpec::Range("x".to_string())];
    let snapshot = Snapshot::new(texts(&["skipping symlink /w/l"]))
        .record("changed", 1, Ok(b"new".to_vec()))
        .record("fresh", 1, Ok(vec![]))
        .record("locked", 1, Err("denied".to_string()));
    let observed = Observed {
        snapshot,
        processes: vec![
            ("KeyLogger".to_string(), 9),
            (" init ".to_string(), 1),
            ("keylogger".to_string(), 4),
            ("shell".to_string(), 7),
            ("SHELL".to_string(), 8),
            ("  ".to_string(), 2),
        ],
        sockets: Ok(vec![
            socket(TcpState::Listen, "0.0.0.0", 9000, &[12, 13]),
            socket(TcpState::Established, "0.0.0.0", 50, &[]),
            socket(TcpState::Listen, "::", 443, &[]),
            socket(TcpState::Listen, "::", 9000, &[]),
            socket(TcpState::Listen, "::", 80, &[]),
        ]),
    };
    let baseline = base(&[("changed", b"old"), ("gone", b"")]);
    let result = scan_at("T".to_string(), &cfg, Some(&baseline), &observed);
    let told = lines(&result);
    assert_eq!(
        told,
        vec![
            "warn walk_warning skipping symlink /w/l".to_string(),
            "warn walk_warning skipping unreadable file locked: denied".to_string(),
            "warn file_added added: fresh".to_string(),
            "warn file_removed removed: gone".to_string(),
            "warn file_modified modified: changed".to_string(),
            "crit blocked_process blocked process is running: KeyLogger (pid 9)".to_string(),
            "warn unallowlisted_process process outside allowlist: SHELL (pid 8)".to_string(),
            told[7].clone(),
            "warn unlisted_port listening on :::443".to_string(),
            "warn unlisted_port listening on 0.0.0.0:9000 (pid 12)".to_string(),
        ]
    );
    assert!(told[7].starts_with("warn config "));
    assert_eq!(
        result.summary,
        Summary {
            total: 10,
            warn: 9,
            crit: 1
        }
    );
    assert!(result.findings.iter().all(|f| f.triggered_at == "T"));
}

#[test]
fn a_scan_without_watch_paths_says_so() {
    let mut cfg = Config::default();
    cfg.ports.alert_unlisted = false;
    let mut observed = seen();
    observed.sockets = Err("unused".to_string());
    let result = scan_at("T".to_string(), &cfg, None, &observed);
    assert_eq!(
        lines(&result),
        vec!["warn config no watch paths configured ([watch].paths is empty)"]
    );
}

#[test]
fn a_scan_without_baseline_reports_the_walk_only() {
    let cfg = watching();
    let mut observed = seen();
    observed.snapshot =
        Snapshot::new(texts(&["w"])).record("locked", 1, Err("denied".to_string()));
    let result = scan_at("T".to_string(), &cfg, None, &observed);
    assert_eq!(
        lines(&result),
        vec![
            "warn walk_warning w",
            "warn baseline_missing no baseline found; run `adonword baseline update` first",
        ]
    );
}

#[test]
fn sockets_that_cannot_be_had_are_reported() {
    let cfg = watching();
    let mut observed = seen();
    observed.sockets = Err("no netlink".to_string());
    let result = scan_at("T".to_string(), &cfg, Some(&base(&[])), &observed);
    assert_eq!(
        lines(&result),
        vec!["warn port_scan_error failed to enumerate listening ports: no netlink"]
    );
}

#[test]
fn a_calm_machine_has_no_findings() {
    let mut cfg = watching();
    cfg.process.blocklist = texts(&["evil"]);
    cfg.ports.allowed = vec![PortSpec::Range("1-100".to_string())];
    let observed = Observed {
        snapshot: Snapshot::new(vec![]).record("a", 5, Ok(b"x".to_vec())),
        processes: vec![("good".to_string(), 1)],
        sockets: Ok(vec![socket(TcpState::Listen, "::1", 22, &[])]),
    };
    let result = scan_at("T".to_string(), &cfg, Some(&base(&[("a", b"x")])), &observed);
    assert!(result.findings.is_empty());
    assert_eq!(result.summary, Summary::default());
}

#[test]
fn processes_are_listed_in_order() {
    let raw = vec![
        ("b".to_string(), 2),
        (" a\n".to_string(), 3),
        ("a".to_string(), 1),
        ("\t".to_string(), 9),
        ("B".to_string(), 5),
    ];
    assert_eq!(
        collect_processes(&raw),
        vec![
            ("B".to_string(), 5),
            ("a".to_string(), 1),
            ("a".to_string(), 3),
            ("b".to_string(), 2),
        ]
    );
}

#[test]
fn each_name_is_reported_once() {
    let list = vec![
        ("X".to_string(), 1),
        ("x".to_string(), 2),
        ("y".to_string(), 3),
    ];
    assert_eq!(
        blocked_processes(&list, &texts(&["x"])),
        vec!["blocked process is running: X (pid 1)"]
    );
    assert_eq!(
        unlisted_processes(&list, &texts(&["x"]), &texts(&["z"])),
        vec!["process outside allowlist: y (pid 3)"]
    );
}

#[test]
fn one_socket_is_kept_per_port() {
    let list = collect_listening_tcp(&vec![
        socket(TcpState::Listen, "a", 9, &[1, 2]),
        socket(TcpState::TimeWait, "b", 1, &[]),
        socket(TcpState::Listen, "c", 3, &[]),
        socket(TcpState::Listen, "d", 9, &[5]),
    ]);
    let told: Vec<(u16, &str, Option<u32>)> = list
        .iter()
        .map(|s| (s.port, s.addr.as_str(), s.pid))
        .collect();
    assert_eq!(told, vec![(3, "c", None), (9, "a", Some(1))]);
}

#[test]
fn findings_are_counted_as_they_are_added() {
    let mut result = ScanResult::at("T".to_string());
    result.push("k", "crit", "d".to_string());
    result.push("k", "other", "e".to_string());
    assert_eq!(
        result.summary,
        Summary {
            total: 2,
            warn: 1,
            crit: 1
        }
    );
    assert_eq!(result.findings[1].triggered_at, "T");
    assert!(ScanResult::new().findings.is_empty());
}

#[test]
fn the_time_is_printed_to_the_second() {
    let now = now_rfc3339();
    assert_eq!(now.len(), 20);
    assert!(now.ends_with('Z'));
    assert_eq!(&now[10..11], "T");
    assert!(now.starts_with("20"));
}
