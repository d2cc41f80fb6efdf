use adonword::baseline::{
    baseline_at, baseline_path, check, load, update, Baseline, CheckReport, Snapshot,
};
use adonword::json::{parse_json, render_compact};
use adonword::paths::Dir;
use adonword::walk::{
    collect_files, entry_kept, excludes, mtime_ms, FileTime, Listed, RootListing, RootState,
};

fn data() -> Dir {
    Dir::new("/data", '/')
}

fn snapshot(files: &[(&str, i64, &[u8])]) -> Snapshot {
    let mut out = Snapshot::new(vec![]);
    for (rel, ms, bytes) in files {
        out = out.record(rel, *ms, Ok(bytes.to_vec()));
    }
    out
}

fn file(names: &[&str], path: &str) -> Listed {
    Listed::File {
        names: names.iter().map(|s| s.to_string()).collect(),
        path: path.to_string(),
        source: 0,
        time: FileTime::Millis(1),
    }
}

fn directory(raw: &str, path: &str, listing: Vec<Listed>) -> RootListing {
    RootListing {
        raw: raw.to_string(),
        state: RootState::Directory {
            path: path.to_string(),
            listing,
        },
    }
}

fn keys(roots: Vec<RootListing>, exclude: &[&str]) -> (Vec<String>, Vec<String>) {
    let extra: Vec<String> = exclude.iter().map(|s| s.to_string()).collect();
    let walk = collect_files(&roots, &extra);
    let mut names = Vec::new();
    for i in 0..walk.files.len() {
        names.push(walk.files.entry(i).0.clone());
    }
    (names, walk.warnings)
}

#[test]
fn update_and_check_roundtrip() {
    let before = snapshot(&[("f.txt", 1, b"v1"), ("sub/g.txt", 2, b"g1")]);
    let (baseline, warnings) = update(before);
    assert!(warnings.is_empty(), "warnings: {warnings:?}");
    assert_eq!(baseline.entries.len(), 2);
    assert!(baseline_path(&data()).ends_with("baseline.json"));

    let report = check(
        &snapshot(&[("f.txt", 1, b"v1"), ("sub/g.txt", 2, b"g1")]),
        &baseline,
    );
    assert_eq!(report.status, "clean");
    assert!(report.added.is_empty() && report.removed.is_empty() && report.modified.is_empty());

    // tamper: modify content
    let report = check(
        &snapshot(&[("f.txt", 1, b"tampered"), ("sub/g.txt", 2, b"g1")]),
        &baseline,
    );
    assert_eq!(report.modified, vec!["f.txt".to_string()]);

    // add a file
    let report = check(
        &snapshot(&[
            ("f.txt", 1, b"tampered"),
            ("sub/g.txt", 2, b"g1"),
            ("new.txt", 3, b"n"),
        ]),
        &baseline,
    );
    assert!(report.added.contains(&"new.txt".to_string()));

    // remove a file
    let report = check(
        &snapshot(&[("f.txt", 1, b"tampered"), ("new.txt", 3, b"n")]),
        &baseline,
    );
    assert!(report.removed.contains(&"sub/g.txt".to_string()));

    // same content as baseline but rewritten (hash identical, mtime changed) -> not modified
    let report = check(
        &snapshot(&[("f.txt", 99, b"v1"), ("new.txt", 3, b"n")]),
        &baseline,
    );
    assert!(!report.modified.contains(&"f.txt".to_string()));
}

#[test]
fn a_stored_baseline_loads_as_it_was() {
    let (baseline, _) = baseline_at(
        "2026-01-02T03:04:05Z".to_string(),
        snapshot(&[("b", -1, b"x"), ("a\"\\é", i64::MAX, b"y")]),
    );
    let text = baseline.to_text();
    assert!(text.starts_with("{\n  \"version\": 1,\n  \"generated_at\": \"2026-01-02T03:04:05Z\""));
    let back = match load(&data(), Ok(Some(text.clone()))) {
        Ok(Some(b)) => b,
        _ => panic!("a baseline was expected"),
    };
    assert_eq!(back.to_text(), text);
    assert_eq!(back.version, 1);
    assert_eq!(back.entries.entry(0).0, "a\"\\é");
    assert_eq!(back.entries.entry(0).1.mtime_ms, i64::MAX);
    assert_eq!(
        back.entries.entry(1).1.hash,
        "2d711642b726b04401627ca9fbac32f5c8530fb1903cc4db02258717921a4881"
    );
}

#[test]
fn a_baseline_that_is_not_there_is_none() {
    assert!(matches!(load(&data(), Ok(None)), Ok(None)));
}

#[test]
fn a_baseline_that_cannot_be_read_is_an_error() {
    let failures = [
        (Err("denied".to_string()), "failed to read baseline /data/baseline.json: denied"),
        (
            Ok(Some("{}".to_string())),
            "failed to parse baseline /data/baseline.json: unexpected value at version",
        ),
        (
            Ok(Some("[1,\"t\",{\"f\":{\"hash\":\"h\"}}]".to_string())),
            "failed to parse baseline /data/baseline.json: unexpected value at entries",
        ),
    ];
    for (file, message) in failures {
        match load(&data(), file) {
            Err(e) => assert_eq!(e.full(), message),
            Ok(_) => panic!("an error was expected"),
        }
    }
    match load(&data(), Ok(Some("nonsense".to_string()))) {
        Err(e) => assert_eq!(e.context, "failed to parse baseline /data/baseline.json"),
        Ok(_) => panic!("an error was expected"),
    }
}

#[test]
fn unreadable_files_are_warned_of() {
    let walked = Snapshot::new(vec!["skipping symlink /w/l".to_string()]);
    let snap = walked
        .record("a", 1, Err("denied".to_string()))
        .record("b", 1, Ok(vec![1]));
    let (baseline, warnings) = update(snap);
    assert_eq!(baseline.entries.len(), 1);
    assert_eq!(
        warnings,
        vec!["skipping symlink /w/l", "skipping unreadable file a: denied"]
    );
}

#[test]
fn the_report_is_printed_with_its_fields() {
    let report = CheckReport {
        status: "changed".to_string(),
        added: vec!["n".to_string()],
        removed: vec![],
        modified: vec![],
        warnings: vec!["w".to_string()],
    };
    assert_eq!(
        render_compact(&report.to_json()),
        r#"{"status":"changed","added":["n"],"removed":[],"modified":[],"warnings":["w"]}"#
    );
    assert_eq!(
        render_compact(&CheckReport::missing().to_json()),
        r#"{"status":"missing","added":[],"removed":[],"modified":[],"warnings":[]}"#
    );
}

#[test]
fn a_baseline_may_hold_more_than_is_known() {
    let text = r#"{"extra":1,"version":4294967295,"generated_at":"t","entries":{"a":{"mtime_ms":5,"hash":"h","x":0}}}"#;
    let j = match parse_json(text.as_bytes()) {
        Ok(j) => j,
        Err(e) => panic!("{e}"),
    };
    match Baseline::from_json(&j) {
        Ok(b) => {
            assert_eq!(b.version, u32::MAX);
            assert_eq!(b.entries.entry(0).1.hash, "h");
        }
        Err(e) => panic!("{}", e.message()),
    }
}

#[test]
fn walk_skips_excluded_dirs_and_symlinks() {
    let mut listing = vec![
        Listed::Directory,
        file(&["a.txt"], "/w/a.txt"),
        file(&[".hidden"], "/w/.hidden"),
        Listed::Symlink {
            names: vec!["link.txt".to_string()],
            path: "/w/link.txt".to_string(),
        },
    ];
    for excluded in ["target", ".git", "node_modules"] {
        listing.push(file(&[excluded, "payload.bin"], "/w/x/payload.bin"));
    }
    let (names, warnings) = keys(vec![directory("/w", "/w", listing)], &[]);
    assert_eq!(names, vec![".hidden", "a.txt"], "walk result: {names:?}");
    assert!(
        warnings.iter().any(|w| w.contains("skipping symlink")),
        "warnings: {:?}",
        warnings
    );
}

#[test]
fn walk_honors_extra_excludes_and_keeps_hidden_files() {
    let listing = vec![
        file(&[".secret"], "/w/.secret"),
        file(&["keep.txt"], "/w/keep.txt"),
        file(&["drop.log"], "/w/drop.log"),
    ];
    let (names, _) = keys(vec![directory("/w", "/w", listing)], &["*.log"]);
    assert_eq!(names, vec![".secret", "keep.txt"]);
}

#[test]
fn several_roots_prefix_the_keys() {
    let (names, _) = keys(
        vec![
            directory("w", "/w", vec![file(&["d", "a"], "/w/d/a")]),
            directory("v", "C:\\v", vec![file(&["a"], "C:\\v\\a")]),
            RootListing {
                raw: "one".to_string(),
                state: RootState::File {
                    path: "/one".to_string(),
                    source: 7,
                    time: Ok(3),
                },
            },
        ],
        &[],
    );
    assert_eq!(names, vec!["/one", "/w/d/a", "C:/v/a"]);
}

#[test]
fn what_cannot_be_walked_is_warned_of() {
    let broken = |path: &str, time: FileTime| Listed::File {
        names: vec!["f".to_string()],
        path: path.to_string(),
        source: 0,
        time,
    };
    let roots = vec![
        RootListing {
            raw: "gone".to_string(),
            state: RootState::Inaccessible {
                error: "no such file".to_string(),
            },
        },
        RootListing {
            raw: "odd".to_string(),
            state: RootState::NoStat {
                error: "denied".to_string(),
            },
        },
        RootListing {
            raw: "pipe".to_string(),
            state: RootState::Special,
        },
        RootListing {
            raw: "one".to_string(),
            state: RootState::File {
                path: "/one".to_string(),
                source: 0,
                time: Err("no clock".to_string()),
            },
        },
        directory(
            "w",
            "/w",
            vec![
                Listed::Unreadable {
                    error: "denied".to_string(),
                },
                broken("/w/f", FileTime::NoMtime("no clock".to_string())),
                broken("/w/g", FileTime::NoStat("denied".to_string())),
            ],
        ),
    ];
    let (names, warnings) = keys(roots, &[]);
    assert!(names.is_empty());
    assert_eq!(
        warnings,
        vec![
            "watch path gone is not accessible: no such file",
            "cannot stat watch path odd: denied",
            "watch path pipe is not a file or directory",
            "cannot read mtime for one: no clock",
            "skipped unreadable path under w: denied",
            "cannot read mtime for /w/f: no clock",
            "cannot stat /w/g: denied",
        ]
    );
}

#[test]
fn the_first_file_under_a_key_stays() {
    let first = Listed::File {
        names: vec!["a".to_string()],
        path: "/w/a".to_string(),
        source: 1,
        time: FileTime::Millis(5),
    };
    let second = Listed::File {
        names: vec!["a".to_string()],
        path: "/x/a".to_string(),
        source: 2,
        time: FileTime::Millis(6),
    };
    let walk = collect_files(&vec![directory("w", "/w", vec![first, second])], &vec![]);
    assert_eq!(walk.files.len(), 1);
    assert_eq!(walk.files.entry(0).1.source, 1);
    assert_eq!(walk.files.entry(0).1.abs, "/w/a");
    assert_eq!(walk.files.entry(0).1.mtime_ms, 5);
}

#[test]
fn the_walk_does_not_enter_excluded_names() {
    let patterns = excludes(&vec!["*.log".to_string()]);
    assert_eq!(patterns, vec!["target", "node_modules", ".git", "*.log"]);
    assert!(entry_kept(0, "target", &patterns));
    assert!(!entry_kept(1, "target", &patterns));
    assert!(!entry_kept(3, "x.log", &patterns));
    assert!(entry_kept(1, ".gitignore", &patterns));
}

#[test]
fn times_beyond_the_range_are_cut() {
    assert_eq!(mtime_ms(12), 12);
    assert_eq!(mtime_ms(u128::MAX), i64::MAX);
}

#[test]
fn different_files_have_different_keys() {
    let listing = vec![
        file(&["a", "b", "c"], "/w/a/b/c"),
        file(&["a", "bc"], "/w/a/bc"),
        file(&["ab", "c"], "/w/ab/c"),
    ];
    let (names, _) = keys(vec![directory("/w", "/w", listing)], &[]);
    assert_eq!(names, vec!["a/b/c", "a/bc", "ab/c"]);
}

#[test]
fn a_file_read_again_replaces_its_hash() {
    let snap = snapshot(&[("a", 1, b"old"), ("b", 1, b"x"), ("a", 2, b"new")]);
    assert_eq!(snap.files.len(), 2);
    assert_eq!(snap.files.entry(0).1.mtime_ms, 2);
    let (baseline, _) = update(snap);
    let copy = baseline.clone();
    assert_eq!(copy.to_text(), baseline.to_text());
    let report = check(&snapshot(&[("a", 9, b"new"), ("b", 9, b"x")]), &copy);
    assert_eq!(report.status, "clean");
}

#[test]
fn a_baseline_loads_whatever_its_files_are_called() {
    for name in ["$serde_json::private::RawValue", "$serde_json::private::Number", ""] {
        let (baseline, _) = baseline_at("t".to_string(), snapshot(&[(name, 1, b"x")]));
        let text = baseline.to_text();
        match load(&data(), Ok(Some(text.clone()))) {
            Ok(Some(back)) => assert_eq!(back.to_text(), text),
            _ => panic!("a baseline was expected"),
        }
    }
}

#[test]
fn what_a_baseline_does_not_ask_for_is_not_read() {
    let deep = format!("{}{}", "[".repeat(500), "]".repeat(500));
    let text = format!(
        "{{\"$serde_json::private::RawValue\":{{}},\"n\":1e999,\"s\":\"\\ud800\",\"d\":{deep},\
         \"version\":1,\"generated_at\":\"t\",\"entries\":{{\"a\":{{\"x\":{deep},\"hash\":\"h\",\
         \"mtime_ms\":-5}}}}}}"
    );
    match load(&data(), Ok(Some(text))) {
        Ok(Some(b)) => {
            assert_eq!(b.generated_at, "t");
            assert_eq!(b.entries.entry(0).1.hash, "h");
            assert_eq!(b.entries.entry(0).1.mtime_ms, -5);
        }
        _ => panic!("a baseline was expected"),
    }
}

#[test]
fn fields_of_the_wrong_kind_are_refused() {
    for text in [
        r#"{"version":1.0,"generated_at":"t","entries":{}}"#,
        r#"{"version":-1,"generated_at":"t","entries":{}}"#,
        r#"{"version":1,"generated_at":null,"entries":{}}"#,
        r#"{"version":1,"generated_at":"t","entries":[]}"#,
        r#"{"version":1,"generated_at":"t","entries":{"a":{"hash":"h","mtime_ms":true}}}"#,
        r#"{"version":1,"generated_at":"t","entries":{}} x"#,
        r#"[1,"t",{},0]"#,
    ] {
        assert!(load(&data(), Ok(Some(text.to_string()))).is_err(), "{text}");
    }
    assert!(load(&data(), Ok(Some(r#" [1,"t",{"a":["h",2]}] "#.to_string()))).is_ok());
}

#[test]
fn a_record_with_a_field_twice_is_refused() {
    for text in [
        r#"{"version":1,"version":1,"generated_at":"t","entries":{}}"#,
        r#"{"version":1,"generated_at":"t","entries":{},"\u0076ersion":1}"#,
        r#"{"version":1,"generated_at":"t","generated_at":"u","entries":{}}"#,
        r#" { "entries" : {} , "version":1,"generated_at":"},{","entries":{}}"#,
        r#"{"version":1,"generated_at":"t","entries":{"a":{"hash":"h","hash":"h","mtime_ms":1}}}"#,
        r#"{"version":1,"generated_at":"t","entries":{"a":{"hash":"h","mtime_ms":1,"mtime_ms":2}}}"#,
        r#"[1,"t",{"a":{"hash":"h","hash":"h","mtime_ms":1}}]"#,
    ] {
        match load(&data(), Ok(Some(text.to_string()))) {
            Err(e) => assert_eq!(e.context, "failed to parse baseline /data/baseline.json"),
            Ok(_) => panic!("{text}"),
        }
    }
}

#[test]
fn only_fields_of_a_record_may_not_repeat() {
    let text = r#"{"x":1,"version":7,"x":{"version":1},"generated_at":"\"version\":1,\\",
        "entries":{"hash":["h",1],"hash":{"y":0,"hash":"k","y":[1,{"hash":2}],"mtime_ms":2}}}"#;
    match load(&data(), Ok(Some(text.to_string()))) {
        Ok(Some(b)) => {
            assert_eq!(b.version, 7);
            assert_eq!(b.generated_at, r#""version":1,\"#);
            assert_eq!(b.entries.len(), 1);
            assert_eq!(b.entries.entry(0).1.hash, "k");
            assert_eq!(b.entries.entry(0).1.mtime_ms, 2);
        }
        _ => panic!("a baseline was expected"),
    }
}

#[test]
fn an_entry_that_is_overridden_has_to_be_one() {
    for text in [
        r#"{"version":1,"generated_at":"t","entries":{"a":{"hash":3},"a":{"hash":"h","mtime_ms":1}}}"#,
        r#"[1,"t",{"a":0,"a":["h",1]}]"#,
    ] {
        assert!(load(&data(), Ok(Some(text.to_string()))).is_err(), "{text}");
    }
    let sound = r#"[1,"t",{"a":["g",0],"a":["h",1]}]"#;
    match load(&data(), Ok(Some(sound.to_string()))) {
        Ok(Some(b)) => assert_eq!(b.entries.entry(0).1.hash, "h"),
        _ => panic!("a baseline was expected"),
    }
}
