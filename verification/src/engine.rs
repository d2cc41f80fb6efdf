//! Findings, and the inspection that gives them: file integrity, processes and
//! listening ports. Observation only.

use crate::baseline::{changes_are_in_the_report, check, check_report, entries_of,
    every_path_is_reported_once, hash_at, Baseline, Entries, ReportModel, Snapshot};
use crate::clock::{now_rfc3339, utc_seconds};
use crate::config::{Config, ConfigModel};
use crate::matching::{any_pattern_may_match, glob_matches};
use crate::ports::{admits, allowed_ports, expand_ports, port_specs, port_warnings, range_of,
    PortSpec};
use crate::processes::{blocked_details, blocked_processes, blocked_text, collect_processes,
    every_blocked_name_is_reported, every_unlisted_name_is_reported, is_blocked, is_unlisted,
    process_list, process_list_holds, processes_of, unlisted_details, unlisted_processes,
    unlisted_text, Process};
use crate::sockets::{allowed_ports_are_quiet, as_listener, collect_listening_tcp,
    every_unlisted_port_is_reported, first_socket_listens, listener_text, listeners,
    unlisted_ports, unlisted_sockets, Listener, TcpSocket, TcpState};
use crate::text::{concat2, decimal, lowercased, same_text, texts, trimmed};
use crate::textmap::{ascending, has_key};
use vstd::prelude::*;

verus! {

/// One thing that an inspection found.
#[derive(Debug, Clone)]
pub struct Finding {
    pub kind: String,
    pub severity: String,
    pub detail: String,
    pub triggered_at: String,
}

/// How many findings there are, in all and of each severity.
#[derive(Debug, Clone, Copy, PartialEq, Eq, Structural)]
pub struct Summary {
    pub total: usize,
    pub warn: usize,
    pub crit: usize,
}

/// What an inspection found.
#[derive(Debug, Clone)]
pub struct ScanResult {
    pub scanned_at: String,
    pub findings: Vec<Finding>,
    pub summary: Summary,
}

pub struct FindingModel {
    pub kind: Seq<char>,
    pub severity: Seq<char>,
    pub detail: Seq<char>,
    pub triggered_at: Seq<char>,
}

pub struct ScanModel {
    pub scanned_at: Seq<char>,
    pub findings: Seq<FindingModel>,
    pub summary: Summary,
}

impl View for Finding {
    type V = FindingModel;

    open spec fn view(&self) -> FindingModel {
        FindingModel {
            kind: self.kind@,
            severity: self.severity@,
            detail: self.detail@,
            triggered_at: self.triggered_at@,
        }
    }
}

pub open spec fn findings_of(list: Seq<Finding>) -> Seq<FindingModel> {
    list.map_values(|f: Finding| f@)
}

impl View for ScanResult {
    type V = ScanModel;

    open spec fn view(&self) -> ScanModel {
        ScanModel {
            scanned_at: self.scanned_at@,
            findings: findings_of(self.findings@),
            summary: self.summary,
        }
    }
}

impl Default for Summary {
    fn default() -> (r: Self)
        ensures
            r == (Summary { total: 0, warn: 0, crit: 0 }),
    {
        Summary { total: 0, warn: 0, crit: 0 }
    }
}

/// How many findings are critical.
pub open spec fn critical(s: Seq<FindingModel>) -> nat
    decreases s.len(),
{
    if s.len() == 0 {
        0
    } else {
        critical(s.drop_last()) + if s.last().severity == "crit"@ {
            1nat
        } else {
            0nat
        }
    }
}

/// Whether a summary counts the findings.
pub open spec fn tallied(m: ScanModel) -> bool {
    &&& m.summary.total == m.findings.len()
    &&& m.summary.crit == critical(m.findings)
    &&& m.summary.warn == m.findings.len() - critical(m.findings)
}

/// What is noted in an inspection: the kind, the severity and the detail.
pub struct Note {
    pub kind: Seq<char>,
    pub severity: Seq<char>,
    pub detail: Seq<char>,
}

/// A note as a finding of an inspection.
pub open spec fn finding_at(at: Seq<char>, n: Note) -> FindingModel {
    FindingModel { kind: n.kind, severity: n.severity, detail: n.detail, triggered_at: at }
}

/// The findings of an inspection.
pub open spec fn noted(at: Seq<char>, notes: Seq<Note>) -> Seq<FindingModel> {
    notes.map_values(|n: Note| finding_at(at, n))
}

/// Whether a result holds the notes of an inspection at a time, and counts them.
pub open spec fn holds_notes(m: ScanModel, at: Seq<char>, notes: Seq<Note>) -> bool {
    &&& m.scanned_at == at
    &&& m.findings == noted(at, notes)
    &&& tallied(m)
}

/// Whether one more finding can be counted.
pub open spec fn countable(s: Summary) -> bool {
    s.total < usize::MAX && s.warn < usize::MAX && s.crit < usize::MAX
}

/// A result with one more finding.
pub open spec fn with_finding(m: ScanModel, n: Note) -> ScanModel {
    ScanModel {
        scanned_at: m.scanned_at,
        findings: m.findings.push(finding_at(m.scanned_at, n)),
        summary: if n.severity == "crit"@ {
            Summary {
                total: (m.summary.total + 1) as usize,
                warn: m.summary.warn,
                crit: (m.summary.crit + 1) as usize,
            }
        } else {
            Summary {
                total: (m.summary.total + 1) as usize,
                warn: (m.summary.warn + 1) as usize,
                crit: m.summary.crit,
            }
        },
    }
}

/// One note for each text, with a lead before it.
pub open spec fn notes(
    kind: Seq<char>,
    severity: Seq<char>,
    lead: Seq<char>,
    list: Seq<Seq<char>>,
) -> Seq<Note> {
    list.map_values(|s: Seq<char>| Note { kind, severity, detail: lead + s })
}

pub open spec fn warn(kind: Seq<char>, detail: Seq<char>) -> Seq<Note> {
    seq![Note { kind, severity: "warn"@, detail }]
}

proof fn critical_push(s: Seq<FindingModel>, f: FindingModel)
    ensures
        critical(s.push(f)) == critical(s) + if f.severity == "crit"@ {
            1nat
        } else {
            0nat
        },
        critical(s) <= s.len(),
    decreases s.len(),
{
    assert(s.push(f).drop_last() =~= s);
    if s.len() > 0 {
        critical_push(s.drop_last(), s.last());
    }
}

impl ScanResult {
    /// A result without findings, made at the given time.
    pub fn at(scanned_at: String) -> (r: Self)
        ensures
            holds_notes(r@, scanned_at@, Seq::empty()),
    {
        let r = ScanResult { scanned_at, findings: Vec::new(), summary: Summary::default() };
        assert(r@.findings =~= noted(scanned_at@, Seq::empty()));
        r
    }

    /// A result without findings, made now.
    pub fn new() -> (r: Self)
        ensures
            utc_seconds(r@.scanned_at),
            holds_notes(r@, r@.scanned_at, Seq::empty()),
    {
        ScanResult::at(now_rfc3339())
    }

    /// Adds a finding and counts it. A summary that counted the findings before
    /// counts them after.
    pub fn push(&mut self, kind: &str, severity: &str, detail: String)
        requires
            tallied(old(self)@) || countable(old(self)@.summary),
        ensures
            final(self)@ == with_finding(
                old(self)@,
                Note { kind: kind@, severity: severity@, detail: detail@ },
            ),
            tallied(old(self)@) ==> tallied(final(self)@),
    {
        let ghost before = self@;
        let finding = Finding {
            kind: kind.to_string(),
            severity: severity.to_string(),
            detail,
            triggered_at: self.scanned_at.clone(),
        };
        let ghost f = finding@;
        self.findings.push(finding);
        // Taking the length states that it fits in `usize`, and so the count does.
        let _len: usize = self.findings.len();
        proof {
            assert(self@.findings =~= before.findings.push(f));
            critical_push(before.findings, f);
        }
        let mut summary = self.summary;
        summary.total = summary.total + 1;
        if same_text(severity, "crit") {
            summary.crit = summary.crit + 1;
        } else {
            summary.warn = summary.warn + 1;
        }
        self.summary = summary;
        assert(self@.findings =~= before.findings.push(f));
    }

    /// Adds a finding for each text, with a lead before it.
    fn push_each(&mut self, kind: &str, severity: &str, lead: &str, list: &Vec<String>)
        requires
            tallied(old(self)@),
        ensures
            final(self)@.scanned_at == old(self)@.scanned_at,
            final(self)@.findings == old(self)@.findings + noted(
                old(self)@.scanned_at,
                notes(kind@, severity@, lead@, texts(list@)),
            ),
            tallied(final(self)@),
    {
        let ghost at = self@.scanned_at;
        let ghost before = self@.findings;
        let ghost all = noted(at, notes(kind@, severity@, lead@, texts(list@)));
        let mut i: usize = 0;
        assert(before + all.take(0) =~= before);
        while i < list.len()
            invariant
                i <= list@.len(),
                all == noted(at, notes(kind@, severity@, lead@, texts(list@))),
                self@.scanned_at == at,
                self@.findings == before + all.take(i as int),
                tallied(self@),
            decreases list@.len() - i,
        {
            let detail = concat2(lead, list[i].as_str());
            self.push(kind, severity, detail);
            proof {
                assert(all[i as int] == (FindingModel {
                    kind: kind@,
                    severity: severity@,
                    detail: lead@ + list@[i as int]@,
                    triggered_at: at,
                }));
                assert(before + all.take(i + 1) =~= (before + all.take(i as int)).push(
                    all[i as int],
                ));
            }
            i = i + 1;
        }
        assert(all.take(list@.len() as int) =~= all);
    }
}

// ---------------------------------------------------------------------------
// The inspection
// ---------------------------------------------------------------------------

/// What an inspection looks at: the watched files, the running processes, and the
/// TCP sockets or why they could not be had.
pub struct Observed {
    pub snapshot: Snapshot,
    pub processes: Vec<(String, u32)>,
    pub sockets: Result<Vec<TcpSocket>, String>,
}

pub struct ObservedModel {
    pub files: Entries,
    pub walk_warnings: Seq<Seq<char>>,
    pub warnings: Seq<Seq<char>>,
    pub processes: Seq<Process>,
    pub listeners: Result<Seq<Listener>, Seq<char>>,
}

impl View for Observed {
    type V = ObservedModel;

    open spec fn view(&self) -> ObservedModel {
        ObservedModel {
            files: entries_of(self.snapshot.files@),
            walk_warnings: texts(self.snapshot.walk_warnings@),
            warnings: self.snapshot.all_warnings(),
            processes: process_list(processes_of(self.processes@)),
            listeners: match self.sockets {
                Ok(list) => Ok(listeners(list@)),
                Err(e) => Err(e@),
            },
        }
    }
}

/// The notes on a check of the files against the baseline.
pub open spec fn report_notes(r: ReportModel) -> Seq<Note> {
    notes("walk_warning"@, "warn"@, Seq::empty(), r.warnings) + notes(
        "file_added"@,
        "warn"@,
        "added: "@,
        r.added,
    ) + notes("file_removed"@, "warn"@, "removed: "@, r.removed) + notes(
        "file_modified"@,
        "warn"@,
        "modified: "@,
        r.modified,
    )
}

/// The notes on the watched files, with the baseline's entries if there is one.
pub open spec fn file_notes(cfg: ConfigModel, base: Option<Entries>, seen: ObservedModel) -> Seq<
    Note,
> {
    if cfg.watch.paths.len() == 0 {
        warn("config"@, "no watch paths configured ([watch].paths is empty)"@)
    } else {
        match base {
            Some(entries) => report_notes(check_report(seen.files, entries, seen.warnings)),
            None => notes("walk_warning"@, "warn"@, Seq::empty(), seen.walk_warnings) + warn(
                "baseline_missing"@,
                "no baseline found; run `adonword baseline update` first"@,
            ),
        }
    }
}

/// The notes on the running processes: critical ones for the blocklist, warnings
/// for those outside the allowlist where it is not empty.
pub open spec fn process_notes(cfg: ConfigModel, seen: ObservedModel) -> Seq<Note> {
    let n = seen.processes.len() as int;
    let blocked = blocked_details(seen.processes, cfg.process.blocklist, n);
    let unlisted = unlisted_details(
        seen.processes,
        cfg.process.blocklist,
        cfg.process.allowlist,
        n,
    );
    notes("blocked_process"@, "crit"@, Seq::empty(), blocked) + if cfg.process.allowlist.len()
        == 0 {
        Seq::empty()
    } else {
        notes("unallowlisted_process"@, "warn"@, Seq::empty(), unlisted)
    }
}

/// The notes on the listening ports.
pub open spec fn port_notes(cfg: ConfigModel, seen: ObservedModel) -> Seq<Note> {
    if !cfg.ports.alert_unlisted {
        Seq::empty()
    } else {
        match seen.listeners {
            Ok(list) => notes(
                "config"@,
                "warn"@,
                Seq::empty(),
                port_warnings(cfg.ports.allowed),
            ) + notes(
                "unlisted_port"@,
                "warn"@,
                Seq::empty(),
                unlisted_ports(list, allowed_ports(cfg.ports.allowed)),
            ),
            Err(e) => warn("port_scan_error"@, "failed to enumerate listening ports: "@ + e),
        }
    }
}

/// All notes of an inspection, in order.
pub open spec fn scan_notes(cfg: ConfigModel, base: Option<Entries>, seen: ObservedModel) -> Seq<
    Note,
> {
    file_notes(cfg, base, seen) + process_notes(cfg, seen) + port_notes(cfg, seen)
}

/// The entries of a baseline that may be missing.
pub open spec fn base_entries(baseline: Option<&Baseline>) -> Option<Entries> {
    match baseline {
        Some(b) => Some(b@.entries),
        None => None,
    }
}

/// Notes one after another are findings one after another.
proof fn noted_adds(at: Seq<char>, a: Seq<Note>, b: Seq<Note>)
    ensures
        noted(at, a + b) == noted(at, a) + noted(at, b),
{
    assert(noted(at, a + b) =~= noted(at, a) + noted(at, b));
}

fn scan_files(
    result: &mut ScanResult,
    cfg: &Config,
    baseline: Option<&Baseline>,
    observed: &Observed,
)
    requires
        tallied(old(result)@),
    ensures
        final(result)@.scanned_at == old(result)@.scanned_at,
        final(result)@.findings == old(result)@.findings + noted(
            old(result)@.scanned_at,
            file_notes(cfg@, base_entries(baseline), observed@),
        ),
        tallied(final(result)@),
{
    let ghost at = result@.scanned_at;
    let ghost before = result@.findings;
    if cfg.watch.paths.len() == 0 {
        result.push(
            "config",
            "warn",
            "no watch paths configured ([watch].paths is empty)".to_string(),
        );
        assert(result@.findings =~= before + noted(at, file_notes(
            cfg@,
            base_entries(baseline),
            observed@,
        )));
    } else {
        match baseline {
            Some(b) => {
                let report = check(&observed.snapshot, b);
                let ghost r = report@;
                proof {
                    reveal_strlit("");
                    assert(""@ =~= Seq::<char>::empty());
                    let w = notes("walk_warning"@, "warn"@, Seq::empty(), r.warnings);
                    let a = notes("file_added"@, "warn"@, "added: "@, r.added);
                    let d = notes("file_removed"@, "warn"@, "removed: "@, r.removed);
                    let m = notes("file_modified"@, "warn"@, "modified: "@, r.modified);
                    noted_adds(at, w, a);
                    noted_adds(at, w + a, d);
                    noted_adds(at, w + a + d, m);
                }
                result.push_each("walk_warning", "warn", "", &report.warnings);
                result.push_each("file_added", "warn", "added: ", &report.added);
                result.push_each("file_removed", "warn", "removed: ", &report.removed);
                result.push_each("file_modified", "warn", "modified: ", &report.modified);
                assert(result@.findings =~= before + noted(at, report_notes(r)));
            },
            None => {
                let ghost walk = texts(observed.snapshot.walk_warnings@);
                proof {
                    reveal_strlit("");
                    assert(""@ =~= Seq::<char>::empty());
                    noted_adds(
                        at,
                        notes("walk_warning"@, "warn"@, Seq::empty(), walk),
                        warn(
                            "baseline_missing"@,
                            "no baseline found; run `adonword baseline update` first"@,
                        ),
                    );
                }
                result.push_each("walk_warning", "warn", "", &observed.snapshot.walk_warnings);
                result.push(
                    "baseline_missing",
                    "warn",
                    "no baseline found; run `adonword baseline update` first".to_string(),
                );
                assert(result@.findings =~= before + noted(at, file_notes(
                    cfg@,
                    base_entries(baseline),
                    observed@,
                )));
            },
        }
    }
}

fn scan_processes(result: &mut ScanResult, cfg: &Config, observed: &Observed)
    requires
        tallied(old(result)@),
    ensures
        final(result)@.scanned_at == old(result)@.scanned_at,
        final(result)@.findings == old(result)@.findings + noted(
            old(result)@.scanned_at,
            process_notes(cfg@, observed@),
        ),
        tallied(final(result)@),
{
    let ghost at = result@.scanned_at;
    let ghost before = result@.findings;
    let processes = collect_processes(&observed.processes);
    let blocked = blocked_processes(&processes, &cfg.process.blocklist);
    proof {
        reveal_strlit("");
        assert(""@ =~= Seq::<char>::empty());
    }
    result.push_each("blocked_process", "crit", "", &blocked);
    if cfg.process.allowlist.len() > 0 {
        let unlisted = unlisted_processes(
            &processes,
            &cfg.process.blocklist,
            &cfg.process.allowlist,
        );
        result.push_each("unallowlisted_process", "warn", "", &unlisted);
    }
    assert(result@.findings =~= before + noted(at, process_notes(cfg@, observed@)));
}

fn scan_ports(result: &mut ScanResult, cfg: &Config, observed: &Observed)
    requires
        tallied(old(result)@),
    ensures
        final(result)@.scanned_at == old(result)@.scanned_at,
        final(result)@.findings == old(result)@.findings + noted(
            old(result)@.scanned_at,
            port_notes(cfg@, observed@),
        ),
        tallied(final(result)@),
{
    let ghost at = result@.scanned_at;
    let ghost before = result@.findings;
    if cfg.ports.alert_unlisted {
        match &observed.sockets {
            Ok(list) => {
                let sockets = collect_listening_tcp(list);
                let (allowed, warnings) = expand_ports(cfg.ports.allowed.as_slice());
                let unlisted = unlisted_sockets(&sockets, &allowed);
                proof {
                    reveal_strlit("");
                    assert(""@ =~= Seq::<char>::empty());
                }
                result.push_each("config", "warn", "", &warnings);
                result.push_each("unlisted_port", "warn", "", &unlisted);
            },
            Err(e) => {
                let detail = concat2("failed to enumerate listening ports: ", e.as_str());
                result.push("port_scan_error", "warn", detail);
            },
        }
    }
    assert(result@.findings =~= before + noted(at, port_notes(cfg@, observed@)));
}

/// One full inspection, made at the given time.
pub fn scan_at(
    scanned_at: String,
    cfg: &Config,
    baseline: Option<&Baseline>,
    observed: &Observed,
) -> (r: ScanResult)
    ensures
        holds_notes(r@, scanned_at@, scan_notes(cfg@, base_entries(baseline), observed@)),
{
    let ghost at = scanned_at@;
    let mut result = ScanResult::at(scanned_at);
    scan_files(&mut result, cfg, baseline, observed);
    scan_processes(&mut result, cfg, observed);
    scan_ports(&mut result, cfg, observed);
    assert(result@.findings =~= noted(at, scan_notes(cfg@, base_entries(baseline), observed@)));
    result
}

/// Run one full inspection: file integrity vs. baseline, process blocklist /
/// allowlist, and listening-port allowlist.
pub fn run_scan(cfg: &Config, baseline: Option<&Baseline>, observed: &Observed) -> (r: ScanResult)
    ensures
        utc_seconds(r@.scanned_at),
        holds_notes(r@, r@.scanned_at, scan_notes(cfg@, base_entries(baseline), observed@)),
{
    scan_at(now_rfc3339(), cfg, baseline, observed)
}

// ---------------------------------------------------------------------------
// Laws
// ---------------------------------------------------------------------------

/// Whether a note is critical exactly if it is on a blocked process, and a warning
/// otherwise.
pub open spec fn severity_fits(n: Note) -> bool {
    n.severity == if n.kind == "blocked_process"@ {
        "crit"@
    } else {
        "warn"@
    }
}

pub open spec fn severities_fit(s: Seq<Note>) -> bool {
    forall|i: int| 0 <= i < s.len() ==> severity_fits(#[trigger] s[i])
}

proof fn severities_fit_together(a: Seq<Note>, b: Seq<Note>)
    requires
        severities_fit(a),
        severities_fit(b),
    ensures
        severities_fit(a + b),
{
    let s = a + b;
    assert forall|i: int| 0 <= i < s.len() implies severity_fits(#[trigger] s[i]) by {
        if i < a.len() {
            assert(severity_fits(a[i]));
        } else {
            assert(severity_fits(b[i - a.len()]));
        }
    }
}

proof fn kinds_differ()
    ensures
        "walk_warning"@ != "blocked_process"@,
        "file_added"@ != "blocked_process"@,
        "file_removed"@ != "blocked_process"@,
        "file_modified"@ != "blocked_process"@,
        "baseline_missing"@ != "blocked_process"@,
        "unallowlisted_process"@ != "blocked_process"@,
        "unlisted_port"@ != "blocked_process"@,
        "port_scan_error"@ != "blocked_process"@,
        "config"@ != "blocked_process"@,
{
    reveal_strlit("walk_warning");
    reveal_strlit("blocked_process");
    reveal_strlit("file_added");
    reveal_strlit("file_removed");
    reveal_strlit("file_modified");
    reveal_strlit("baseline_missing");
    reveal_strlit("unallowlisted_process");
    reveal_strlit("unlisted_port");
    reveal_strlit("port_scan_error");
    reveal_strlit("config");
    assert("walk_warning"@[0] != "blocked_process"@[0]);
    assert("file_added"@[0] != "blocked_process"@[0]);
    assert("file_removed"@[0] != "blocked_process"@[0]);
    assert("file_modified"@[0] != "blocked_process"@[0]);
    assert("baseline_missing"@[1] != "blocked_process"@[1]);
    assert("unallowlisted_process"@[0] != "blocked_process"@[0]);
    assert("unlisted_port"@[0] != "blocked_process"@[0]);
    assert("port_scan_error"@[0] != "blocked_process"@[0]);
    assert("config"@[0] != "blocked_process"@[0]);
}

/// A finding is critical exactly if a blocked process is running; every other
/// finding is a warning.
pub proof fn only_blocked_processes_are_critical(
    cfg: ConfigModel,
    base: Option<Entries>,
    seen: ObservedModel,
)
    ensures
        severities_fit(scan_notes(cfg, base, seen)),
{
    kinds_differ();
    if let Some(entries) = base {
        let r = check_report(seen.files, entries, seen.warnings);
        let w = notes("walk_warning"@, "warn"@, Seq::empty(), r.warnings);
        let a = notes("file_added"@, "warn"@, "added: "@, r.added);
        let d = notes("file_removed"@, "warn"@, "removed: "@, r.removed);
        let m = notes("file_modified"@, "warn"@, "modified: "@, r.modified);
        severities_fit_together(w, a);
        severities_fit_together(w + a, d);
        severities_fit_together(w + a + d, m);
    }
    assert(severities_fit(file_notes(cfg, base, seen)));
    assert(severities_fit(process_notes(cfg, seen)));
    assert(severities_fit(port_notes(cfg, seen)));
    severities_fit_together(file_notes(cfg, base, seen), process_notes(cfg, seen));
    severities_fit_together(
        file_notes(cfg, base, seen) + process_notes(cfg, seen),
        port_notes(cfg, seen),
    );
}

/// A note among notes that others follow or precede.
proof fn noted_among(a: Seq<Note>, b: Seq<Note>, n: Note)
    requires
        a.contains(n) || b.contains(n),
    ensures
        (a + b).contains(n),
{
    let s = a + b;
    if a.contains(n) {
        assert(s[a.index_of(n)] == n);
    } else {
        assert(s[a.len() + b.index_of(n)] == n);
    }
}

proof fn text_is_noted(
    kind: Seq<char>,
    severity: Seq<char>,
    lead: Seq<char>,
    list: Seq<Seq<char>>,
    s: Seq<char>,
)
    requires
        list.contains(s),
    ensures
        notes(kind, severity, lead, list).contains(Note { kind, severity, detail: lead + s }),
{
    let i = list.index_of(s);
    assert(notes(kind, severity, lead, list)[i] == (Note { kind, severity, detail: lead + s }));
}

/// What happened to a path since the baseline, as a note.
pub open spec fn change_note(key: Seq<char>, now: Entries, base: Entries) -> Note {
    if !has_key(base, key) {
        Note { kind: "file_added"@, severity: "warn"@, detail: "added: "@ + key }
    } else if !has_key(now, key) {
        Note { kind: "file_removed"@, severity: "warn"@, detail: "removed: "@ + key }
    } else {
        Note { kind: "file_modified"@, severity: "warn"@, detail: "modified: "@ + key }
    }
}

/// Every path whose content is not what the baseline says is found, for what
/// happened to it.
pub proof fn every_change_is_found(
    cfg: ConfigModel,
    base: Entries,
    seen: ObservedModel,
    key: Seq<char>,
)
    requires
        ascending(seen.files),
        ascending(base),
        cfg.watch.paths.len() > 0,
        hash_at(seen.files, key) != hash_at(base, key),
    ensures
        scan_notes(cfg, Some(base), seen).contains(change_note(key, seen.files, base)),
{
    every_path_is_reported_once(seen.files, base, key);
    let r = check_report(seen.files, base, seen.warnings);
    let n = change_note(key, seen.files, base);
    let w = notes("walk_warning"@, "warn"@, Seq::empty(), r.warnings);
    let a = notes("file_added"@, "warn"@, "added: "@, r.added);
    let d = notes("file_removed"@, "warn"@, "removed: "@, r.removed);
    let m = notes("file_modified"@, "warn"@, "modified: "@, r.modified);
    if !has_key(base, key) {
        text_is_noted("file_added"@, "warn"@, "added: "@, r.added, key);
        noted_among(w, a, n);
        noted_among(w + a, d, n);
    } else if !has_key(seen.files, key) {
        text_is_noted("file_removed"@, "warn"@, "removed: "@, r.removed, key);
        noted_among(w + a, d, n);
    } else {
        text_is_noted("file_modified"@, "warn"@, "modified: "@, r.modified, key);
    }
    noted_among(w + a + d, m, n);
    noted_among(file_notes(cfg, Some(base), seen), process_notes(cfg, seen), n);
    noted_among(
        file_notes(cfg, Some(base), seen) + process_notes(cfg, seen),
        port_notes(cfg, seen),
        n,
    );
}

/// Every running process of the blocklist is found: by itself, or by one that has
/// the same name, case aside.
pub proof fn every_blocked_process_is_found(
    cfg: ConfigModel,
    base: Option<Entries>,
    seen: ObservedModel,
    at: int,
)
    requires
        0 <= at < seen.processes.len(),
        is_blocked(seen.processes[at], cfg.process.blocklist),
    ensures
        exists|j: int|
            0 <= j <= at && lowercased((#[trigger] seen.processes[j]).0) == lowercased(
                seen.processes[at].0,
            ) && scan_notes(cfg, base, seen).contains(
                Note {
                    kind: "blocked_process"@,
                    severity: "crit"@,
                    detail: blocked_text(seen.processes[j]),
                },
            ),
{
    let s = seen.processes;
    let list = blocked_details(s, cfg.process.blocklist, s.len() as int);
    every_blocked_name_is_reported(s, cfg.process.blocklist, at);
    let j = choose|j: int|
        0 <= j <= at && lowercased((#[trigger] s[j]).0) == lowercased(s[at].0) && list.contains(
            blocked_text(s[j]),
        );
    let n = Note {
        kind: "blocked_process"@,
        severity: "crit"@,
        detail: blocked_text(s[j]),
    };
    let b = notes("blocked_process"@, "crit"@, Seq::empty(), list);
    text_is_noted("blocked_process"@, "crit"@, Seq::empty(), list, blocked_text(s[j]));
    assert(Seq::<char>::empty() + blocked_text(s[j]) =~= blocked_text(s[j]));
    let rest = if cfg.process.allowlist.len() == 0 {
        Seq::empty()
    } else {
        notes(
            "unallowlisted_process"@,
            "warn"@,
            Seq::empty(),
            unlisted_details(s, cfg.process.blocklist, cfg.process.allowlist, s.len() as int),
        )
    };
    noted_among(b, rest, n);
    noted_among(file_notes(cfg, base, seen), process_notes(cfg, seen), n);
    noted_among(file_notes(cfg, base, seen) + process_notes(cfg, seen), port_notes(cfg, seen), n);
}

/// Where unlisted ports alert, every listener outside the allowlist is found.
pub proof fn every_unlisted_port_is_found(
    cfg: ConfigModel,
    base: Option<Entries>,
    seen: ObservedModel,
    list: Seq<Listener>,
    at: int,
)
    requires
        cfg.ports.alert_unlisted,
        seen.listeners == Ok::<Seq<Listener>, Seq<char>>(list),
        0 <= at < list.len(),
        !allowed_ports(cfg.ports.allowed).contains(list[at].port),
    ensures
        scan_notes(cfg, base, seen).contains(
            Note {
                kind: "unlisted_port"@,
                severity: "warn"@,
                detail: listener_text(list[at]),
            },
        ),
{
    let allowed = allowed_ports(cfg.ports.allowed);
    every_unlisted_port_is_reported(list, allowed, at);
    let n = Note {
        kind: "unlisted_port"@,
        severity: "warn"@,
        detail: listener_text(list[at]),
    };
    text_is_noted(
        "unlisted_port"@,
        "warn"@,
        Seq::empty(),
        unlisted_ports(list, allowed),
        listener_text(list[at]),
    );
    assert(Seq::<char>::empty() + listener_text(list[at]) =~= listener_text(list[at]));
    noted_among(
        notes("config"@, "warn"@, Seq::empty(), port_warnings(cfg.ports.allowed)),
        notes("unlisted_port"@, "warn"@, Seq::empty(), unlisted_ports(list, allowed)),
        n,
    );
    noted_among(file_notes(cfg, base, seen) + process_notes(cfg, seen), port_notes(cfg, seen), n);
}

/// An inspection finds nothing where the files are as in the baseline, no warning
/// came up, no process is blocked, none is outside an allowlist that is not empty,
/// and all listening ports are allowed.
pub proof fn calm_machine_has_no_findings(cfg: ConfigModel, base: Entries, seen: ObservedModel)
    requires
        ascending(seen.files),
        ascending(base),
        cfg.watch.paths.len() > 0,
        forall|key: Seq<char>| #[trigger] hash_at(seen.files, key) == hash_at(base, key),
        seen.warnings.len() == 0,
        forall|i: int|
            0 <= i < seen.processes.len() ==> !is_blocked(
                #[trigger] seen.processes[i],
                cfg.process.blocklist,
            ),
        cfg.process.allowlist.len() == 0 || forall|i: int|
            0 <= i < seen.processes.len() ==> !is_unlisted(
                #[trigger] seen.processes[i],
                cfg.process.blocklist,
                cfg.process.allowlist,
            ),
        cfg.ports.alert_unlisted ==> {
            &&& port_warnings(cfg.ports.allowed).len() == 0
            &&& seen.listeners matches Ok(list) && forall|i: int|
                0 <= i < list.len() ==> allowed_ports(cfg.ports.allowed).contains(
                    (#[trigger] list[i]).port,
                )
        },
    ensures
        scan_notes(cfg, Some(base), seen).len() == 0,
{
    let r = check_report(seen.files, base, seen.warnings);
    if r.added.len() > 0 {
        every_path_is_reported_once(seen.files, base, r.added[0]);
        assert(r.added.contains(r.added[0]));
        assert(hash_at(seen.files, r.added[0]) != hash_at(base, r.added[0]));
    }
    if r.removed.len() > 0 {
        every_path_is_reported_once(seen.files, base, r.removed[0]);
        assert(r.removed.contains(r.removed[0]));
        assert(hash_at(seen.files, r.removed[0]) != hash_at(base, r.removed[0]));
    }
    if r.modified.len() > 0 {
        every_path_is_reported_once(seen.files, base, r.modified[0]);
        assert(r.modified.contains(r.modified[0]));
        assert(hash_at(seen.files, r.modified[0]) != hash_at(base, r.modified[0]));
    }
    no_process_no_detail(cfg, seen, seen.processes.len() as int);
    if cfg.ports.alert_unlisted {
        allowed_ports_are_quiet(seen.listeners->Ok_0, allowed_ports(cfg.ports.allowed));
    }
}

proof fn no_process_no_detail(cfg: ConfigModel, seen: ObservedModel, n: int)
    requires
        0 <= n <= seen.processes.len(),
        forall|i: int|
            0 <= i < seen.processes.len() ==> !is_blocked(
                #[trigger] seen.processes[i],
                cfg.process.blocklist,
            ),
        cfg.process.allowlist.len() == 0 || forall|i: int|
            0 <= i < seen.processes.len() ==> !is_unlisted(
                #[trigger] seen.processes[i],
                cfg.process.blocklist,
                cfg.process.allowlist,
            ),
    ensures
        blocked_details(seen.processes, cfg.process.blocklist, n).len() == 0,
        cfg.process.allowlist.len() > 0 ==> unlisted_details(
            seen.processes,
            cfg.process.blocklist,
            cfg.process.allowlist,
            n,
        ).len() == 0,
    decreases n,
{
    if n > 0 {
        no_process_no_detail(cfg, seen, n - 1);
        assert(!is_blocked(seen.processes[n - 1], cfg.process.blocklist));
    }
}

/// With an allowlist that is not empty, every running process outside it that is
/// not blocked is found: by itself, or by one that has the same name, case aside.
pub proof fn every_unlisted_process_is_found(
    cfg: ConfigModel,
    base: Option<Entries>,
    seen: ObservedModel,
    at: int,
)
    requires
        cfg.process.allowlist.len() > 0,
        0 <= at < seen.processes.len(),
        is_unlisted(seen.processes[at], cfg.process.blocklist, cfg.process.allowlist),
    ensures
        exists|j: int|
            0 <= j <= at && lowercased((#[trigger] seen.processes[j]).0) == lowercased(
                seen.processes[at].0,
            ) && scan_notes(cfg, base, seen).contains(
                Note {
                    kind: "unallowlisted_process"@,
                    severity: "warn"@,
                    detail: unlisted_text(seen.processes[j]),
                },
            ),
{
    let s = seen.processes;
    let blocklist = cfg.process.blocklist;
    let allowlist = cfg.process.allowlist;
    let list = unlisted_details(s, blocklist, allowlist, s.len() as int);
    every_unlisted_name_is_reported(s, blocklist, allowlist, at);
    let j = choose|j: int|
        0 <= j <= at && lowercased((#[trigger] s[j]).0) == lowercased(s[at].0) && list.contains(
            unlisted_text(s[j]),
        );
    let n = Note {
        kind: "unallowlisted_process"@,
        severity: "warn"@,
        detail: unlisted_text(s[j]),
    };
    text_is_noted("unallowlisted_process"@, "warn"@, Seq::empty(), list, unlisted_text(s[j]));
    assert(Seq::<char>::empty() + unlisted_text(s[j]) =~= unlisted_text(s[j]));
    noted_among(
        notes(
            "blocked_process"@,
            "crit"@,
            Seq::empty(),
            blocked_details(s, blocklist, s.len() as int),
        ),
        notes("unallowlisted_process"@, "warn"@, Seq::empty(), list),
        n,
    );
    noted_among(file_notes(cfg, base, seen), process_notes(cfg, seen), n);
    noted_among(file_notes(cfg, base, seen) + process_notes(cfg, seen), port_notes(cfg, seen), n);
}

/// An empty allowlist restricts nothing: what is found of processes is what is
/// found of the blocklist.
pub proof fn empty_allowlist_restricts_nothing(cfg: ConfigModel, seen: ObservedModel)
    requires
        cfg.process.allowlist.len() == 0,
    ensures
        process_notes(cfg, seen) == notes(
            "blocked_process"@,
            "crit"@,
            Seq::empty(),
            blocked_details(
                seen.processes,
                cfg.process.blocklist,
                seen.processes.len() as int,
            ),
        ),
{
    let n = seen.processes.len() as int;
    let blocked = blocked_details(seen.processes, cfg.process.blocklist, n);
    assert(process_notes(cfg, seen) =~= notes("blocked_process"@, "crit"@, Seq::empty(), blocked));
}

/// What the walk skipped is found, with a baseline or without one.
pub proof fn every_walk_warning_is_found(
    cfg: ConfigModel,
    base: Option<Entries>,
    seen: ObservedModel,
    warning: Seq<char>,
)
    requires
        cfg.watch.paths.len() > 0,
        base is Some ==> seen.warnings.contains(warning),
        base is None ==> seen.walk_warnings.contains(warning),
    ensures
        scan_notes(cfg, base, seen).contains(
            Note { kind: "walk_warning"@, severity: "warn"@, detail: warning },
        ),
{
    let n = Note { kind: "walk_warning"@, severity: "warn"@, detail: warning };
    assert(Seq::<char>::empty() + warning =~= warning);
    match base {
        Some(entries) => {
            let r = check_report(seen.files, entries, seen.warnings);
            let w = notes("walk_warning"@, "warn"@, Seq::empty(), r.warnings);
            let a = notes("file_added"@, "warn"@, "added: "@, r.added);
            let d = notes("file_removed"@, "warn"@, "removed: "@, r.removed);
            let m = notes("file_modified"@, "warn"@, "modified: "@, r.modified);
            text_is_noted("walk_warning"@, "warn"@, Seq::empty(), r.warnings, warning);
            noted_among(w, a, n);
            noted_among(w + a, d, n);
            noted_among(w + a + d, m, n);
        },
        None => {
            text_is_noted("walk_warning"@, "warn"@, Seq::empty(), seen.walk_warnings, warning);
            noted_among(
                notes("walk_warning"@, "warn"@, Seq::empty(), seen.walk_warnings),
                warn(
                    "baseline_missing"@,
                    "no baseline found; run `adonword baseline update` first"@,
                ),
                n,
            );
        },
    }
    noted_among(file_notes(cfg, base, seen), process_notes(cfg, seen), n);
    noted_among(file_notes(cfg, base, seen) + process_notes(cfg, seen), port_notes(cfg, seen), n);
}

/// A finding of a result for a note of the inspection.
proof fn note_is_found(r: ScanResult, at: Seq<char>, notes: Seq<Note>, n: Note)
    requires
        holds_notes(r@, at, notes),
        notes.contains(n),
    ensures
        exists|x: int|
            0 <= x < r.findings@.len() && (#[trigger] r.findings@[x]).kind@ == n.kind
                && r.findings@[x].severity@ == n.severity && r.findings@[x].detail@ == n.detail,
{
    let x = notes.index_of(n);
    let f = noted(at, notes)[x];
    assert(f == finding_at(at, n));
    assert(r@.findings[x] == f);
    assert(r.findings@[x]@ == f);
}

/// How many findings are critical: as many as have that severity.
proof fn critical_counts(s: Seq<FindingModel>)
    ensures
        critical(s) == s.filter(|f: FindingModel| f.severity == "crit"@).len(),
        critical(s) <= s.len(),
    decreases s.len(),
{
    reveal(Seq::filter);
    if s.len() > 0 {
        critical_counts(s.drop_last());
    }
}

/// Whatever an inspection gives, it is of its time, each finding is too, and the summary
/// counts the findings: all of them, those that are critical, and the others.
pub proof fn inspection_counts_its_findings(
    scanned_at: String,
    cfg: &Config,
    baseline: Option<&Baseline>,
    observed: &Observed,
    r: ScanResult,
    x: int,
)
    requires
        call_ensures(scan_at, (scanned_at, cfg, baseline, observed), r),
    ensures
        r.scanned_at@ == scanned_at@,
        0 <= x < r.findings@.len() ==> r.findings@[x].triggered_at@ == scanned_at@,
        r.summary.total == r.findings@.len(),
        r.summary.crit == findings_of(r.findings@).filter(
            |f: FindingModel| f.severity == "crit"@,
        ).len(),
        r.summary.warn == r.summary.total - r.summary.crit,
{
    critical_counts(r@.findings);
    if 0 <= x < r.findings@.len() {
        let notes = scan_notes(cfg@, base_entries(baseline), observed@);
        assert(r@.findings[x] == finding_at(scanned_at@, notes[x]));
        assert(r.findings@[x]@ == r@.findings[x]);
    }
}

/// One finding more is counted: in all, and as critical or as a warning by its severity.
pub proof fn a_finding_is_counted(m: ScanModel, n: Note)
    requires
        m.summary.total < usize::MAX,
        m.summary.warn < usize::MAX,
        m.summary.crit < usize::MAX,
    ensures
        ({
            let after = with_finding(m, n);
            &&& after.scanned_at == m.scanned_at
            &&& after.findings.len() == m.findings.len() + 1
            &&& after.findings.drop_last() == m.findings
            &&& after.findings.last().kind == n.kind
            &&& after.findings.last().severity == n.severity
            &&& after.findings.last().detail == n.detail
            &&& after.findings.last().triggered_at == m.scanned_at
            &&& after.summary.total == m.summary.total + 1
            &&& n.severity == "crit"@ ==> after.summary.crit == m.summary.crit + 1
                && after.summary.warn == m.summary.warn
            &&& n.severity != "crit"@ ==> after.summary.warn == m.summary.warn + 1
                && after.summary.crit == m.summary.crit
        }),
{
    assert(with_finding(m, n).findings.drop_last() =~= m.findings);
}

/// Whatever an inspection gives, a running process whose name a pattern of the blocklist
/// matches, case and white space around it aside, has a critical finding: with its own
/// id, or with that of one of the same name, case aside.
pub proof fn blocked_process_has_a_finding(
    scanned_at: String,
    cfg: &Config,
    baseline: Option<&Baseline>,
    observed: &Observed,
    r: ScanResult,
    i: int,
    k: int,
)
    requires
        call_ensures(scan_at, (scanned_at, cfg, baseline, observed), r),
        0 <= i < observed.processes@.len(),
        trimmed(observed.processes@[i].0@).len() > 0,
        0 <= k < cfg.process.blocklist@.len(),
        glob_matches(
            lowercased(cfg.process.blocklist@[k]@),
            lowercased(trimmed(observed.processes@[i].0@)),
        ),
    ensures
        exists|j: int, x: int|
            {
                let p = #[trigger] observed.processes@[j];
                let f = #[trigger] r.findings@[x];
                &&& 0 <= j < observed.processes@.len()
                &&& 0 <= x < r.findings@.len()
                &&& lowercased(trimmed(p.0@)) == lowercased(trimmed(observed.processes@[i].0@))
                &&& f.kind@ == "blocked_process"@
                &&& f.severity@ == "crit"@
                &&& f.detail@ == "blocked process is running: "@ + trimmed(p.0@) + " (pid "@
                    + decimal(p.1 as nat) + ")"@
            },
{
    let raw = processes_of(observed.processes@);
    let s = observed@.processes;
    let list = texts(cfg.process.blocklist@);
    let p = (trimmed(raw[i].0), raw[i].1);
    process_list_holds(raw, p);
    let at = s.index_of(p);
    any_pattern_may_match(p.0, list);
    assert(list[k] == cfg.process.blocklist@[k]@);
    every_blocked_process_is_found(cfg@, base_entries(baseline), observed@, at);
    let notes = scan_notes(cfg@, base_entries(baseline), observed@);
    let b = choose|b: int|
        0 <= b <= at && lowercased((#[trigger] s[b]).0) == lowercased(s[at].0) && notes.contains(
            Note {
                kind: "blocked_process"@,
                severity: "crit"@,
                detail: blocked_text(s[b]),
            },
        );
    process_list_holds(raw, s[b]);
    assert(s.contains(s[b]));
    let j = choose|j: int|
        0 <= j < raw.len() && trimmed((#[trigger] raw[j]).0) == s[b].0 && raw[j].1 == s[b].1;
    assert(raw[j] == (observed.processes@[j].0@, observed.processes@[j].1));
    assert(raw[i] == (observed.processes@[i].0@, observed.processes@[i].1));
    note_is_found(
        r,
        scanned_at@,
        notes,
        Note { kind: "blocked_process"@, severity: "crit"@, detail: blocked_text(s[b]) },
    );
}

/// Whatever an inspection gives, with an allowlist that is not empty a running process
/// whose name no pattern of either list matches, case and white space around it aside,
/// has a finding: with its own id, or with that of one of the same name, case aside.
pub proof fn unlisted_process_has_a_finding(
    scanned_at: String,
    cfg: &Config,
    baseline: Option<&Baseline>,
    observed: &Observed,
    r: ScanResult,
    i: int,
)
    requires
        call_ensures(scan_at, (scanned_at, cfg, baseline, observed), r),
        cfg.process.allowlist@.len() > 0,
        0 <= i < observed.processes@.len(),
        trimmed(observed.processes@[i].0@).len() > 0,
        forall|k: int|
            0 <= k < cfg.process.blocklist@.len() ==> !glob_matches(
                lowercased((#[trigger] cfg.process.blocklist@[k])@),
                lowercased(trimmed(observed.processes@[i].0@)),
            ),
        forall|k: int|
            0 <= k < cfg.process.allowlist@.len() ==> !glob_matches(
                lowercased((#[trigger] cfg.process.allowlist@[k])@),
                lowercased(trimmed(observed.processes@[i].0@)),
            ),
    ensures
        exists|j: int, x: int|
            {
                let p = #[trigger] observed.processes@[j];
                let f = #[trigger] r.findings@[x];
                &&& 0 <= j < observed.processes@.len()
                &&& 0 <= x < r.findings@.len()
                &&& lowercased(trimmed(p.0@)) == lowercased(trimmed(observed.processes@[i].0@))
                &&& f.kind@ == "unallowlisted_process"@
                &&& f.severity@ == "warn"@
                &&& f.detail@ == "process outside allowlist: "@ + trimmed(p.0@) + " (pid "@
                    + decimal(p.1 as nat) + ")"@
            },
{
    let raw = processes_of(observed.processes@);
    let s = observed@.processes;
    let blocked = texts(cfg.process.blocklist@);
    let allowed = texts(cfg.process.allowlist@);
    assert(allowed.len() > 0);
    let p = (trimmed(raw[i].0), raw[i].1);
    process_list_holds(raw, p);
    let at = s.index_of(p);
    any_pattern_may_match(p.0, blocked);
    any_pattern_may_match(p.0, allowed);
    assert forall|k: int| 0 <= k < blocked.len() implies !glob_matches(
        lowercased(#[trigger] blocked[k]),
        lowercased(p.0),
    ) by {
        assert(blocked[k] == cfg.process.blocklist@[k]@);
    }
    assert forall|k: int| 0 <= k < allowed.len() implies !glob_matches(
        lowercased(#[trigger] allowed[k]),
        lowercased(p.0),
    ) by {
        assert(allowed[k] == cfg.process.allowlist@[k]@);
    }
    every_unlisted_process_is_found(cfg@, base_entries(baseline), observed@, at);
    let notes = scan_notes(cfg@, base_entries(baseline), observed@);
    let b = choose|b: int|
        0 <= b <= at && lowercased((#[trigger] s[b]).0) == lowercased(s[at].0) && notes.contains(
            Note {
                kind: "unallowlisted_process"@,
                severity: "warn"@,
                detail: unlisted_text(s[b]),
            },
        );
    process_list_holds(raw, s[b]);
    assert(s.contains(s[b]));
    let j = choose|j: int|
        0 <= j < raw.len() && trimmed((#[trigger] raw[j]).0) == s[b].0 && raw[j].1 == s[b].1;
    assert(raw[j] == (observed.processes@[j].0@, observed.processes@[j].1));
    assert(raw[i] == (observed.processes@[i].0@, observed.processes@[i].1));
    note_is_found(
        r,
        scanned_at@,
        notes,
        Note { kind: "unallowlisted_process"@, severity: "warn"@, detail: unlisted_text(s[b]) },
    );
}

/// Whether an entry of the allowlist is the port or a range around it.
pub open spec fn allows(spec: PortSpec, port: u16) -> bool {
    match spec {
        PortSpec::Port(p) => p == port,
        PortSpec::Range(text) => range_of(text@) matches Ok((start, end)) && start <= port <= end,
    }
}

proof fn allowed_by_an_entry(specs: Seq<PortSpec>, port: u16)
    ensures
        allowed_ports(port_specs(specs)).contains(port) == exists|k: int|
            0 <= k < specs.len() && allows(#[trigger] specs[k], port),
{
    let all = port_specs(specs);
    if allowed_ports(all).contains(port) {
        let k = choose|k: int| 0 <= k < all.len() && admits(#[trigger] all[k], port);
        assert(all[k] == specs[k]@);
        assert(allows(specs[k], port));
    }
    if exists|k: int| 0 <= k < specs.len() && allows(#[trigger] specs[k], port) {
        let k = choose|k: int| 0 <= k < specs.len() && allows(#[trigger] specs[k], port);
        assert(admits(all[k], port));
    }
}

/// Whatever an inspection gives, where unlisted ports alert, the first socket that listens
/// on a port which no entry of the allowlist allows has a finding, with its address, the
/// port and the first of its processes where it has any.
pub proof fn unlisted_port_has_a_finding(
    scanned_at: String,
    cfg: &Config,
    baseline: Option<&Baseline>,
    observed: &Observed,
    r: ScanResult,
    sockets: Vec<TcpSocket>,
    i: int,
)
    requires
        call_ensures(scan_at, (scanned_at, cfg, baseline, observed), r),
        cfg.ports.alert_unlisted,
        observed.sockets == Ok::<Vec<TcpSocket>, String>(sockets),
        0 <= i < sockets@.len(),
        sockets@[i].state == TcpState::Listen,
        forall|j: int|
            0 <= j < i ==> !((#[trigger] sockets@[j]).state == TcpState::Listen
                && sockets@[j].port == sockets@[i].port),
        forall|k: int|
            0 <= k < cfg.ports.allowed@.len() ==> !allows(
                #[trigger] cfg.ports.allowed@[k],
                sockets@[i].port,
            ),
    ensures
        exists|x: int|
            {
                let s = sockets@[i];
                let f = #[trigger] r.findings@[x];
                let place = "listening on "@ + s.addr@ + ":"@ + decimal(s.port as nat);
                &&& 0 <= x < r.findings@.len()
                &&& f.kind@ == "unlisted_port"@
                &&& f.severity@ == "warn"@
                &&& f.detail@ == if s.pids@.len() > 0 {
                    place + " (pid "@ + decimal(s.pids@[0] as nat) + ")"@
                } else {
                    place
                }
            },
{
    let list = listeners(sockets@);
    let l = as_listener(sockets@[i]);
    first_socket_listens(sockets@, i);
    let at = list.index_of(l);
    allowed_by_an_entry(cfg.ports.allowed@, l.port);
    every_unlisted_port_is_found(cfg@, base_entries(baseline), observed@, list, at);
    let notes = scan_notes(cfg@, base_entries(baseline), observed@);
    let n = Note { kind: "unlisted_port"@, severity: "warn"@, detail: listener_text(l) };
    note_is_found(r, scanned_at@, notes, n);
    let place = "listening on "@ + l.addr + ":"@ + decimal(l.port as nat);
    assert(place + Seq::<char>::empty() =~= place);
    if l.pid is Some {
        assert(listener_text(l) =~= place + " (pid "@ + decimal(l.pid->Some_0 as nat) + ")"@);
    }
}

/// Whatever an inspection gives with a baseline and watch paths, each path whose hash is
/// not the one in the baseline has a finding for what happened to it.
pub proof fn changed_path_has_a_finding(
    scanned_at: String,
    cfg: &Config,
    baseline: &Baseline,
    observed: &Observed,
    r: ScanResult,
    key: Seq<char>,
)
    requires
        call_ensures(scan_at, (scanned_at, cfg, Some(baseline), observed), r),
        cfg.watch.paths@.len() > 0,
        ascending(observed.snapshot.files@),
        ascending(baseline.entries@),
    ensures
        ({
            let now = observed.snapshot.files@;
            let old = baseline.entries@;
            let has = exists|i: int| 0 <= i < now.len() && (#[trigger] now[i]).0 == key;
            let had = exists|j: int| 0 <= j < old.len() && (#[trigger] old[j]).0 == key;
            let differs = exists|i: int, j: int|
                0 <= i < now.len() && 0 <= j < old.len() && (#[trigger] now[i]).0 == key && (
                #[trigger] old[j]).0 == key && now[i].1.hash@ != old[j].1.hash@;
            &&& (has && !had) ==> has_warning(r.findings@, "file_added"@, "added: "@ + key)
            &&& (had && !(has)) ==> has_warning(r.findings@, "file_removed"@, "removed: "@ + key)
            &&& differs ==> has_warning(r.findings@, "file_modified"@, "modified: "@ + key)
        }),
{
    let now = observed.snapshot.files@;
    let old = baseline.entries@;
    let seen = observed@;
    let base = baseline@.entries;
    let report = check_report(seen.files, base, seen.warnings);
    changes_are_in_the_report(now, old, seen.warnings, key);
    assert(cfg@.watch.paths.len() > 0);
    let w = notes("walk_warning"@, "warn"@, Seq::empty(), report.warnings);
    let a = notes("file_added"@, "warn"@, "added: "@, report.added);
    let d = notes("file_removed"@, "warn"@, "removed: "@, report.removed);
    let m = notes("file_modified"@, "warn"@, "modified: "@, report.modified);
    assert(file_notes(cfg@, Some(base), seen) == w + a + d + m);
    if report.added.contains(key) {
        let n = Note { kind: "file_added"@, severity: "warn"@, detail: "added: "@ + key };
        text_is_noted("file_added"@, "warn"@, "added: "@, report.added, key);
        noted_among(w, a, n);
        noted_among(w + a, d, n);
        file_note_is_found(scanned_at, cfg, baseline, observed, r, w + a + d, m, n);
    }
    if report.removed.contains(key) {
        let n = Note { kind: "file_removed"@, severity: "warn"@, detail: "removed: "@ + key };
        text_is_noted("file_removed"@, "warn"@, "removed: "@, report.removed, key);
        noted_among(w + a, d, n);
        file_note_is_found(scanned_at, cfg, baseline, observed, r, w + a + d, m, n);
    }
    if report.modified.contains(key) {
        let n = Note { kind: "file_modified"@, severity: "warn"@, detail: "modified: "@ + key };
        text_is_noted("file_modified"@, "warn"@, "modified: "@, report.modified, key);
        file_note_is_found(scanned_at, cfg, baseline, observed, r, w + a + d, m, n);
    }
}

/// Whether there is a warning of a kind with a detail.
pub open spec fn has_warning(findings: Seq<Finding>, kind: Seq<char>, detail: Seq<char>) -> bool {
    exists|x: int|
        0 <= x < findings.len() && (#[trigger] findings[x]).kind@ == kind && findings[x].severity@
            == "warn"@ && findings[x].detail@ == detail
}

proof fn file_note_is_found(
    scanned_at: String,
    cfg: &Config,
    baseline: &Baseline,
    observed: &Observed,
    r: ScanResult,
    before: Seq<Note>,
    rest: Seq<Note>,
    n: Note,
)
    requires
        call_ensures(scan_at, (scanned_at, cfg, Some(baseline), observed), r),
        before.contains(n) || rest.contains(n),
        file_notes(cfg@, Some(baseline@.entries), observed@) == before + rest,
        n.severity == "warn"@,
    ensures
        has_warning(r.findings@, n.kind, n.detail),
{
    let base = Some(baseline@.entries);
    let files = file_notes(cfg@, base, observed@);
    let processes = process_notes(cfg@, observed@);
    noted_among(before, rest, n);
    noted_among(files, processes, n);
    noted_among(files + processes, port_notes(cfg@, observed@), n);
    note_is_found(r, scanned_at@, scan_notes(cfg@, base, observed@), n);
}

/// Whatever an inspection gives, it is what was found of the files, then of the processes,
/// then of the ports, each as its own report has it, and nothing else.
pub proof fn inspection_reports_in_turn(
    scanned_at: String,
    cfg: &Config,
    baseline: Option<&Baseline>,
    observed: &Observed,
    r: ScanResult,
)
    requires
        call_ensures(scan_at, (scanned_at, cfg, baseline, observed), r),
    ensures
        ({
            let now = entries_of(observed.snapshot.files@);
            let walk = texts(observed.snapshot.walk_warnings@);
            let list = process_list(processes_of(observed.processes@));
            let n = list.len() as int;
            let blocklist = texts(cfg.process.blocklist@);
            let allowlist = texts(cfg.process.allowlist@);
            let files = if cfg.watch.paths@.len() == 0 {
                seq![told("config"@, "warn"@, "no watch paths configured ([watch].paths is empty)"@)]
            } else if baseline is Some {
                let report = check_report(
                    now,
                    entries_of(baseline->Some_0.entries@),
                    walk + texts(observed.snapshot.read_warnings@),
                );
                report.warnings.map_values(
                    |s: Seq<char>| told("walk_warning"@, "warn"@, s),
                ) + report.added.map_values(
                    |s: Seq<char>| told("file_added"@, "warn"@, "added: "@ + s),
                ) + report.removed.map_values(
                    |s: Seq<char>| told("file_removed"@, "warn"@, "removed: "@ + s),
                ) + report.modified.map_values(
                    |s: Seq<char>| told("file_modified"@, "warn"@, "modified: "@ + s),
                )
            } else {
                walk.map_values(|s: Seq<char>| told("walk_warning"@, "warn"@, s)).push(
                    told(
                        "baseline_missing"@,
                        "warn"@,
                        "no baseline found; run `adonword baseline update` first"@,
                    ),
                )
            };
            let blocked = blocked_details(list, blocklist, n).map_values(
                |s: Seq<char>| told("blocked_process"@, "crit"@, s),
            );
            let unlisted = if allowlist.len() == 0 {
                Seq::empty()
            } else {
                unlisted_details(list, blocklist, allowlist, n).map_values(
                    |s: Seq<char>| told("unallowlisted_process"@, "warn"@, s),
                )
            };
            let ports = if !cfg.ports.alert_unlisted {
                Seq::empty()
            } else if observed.sockets is Ok {
                port_warnings(port_specs(cfg.ports.allowed@)).map_values(
                    |s: Seq<char>| told("config"@, "warn"@, s),
                ) + unlisted_ports(
                    listeners(observed.sockets->Ok_0@),
                    allowed_ports(port_specs(cfg.ports.allowed@)),
                ).map_values(|s: Seq<char>| told("unlisted_port"@, "warn"@, s))
            } else {
                seq![
                    told(
                        "port_scan_error"@,
                        "warn"@,
                        "failed to enumerate listening ports: "@ + observed.sockets->Err_0@,
                    ),
                ]
            };
            r.findings@.map_values(|f: Finding| told(f.kind@, f.severity@, f.detail@)) =~= files
                + blocked + unlisted + ports
        }),
{
    let seen = observed@;
    let all = scan_notes(cfg@, base_entries(baseline), seen);
    assert(Seq::<char>::empty().len() == 0);
    assert forall|s: Seq<char>| #[trigger] (Seq::<char>::empty() + s) == s by {
        assert(Seq::<char>::empty() + s =~= s);
    }
    assert forall|x: int| 0 <= x < r.findings@.len() implies told(
        (#[trigger] r.findings@[x]).kind@,
        r.findings@[x].severity@,
        r.findings@[x].detail@,
    ) == told(all[x].kind, all[x].severity, all[x].detail) by {
        assert(r@.findings[x] == finding_at(scanned_at@, all[x]));
        assert(r.findings@[x]@ == r@.findings[x]);
    }
    assert(r.findings@.len() == all.len()) by {
        assert(r@.findings.len() == r.findings@.len());
    }
    assert(cfg@.watch.paths.len() == cfg.watch.paths@.len());
}

/// What a finding tells: its kind, its severity and its detail.
pub open spec fn told(kind: Seq<char>, severity: Seq<char>, detail: Seq<char>) -> (
    Seq<char>,
    Seq<char>,
    Seq<char>,
) {
    (kind, severity, detail)
}

} // verus!
