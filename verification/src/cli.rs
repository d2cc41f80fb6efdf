//! The commands of the program: overrides that are piped in, what a command prints
//! and the code it exits with.

use crate::baseline::{baseline_path, changes_are_in_the_report, check, check_report,
    clean_means_same_hashes, entries_of, hash_at, report_tree, same_entries_are_clean,
    texts_contain, Baseline, BaselineModel, CheckReport, Entries, ReportModel, Snapshot};
use crate::codec::object2;
use crate::engine::{base_entries, FindingModel, ScanModel, ScanResult};
use crate::failure::Fault;
use crate::json::{json_parsed, member, parse_json, pretty_text, read_tree, render_pretty, sort_keys,
    sorted, text_member, uint_member, Json, JsonObject, JsonTree};
use crate::paths::{joined, Dir, DirModel};
use crate::serve::stored_tree;
use crate::state::scan_tree;
use crate::text::{concat2, concat3, decimal, decimal_text, same_text, texts, trim, trimmed};
use crate::textmap::ascending;
use crate::walk::push_some;
use crate::watch::{counts_line, counts_text};
use vstd::prelude::*;
use vstd::string::*;
use vstd::utf8::encode_utf8;

verus! {

// ---------------------------------------------------------------------------
// Overrides from stdin
// ---------------------------------------------------------------------------

/// Whether a key is accepted in the piped JSON object: CLI overrides (interval /
/// host / port / token) and config overrides (watch / process / ports / alert).
pub open spec fn known_key(key: Seq<char>) -> bool {
    key == "watch"@ || key == "process"@ || key == "ports"@ || key == "alert"@ || key
        == "interval"@ || key == "host"@ || key == "port"@ || key == "token"@
}

fn is_known(key: &str) -> (r: bool)
    ensures
        r == known_key(key@),
{
    same_text(key, "watch") || same_text(key, "process") || same_text(key, "ports") || same_text(
        key,
        "alert",
    ) || same_text(key, "interval") || same_text(key, "host") || same_text(key, "port")
        || same_text(key, "token")
}

/// The warnings for members whose keys are not known.
pub open spec fn unknown_keys(s: Seq<(Seq<char>, JsonTree)>) -> Seq<Seq<char>>
    decreases s.len(),
{
    if s.len() == 0 {
        Seq::empty()
    } else {
        push_some(
            unknown_keys(s.drop_last()),
            if known_key(s.last().0) {
                None
            } else {
                Some("warning: ignoring unknown stdin key '"@ + s.last().0 + "'"@)
            },
        )
    }
}

/// The overrides in a document, if it is an object, and the warnings to print.
pub open spec fn overrides_in(parsed: Result<JsonTree, Seq<char>>) -> (
    Option<JsonTree>,
    Seq<Seq<char>>,
) {
    match parsed {
        Err(e) => (
            None,
            seq!["warning: failed to parse stdin JSON ("@ + e + "); ignoring"@],
        ),
        Ok(t) => match sorted(t) {
            JsonTree::Object(s) => (Some(JsonTree::Object(s)), unknown_keys(s)),
            _ => (None, seq!["warning: stdin JSON must be an object; ignoring"@]),
        },
    }
}

/// The overrides in the text that is piped in. Blank text has none.
pub open spec fn stdin_overrides(text: Seq<char>) -> (Option<JsonTree>, Seq<Seq<char>>) {
    if trimmed(text).len() == 0 {
        (None, Seq::empty())
    } else {
        overrides_in(json_parsed(encode_utf8(trimmed(text))))
    }
}

/// What came of reading overrides.
pub open spec fn overrides_of(r: (Option<Json>, Vec<String>)) -> (
    Option<JsonTree>,
    Seq<Seq<char>>,
) {
    (
        match r.0 {
            Some(j) => Some(j@),
            None => None,
        },
        texts(r.1@),
    )
}

fn unknown_key_warnings(o: &JsonObject) -> (r: Vec<String>)
    ensures
        texts(r@) == unknown_keys(o@),
{
    let n: usize = o.len();
    let ghost all = o@;
    let mut out: Vec<String> = Vec::new();
    let mut i: usize = 0;
    assert(all.take(0) =~= Seq::<(Seq<char>, JsonTree)>::empty());
    assert(texts(out@) =~= Seq::<Seq<char>>::empty());
    while i < n
        invariant
            i <= n == o@.len(),
            all == o@,
            texts(out@) == unknown_keys(all.take(i as int)),
        decreases n - i,
    {
        let (key, _value) = o.entry(i);
        let ghost told = out@;
        proof {
            assert(all.take(i + 1).drop_last() =~= all.take(i as int));
            assert(all.take(i + 1).last() == all[i as int]);
        }
        if !is_known(key.as_str()) {
            let line = concat3("warning: ignoring unknown stdin key '", key.as_str(), "'");
            out.push(line);
            assert(texts(out@) =~= texts(told).push(line@));
        }
        i = i + 1;
    }
    assert(all.take(n as int) =~= all);
    out
}

fn one_line(line: String) -> (r: Vec<String>)
    ensures
        texts(r@) == seq![line@],
{
    let ghost l = line@;
    let mut out: Vec<String> = Vec::new();
    out.push(line);
    assert(texts(out@) =~= seq![l]);
    out
}

/// Takes the overrides from a document, given what came of reading it as JSON.
pub fn take_overrides(parsed: Result<Json, String>) -> (r: (Option<Json>, Vec<String>))
    ensures
        overrides_of(r) == overrides_in(read_tree(parsed)),
{
    match parsed {
        Ok(value) => match sort_keys(&value) {
            Json::Object(o) => {
                let warnings = unknown_key_warnings(&o);
                (Some(Json::Object(o)), warnings)
            },
            Json::Real(x) => {
                x.is_number();
                (
                    None,
                    one_line("warning: stdin JSON must be an object; ignoring".to_string()),
                )
            },
            _ => (
                None,
                one_line("warning: stdin JSON must be an object; ignoring".to_string()),
            ),
        },
        Err(e) => (
            None,
            one_line(
                concat3("warning: failed to parse stdin JSON (", e.as_str(), "); ignoring"),
            ),
        ),
    }
}

/// Read the BIT exec-mode contract: what is piped in is a JSON object that merges
/// over CLI args and config (stdin wins). Gives the object with its keys in order,
/// and the warnings to print.
pub fn read_stdin_overrides(text: &str) -> (r: (Option<Json>, Vec<String>))
    ensures
        overrides_of(r) == stdin_overrides(text@),
{
    let body = trim(text);
    if body.as_str().is_empty() {
        let none: Vec<String> = Vec::new();
        assert(texts(none@) =~= Seq::<Seq<char>>::empty());
        return (None, none);
    }
    take_overrides(parse_json(body.as_str().as_bytes()))
}

// ---------------------------------------------------------------------------
// Commands
// ---------------------------------------------------------------------------

/// What to do with the baseline.
#[derive(Debug, Clone, Copy, PartialEq, Eq, Structural)]
pub enum BaselineAction {
    Update,
    Check,
}

/// What the program is asked to do.
#[derive(Debug, Clone)]
pub enum Command {
    Baseline { action: BaselineAction },
    Scan,
    Watch { interval: u64 },
    Report,
    Serve { host: String, port: u16, token: Option<String> },
}

pub enum CommandModel {
    Baseline { action: BaselineAction },
    Scan,
    Watch { interval: u64 },
    Report,
    Serve { host: Seq<char>, port: u16, token: Option<Seq<char>> },
}

impl View for Command {
    type V = CommandModel;

    open spec fn view(&self) -> CommandModel {
        match self {
            Command::Baseline { action } => CommandModel::Baseline { action: *action },
            Command::Scan => CommandModel::Scan,
            Command::Watch { interval } => CommandModel::Watch { interval: *interval },
            Command::Report => CommandModel::Report,
            Command::Serve { host, port, token } => CommandModel::Serve {
                host: host@,
                port: *port,
                token: match token {
                    Some(t) => Some(t@),
                    None => None,
                },
            },
        }
    }
}

/// A command with the overrides over its arguments. A port that is none is passed
/// over.
pub open spec fn overridden_command(c: CommandModel, value: JsonTree) -> CommandModel {
    match c {
        CommandModel::Watch { interval } => CommandModel::Watch {
            interval: match uint_member(value, "interval"@) {
                Some(n) => n as u64,
                None => interval,
            },
        },
        CommandModel::Serve { host, port, token } => CommandModel::Serve {
            host: match text_member(value, "host"@) {
                Some(h) => h,
                None => host,
            },
            port: match uint_member(value, "port"@) {
                Some(p) => if p <= u16::MAX {
                    p as u16
                } else {
                    port
                },
                None => port,
            },
            token: match text_member(value, "token"@) {
                Some(t) => Some(t),
                None => token,
            },
        },
        _ => c,
    }
}

pub fn apply_cli_overrides(command: Command, value: &Json) -> (r: Command)
    ensures
        r@ == overridden_command(command@, value@),
{
    match command {
        Command::Watch { interval } => Command::Watch {
            interval: match value.get_u64("interval") {
                Some(n) => n,
                None => interval,
            },
        },
        Command::Serve { host, port, token } => {
            let host = match value.get_str("host") {
                Some(h) => h.to_string(),
                None => host,
            };
            let port: u16 = match value.get_u64("port") {
                Some(p) => if p <= 65535 {
                    p as u16
                } else {
                    port
                },
                None => port,
            };
            let token = match value.get_str("token") {
                Some(t) => Some(t.to_string()),
                None => token,
            };
            Command::Serve { host, port, token }
        },
        other => other,
    }
}

// ---------------------------------------------------------------------------
// What commands print
// ---------------------------------------------------------------------------

/// What a command prints, line by line, and the code it exits with.
#[derive(Debug, Clone)]
pub struct Output {
    pub out: Vec<String>,
    pub err: Vec<String>,
    pub code: i32,
}

pub struct OutputModel {
    pub out: Seq<Seq<char>>,
    pub err: Seq<Seq<char>>,
    pub code: i32,
}

impl View for Output {
    type V = OutputModel;

    open spec fn view(&self) -> OutputModel {
        OutputModel { out: texts(self.out@), err: texts(self.err@), code: self.code }
    }
}

/// Texts with a lead before each.
pub open spec fn led(lead: Seq<char>, list: Seq<Seq<char>>) -> Seq<Seq<char>> {
    list.map_values(|s: Seq<char>| lead + s)
}

fn push_led(out: &mut Vec<String>, lead: &str, list: &Vec<String>)
    ensures
        texts(final(out)@) == texts(old(out)@) + led(lead@, texts(list@)),
{
    let ghost before = texts(out@);
    let ghost all = led(lead@, texts(list@));
    let mut i: usize = 0;
    assert(before + all.take(0) =~= before);
    while i < list.len()
        invariant
            i <= list@.len(),
            all == led(lead@, texts(list@)),
            texts(out@) == before + all.take(i as int),
        decreases list@.len() - i,
    {
        let ghost was = out@;
        let line = concat2(lead, list[i].as_str());
        out.push(line);
        proof {
            assert(texts(out@) =~= texts(was).push(line@));
            assert(all[i as int] == lead@ + list@[i as int]@);
            assert(before + all.take(i + 1) =~= (before + all.take(i as int)).push(all[i as int]));
        }
        i = i + 1;
    }
    assert(all.take(list@.len() as int) =~= all);
}

fn no_lines() -> (r: Vec<String>)
    ensures
        texts(r@) == Seq::<Seq<char>>::empty(),
{
    let r: Vec<String> = Vec::new();
    assert(texts(r@) =~= Seq::<Seq<char>>::empty());
    r
}

proof fn names_differ()
    ensures
        "status"@ != "files"@,
        "status"@ != "path"@,
        "status"@ != "generated_at"@,
        "files"@ != "path"@,
        "files"@ != "generated_at"@,
        "path"@ != "generated_at"@,
        "status"@ != "added"@,
        "status"@ != "removed"@,
        "status"@ != "modified"@,
        "added"@ != "removed"@,
        "added"@ != "modified"@,
        "removed"@ != "modified"@,
        "status"@ != "report"@,
{
    reveal_strlit("status");
    reveal_strlit("files");
    reveal_strlit("path");
    reveal_strlit("generated_at");
    reveal_strlit("added");
    reveal_strlit("removed");
    reveal_strlit("modified");
    reveal_strlit("report");
    assert("status"@[0] != "files"@[0]);
    assert("status"@[0] != "path"@[0]);
    assert("status"@[0] != "generated_at"@[0]);
    assert("files"@[0] != "path"@[0]);
    assert("files"@[0] != "generated_at"@[0]);
    assert("path"@[0] != "generated_at"@[0]);
    assert("status"@[0] != "added"@[0]);
    assert("status"@[0] != "removed"@[0]);
    assert("status"@[0] != "modified"@[0]);
    assert("added"@[0] != "removed"@[0]);
    assert("added"@[0] != "modified"@[0]);
    assert("removed"@[0] != "modified"@[0]);
    assert("status"@[0] != "report"@[0]);
}

/// What `baseline update` tells of a stored baseline, as a document.
pub open spec fn updated_tree(b: BaselineModel, path: Seq<char>) -> JsonTree {
    sorted(
        JsonTree::Object(
            seq![
                ("status"@, JsonTree::Text("updated"@)),
                ("files"@, JsonTree::Int(b.entries.len() as int)),
                ("path"@, JsonTree::Text(path)),
                ("generated_at"@, JsonTree::Text(b.generated_at)),
            ],
        ),
    )
}

/// What `baseline update` prints.
pub open spec fn update_output(
    json: bool,
    data_dir: DirModel,
    b: BaselineModel,
    warnings: Seq<Seq<char>>,
) -> OutputModel {
    let path = joined(data_dir, "baseline.json"@);
    OutputModel {
        out: if json {
            seq![pretty_text(updated_tree(b, path))]
        } else {
            seq!["baseline updated: "@ + decimal(b.entries.len()) + " files -> "@ + path]
        },
        err: led("warning: "@, warnings),
        code: 0,
    }
}

pub fn print_update(json: bool, data_dir: &Dir, baseline: &Baseline, warnings: &Vec<String>) -> (r:
    Output)
    ensures
        r@ == update_output(json, data_dir@, baseline@, texts(warnings@)),
{
    let path = baseline_path(data_dir);
    let files: u64 = baseline.entries.len() as u64;
    let mut err = no_lines();
    push_led(&mut err, "warning: ", warnings);
    assert(texts(err@) =~= led("warning: "@, texts(warnings@)));
    let line = if json {
        proof {
            names_differ();
        }
        let ghost all = seq![
            ("status"@, JsonTree::Text("updated"@)),
            ("files"@, JsonTree::Int(files as int)),
            ("path"@, JsonTree::Text(path@)),
            ("generated_at"@, JsonTree::Text(baseline.generated_at@)),
        ];
        let o = JsonObject::new().with("status".to_string(), Json::Text("updated".to_string()));
        assert(o@ =~= all.take(1));
        let o = o.with("files".to_string(), Json::Uint(files));
        assert(o@ =~= all.take(2));
        let o = o.with("path".to_string(), Json::Text(path));
        assert(o@ =~= all.take(3));
        let o = o.with("generated_at".to_string(), Json::Text(baseline.generated_at.clone()));
        assert(o@ =~= all);
        render_pretty(&sort_keys(&Json::Object(o)))
    } else {
        let mut text = concat3("baseline updated: ", decimal_text(files).as_str(), " files -> ");
        text.append(path.as_str());
        text
    };
    Output { out: one_line(line), err, code: 0 }
}

/// What is told where there is no baseline to check against.
pub open spec fn missing_tree() -> JsonTree {
    sorted(
        JsonTree::Object(
            seq![
                ("status"@, JsonTree::Text("missing"@)),
                ("added"@, JsonTree::Array(Seq::empty())),
                ("removed"@, JsonTree::Array(Seq::empty())),
                ("modified"@, JsonTree::Array(Seq::empty())),
            ],
        ),
    )
}

fn empty_list() -> (r: Json)
    ensures
        r@ == JsonTree::Array(Seq::empty()),
{
    let r = Json::Array(Vec::new());
    assert(r@->Array_0 =~= Seq::<JsonTree>::empty());
    r
}

fn missing_json() -> (r: Json)
    ensures
        r@ == missing_tree(),
{
    proof {
        names_differ();
    }
    let ghost none = JsonTree::Array(Seq::empty());
    let ghost all = seq![
        ("status"@, JsonTree::Text("missing"@)),
        ("added"@, none),
        ("removed"@, none),
        ("modified"@, none),
    ];
    let o = JsonObject::new().with("status".to_string(), Json::Text("missing".to_string()));
    assert(o@ =~= all.take(1));
    let o = o.with("added".to_string(), empty_list());
    assert(o@ =~= all.take(2));
    let o = o.with("removed".to_string(), empty_list());
    assert(o@ =~= all.take(3));
    let o = o.with("modified".to_string(), empty_list());
    assert(o@ =~= all);
    sort_keys(&Json::Object(o))
}

/// The lines of a check.
pub open spec fn report_lines(r: ReportModel) -> Seq<Seq<char>> {
    seq!["status: "@ + r.status] + led("added: "@, r.added) + led("removed: "@, r.removed) + led(
        "modified: "@,
        r.modified,
    )
}

/// The code of a check: 0 where nothing changed, 1 where something did.
pub open spec fn report_code(r: ReportModel) -> i32 {
    if r.status == "clean"@ {
        0
    } else {
        1
    }
}

/// The code that a command which did its work exits with: `baseline check` tells
/// what it found (2 where there is no baseline), every other command gives 0,
/// whatever was found.
pub open spec fn command_code(c: CommandModel, report: Option<ReportModel>) -> i32 {
    match (c, report) {
        (CommandModel::Baseline { action: BaselineAction::Check }, None) => 2,
        (CommandModel::Baseline { action: BaselineAction::Check }, Some(r)) => report_code(r),
        _ => 0,
    }
}

/// What came of a check, if one was made.
pub open spec fn optional_report(report: Option<&CheckReport>) -> Option<ReportModel> {
    match report {
        Some(r) => Some(r@),
        None => None,
    }
}

pub fn exit_code(command: &Command, report: Option<&CheckReport>) -> (r: i32)
    ensures
        r == command_code(command@, optional_report(report)),
{
    match command {
        Command::Baseline { action: BaselineAction::Check } => match report {
            None => 2,
            Some(found) => if same_text(found.status.as_str(), "clean") {
                0
            } else {
                1
            },
        },
        _ => 0,
    }
}

/// What a command prints that failed. It exits with code 2.
pub open spec fn error_output(message: Seq<char>) -> OutputModel {
    OutputModel { out: Seq::empty(), err: seq!["error: "@ + message], code: 2 }
}

pub fn print_error(message: &str) -> (r: Output)
    ensures
        r@ == error_output(message@),
{
    Output { out: no_lines(), err: one_line(concat2("error: ", message)), code: 2 }
}

/// The command `baseline check`.
pub open spec fn check_command() -> CommandModel {
    CommandModel::Baseline { action: BaselineAction::Check }
}

/// What `baseline check` prints. Exit codes: 0 = no change, 1 = changes found,
/// 2 = baseline missing.
pub open spec fn check_output(
    json: bool,
    base: Option<Entries>,
    current: Entries,
    warnings: Seq<Seq<char>>,
) -> OutputModel {
    match base {
        None => OutputModel {
            out: if json {
                seq![pretty_text(missing_tree())]
            } else {
                Seq::empty()
            },
            err: if json {
                Seq::empty()
            } else {
                seq!["error: no baseline found; run `adonword baseline update` first"@]
            },
            code: command_code(check_command(), None),
        },
        Some(entries) => {
            let report = check_report(current, entries, warnings);
            OutputModel {
                out: if json {
                    seq![pretty_text(report_tree(report))]
                } else {
                    report_lines(report)
                },
                err: led("warning: "@, warnings),
                code: command_code(check_command(), Some(report)),
            }
        },
    }
}

/// Checks the current files against the baseline, if there is one.
pub fn print_check(json: bool, baseline: Option<&Baseline>, snapshot: &Snapshot) -> (r: Output)
    ensures
        r@ == check_output(
            json,
            base_entries(baseline),
            entries_of(snapshot.files@),
            snapshot.all_warnings(),
        ),
{
    let command = Command::Baseline { action: BaselineAction::Check };
    let baseline = match baseline {
        Some(b) => b,
        None => {
            let code: i32 = exit_code(&command, None);
            return if json {
                Output {
                    out: one_line(render_pretty(&missing_json())),
                    err: no_lines(),
                    code,
                }
            } else {
                Output {
                    out: no_lines(),
                    err: one_line(
                        "error: no baseline found; run `adonword baseline update` first".to_string(),
                    ),
                    code,
                }
            };
        },
    };
    let report = check(snapshot, baseline);
    let ghost model = report@;
    let mut err = no_lines();
    push_led(&mut err, "warning: ", &report.warnings);
    assert(texts(err@) =~= led("warning: "@, model.warnings));
    let out = if json {
        one_line(render_pretty(&report.to_json()))
    } else {
        let mut lines = one_line(concat2("status: ", report.status.as_str()));
        push_led(&mut lines, "added: ", &report.added);
        push_led(&mut lines, "removed: ", &report.removed);
        push_led(&mut lines, "modified: ", &report.modified);
        assert(texts(lines@) =~= report_lines(model));
        lines
    };
    let code: i32 = exit_code(&command, Some(&report));
    Output { out, err, code }
}

/// The line of a finding.
pub open spec fn finding_text(f: FindingModel) -> Seq<char> {
    "["@ + f.severity + "] "@ + f.kind + " "@ + f.detail
}

/// The lines of a scan: its time, its findings and their counts.
pub open spec fn scan_lines(m: ScanModel) -> Seq<Seq<char>> {
    seq!["scan at "@ + m.scanned_at + ":"@] + m.findings.map_values(
        |f: FindingModel| finding_text(f),
    ) + seq![counts_text(m)]
}

/// What is printed of a scan: JSON, or lines.
pub open spec fn scan_output(m: ScanModel, json: bool) -> Seq<Seq<char>> {
    if json {
        seq![pretty_text(scan_tree(m))]
    } else {
        scan_lines(m)
    }
}

pub fn print_scan(result: &ScanResult, json: bool) -> (r: Vec<String>)
    ensures
        texts(r@) == scan_output(result@, json),
{
    if json {
        return one_line(render_pretty(&result.to_json()));
    }
    let mut out = one_line(concat3("scan at ", result.scanned_at.as_str(), ":"));
    let ghost first = seq!["scan at "@ + result@.scanned_at + ":"@];
    let ghost all = result@.findings.map_values(|f: FindingModel| finding_text(f));
    let mut i: usize = 0;
    assert(first + all.take(0) =~= first);
    while i < result.findings.len()
        invariant
            i <= result.findings@.len(),
            all == result@.findings.map_values(|f: FindingModel| finding_text(f)),
            texts(out@) == first + all.take(i as int),
        decreases result.findings@.len() - i,
    {
        let f = &result.findings[i];
        let ghost was = out@;
        let mut line = concat3("[", f.severity.as_str(), "] ");
        line.append(f.kind.as_str());
        line.append(" ");
        line.append(f.detail.as_str());
        out.push(line);
        proof {
            assert(texts(out@) =~= texts(was).push(line@));
            assert(all[i as int] == finding_text(f@));
            assert(first + all.take(i + 1) =~= (first + all.take(i as int)).push(all[i as int]));
        }
        i = i + 1;
    }
    let ghost was = out@;
    let last = counts_line(result);
    out.push(last);
    assert(texts(out@) =~= texts(was).push(last@));
    assert(all.take(result.findings@.len() as int) =~= all);
    assert(texts(out@) =~= scan_lines(result@));
    out
}

/// The result that is stored, if there is one.
pub open spec fn stored_model(stored: Option<&ScanResult>) -> Option<ScanModel> {
    match stored {
        Some(result) => Some(result@),
        None => None,
    }
}

/// What `report` prints.
pub open spec fn report_output(stored: Option<ScanModel>, json: bool) -> Seq<Seq<char>> {
    if json {
        seq![pretty_text(stored_tree(Ok::<Option<ScanModel>, Fault>(stored)))]
    } else {
        match stored {
            Some(m) => scan_lines(m),
            None => seq!["no scan report available; run `adonword scan` first"@],
        }
    }
}

pub fn print_report(stored: Option<&ScanResult>, json: bool) -> (r: Vec<String>)
    ensures
        texts(r@) == report_output(stored_model(stored), json),
{
    proof {
        names_differ();
    }
    match stored {
        Some(result) => if json {
            let document = object2(
                "status",
                Json::Text("ok".to_string()),
                "report",
                result.to_json(),
            );
            one_line(render_pretty(&sort_keys(&document)))
        } else {
            print_scan(result, false)
        },
        None => if json {
            let document = object2(
                "status",
                Json::Text("no_report".to_string()),
                "report",
                Json::Null,
            );
            one_line(render_pretty(&sort_keys(&document)))
        } else {
            one_line("no scan report available; run `adonword scan` first".to_string())
        },
    }
}

// ---------------------------------------------------------------------------
// Laws
// ---------------------------------------------------------------------------

/// The exit code of `baseline check` tells the status: 2 where there is no
/// baseline, else 0 exactly if the current files have the paths and the hashes of
/// the baseline, and 1 otherwise, in either form of output.
pub proof fn exit_code_tells_the_status(
    json: bool,
    base: Option<Entries>,
    current: Entries,
    warnings: Seq<Seq<char>>,
)
    requires
        ascending(current),
        base matches Some(entries) ==> ascending(entries),
    ensures
        base is None ==> check_output(json, base, current, warnings).code == 2,
        base matches Some(entries) ==> check_output(json, base, current, warnings).code == if (
        forall|key: Seq<char>| #[trigger]
            hash_at(current, key) == hash_at(entries, key)) {
            0int
        } else {
            1int
        },
{
    if let Some(entries) = base {
        clean_means_same_hashes(current, entries, warnings);
    }
}

/// Findings are data, not errors: every command but `baseline check` exits with 0
/// once its work is done, whatever was found.
pub proof fn findings_are_no_errors(c: CommandModel, report: Option<ReportModel>)
    requires
        c != check_command(),
    ensures
        command_code(c, report) == 0,
{
}

/// What is piped in wins over the arguments of the command, and leaves alone what it
/// does not name.
pub proof fn overrides_win_over_arguments(
    host: Seq<char>,
    port: u16,
    token: Option<Seq<char>>,
    value: JsonTree,
)
    ensures
        overridden_command(CommandModel::Serve { host, port, token }, value) matches
            CommandModel::Serve { host: h, port: p, token: t } && {
            &&& text_member(value, "host"@) matches Some(s) ==> h == s
            &&& text_member(value, "host"@) is None ==> h == host
            &&& uint_member(value, "port"@) matches Some(n) ==> (n <= u16::MAX ==> p == n)
            &&& uint_member(value, "port"@) is None ==> p == port
            &&& text_member(value, "token"@) matches Some(s) ==> t == Some(s)
            &&& text_member(value, "token"@) is None ==> t == token
        },
{
}

proof fn leads_differ()
    ensures
        "status: "@[0] == 's',
        "added: "@[0] == 'a',
        "removed: "@[0] == 'r',
        "modified: "@[0] == 'm',
        "status: "@.len() > 0,
        "added: "@.len() > 0,
        "removed: "@.len() > 0,
        "modified: "@.len() > 0,
{
    reveal_strlit("status: ");
    reveal_strlit("added: ");
    reveal_strlit("removed: ");
    reveal_strlit("modified: ");
}

/// A text with a lead is among texts with that lead exactly if it is among them without.
proof fn led_holds(lead: Seq<char>, list: Seq<Seq<char>>, s: Seq<char>)
    ensures
        led(lead, list).contains(lead + s) == list.contains(s),
{
    if list.contains(s) {
        assert(led(lead, list)[list.index_of(s)] == lead + s);
    }
    if led(lead, list).contains(lead + s) {
        let i = led(lead, list).index_of(lead + s);
        assert((lead + list[i]).skip(lead.len() as int) =~= list[i]);
        assert((lead + s).skip(lead.len() as int) =~= s);
        assert(list[i] == s);
    }
}

/// The lines of a report hold a line exactly if one of its parts does.
proof fn report_lines_hold(r: ReportModel, line: Seq<char>)
    ensures
        report_lines(r).contains(line) == (line == "status: "@ + r.status || led(
            "added: "@,
            r.added,
        ).contains(line) || led("removed: "@, r.removed).contains(line) || led(
            "modified: "@,
            r.modified,
        ).contains(line)),
{
    let s = seq!["status: "@ + r.status];
    let a = led("added: "@, r.added);
    let d = led("removed: "@, r.removed);
    let m = led("modified: "@, r.modified);
    let all = report_lines(r);
    assert(all == s + a + d + m);
    if line == "status: "@ + r.status {
        assert(all[0] == line);
    }
    if a.contains(line) {
        assert(all[1 + a.index_of(line)] == line);
    }
    if d.contains(line) {
        assert(all[1 + a.len() + d.index_of(line)] == line);
    }
    if m.contains(line) {
        assert(all[1 + a.len() + d.len() + m.index_of(line)] == line);
    }
    if all.contains(line) {
        let k = all.index_of(line);
        if k == 0 {
        } else if k < 1 + a.len() {
            assert(a[k - 1] == line);
        } else if k < 1 + a.len() + d.len() {
            assert(d[k - 1 - a.len()] == line);
        } else {
            assert(m[k - 1 - a.len() - d.len()] == line);
        }
    }
}

/// Whatever the plain output of `baseline check` is, each path whose hash is not the one
/// in the baseline has its line: "added: " before it where only the current files hold
/// it, "removed: " where only the baseline does, "modified: " where both do and the
/// hashes differ. No other path has a line. The first line tells the status, and there
/// are no lines but these.
pub proof fn check_lines_name_every_change(
    baseline: &Baseline,
    snapshot: &Snapshot,
    r: Output,
    key: Seq<char>,
)
    requires
        call_ensures(print_check, (false, Some(baseline), snapshot), r),
        ascending(snapshot.files@),
        ascending(baseline.entries@),
    ensures
        ({
            let now = snapshot.files@;
            let old = baseline.entries@;
            let has = exists|i: int| 0 <= i < now.len() && (#[trigger] now[i]).0 == key;
            let had = exists|j: int| 0 <= j < old.len() && (#[trigger] old[j]).0 == key;
            let differs = exists|i: int, j: int|
                0 <= i < now.len() && 0 <= j < old.len() && (#[trigger] now[i]).0 == key && (
                #[trigger] old[j]).0 == key && now[i].1.hash@ != old[j].1.hash@;
            &&& (exists|x: int| 0 <= x < r.out@.len() && (#[trigger] r.out@[x])@ == "added: "@ + key)
                == (has && !had)
            &&& (exists|x: int|
                0 <= x < r.out@.len() && (#[trigger] r.out@[x])@ == "removed: "@ + key) == (had
                && !has)
            &&& (exists|x: int|
                0 <= x < r.out@.len() && (#[trigger] r.out@[x])@ == "modified: "@ + key) == differs
        }),
        r.out@.len() >= 1,
        r.out@[0]@ == "status: "@ + if r.out@.len() == 1 {
            "clean"@
        } else {
            "changed"@
        },
        r.code == if r.out@.len() == 1 {
            0int
        } else {
            1int
        },
{
    let now = snapshot.files@;
    let old = baseline.entries@;
    let current = entries_of(now);
    let base = entries_of(old);
    let report = check_report(current, base, snapshot.all_warnings());
    let lines = report_lines(report);
    assert(texts(r.out@) == lines);
    assert(texts(r.out@).len() == r.out@.len());
    assert(lines[0] == r.out@[0]@);
    leads_differ();
    reveal_strlit("clean");
    reveal_strlit("changed");
    assert("clean"@.len() != "changed"@.len());
    texts_contain(r.out@, "added: "@ + key);
    texts_contain(r.out@, "removed: "@ + key);
    texts_contain(r.out@, "modified: "@ + key);
    report_lines_hold(report, "added: "@ + key);
    report_lines_hold(report, "removed: "@ + key);
    report_lines_hold(report, "modified: "@ + key);
    led_holds("added: "@, report.added, key);
    led_holds("removed: "@, report.removed, key);
    led_holds("modified: "@, report.modified, key);
    assert(("added: "@ + key)[0] == 'a' && ("removed: "@ + key)[0] == 'r' && ("modified: "@
        + key)[0] == 'm' && ("status: "@ + report.status)[0] == 's');
    assert forall|line: Seq<char>| #[trigger] led("added: "@, report.added).contains(
        line,
    ) implies line[0] == 'a' by {
        let i = led("added: "@, report.added).index_of(line);
        assert(("added: "@ + report.added[i])[0] == 'a');
    }
    assert forall|line: Seq<char>| #[trigger] led("removed: "@, report.removed).contains(
        line,
    ) implies line[0] == 'r' by {
        let i = led("removed: "@, report.removed).index_of(line);
        assert(("removed: "@ + report.removed[i])[0] == 'r');
    }
    assert forall|line: Seq<char>| #[trigger] led("modified: "@, report.modified).contains(
        line,
    ) implies line[0] == 'm' by {
        let i = led("modified: "@, report.modified).index_of(line);
        assert(("modified: "@ + report.modified[i])[0] == 'm');
    }
    changes_are_in_the_report(now, old, snapshot.all_warnings(), key);
}

/// Whatever `baseline check` prints, every warning of the walk and of the reading has its
/// line on the error output where there is a baseline, in order, and there is no other.
/// Where there is none the code is 2, and that is said.
pub proof fn check_tells_warnings_and_what_is_missing(
    json: bool,
    baseline: Option<&Baseline>,
    snapshot: &Snapshot,
    r: Output,
    x: int,
)
    requires
        call_ensures(print_check, (json, baseline, snapshot), r),
        0 <= x < r.err@.len(),
    ensures
        baseline is Some ==> {
            let n = snapshot.walk_warnings@.len();
            &&& r.err@.len() == n + snapshot.read_warnings@.len()
            &&& r.err@[x]@ == "warning: "@ + if x < n {
                snapshot.walk_warnings@[x]@
            } else {
                snapshot.read_warnings@[x - n]@
            }
        },
        baseline is None ==> {
            &&& !json
            &&& r.code == 2
            &&& r.out@.len() == 0
            &&& r.err@.len() == 1
            &&& r.err@[x]@ == "error: no baseline found; run `adonword baseline update` first"@
        },
{
    assert(texts(r.err@).len() == r.err@.len());
    assert(texts(r.out@).len() == r.out@.len());
    assert(texts(r.err@)[x] == r.err@[x]@);
}

/// Whatever `baseline check` exits with: 2 where there is no baseline, in either form of
/// output; else 0 exactly if the current files and the baseline hold the same paths with
/// the same hashes, and 1 otherwise.
pub proof fn check_code_tells_changes(
    json: bool,
    baseline: Option<&Baseline>,
    snapshot: &Snapshot,
    r: Output,
)
    requires
        call_ensures(print_check, (json, baseline, snapshot), r),
        ascending(snapshot.files@),
        baseline matches Some(b) ==> ascending(b.entries@),
    ensures
        baseline is None ==> r.code == 2,
        baseline matches Some(b) ==> {
            let now = snapshot.files@;
            let old = b.entries@;
            let same = now.len() == old.len() && forall|i: int|
                0 <= i < now.len() ==> (#[trigger] now[i]).0 == old[i].0 && now[i].1.hash@
                    == old[i].1.hash@;
            r.code == if same {
                0int
            } else {
                1int
            }
        },
        baseline is None && json ==> r.out@.len() == 1 && r.err@.len() == 0,
{
    reveal_strlit("clean");
    reveal_strlit("changed");
    assert("clean"@.len() != "changed"@.len());
    assert(texts(r.err@).len() == r.err@.len());
    assert(texts(r.out@).len() == r.out@.len());
    if let Some(b) = baseline {
        same_entries_are_clean(snapshot.files@, b.entries@, snapshot.all_warnings());
    }
}

/// Whatever `baseline update` prints, it tells how many files there are and where the
/// baseline is, and each warning has its line; it exits with 0.
pub proof fn update_tells_all(
    data_dir: &Dir,
    baseline: &Baseline,
    warnings: &Vec<String>,
    r: Output,
    x: int,
)
    requires
        call_ensures(print_update, (false, data_dir, baseline, warnings), r),
    ensures
        r.code == 0,
        r.out@.len() == 1,
        r.out@[0]@ == "baseline updated: "@ + decimal(baseline.entries@.len()) + " files -> "@
            + joined(data_dir@, "baseline.json"@),
        r.err@.len() == warnings@.len(),
        0 <= x < warnings@.len() ==> r.err@[x]@ == "warning: "@ + warnings@[x]@,
{
    assert(texts(r.out@).len() == r.out@.len());
    assert(texts(r.out@)[0] == r.out@[0]@);
    assert(texts(r.err@).len() == r.err@.len());
    assert(entries_of(baseline.entries@).len() == baseline.entries@.len());
    if 0 <= x < warnings@.len() {
        assert(texts(r.err@)[x] == r.err@[x]@);
    }
}

/// Whatever `baseline update` prints as JSON is the document of the update: its status,
/// the number of files, the path and the time.
pub proof fn update_document_tells_all(
    data_dir: &Dir,
    baseline: &Baseline,
    warnings: &Vec<String>,
    r: Output,
)
    requires
        call_ensures(print_update, (true, data_dir, baseline, warnings), r),
    ensures
        r.code == 0,
        r.out@.len() == 1,
        r.err@.len() == warnings@.len(),
        r.out@[0]@ == pretty_text(
            sorted(
                JsonTree::Object(
                    seq![
                        ("status"@, JsonTree::Text("updated"@)),
                        ("files"@, JsonTree::Int(baseline.entries@.len() as int)),
                        ("path"@, JsonTree::Text(joined(data_dir@, "baseline.json"@))),
                        ("generated_at"@, JsonTree::Text(baseline.generated_at@)),
                    ],
                ),
            ),
        ),
{
    assert(texts(r.out@).len() == r.out@.len());
    assert(texts(r.out@)[0] == r.out@[0]@);
    assert(texts(r.err@).len() == r.err@.len());
    assert(entries_of(baseline.entries@).len() == baseline.entries@.len());
}

/// Whatever a scan prints, each finding has its line, in order, between the time and the
/// counts: with its severity, its kind and its detail. As JSON it is the document.
pub proof fn scan_lines_tell_every_finding(
    result: &ScanResult,
    json: bool,
    r: Vec<String>,
    x: int,
)
    requires
        call_ensures(print_scan, (result, json), r),
        0 <= x < result.findings@.len(),
    ensures
        !json ==> {
            let f = result.findings@[x];
            let n = result.findings@.len() as int;
            &&& r@.len() == n + 2
            &&& r@[0]@ == "scan at "@ + result.scanned_at@ + ":"@
            &&& r@[x + 1]@ == "["@ + f.severity@ + "] "@ + f.kind@ + " "@ + f.detail@
            &&& r@[n + 1]@ == decimal(result.summary.total as nat) + " findings ("@ + decimal(
                result.summary.crit as nat,
            ) + " crit, "@ + decimal(result.summary.warn as nat) + " warn)"@
        },
        json ==> r@.len() == 1 && r@[0]@ == pretty_text(scan_tree(result@)),
{
    assert(texts(r@).len() == r@.len());
    assert(result@.findings.len() == result.findings@.len());
    if !json {
        let lines = scan_lines(result@);
        let n = result.findings@.len() as int;
        assert(texts(r@) == lines);
        assert(lines[0] == r@[0]@);
        assert(lines[x + 1] == r@[x + 1]@);
        assert(lines[x + 1] == finding_text(result@.findings[x]));
        assert(lines[n + 1] == r@[n + 1]@);
    } else {
        assert(texts(r@)[0] == r@[0]@);
    }
}

/// A scan without findings prints its time and the counts, and nothing else.
pub proof fn scan_without_findings_prints_two_lines(result: &ScanResult, r: Vec<String>)
    requires
        call_ensures(print_scan, (result, false), r),
        result.findings@.len() == 0,
    ensures
        r@.len() == 2,
        r@[0]@ == "scan at "@ + result.scanned_at@ + ":"@,
{
    assert(texts(r@).len() == r@.len());
    assert(result@.findings.len() == 0);
    assert(scan_lines(result@)[0] == r@[0]@);
}

/// Whatever `report` prints of a stored result is what the scan printed of it; where
/// nothing is stored, it says so.
pub proof fn report_prints_what_the_scan_printed(
    result: &ScanResult,
    printed: Vec<String>,
    r: Vec<String>,
    none: Vec<String>,
    json: Vec<String>,
    none_json: Vec<String>,
)
    requires
        call_ensures(print_scan, (result, false), printed),
        call_ensures(print_report, (Some(result), false), r),
        call_ensures(print_report, (None, false), none),
        call_ensures(print_report, (Some(result), true), json),
        call_ensures(print_report, (None, true), none_json),
    ensures
        texts(r@) == texts(printed@),
        none@.len() == 1 && none@[0]@ == "no scan report available; run `adonword scan` first"@,
        json@.len() == 1 && json@[0]@ == pretty_text(
            sorted(
                JsonTree::Object(
                    seq![("status"@, JsonTree::Text("ok"@)), ("report"@, scan_tree(result@))],
                ),
            ),
        ),
        none_json@.len() == 1 && none_json@[0]@ == pretty_text(
            sorted(
                JsonTree::Object(
                    seq![("status"@, JsonTree::Text("no_report"@)), ("report"@, JsonTree::Null)],
                ),
            ),
        ),
{
    assert(texts(none@).len() == none@.len());
    assert(texts(none@)[0] == none@[0]@);
    assert(texts(json@).len() == json@.len());
    assert(texts(json@)[0] == json@[0]@);
    assert(texts(none_json@).len() == none_json@.len());
    assert(texts(none_json@)[0] == none_json@[0]@);
}

/// Whatever a command exits with once its work is done: `baseline check` with 2 where
/// there is no baseline, 0 where the report is clean and 1 otherwise; every other command
/// with 0. A command that failed says why and exits with 2.
pub proof fn codes_are_by_command(
    command: &Command,
    report: Option<&CheckReport>,
    code: i32,
    message: &str,
    failed: Output,
)
    requires
        call_ensures(exit_code, (command, report), code),
        call_ensures(print_error, (message,), failed),
    ensures
        command matches Command::Baseline { action: BaselineAction::Check } ==> code == (
        match report {
            None => 2int,
            Some(r) => if r.status@ == "clean"@ {
                0
            } else {
                1
            },
        }),
        !(command matches Command::Baseline { action: BaselineAction::Check }) ==> code == 0,
        failed.code == 2,
        failed.out@.len() == 0,
        failed.err@.len() == 1,
        failed.err@[0]@ == "error: "@ + message@,
{
    assert(texts(failed.out@).len() == failed.out@.len());
    assert(texts(failed.err@).len() == failed.err@.len());
    assert(texts(failed.err@)[0] == failed.err@[0]@);
}

/// A member of what is piped in is warned of exactly if its key is none of those that are
/// accepted; what was warned of before stays.
pub proof fn unknown_keys_are_warned_of(
    s: Seq<(Seq<char>, JsonTree)>,
    key: Seq<char>,
    value: JsonTree,
)
    ensures
        unknown_keys(s.push((key, value))) == if key == "watch"@ || key == "process"@ || key
            == "ports"@ || key == "alert"@ || key == "interval"@ || key == "host"@ || key
            == "port"@ || key == "token"@ {
            unknown_keys(s)
        } else {
            unknown_keys(s).push("warning: ignoring unknown stdin key '"@ + key + "'"@)
        },
        unknown_keys(Seq::empty()).len() == 0,
{
    assert(s.push((key, value)).drop_last() =~= s);
}

/// Whatever `read_stdin_overrides` gives: nothing for blank text; where the text, white
/// space around it aside, is a JSON object, that object with its keys in order, whole,
/// and a warning for each key that is not accepted; else nothing but a warning.
pub proof fn overrides_are_the_piped_object(text: &str, r: (Option<Json>, Vec<String>))
    requires
        call_ensures(read_stdin_overrides, (text,), r),
    ensures
        trimmed(text@).len() == 0 ==> r.0 is None && r.1@.len() == 0,
        trimmed(text@).len() > 0 ==> match json_parsed(encode_utf8(trimmed(text@))) {
            Err(e) => r.0 is None && texts(r.1@) == seq![
                "warning: failed to parse stdin JSON ("@ + e + "); ignoring"@,
            ],
            Ok(t) => if t is Object {
                (r.0 matches Some(j) && j@ == sorted(t)) && texts(r.1@) == unknown_keys(
                    sorted(t)->Object_0,
                )
            } else {
                r.0 is None && texts(r.1@) == seq![
                    "warning: stdin JSON must be an object; ignoring"@,
                ]
            },
        },
{
    assert(texts(r.1@).len() == r.1@.len());
    assert(overrides_of(r) == stdin_overrides(text@));
}

/// Whatever `apply_cli_overrides` gives: `watch` takes the interval that is piped in,
/// `serve` the host, the port where it is one, and the token; what is not piped in stays,
/// and other commands stay as they are.
pub proof fn arguments_take_overrides(command: Command, value: &Json, r: Command)
    requires
        call_ensures(apply_cli_overrides, (command, value), r),
    ensures
        command matches Command::Watch { interval } ==> (r matches Command::Watch { interval: n }
            && match member(value@, "interval"@) {
            Some(JsonTree::Int(v)) => n == if 0 <= v <= u64::MAX {
                v
            } else {
                interval as int
            },
            _ => n == interval,
        }),
        command matches Command::Serve { host, port, token } ==> (r matches Command::Serve {
            host: h,
            port: p,
            token: t,
        } && {
            &&& match member(value@, "host"@) {
                Some(JsonTree::Text(v)) => h@ == v,
                _ => h@ == host@,
            }
            &&& match member(value@, "port"@) {
                Some(JsonTree::Int(v)) => p == if 0 <= v <= 65535 {
                    v
                } else {
                    port as int
                },
                _ => p == port,
            }
            &&& match member(value@, "token"@) {
                Some(JsonTree::Text(v)) => t matches Some(s) && s@ == v,
                _ => t is Some == token is Some && (token matches Some(o) ==> t->Some_0@ == o@),
            }
        }),
        command is Scan ==> r is Scan,
        command is Report ==> r is Report,
        command matches Command::Baseline { action } ==> r == (Command::Baseline { action }),
{
    assert(r@ == overridden_command(command@, value@));
    if let Command::Baseline { action } = command {
        assert(r matches Command::Baseline { action: a } && a == action);
    }
}

/// Whatever `baseline check` prints as JSON is the document of what the check reports;
/// where there is no baseline, one that says so and lists nothing.
pub proof fn check_document_is_the_report(
    baseline: &Baseline,
    snapshot: &Snapshot,
    r: Output,
    report: CheckReport,
    none: Output,
)
    requires
        call_ensures(print_check, (true, Some(baseline), snapshot), r),
        call_ensures(check, (snapshot, baseline), report),
        call_ensures(print_check, (true, None, snapshot), none),
    ensures
        r.out@.len() == 1,
        r.out@[0]@ == pretty_text(report_tree(report@)),
        none.code == 2,
        none.err@.len() == 0,
        none.out@.len() == 1,
        none.out@[0]@ == pretty_text(
            sorted(
                JsonTree::Object(
                    seq![
                        ("status"@, JsonTree::Text("missing"@)),
                        ("added"@, JsonTree::Array(Seq::empty())),
                        ("removed"@, JsonTree::Array(Seq::empty())),
                        ("modified"@, JsonTree::Array(Seq::empty())),
                    ],
                ),
            ),
        ),
{
    assert(texts(r.out@).len() == r.out@.len());
    assert(texts(r.out@)[0] == r.out@[0]@);
    assert(texts(none.out@).len() == none.out@.len());
    assert(texts(none.out@)[0] == none.out@[0]@);
    assert(texts(none.err@).len() == none.err@.len());
}

} // verus!
