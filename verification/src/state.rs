//! The stored result of the latest scan.

use crate::codec::{field, int_field, is_record, read_field, read_int, read_text, record_of,
    text_field, Misfit};
use crate::config::{misfit_text, outcome};
use crate::engine::{findings_of, Finding, FindingModel, ScanModel, ScanResult, Summary};
use crate::failure::{file_read, Failure, Fault};
use crate::json::{lookup_distinct, member, pretty_text, read_tree, render_pretty, Json, JsonObject,
    JsonTree};
use crate::paths::{join_path, joined, Dir, DirModel};
use crate::stored::{levels, member_reads_back, raw_fault, raw_items, raw_members, read_stored,
    repeats_one_of, shallow_tree, stored_parsed, written_as, Levels, RECORD_DEPTH};
use crate::text::texts;
use crate::textmap::lookup;
use vstd::prelude::*;
use vstd::string::*;

verus! {

pub fn state_path(data_dir: &Dir) -> (r: String)
    ensures
        r@ == joined(data_dir@, "state.json"@),
{
    join_path(data_dir, "state.json")
}

// ---------------------------------------------------------------------------
// Writing
// ---------------------------------------------------------------------------

pub open spec fn finding_tree(f: FindingModel) -> JsonTree {
    JsonTree::Object(
        seq![
            ("kind"@, JsonTree::Text(f.kind)),
            ("severity"@, JsonTree::Text(f.severity)),
            ("detail"@, JsonTree::Text(f.detail)),
            ("triggered_at"@, JsonTree::Text(f.triggered_at)),
        ],
    )
}

pub open spec fn findings_tree(s: Seq<FindingModel>) -> JsonTree {
    JsonTree::Array(s.map_values(|f: FindingModel| finding_tree(f)))
}

pub open spec fn summary_tree(s: Summary) -> JsonTree {
    JsonTree::Object(
        seq![
            ("total"@, JsonTree::Int(s.total as int)),
            ("warn"@, JsonTree::Int(s.warn as int)),
            ("crit"@, JsonTree::Int(s.crit as int)),
        ],
    )
}

/// The result of a scan as a document.
pub open spec fn scan_tree(m: ScanModel) -> JsonTree {
    JsonTree::Object(
        seq![
            ("scanned_at"@, JsonTree::Text(m.scanned_at)),
            ("findings"@, findings_tree(m.findings)),
            ("summary"@, summary_tree(m.summary)),
        ],
    )
}

proof fn names_differ()
    ensures
        "kind"@ != "severity"@,
        "kind"@ != "detail"@,
        "kind"@ != "triggered_at"@,
        "severity"@ != "detail"@,
        "severity"@ != "triggered_at"@,
        "detail"@ != "triggered_at"@,
        "total"@ != "warn"@,
        "total"@ != "crit"@,
        "warn"@ != "crit"@,
        "scanned_at"@ != "findings"@,
        "scanned_at"@ != "summary"@,
        "findings"@ != "summary"@,
{
    reveal_strlit("kind");
    reveal_strlit("severity");
    reveal_strlit("detail");
    reveal_strlit("triggered_at");
    reveal_strlit("total");
    reveal_strlit("warn");
    reveal_strlit("crit");
    reveal_strlit("scanned_at");
    reveal_strlit("findings");
    reveal_strlit("summary");
    assert("kind"@[0] != "severity"@[0]);
    assert("kind"@[0] != "detail"@[0]);
    assert("kind"@[0] != "triggered_at"@[0]);
    assert("severity"@[0] != "detail"@[0]);
    assert("severity"@[0] != "triggered_at"@[0]);
    assert("detail"@[0] != "triggered_at"@[0]);
    assert("total"@[0] != "warn"@[0]);
    assert("total"@[0] != "crit"@[0]);
    assert("warn"@[0] != "crit"@[0]);
    assert("scanned_at"@[0] != "findings"@[0]);
    assert("scanned_at"@[1] != "summary"@[1]);
    assert("findings"@[0] != "summary"@[0]);
}

impl Finding {
    /// The finding as a document.
    pub fn to_json(&self) -> (r: Json)
        ensures
            r@ == finding_tree(self@),
    {
        proof {
            names_differ();
        }
        let o = JsonObject::new().with("kind".to_string(), Json::Text(self.kind.clone()));
        assert(o@ =~= finding_tree(self@)->Object_0.take(1));
        let o = o.with("severity".to_string(), Json::Text(self.severity.clone()));
        assert(o@ =~= finding_tree(self@)->Object_0.take(2));
        let o = o.with("detail".to_string(), Json::Text(self.detail.clone()));
        assert(o@ =~= finding_tree(self@)->Object_0.take(3));
        let o = o.with("triggered_at".to_string(), Json::Text(self.triggered_at.clone()));
        assert(o@ =~= finding_tree(self@)->Object_0);
        Json::Object(o)
    }
}

fn findings_json(list: &Vec<Finding>) -> (r: Json)
    ensures
        r@ == findings_tree(findings_of(list@)),
{
    let mut out: Vec<Json> = Vec::new();
    let mut i: usize = 0;
    while i < list.len()
        invariant
            i <= list@.len(),
            out@.len() == i,
            forall|k: int| 0 <= k < i ==> (#[trigger] out@[k])@ == finding_tree(list@[k]@),
        decreases list@.len() - i,
    {
        out.push(list[i].to_json());
        i = i + 1;
    }
    let r = Json::Array(out);
    assert(r@->Array_0 =~= findings_tree(findings_of(list@))->Array_0);
    r
}

fn summary_json(s: &Summary) -> (r: Json)
    ensures
        r@ == summary_tree(*s),
{
    proof {
        names_differ();
    }
    let o = JsonObject::new().with("total".to_string(), Json::Uint(s.total as u64));
    assert(o@ =~= summary_tree(*s)->Object_0.take(1));
    let o = o.with("warn".to_string(), Json::Uint(s.warn as u64));
    assert(o@ =~= summary_tree(*s)->Object_0.take(2));
    let o = o.with("crit".to_string(), Json::Uint(s.crit as u64));
    assert(o@ =~= summary_tree(*s)->Object_0);
    Json::Object(o)
}

impl ScanResult {
    /// The result as a document.
    pub fn to_json(&self) -> (r: Json)
        ensures
            r@ == scan_tree(self@),
    {
        proof {
            names_differ();
        }
        let o = JsonObject::new().with(
            "scanned_at".to_string(),
            Json::Text(self.scanned_at.clone()),
        );
        assert(o@ =~= scan_tree(self@)->Object_0.take(1));
        let o = o.with("findings".to_string(), findings_json(&self.findings));
        assert(o@ =~= scan_tree(self@)->Object_0.take(2));
        let o = o.with("summary".to_string(), summary_json(&self.summary));
        assert(o@ =~= scan_tree(self@)->Object_0);
        Json::Object(o)
    }
}

// ---------------------------------------------------------------------------
// Reading
// ---------------------------------------------------------------------------

/// Reads a finding. All its fields must be there.
pub open spec fn finding_in(t: JsonTree) -> Option<FindingModel> {
    if !record_of(t, 4) {
        None
    } else {
        match (
            text_field(t, "kind"@, 0),
            text_field(t, "severity"@, 1),
            text_field(t, "detail"@, 2),
            text_field(t, "triggered_at"@, 3),
        ) {
            (Some(kind), Some(severity), Some(detail), Some(triggered_at)) => Some(
                FindingModel { kind, severity, detail, triggered_at },
            ),
            _ => None,
        }
    }
}

/// Reads findings: all of them, or none.
pub open spec fn findings_in(s: Seq<JsonTree>) -> Option<Seq<FindingModel>>
    decreases s.len(),
{
    if s.len() == 0 {
        Some(Seq::empty())
    } else {
        match (findings_in(s.drop_last()), finding_in(s.last())) {
            (Some(before), Some(f)) => Some(before.push(f)),
            _ => None,
        }
    }
}

/// Reads a count.
pub open spec fn count_field(t: JsonTree, name: Seq<char>, place: int) -> Option<usize> {
    match int_field(t, name, place) {
        Some(n) => if 0 <= n <= usize::MAX {
            Some(n as usize)
        } else {
            None
        },
        None => None,
    }
}

/// Reads a summary. All its fields must be there.
pub open spec fn summary_in(t: JsonTree) -> Option<Summary> {
    if !record_of(t, 3) {
        None
    } else {
        match (
            count_field(t, "total"@, 0),
            count_field(t, "warn"@, 1),
            count_field(t, "crit"@, 2),
        ) {
            (Some(total), Some(warn), Some(crit)) => Some(Summary { total, warn, crit }),
            _ => None,
        }
    }
}

/// Reads the result of a scan. All its fields must be there.
pub open spec fn scan_in(t: JsonTree) -> Result<ScanModel, Seq<char>> {
    if !record_of(t, 3) {
        Err("scan"@)
    } else {
        match text_field(t, "scanned_at"@, 0) {
            None => Err("scanned_at"@),
            Some(scanned_at) => match field(t, "findings"@, 1) {
                Some(JsonTree::Array(s)) => match findings_in(s) {
                    None => Err("findings"@),
                    Some(findings) => match field(t, "summary"@, 2) {
                        Some(v) => match summary_in(v) {
                            None => Err("summary"@),
                            Some(summary) => Ok(ScanModel { scanned_at, findings, summary }),
                        },
                        None => Err("summary"@),
                    },
                },
                _ => Err("findings"@),
            },
        }
    }
}

fn read_finding(j: &Json) -> (r: Option<Finding>)
    ensures
        r is Some == finding_in(j@) is Some,
        r matches Some(f) ==> finding_in(j@) == Some(f@),
{
    if !is_record(j, 4) {
        return None;
    }
    match (
        read_text(j, "kind", 0),
        read_text(j, "severity", 1),
        read_text(j, "detail", 2),
        read_text(j, "triggered_at", 3),
    ) {
        (Some(kind), Some(severity), Some(detail), Some(triggered_at)) => Some(
            Finding { kind, severity, detail, triggered_at },
        ),
        _ => None,
    }
}

/// Findings of which a part cannot be read cannot be read.
proof fn findings_in_prefix(s: Seq<JsonTree>, n: int)
    requires
        0 <= n <= s.len(),
        findings_in(s.take(n)) is None,
    ensures
        findings_in(s) is None,
    decreases s.len() - n,
{
    if n < s.len() {
        assert(s.take(n + 1).drop_last() =~= s.take(n));
        findings_in_prefix(s, n + 1);
    } else {
        assert(s.take(n) =~= s);
    }
}

/// What list items say.
pub open spec fn trees_of(s: Seq<Json>) -> Seq<JsonTree> {
    s.map_values(|j: Json| j@)
}

fn read_findings(items: &Vec<Json>) -> (r: Option<Vec<Finding>>)
    ensures
        r is Some == findings_in(trees_of(items@)) is Some,
        r matches Some(v) ==> findings_in(trees_of(items@)) == Some(findings_of(v@)),
{
    let ghost all = trees_of(items@);
    let mut out: Vec<Finding> = Vec::new();
    let mut i: usize = 0;
    assert(all.take(0) =~= Seq::<JsonTree>::empty());
    assert(findings_of(out@) =~= Seq::<FindingModel>::empty());
    while i < items.len()
        invariant
            i <= items@.len(),
            all == trees_of(items@),
            findings_in(all.take(i as int)) == Some(findings_of(out@)),
        decreases items@.len() - i,
    {
        let ghost was = out@;
        proof {
            assert(all.take(i + 1).drop_last() =~= all.take(i as int));
            assert(all.take(i + 1).last() == items@[i as int]@);
        }
        match read_finding(&items[i]) {
            Some(f) => {
                let ghost f0 = f@;
                out.push(f);
                assert(findings_of(out@) =~= findings_of(was).push(f0));
            },
            None => {
                proof {
                    findings_in_prefix(all, i + 1);
                }
                return None;
            },
        }
        i = i + 1;
    }
    assert(all.take(items@.len() as int) =~= all);
    Some(out)
}

fn read_count(j: &Json, name: &str, place: usize) -> (r: Option<usize>)
    ensures
        r == count_field(j@, name@, place as int),
{
    match read_int(j, name, place) {
        Some(n) => if 0 <= n && n <= usize::MAX as i128 {
            Some(n as usize)
        } else {
            None
        },
        None => None,
    }
}

fn read_summary(j: &Json) -> (r: Option<Summary>)
    ensures
        r == summary_in(j@),
{
    if !is_record(j, 3) {
        return None;
    }
    match (read_count(j, "total", 0), read_count(j, "warn", 1), read_count(j, "crit", 2)) {
        (Some(total), Some(warn), Some(crit)) => Some(Summary { total, warn, crit }),
        _ => None,
    }
}

impl ScanResult {
    /// Reads a result from a document.
    pub fn from_json(j: &Json) -> (r: Result<ScanResult, Misfit>)
        ensures
            outcome(r) == scan_in(j@),
    {
        if !is_record(j, 3) {
            return Err(Misfit::new("scan"));
        }
        let scanned_at = match read_text(j, "scanned_at", 0) {
            Some(s) => s,
            None => return Err(Misfit::new("scanned_at")),
        };
        let findings = match read_field(j, "findings", 1) {
            Some(Json::Array(items)) => {
                assert(Json::Array(*items)@->Array_0 =~= trees_of(items@));
                match read_findings(items) {
                    Some(list) => list,
                    None => return Err(Misfit::new("findings")),
                }
            },
            Some(Json::Real(x)) => {
                x.is_number();
                return Err(Misfit::new("findings"));
            },
            _ => return Err(Misfit::new("findings")),
        };
        match read_field(j, "summary", 2) {
            Some(v) => match read_summary(v) {
                Some(summary) => Ok(ScanResult { scanned_at, findings, summary }),
                None => Err(Misfit::new("summary")),
            },
            None => Err(Misfit::new("summary")),
        }
    }
}

// ---------------------------------------------------------------------------
// The file
// ---------------------------------------------------------------------------

/// What a stored result says, given what came of reading it as JSON.
pub open spec fn stored_scan(parsed: Result<JsonTree, Seq<char>>) -> Result<ScanModel, Seq<char>> {
    match parsed {
        Err(e) => Err(e),
        Ok(t) => match scan_in(t) {
            Ok(m) => Ok(m),
            Err(at) => Err(misfit_text(at)),
        },
    }
}

/// The names that the records of a state file hold once, by level.
pub open spec fn scan_levels() -> Levels {
    seq![
        seq![],
        seq!["kind"@, "severity"@, "detail"@, "triggered_at"@],
        seq!["total"@, "warn"@, "crit"@],
        seq!["scanned_at"@, "findings"@, "summary"@],
    ]
}

fn scan_names() -> (r: Vec<Vec<String>>)
    ensures
        r@.len() == RECORD_DEPTH,
        levels(r@) == scan_levels(),
{
    let finding: Vec<String> = vec![
        "kind".to_string(),
        "severity".to_string(),
        "detail".to_string(),
        "triggered_at".to_string(),
    ];
    let summary: Vec<String> = vec![
        "total".to_string(),
        "warn".to_string(),
        "crit".to_string(),
    ];
    let root: Vec<String> = vec![
        "scanned_at".to_string(),
        "findings".to_string(),
        "summary".to_string(),
    ];
    let r = vec![Vec::new(), finding, summary, root];
    assert(texts(r@[0]@) =~= scan_levels()[0]);
    assert(texts(r@[1]@) =~= scan_levels()[1]);
    assert(texts(r@[2]@) =~= scan_levels()[2]);
    assert(texts(r@[3]@) =~= scan_levels()[3]);
    assert(levels(r@) =~= scan_levels());
    r
}

/// What a state file says.
pub open spec fn scan_text(text: Seq<char>) -> Result<ScanModel, Seq<char>> {
    stored_scan(stored_parsed(text, scan_levels()))
}

/// What came of reading the state file: nothing where there is none.
pub open spec fn state_file(
    data_dir: DirModel,
    file: Result<Option<Seq<char>>, Seq<char>>,
) -> Result<Option<ScanModel>, Fault> {
    let path = joined(data_dir, "state.json"@);
    match file {
        Ok(None) => Ok(None),
        Ok(Some(text)) => match scan_text(text) {
            Ok(m) => Ok(Some(m)),
            Err(cause) => Err(Fault { context: "failed to parse "@ + path, cause }),
        },
        Err(cause) => Err(Fault { context: "failed to read "@ + path, cause }),
    }
}

/// What came of reading a stored result.
pub open spec fn scan_read(r: Result<ScanResult, String>) -> Result<ScanModel, Seq<char>> {
    match r {
        Ok(m) => Ok(m@),
        Err(e) => Err(e@),
    }
}

/// What came of loading a stored result.
pub open spec fn scan_loaded(r: Result<Option<ScanResult>, Failure>) -> Result<
    Option<ScanModel>,
    Fault,
> {
    match r {
        Ok(Some(m)) => Ok(Some(m@)),
        Ok(None) => Ok(None),
        Err(e) => Err(e@),
    }
}

/// Where the result goes and the text that stands there. Reading the text gives
/// the result back.
pub fn save_scan(data_dir: &Dir, result: &ScanResult) -> (r: (String, String))
    ensures
        r.0@ == joined(data_dir@, "state.json"@),
        r.1@ == pretty_text(scan_tree(result@)),
        state_file(data_dir@, Ok(Some(r.1@))) == Ok::<Option<ScanModel>, Fault>(Some(result@)),
{
    let text = render_pretty(&result.to_json());
    proof {
        scan_text_reads_back(text@, result@);
    }
    (state_path(data_dir), text)
}

/// Reads a result, given what came of reading its text as JSON.
pub fn read_scan(parsed: Result<Json, String>) -> (r: Result<ScanResult, String>)
    ensures
        scan_read(r) == stored_scan(read_tree(parsed)),
{
    match parsed {
        Err(e) => Err(e),
        Ok(j) => match ScanResult::from_json(&j) {
            Ok(m) => Ok(m),
            Err(e) => Err(e.message()),
        },
    }
}

/// Loads the stored result of a data directory, given what came of reading its
/// file: its text, or `None` where it is not there.
pub fn load_scan(data_dir: &Dir, file: Result<Option<String>, String>) -> (r: Result<
    Option<ScanResult>,
    Failure,
>)
    ensures
        scan_loaded(r) == state_file(data_dir@, file_read(file)),
{
    let path = state_path(data_dir);
    match file {
        Ok(None) => Ok(None),
        Ok(Some(text)) => match read_scan(read_stored(text.as_str(), &scan_names())) {
            Ok(m) => Ok(Some(m)),
            Err(e) => Err(Failure::on("failed to parse ", path.as_str(), e)),
        },
        Err(e) => Err(Failure::on("failed to read ", path.as_str(), e)),
    }
}

// ---------------------------------------------------------------------------
// Laws
// ---------------------------------------------------------------------------

/// A written finding reads back.
proof fn finding_reads_back(f: FindingModel)
    ensures
        finding_in(finding_tree(f)) == Some(f),
{
    names_differ();
    let s = finding_tree(f)->Object_0;
    assert(s[0].0 == "kind"@ && s[1].0 == "severity"@ && s[2].0 == "detail"@ && s[3].0
        == "triggered_at"@);
    lookup_distinct(s, 0);
    lookup_distinct(s, 1);
    lookup_distinct(s, 2);
    lookup_distinct(s, 3);
}

/// The result of a scan survives being made a document and read from it.
pub proof fn scan_reads_back(m: ScanModel)
    ensures
        scan_in(scan_tree(m)) == Ok::<ScanModel, Seq<char>>(m),
{
    names_differ();
    let s = scan_tree(m)->Object_0;
    assert(s[0].0 == "scanned_at"@ && s[1].0 == "findings"@ && s[2].0 == "summary"@);
    lookup_distinct(s, 0);
    lookup_distinct(s, 1);
    lookup_distinct(s, 2);
    let list = findings_tree(m.findings)->Array_0;
    assert forall|i: int| 0 <= i < m.findings.len() implies finding_in(#[trigger] list[i]) == Some(
        m.findings[i],
    ) by {
        finding_reads_back(m.findings[i]);
    }
    items_read_as_findings(list, m.findings);
    let c = summary_tree(m.summary)->Object_0;
    assert(c[0].0 == "total"@ && c[1].0 == "warn"@ && c[2].0 == "crit"@);
    lookup_distinct(c, 0);
    lookup_distinct(c, 1);
    lookup_distinct(c, 2);
}

/// The text of a finding reads as the finding.
proof fn finding_text_reads_back(text: Seq<char>, f: FindingModel)
    requires
        written_as(text, finding_tree(f)),
    ensures
        finding_in(shallow_tree(text, 2, scan_levels())) == Some(f),
{
    let s = finding_tree(f)->Object_0;
    names_differ();
    assert(s[0].0 == "kind"@ && s[1].0 == "severity"@ && s[2].0 == "detail"@ && s[3].0
        == "triggered_at"@);
    member_reads_back(text, s, 0, 2, scan_levels());
    member_reads_back(text, s, 1, 2, scan_levels());
    member_reads_back(text, s, 2, 2, scan_levels());
    member_reads_back(text, s, 3, 2, scan_levels());
    let r = raw_members(text)->Some_0;
    assert(shallow_tree(lookup(r, s[0].0)->Some_0, 1, scan_levels()) == JsonTree::Text(f.kind));
    assert(shallow_tree(lookup(r, s[1].0)->Some_0, 1, scan_levels()) == JsonTree::Text(f.severity));
    assert(shallow_tree(lookup(r, s[2].0)->Some_0, 1, scan_levels()) == JsonTree::Text(f.detail));
    assert(shallow_tree(lookup(r, s[3].0)->Some_0, 1, scan_levels()) == JsonTree::Text(f.triggered_at));
}

/// Items that read as findings, one for one, read as the findings.
proof fn items_read_as_findings(items: Seq<JsonTree>, s: Seq<FindingModel>)
    requires
        items.len() == s.len(),
        forall|i: int| 0 <= i < s.len() ==> finding_in(#[trigger] items[i]) == Some(s[i]),
    ensures
        findings_in(items) == Some(s),
    decreases s.len(),
{
    if s.len() == 0 {
        assert(s =~= Seq::<FindingModel>::empty());
    } else {
        let front = items.drop_last();
        let rest = s.drop_last();
        assert forall|i: int| 0 <= i < rest.len() implies finding_in(#[trigger] front[i]) == Some(
            rest[i],
        ) by {
            assert(finding_in(items[i]) == Some(s[i]));
        }
        items_read_as_findings(front, rest);
        assert(finding_in(items[s.len() - 1]) == Some(s[s.len() - 1]));
        assert(rest.push(s.last()) =~= s);
    }
}

/// The text of a summary reads as the summary.
proof fn summary_text_reads_back(text: Seq<char>, c: Summary)
    requires
        written_as(text, summary_tree(c)),
    ensures
        summary_in(shallow_tree(text, 3, scan_levels())) == Some(c),
{
    let s = summary_tree(c)->Object_0;
    names_differ();
    assert(s[0].0 == "total"@ && s[1].0 == "warn"@ && s[2].0 == "crit"@);
    member_reads_back(text, s, 0, 3, scan_levels());
    member_reads_back(text, s, 1, 3, scan_levels());
    member_reads_back(text, s, 2, 3, scan_levels());
    let r = raw_members(text)->Some_0;
    assert(shallow_tree(lookup(r, s[0].0)->Some_0, 2, scan_levels()) == JsonTree::Int(c.total as int));
    assert(shallow_tree(lookup(r, s[1].0)->Some_0, 2, scan_levels()) == JsonTree::Int(c.warn as int));
    assert(shallow_tree(lookup(r, s[2].0)->Some_0, 2, scan_levels()) == JsonTree::Int(c.crit as int));
}

/// The result of a scan survives being written and loaded: a text that reads as its
/// document reads as the result.
pub proof fn scan_text_reads_back(text: Seq<char>, m: ScanModel)
    requires
        raw_fault(text) is None,
        written_as(text, scan_tree(m)),
    ensures
        scan_text(text) == Ok::<ScanModel, Seq<char>>(m),
{
    let s = scan_tree(m)->Object_0;
    names_differ();
    assert(s[0].0 == "scanned_at"@ && s[1].0 == "findings"@ && s[2].0 == "summary"@);
    member_reads_back(text, s, 0, 4, scan_levels());
    member_reads_back(text, s, 1, 4, scan_levels());
    member_reads_back(text, s, 2, 4, scan_levels());
    let r = raw_members(text)->Some_0;
    let findings = lookup(r, s[1].0)->Some_0;
    assert(shallow_tree(lookup(r, s[0].0)->Some_0, 3, scan_levels()) == JsonTree::Text(m.scanned_at));
    let list = findings_tree(m.findings)->Array_0;
    let items = shallow_tree(findings, 3, scan_levels())->Array_0;
    let raw = raw_items(findings)->Some_0;
    assert(written_as(findings, JsonTree::Array(list)));
    assert forall|i: int| 0 <= i < m.findings.len() implies finding_in(#[trigger] items[i])
        == Some(m.findings[i]) by {
        assert(written_as(raw[i], list[i]));
        finding_text_reads_back(raw[i], m.findings[i]);
    }
    items_read_as_findings(items, m.findings);
    summary_text_reads_back(lookup(r, s[2].0)->Some_0, m.summary);
}

/// A state file that holds a field of the result more than once is refused, as are
/// a finding and a summary that hold one of their own more than once.
pub proof fn repeated_fields_are_refused(text: Seq<char>)
    requires
        raw_members(text) is Some,
    ensures
        repeats_one_of(text, seq!["scanned_at"@, "findings"@, "summary"@]) ==> scan_text(
            text,
        ) is Err,
        repeats_one_of(text, seq!["kind"@, "severity"@, "detail"@, "triggered_at"@])
            ==> finding_in(shallow_tree(text, 2, scan_levels())) is None,
        repeats_one_of(text, seq!["total"@, "warn"@, "crit"@]) ==> summary_in(
            shallow_tree(text, 3, scan_levels()),
        ) is None,
{
}

/// The document of a finding names its kind, its severity, its detail and its time, and
/// nothing else; that of a summary its counts; that of a result its time, its findings in
/// their order, and its summary.
pub proof fn documents_name_their_fields(m: ScanModel, i: int)
    requires
        0 <= i < m.findings.len(),
    ensures
        ({
            let f = m.findings[i];
            let t = finding_tree(f);
            &&& t->Object_0.len() == 4
            &&& member(t, "kind"@) == Some(JsonTree::Text(f.kind))
            &&& member(t, "severity"@) == Some(JsonTree::Text(f.severity))
            &&& member(t, "detail"@) == Some(JsonTree::Text(f.detail))
            &&& member(t, "triggered_at"@) == Some(JsonTree::Text(f.triggered_at))
        }),
        ({
            let t = scan_tree(m);
            &&& t->Object_0.len() == 3
            &&& member(t, "scanned_at"@) == Some(JsonTree::Text(m.scanned_at))
            &&& member(t, "findings"@) matches Some(JsonTree::Array(s)) && s.len()
                == m.findings.len() && s[i] == finding_tree(m.findings[i])
            &&& member(t, "summary"@) == Some(summary_tree(m.summary))
        }),
        ({
            let t = summary_tree(m.summary);
            &&& t->Object_0.len() == 3
            &&& member(t, "total"@) == Some(JsonTree::Int(m.summary.total as int))
            &&& member(t, "warn"@) == Some(JsonTree::Int(m.summary.warn as int))
            &&& member(t, "crit"@) == Some(JsonTree::Int(m.summary.crit as int))
        }),
{
    names_differ();
    let s = finding_tree(m.findings[i])->Object_0;
    assert(s[0].0 == "kind"@ && s[1].0 == "severity"@ && s[2].0 == "detail"@ && s[3].0
        == "triggered_at"@);
    lookup_distinct(s, 0);
    lookup_distinct(s, 1);
    lookup_distinct(s, 2);
    lookup_distinct(s, 3);
    let t = scan_tree(m)->Object_0;
    assert(t[0].0 == "scanned_at"@ && t[1].0 == "findings"@ && t[2].0 == "summary"@);
    lookup_distinct(t, 0);
    lookup_distinct(t, 1);
    lookup_distinct(t, 2);
    let c = summary_tree(m.summary)->Object_0;
    assert(c[0].0 == "total"@ && c[1].0 == "warn"@ && c[2].0 == "crit"@);
    lookup_distinct(c, 0);
    lookup_distinct(c, 1);
    lookup_distinct(c, 2);
}

/// Whatever `save_scan` stores, `load_scan` gives back whole: the time, every finding and
/// the counts.
pub proof fn a_saved_scan_loads(
    data_dir: &Dir,
    result: &ScanResult,
    saved: (String, String),
    text: String,
    r: Result<Option<ScanResult>, Failure>,
)
    requires
        call_ensures(save_scan, (data_dir, result), saved),
        text@ == saved.1@,
        call_ensures(load_scan, (data_dir, Ok(Some(text))), r),
    ensures
        saved.0@ == joined(data_dir@, "state.json"@),
        r matches Ok(Some(m)) && m.scanned_at@ == result.scanned_at@ && findings_of(m.findings@)
            == findings_of(result.findings@) && m.summary == result.summary,
{
    assert(r matches Ok(Some(m)) && m@ == result@);
}

/// Whatever `load_scan` gives where nothing was read: nothing where there is no file; an
/// error that names the file where it could not be read or is no JSON.
pub proof fn what_cannot_be_loaded_is_told(
    data_dir: &Dir,
    none: Result<Option<ScanResult>, Failure>,
    error: String,
    unread: Result<Option<ScanResult>, Failure>,
    text: String,
    r: Result<Option<ScanResult>, Failure>,
)
    requires
        call_ensures(load_scan, (data_dir, Ok(None)), none),
        call_ensures(load_scan, (data_dir, Err(error)), unread),
        call_ensures(load_scan, (data_dir, Ok(Some(text))), r),
    ensures
        none matches Ok(None),
        unread matches Err(e) && e.context@ == "failed to read "@ + joined(
            data_dir@,
            "state.json"@,
        ) && e.cause@ == error@,
        raw_fault(text@) matches Some(fault) ==> (r matches Err(e) && e.context@
            == "failed to parse "@ + joined(data_dir@, "state.json"@) && e.cause@ == fault),
        !(r matches Ok(None)),
{
}

/// A finding is read from an object exactly if its four fields are there and are texts,
/// whatever else is there; it is then these texts.
pub proof fn a_finding_asks_for_its_fields(s: Seq<(Seq<char>, JsonTree)>, f: FindingModel)
    ensures
        (finding_in(JsonTree::Object(s)) == Some(f)) == (lookup(s, "kind"@) == Some(
            JsonTree::Text(f.kind),
        ) && lookup(s, "severity"@) == Some(JsonTree::Text(f.severity)) && lookup(s, "detail"@)
            == Some(JsonTree::Text(f.detail)) && lookup(s, "triggered_at"@) == Some(
            JsonTree::Text(f.triggered_at),
        )),
{
}

/// A summary is read from an object exactly if its three counts are there, whatever else
/// is there; it is then these counts.
pub proof fn a_summary_asks_for_its_counts(s: Seq<(Seq<char>, JsonTree)>, c: Summary)
    ensures
        (summary_in(JsonTree::Object(s)) == Some(c)) == (lookup(s, "total"@) == Some(
            JsonTree::Int(c.total as int),
        ) && lookup(s, "warn"@) == Some(JsonTree::Int(c.warn as int)) && lookup(s, "crit"@)
            == Some(JsonTree::Int(c.crit as int))),
{
}

/// Findings are read from a list exactly if each item is one; they are then these, in
/// their order.
pub proof fn findings_are_read_one_by_one(items: Seq<JsonTree>, s: Seq<FindingModel>)
    ensures
        (findings_in(items) == Some(s)) == (items.len() == s.len() && forall|i: int|
            0 <= i < s.len() ==> finding_in(#[trigger] items[i]) == Some(s[i])),
    decreases items.len(),
{
    if items.len() == s.len() && forall|i: int|
        0 <= i < s.len() ==> finding_in(#[trigger] items[i]) == Some(s[i]) {
        items_read_as_findings(items, s);
    }
    if findings_in(items) == Some(s) {
        if items.len() > 0 {
            let front = items.drop_last();
            let rest = s.drop_last();
            assert(findings_in(front)->Some_0.push(finding_in(items.last())->Some_0) == s);
            assert(rest =~= findings_in(front)->Some_0);
            findings_are_read_one_by_one(front, rest);
            assert forall|i: int| 0 <= i < s.len() implies finding_in(#[trigger] items[i]) == Some(
                s[i],
            ) by {
                if i < rest.len() {
                    assert(finding_in(front[i]) == Some(rest[i]));
                }
            }
        }
    }
}

/// A result is read from an object exactly if its time, its findings and its summary are
/// there, whatever else is there; it is then these.
pub proof fn a_result_asks_for_its_fields(s: Seq<(Seq<char>, JsonTree)>, m: ScanModel)
    ensures
        (scan_in(JsonTree::Object(s)) == Ok::<ScanModel, Seq<char>>(m)) == (lookup(
            s,
            "scanned_at"@,
        ) == Some(JsonTree::Text(m.scanned_at)) && (lookup(s, "findings"@) matches Some(
            JsonTree::Array(items),
        ) && findings_in(items) == Some(m.findings)) && (lookup(s, "summary"@) matches Some(t)
            && summary_in(t) == Some(m.summary))),
{
}

/// What a result holds: every finding, with its texts.
pub proof fn a_result_holds_all(r: ScanResult, i: int)
    requires
        0 <= i < r.findings@.len(),
    ensures
        r@.scanned_at == r.scanned_at@,
        r@.summary == r.summary,
        r@.findings.len() == r.findings@.len(),
        r@.findings[i].kind == r.findings@[i].kind@,
        r@.findings[i].severity == r.findings@[i].severity@,
        r@.findings[i].detail == r.findings@[i].detail@,
        r@.findings[i].triggered_at == r.findings@[i].triggered_at@,
{
}

} // verus!
