//! Scan rounds: what a round stores and prints, and which of its findings alert.

use crate::baseline::{baseline_file, load, Baseline, BaselineModel, Entries};
use crate::clock::utc_seconds;
use crate::config::Config;
use crate::engine::{findings_of, holds_notes, run_scan, scan_at, scan_notes, Finding, FindingModel,
    Observed, ScanModel, ScanResult};
use crate::failure::{file_read, Failure, Fault};
use crate::json::{compact_text, one_line, pretty_text, render_compact, sort_keys, sorted};
use crate::paths::{joined, Dir};
use crate::state::{finding_tree, save_scan, scan_tree, state_file};
use crate::text::{concat2, concat3, decimal, decimal_text, same_text, trim, trimmed};
use crate::walk::push_some;
use vstd::prelude::*;
use vstd::string::*;

verus! {

/// The same finding is only alerted once within this window (in nanoseconds).
pub const DEDUP_WINDOW: u128 = 300_000_000_000;

/// How long an alert may take to send, in seconds.
pub const WEBHOOK_TIMEOUT: u64 = 10;

// ---------------------------------------------------------------------------
// Alerts
// ---------------------------------------------------------------------------

/// What makes two findings the same: the kind and the detail.
pub type FindingKey = (Seq<char>, Seq<char>);

/// When each finding was last alerted.
pub type Sent = Map<FindingKey, u128>;

pub open spec fn key_of(f: FindingModel) -> FindingKey {
    (f.kind, f.detail)
}

/// Whether an alert was sent within the window.
pub open spec fn recent(sent_at: u128, round: u128) -> bool {
    round - sent_at < DEDUP_WINDOW
}

/// Whether a finding is to be alerted: it was not within the window.
pub open spec fn due(sent: Sent, key: FindingKey, round: u128) -> bool {
    !sent.dom().contains(key) || !recent(sent[key], round)
}

/// What was sent after the findings of a round.
pub open spec fn sent_after(sent: Sent, findings: Seq<FindingModel>, round: u128) -> Sent
    decreases findings.len(),
{
    if findings.len() == 0 {
        sent
    } else {
        let before = sent_after(sent, findings.drop_last(), round);
        let key = key_of(findings.last());
        if due(before, key, round) {
            before.insert(key, round)
        } else {
            before
        }
    }
}

/// The places of the findings of a round that alert, in order.
pub open spec fn alerting(sent: Sent, findings: Seq<FindingModel>, round: u128) -> Seq<int>
    decreases findings.len(),
{
    if findings.len() == 0 {
        Seq::empty()
    } else {
        let rest = findings.drop_last();
        push_some(
            alerting(sent, rest, round),
            if due(sent_after(sent, rest, round), key_of(findings.last()), round) {
                Some(findings.len() - 1)
            } else {
                None
            },
        )
    }
}

/// What is still within the window.
pub open spec fn pruned(sent: Sent, round: u128) -> Sent {
    sent.restrict(Set::new(|k: FindingKey| recent(sent[k], round)))
}

/// What was sent after a round, as far as it still matters.
pub open spec fn round_after(sent: Sent, findings: Seq<FindingModel>, round: u128) -> Sent {
    pruned(sent_after(sent, findings, round), round)
}

/// When each finding was last alerted.
pub struct AlertLog {
    entries: Vec<(String, String, u128)>,
}

/// What a list of alerts says: of each finding, the last.
pub open spec fn sent_of(s: Seq<(String, String, u128)>) -> Sent
    decreases s.len(),
{
    if s.len() == 0 {
        Map::empty()
    } else {
        sent_of(s.drop_last()).insert((s.last().0@, s.last().1@), s.last().2)
    }
}

impl View for AlertLog {
    type V = Sent;

    closed spec fn view(&self) -> Sent {
        sent_of(self.entries@)
    }
}

proof fn sent_of_keys(s: Seq<(String, String, u128)>, key: FindingKey)
    ensures
        sent_of(s).dom().contains(key) == (exists|i: int|
            0 <= i < s.len() && (#[trigger] s[i]).0@ == key.0 && s[i].1@ == key.1),
    decreases s.len(),
{
    if s.len() > 0 {
        let rest = s.drop_last();
        sent_of_keys(rest, key);
        if sent_of(rest).dom().contains(key) {
            let i = choose|i: int|
                0 <= i < rest.len() && (#[trigger] rest[i]).0@ == key.0 && rest[i].1@ == key.1;
            assert(s[i].0@ == key.0 && s[i].1@ == key.1);
        }
        if s.last().0@ == key.0 && s.last().1@ == key.1 {
            assert(s[s.len() - 1].0@ == key.0);
        }
        if exists|i: int| 0 <= i < s.len() && (#[trigger] s[i]).0@ == key.0 && s[i].1@ == key.1 {
            let i = choose|i: int|
                0 <= i < s.len() && (#[trigger] s[i]).0@ == key.0 && s[i].1@ == key.1;
            if i < rest.len() {
                assert(rest[i].0@ == key.0 && rest[i].1@ == key.1);
            }
        }
    }
}

impl AlertLog {
    /// A log without alerts.
    pub fn new() -> (r: Self)
        ensures
            r@ == Map::<FindingKey, u128>::empty(),
    {
        AlertLog { entries: Vec::new() }
    }

    /// When a finding was last alerted.
    pub fn get(&self, kind: &str, detail: &str) -> (r: Option<u128>)
        ensures
            r is Some == self@.dom().contains((kind@, detail@)),
            r matches Some(t) ==> self@[(kind@, detail@)] == t,
    {
        let ghost key = (kind@, detail@);
        let ghost all = self.entries@;
        let mut i: usize = self.entries.len();
        assert(all.take(i as int) =~= all);
        while i > 0
            invariant
                i <= all.len(),
                all == self.entries@,
                key == (kind@, detail@),
                sent_of(all).dom().contains(key) == sent_of(all.take(i as int)).dom().contains(key),
                sent_of(all).dom().contains(key) ==> sent_of(all)[key] == sent_of(
                    all.take(i as int),
                )[key],
            decreases i,
        {
            proof {
                assert(all.take(i as int).drop_last() =~= all.take(i - 1));
                assert(all.take(i as int).last() == all[i - 1]);
            }
            i = i - 1;
            let e = &self.entries[i];
            if same_text(e.0.as_str(), kind) && same_text(e.1.as_str(), detail) {
                return Some(e.2);
            }
        }
        assert(all.take(0) =~= Seq::<(String, String, u128)>::empty());
        None
    }

    /// Notes that a finding was alerted.
    fn note(&mut self, kind: &str, detail: &str, at: u128)
        ensures
            final(self)@ == old(self)@.insert((kind@, detail@), at),
    {
        let ghost before = self.entries@;
        self.entries.push((kind.to_string(), detail.to_string(), at));
        assert(self.entries@.drop_last() =~= before);
    }

    /// The log without the alerts that left the window.
    fn prune(&self, round: u128) -> (r: Self)
        ensures
            r@ == pruned(self@, round),
    {
        let ghost all = self.entries@;
        let mut out = AlertLog::new();
        let mut i: usize = 0;
        while i < self.entries.len()
            invariant
                i <= all.len(),
                all == self.entries@,
                forall|k: FindingKey| #[trigger]
                    out@.dom().contains(k) ==> self@.dom().contains(k) && recent(self@[k], round)
                        && out@[k] == self@[k],
                forall|j: int|
                    0 <= j < i ==> (recent(self@[((#[trigger] all[j]).0@, all[j].1@)], round)
                        ==> out@.dom().contains((all[j].0@, all[j].1@))),
            decreases all.len() - i,
        {
            let e = &self.entries[i];
            let ghost key = (e.0@, e.1@);
            proof {
                sent_of_keys(all, key);
                assert(all[i as int].0@ == key.0 && all[i as int].1@ == key.1);
                assert(self@.dom().contains(key));
            }
            match self.get(e.0.as_str(), e.1.as_str()) {
                Some(t) => {
                    let fresh: bool = round < t || round - t < DEDUP_WINDOW;
                    if fresh && out.get(e.0.as_str(), e.1.as_str()).is_none() {
                        out.note(e.0.as_str(), e.1.as_str(), t);
                    }
                },
                None => {},
            }
            i = i + 1;
        }
        proof {
            let p = pruned(self@, round);
            assert forall|k: FindingKey| #[trigger] p.dom().contains(k) == out@.dom().contains(
                k,
            ) by {
                if p.dom().contains(k) {
                    sent_of_keys(all, k);
                    let j = choose|j: int|
                        0 <= j < all.len() && (#[trigger] all[j]).0@ == k.0 && all[j].1@ == k.1;
                    assert(k == (all[j].0@, all[j].1@));
                }
            }
            assert(out@ =~= p);
        }
        out
    }
}

/// One round of alerting: which findings alert, and the log after it. A finding
/// that was alerted within the window is passed over.
pub fn alert_round(log: AlertLog, findings: &Vec<Finding>, round: u128) -> (r: (
    AlertLog,
    Vec<usize>,
))
    ensures
        r.0@ == round_after(log@, findings_of(findings@), round),
        r.1@.map_values(|i: usize| i as int) == alerting(log@, findings_of(findings@), round),
{
    let ghost sent = log@;
    let ghost all = findings_of(findings@);
    let mut log = log;
    let mut out: Vec<usize> = Vec::new();
    let mut i: usize = 0;
    assert(all.take(0) =~= Seq::<FindingModel>::empty());
    assert(out@.map_values(|i: usize| i as int) =~= Seq::<int>::empty());
    while i < findings.len()
        invariant
            i <= findings@.len(),
            all == findings_of(findings@),
            log@ == sent_after(sent, all.take(i as int), round),
            out@.map_values(|i: usize| i as int) == alerting(sent, all.take(i as int), round),
        decreases findings@.len() - i,
    {
        let finding = &findings[i];
        let ghost was = out@;
        proof {
            assert(all.take(i + 1).drop_last() =~= all.take(i as int));
            assert(all.take(i + 1).last() == finding@);
        }
        let repeated: bool = match log.get(finding.kind.as_str(), finding.detail.as_str()) {
            Some(t) => round < t || round - t < DEDUP_WINDOW,
            None => false,
        };
        if !repeated {
            log.note(finding.kind.as_str(), finding.detail.as_str(), round);
            out.push(i);
            assert(out@.map_values(|i: usize| i as int) =~= was.map_values(
                |i: usize| i as int,
            ).push(i as int));
        }
        i = i + 1;
    }
    assert(all.take(findings@.len() as int) =~= all);
    (log.prune(round), out)
}

/// The alert line of a finding.
pub open spec fn alert_text(f: FindingModel) -> Seq<char> {
    "[ALERT] ["@ + f.severity + "] "@ + f.kind + " "@ + f.detail + " (at "@ + f.triggered_at
        + ")"@
}

pub fn alert_line(finding: &Finding) -> (r: String)
    ensures
        r@ == alert_text(finding@),
{
    let mut out = concat3("[ALERT] [", finding.severity.as_str(), "] ");
    out.append(finding.kind.as_str());
    out.append(" ");
    out.append(finding.detail.as_str());
    out.append(" (at ");
    out.append(finding.triggered_at.as_str());
    out.append(")");
    out
}

/// An alert to be sent to a webhook: a POST of a JSON body.
#[derive(Debug, Clone)]
pub struct WebhookRequest {
    pub url: String,
    pub body: String,
    pub timeout_secs: u64,
}

/// The request for a finding to `[alert].webhook_url` (10s timeout). None where
/// the URL is blank.
pub fn send_webhook(url: &str, finding: &Finding) -> (r: Option<WebhookRequest>)
    ensures
        r is None == (trimmed(url@).len() == 0),
        r matches Some(req) ==> {
            &&& req.url@ == url@
            &&& req.body@ == compact_text(sorted(finding_tree(finding@)))
            &&& one_line(req.body@, sorted(finding_tree(finding@)))
            &&& req.timeout_secs == WEBHOOK_TIMEOUT
        },
{
    if trim(url).as_str().is_empty() {
        return None;
    }
    let payload = sort_keys(&finding.to_json());
    Some(
        WebhookRequest {
            url: url.to_string(),
            body: render_compact(&payload),
            timeout_secs: WEBHOOK_TIMEOUT,
        },
    )
}

/// What is said of the reply to an alert: nothing unless its status is an error.
pub fn webhook_reply_line(status: u16) -> (r: Option<String>)
    ensures
        r is Some == (status >= 400),
        r matches Some(line) ==> line@ == "[webhook] unexpected status "@ + decimal(status as nat),
{
    if status >= 400 {
        Some(concat2("[webhook] unexpected status ", decimal_text(status as u64).as_str()))
    } else {
        None
    }
}

/// What is said of an alert that could not be sent.
pub fn webhook_error_line(error: &str) -> (r: String)
    ensures
        r@ == "[webhook] failed to send alert: "@ + error@,
{
    concat2("[webhook] failed to send alert: ", error)
}

// ---------------------------------------------------------------------------
// Rounds
// ---------------------------------------------------------------------------

/// The seconds between rounds: at least one.
pub fn round_interval(interval: u64) -> (r: u64)
    ensures
        r == if interval < 1 {
            1
        } else {
            interval
        },
{
    if interval < 1 {
        1
    } else {
        interval
    }
}

pub open spec fn start_text(interval: u64, data_dir: Seq<char>) -> Seq<char> {
    "adonword watch started (interval "@ + decimal(interval as nat) + "s, data dir "@ + data_dir
        + ", ctrl-c to stop)"@
}

/// What is said when the rounds start.
pub fn start_line(interval: u64, data_dir: &str) -> (r: String)
    ensures
        r@ == start_text(interval, data_dir@),
{
    let mut out = concat3(
        "adonword watch started (interval ",
        decimal_text(interval).as_str(),
        "s, data dir ",
    );
    out.append(data_dir);
    out.append(", ctrl-c to stop)");
    out
}

/// The counts of a scan.
pub open spec fn counts_text(m: ScanModel) -> Seq<char> {
    decimal(m.summary.total as nat) + " findings ("@ + decimal(m.summary.crit as nat) + " crit, "@
        + decimal(m.summary.warn as nat) + " warn)"@
}

pub fn counts_line(result: &ScanResult) -> (r: String)
    ensures
        r@ == counts_text(result@),
{
    let mut out = concat2(decimal_text(result.summary.total as u64).as_str(), " findings (");
    out.append(decimal_text(result.summary.crit as u64).as_str());
    out.append(" crit, ");
    out.append(decimal_text(result.summary.warn as u64).as_str());
    out.append(" warn)");
    out
}

/// The line that a round prints: JSON, or its time and counts.
pub open spec fn round_text(m: ScanModel, json: bool) -> Seq<char> {
    if json {
        compact_text(scan_tree(m))
    } else {
        m.scanned_at + " scan complete: "@ + counts_text(m)
    }
}

pub fn round_line(result: &ScanResult, json: bool) -> (r: String)
    ensures
        r@ == round_text(result@, json),
        json ==> one_line(r@, scan_tree(result@)),
{
    if json {
        render_compact(&result.to_json())
    } else {
        concat3(result.scanned_at.as_str(), " scan complete: ", counts_line(result).as_str())
    }
}

/// The result of a scan, and the file that stores it.
pub struct ScanRound {
    pub result: ScanResult,
    pub path: String,
    pub text: String,
}

/// The entries of a stored baseline that may be missing.
pub open spec fn stored_entries(b: Option<BaselineModel>) -> Option<Entries> {
    match b {
        Some(m) => Some(m.entries),
        None => None,
    }
}

/// One scan round: load the baseline (if any), run the inspection, and give the
/// result with the text to store as `<data_dir>/state.json`. Takes what came of
/// reading the baseline file and what was observed.
pub fn scan_once(
    cfg: &Config,
    data_dir: &Dir,
    baseline: Result<Option<String>, String>,
    observed: &Observed,
) -> (r: Result<ScanRound, Failure>)
    ensures
        match (r, baseline_file(data_dir@, file_read(baseline))) {
            (Ok(round), Ok(base)) => {
                &&& utc_seconds(round.result@.scanned_at)
                &&& holds_notes(
                    round.result@,
                    round.result@.scanned_at,
                    scan_notes(cfg@, stored_entries(base), observed@),
                )
                &&& round.path@ == joined(data_dir@, "state.json"@)
                &&& round.text@ == pretty_text(scan_tree(round.result@))
                &&& state_file(data_dir@, Ok(Some(round.text@))) == Ok::<
                    Option<ScanModel>,
                    Fault,
                >(Some(round.result@))
            },
            (Err(e), Err(fault)) => e@ == fault,
            _ => false,
        },
{
    let base: Option<Baseline> = match load(data_dir, baseline) {
        Ok(b) => b,
        Err(e) => return Err(e),
    };
    let result = run_scan(cfg, base.as_ref(), observed);
    let (path, text) = save_scan(data_dir, &result);
    Ok(ScanRound { result, path, text })
}

// ---------------------------------------------------------------------------
// Laws
// ---------------------------------------------------------------------------

/// A round of the watch: its time and its findings.
pub type Round = (u128, Seq<FindingModel>);

/// What was sent after rounds.
pub open spec fn sent_by(rounds: Seq<Round>) -> Sent
    decreases rounds.len(),
{
    if rounds.len() == 0 {
        Map::empty()
    } else {
        round_after(sent_by(rounds.drop_last()), rounds.last().1, rounds.last().0)
    }
}

/// Whether a finding of a round alerts.
pub open spec fn alerts_at(rounds: Seq<Round>, at: int, i: int) -> bool {
    alerting(sent_by(rounds.take(at)), rounds[at].1, rounds[at].0).contains(i)
}

/// Whether rounds come one after another in time.
pub open spec fn in_time(rounds: Seq<Round>) -> bool {
    forall|i: int, j: int|
        0 <= i <= j < rounds.len() ==> (#[trigger] rounds[i]).0 <= (#[trigger] rounds[j]).0
}

/// A finding alerts exactly if it is due when its turn comes.
proof fn alerts_when_due(sent: Sent, findings: Seq<FindingModel>, round: u128, i: int)
    ensures
        alerting(sent, findings, round).contains(i) == (0 <= i < findings.len() && due(
            sent_after(sent, findings.take(i), round),
            key_of(findings[i]),
            round,
        )),
    decreases findings.len(),
{
    let s = alerting(sent, findings, round);
    if findings.len() > 0 {
        let rest = findings.drop_last();
        let before = alerting(sent, rest, round);
        alerts_when_due(sent, rest, round, i);
        if i < rest.len() {
            if 0 <= i {
                assert(rest.take(i) =~= findings.take(i));
            }
            if before.contains(i) {
                assert(s[before.index_of(i)] == i);
            }
            if s.contains(i) {
                assert(before[s.index_of(i)] == i);
            }
        } else if i == rest.len() {
            assert(findings.take(i) =~= rest);
            if due(sent_after(sent, rest, round), key_of(findings.last()), round) {
                assert(s[before.len() as int] == i);
            }
            if s.contains(i) {
                let k = s.index_of(i);
                if k < before.len() {
                    assert(before[k] == i);
                }
            }
        } else {
            if s.contains(i) {
                let k = s.index_of(i);
                if k < before.len() {
                    assert(before[k] == i);
                }
            }
        }
    }
}

/// What was sent only grows within a round: a key keeps its time or gets the time
/// of the round, and one that had its turn is not due any more.
proof fn sent_grows(sent: Sent, findings: Seq<FindingModel>, round: u128, n: int, key: FindingKey)
    requires
        0 <= n <= findings.len(),
    ensures
        ({
            let some = sent_after(sent, findings.take(n), round);
            let all = sent_after(sent, findings, round);
            &&& some.dom().contains(key) ==> all.dom().contains(key) && (all[key] == some[key]
                || (all[key] == round && !recent(some[key], round)))
            &&& all.dom().contains(key) && !some.dom().contains(key) ==> all[key] == round
        }),
    decreases findings.len() - n,
{
    if n < findings.len() {
        assert(findings.take(n + 1).drop_last() =~= findings.take(n));
        sent_grows(sent, findings, round, n + 1, key);
    } else {
        assert(findings.take(n) =~= findings);
    }
}

/// A finding that alerted in a round is noted with its time.
proof fn alert_is_noted(sent: Sent, findings: Seq<FindingModel>, round: u128, n: int, i: int)
    requires
        0 <= i < n <= findings.len(),
        alerting(sent, findings, round).contains(i),
    ensures
        sent_after(sent, findings.take(n), round).dom().contains(key_of(findings[i])),
        sent_after(sent, findings.take(n), round)[key_of(findings[i])] == round,
{
    let key = key_of(findings[i]);
    alerts_when_due(sent, findings, round, i);
    assert(findings.take(i + 1).drop_last() =~= findings.take(i));
    assert(findings.take(i + 1).last() == findings[i]);
    let part = findings.take(n);
    assert(part.take(i + 1) =~= findings.take(i + 1));
    sent_grows(sent, part, round, i + 1, key);
}

/// After rounds, an alert of one of them is still noted with its time or a later
/// one, or it left the window.
proof fn alert_is_remembered(rounds: Seq<Round>, at: int, i: int)
    requires
        in_time(rounds),
        0 <= at < rounds.len(),
        alerts_at(rounds, at, i),
    ensures
        ({
            let key = key_of(rounds[at].1[i]);
            let sent = sent_by(rounds);
            ||| sent.dom().contains(key) && sent[key] >= rounds[at].0
            ||| !recent(rounds[at].0, rounds.last().0)
        }),
    decreases rounds.len(),
{
    let key = key_of(rounds[at].1[i]);
    let last = rounds.last();
    let rest = rounds.drop_last();
    let before = sent_by(rest);
    assert(rounds[at].0 <= rounds[rounds.len() - 1].0);
    alerts_when_due(sent_by(rounds.take(at)), rounds[at].1, rounds[at].0, i);
    if at == rounds.len() - 1 {
        assert(rounds.take(at) =~= rest);
        alert_is_noted(before, last.1, last.0, last.1.len() as int, i);
        assert(last.1.take(last.1.len() as int) =~= last.1);
    } else {
        assert(rest.take(at) =~= rounds.take(at));
        assert forall|x: int, y: int| 0 <= x <= y < rest.len() implies (#[trigger] rest[x]).0 <= (
        #[trigger] rest[y]).0 by {
            assert(rounds[x].0 <= rounds[y].0);
        }
        alert_is_remembered(rest, at, i);
        assert(rounds[rest.len() - 1].0 <= rounds[rounds.len() - 1].0);
        if before.dom().contains(key) && before[key] >= rounds[at].0 {
            sent_grows(before, last.1, last.0, 0, key);
            assert(last.1.take(0) =~= Seq::<FindingModel>::empty());
        }
    }
}

/// The same finding is alerted at most once within the window: two alerts of one
/// finding, in rounds one after another in time, are a window apart. Within one
/// round a finding alerts once.
pub proof fn same_finding_alerts_once_within_the_window(
    rounds: Seq<Round>,
    a: int,
    i: int,
    b: int,
    j: int,
)
    requires
        in_time(rounds),
        0 <= a <= b < rounds.len(),
        alerts_at(rounds, a, i),
        alerts_at(rounds, b, j),
        key_of(rounds[a].1[i]) == key_of(rounds[b].1[j]),
        (a, i) != (b, j),
    ensures
        rounds[b].0 - rounds[a].0 >= DEDUP_WINDOW,
{
    let key = key_of(rounds[b].1[j]);
    let sent = sent_by(rounds.take(b));
    let round = rounds[b].0;
    let findings = rounds[b].1;
    alerts_when_due(sent_by(rounds.take(a)), rounds[a].1, rounds[a].0, i);
    alerts_when_due(sent, findings, round, j);
    if a == b {
        if i < j {
            alert_is_noted(sent, findings, round, j, i);
        } else {
            alert_is_noted(sent, findings, round, i, j);
        }
    } else {
        let before = rounds.take(b);
        assert(before.take(a) =~= rounds.take(a));
        assert forall|x: int, y: int| 0 <= x <= y < before.len() implies (#[trigger] before[x]).0
            <= (#[trigger] before[y]).0 by {
            assert(rounds[x].0 <= rounds[y].0);
        }
        alert_is_remembered(before, a, i);
        assert(rounds[b - 1].0 <= rounds[b].0);
        if sent.dom().contains(key) && sent[key] >= rounds[a].0 {
            let part = findings.take(j);
            sent_grows(sent, part, round, 0, key);
            assert(part.take(0) =~= Seq::<FindingModel>::empty());
        }
    }
}

/// A finding that was not alerted within the window is alerted, once, in its round:
/// by itself or by one of the same round that is the same.
pub proof fn finding_alerts_when_the_window_is_over(
    sent: Sent,
    findings: Seq<FindingModel>,
    round: u128,
    i: int,
)
    requires
        0 <= i < findings.len(),
        due(sent, key_of(findings[i]), round),
    ensures
        exists|j: int|
            0 <= j <= i && key_of(#[trigger] findings[j]) == key_of(findings[i]) && alerting(
                sent,
                findings,
                round,
            ).contains(j),
    decreases i,
{
    alerts_when_due(sent, findings, round, i);
    let key = key_of(findings[i]);
    let part = findings.take(i);
    if !due(sent_after(sent, part, round), key, round) {
        let k = noted_in_round(sent, part, round, key);
        assert(findings[k] == part[k]);
        alerts_when_due(sent, findings, round, k);
        alerts_when_due(sent, part, round, k);
        assert(part.take(k) =~= findings.take(k));
    } else {
        assert(key_of(findings[i]) == key);
    }
}

/// Where a key was due before findings and is not after them, one of them alerted.
proof fn noted_in_round(sent: Sent, findings: Seq<FindingModel>, round: u128, key: FindingKey) -> (k:
    int)
    requires
        due(sent, key, round),
        !due(sent_after(sent, findings, round), key, round),
    ensures
        0 <= k < findings.len(),
        key_of(findings[k]) == key,
        alerting(sent, findings, round).contains(k),
    decreases findings.len(),
{
    let rest = findings.drop_last();
    if due(sent_after(sent, rest, round), key, round) {
        alerts_when_due(sent, findings, round, findings.len() - 1);
        assert(findings.take(findings.len() - 1) =~= rest);
        findings.len() - 1
    } else {
        let k = noted_in_round(sent, rest, round, key);
        alerts_when_due(sent, rest, round, k);
        alerts_when_due(sent, findings, round, k);
        assert(rest.take(k) =~= findings.take(k));
        k
    }
}

/// Forgetting what left the window changes no later alert.
pub proof fn forgetting_changes_no_alert(sent: Sent, then: u128, key: FindingKey, round: u128)
    requires
        then <= round,
    ensures
        due(pruned(sent, then), key, round) == due(sent, key, round),
{
}

/// A finding that had its turn is not due any more, and nothing else changes what is
/// due.
proof fn due_after(sent: Sent, findings: Seq<FindingModel>, round: u128, key: FindingKey)
    ensures
        due(sent_after(sent, findings, round), key, round) == (due(sent, key, round) && forall|j: int|
            0 <= j < findings.len() ==> key_of(#[trigger] findings[j]) != key),
        !due(sent, key, round) ==> sent_after(sent, findings, round)[key] == sent[key],
        !due(sent_after(sent, findings, round), key, round) && due(sent, key, round)
            ==> sent_after(sent, findings, round)[key] == round,
    decreases findings.len(),
{
    if findings.len() > 0 {
        let rest = findings.drop_last();
        due_after(sent, rest, round, key);
        assert(forall|j: int| 0 <= j < rest.len() ==> rest[j] == findings[j]);
        if forall|j: int| 0 <= j < findings.len() ==> key_of(#[trigger] findings[j]) != key {
            assert forall|j: int| 0 <= j < rest.len() implies key_of(#[trigger] rest[j]) != key by {
                assert(key_of(findings[j]) != key);
            }
            assert(key_of(findings[findings.len() - 1]) != key);
        }
        if (forall|j: int| 0 <= j < rest.len() ==> key_of(#[trigger] rest[j]) != key) && key_of(
            findings.last(),
        ) != key {
            assert forall|j: int| 0 <= j < findings.len() implies key_of(#[trigger] findings[j])
                != key by {
                if j < rest.len() {
                    assert(key_of(rest[j]) != key);
                }
            }
        }
    }
}

/// A finding alerts in a round exactly if none of the same kind and the same detail
/// stands before it in the round, and none was alerted within the five minutes before.
/// Nothing else counts: not its severity, nor its time.
pub proof fn only_repeats_are_passed_over(
    sent: Sent,
    findings: Seq<FindingModel>,
    round: u128,
    i: int,
)
    requires
        0 <= i < findings.len(),
    ensures
        ({
            let f = findings[i];
            let told = sent.dom().contains((f.kind, f.detail)) && round - sent[(f.kind, f.detail)]
                < 300_000_000_000;
            let repeats = exists|j: int|
                0 <= j < i && (#[trigger] findings[j]).kind == f.kind && findings[j].detail
                    == f.detail;
            alerting(sent, findings, round).contains(i) == (!told && !repeats)
        }),
{
    let f = findings[i];
    let key = (f.kind, f.detail);
    let part = findings.take(i);
    alerts_when_due(sent, findings, round, i);
    due_after(sent, part, round, key);
    if exists|j: int|
        0 <= j < i && (#[trigger] findings[j]).kind == f.kind && findings[j].detail == f.detail {
        let j = choose|j: int|
            0 <= j < i && (#[trigger] findings[j]).kind == f.kind && findings[j].detail == f.detail;
        assert(key_of(part[j]) == key);
    } else {
        assert forall|j: int| 0 <= j < part.len() implies key_of(#[trigger] part[j]) != key by {
            let g = findings[j];
            assert(!(g.kind == f.kind && g.detail == f.detail));
        }
    }
}

/// The findings that alert come in their order, and each once.
pub proof fn alerts_keep_their_order(
    sent: Sent,
    findings: Seq<FindingModel>,
    round: u128,
    x: int,
    y: int,
)
    requires
        0 <= x <= y < alerting(sent, findings, round).len(),
    ensures
        0 <= alerting(sent, findings, round)[x] < findings.len(),
        x < y ==> alerting(sent, findings, round)[x] < alerting(sent, findings, round)[y],
    decreases findings.len(),
{
    if findings.len() > 0 {
        let rest = findings.drop_last();
        let before = alerting(sent, rest, round);
        if y < before.len() {
            alerts_keep_their_order(sent, rest, round, x, y);
        } else if x < before.len() {
            alerts_keep_their_order(sent, rest, round, x, x);
        }
    }
}

/// After a round the log holds, with their times, the alerts of the five minutes before
/// and those of the round, and nothing else.
pub proof fn log_holds_the_window(
    sent: Sent,
    findings: Seq<FindingModel>,
    round: u128,
    kind: Seq<char>,
    detail: Seq<char>,
)
    ensures
        ({
            let after = round_after(sent, findings, round);
            let told = sent.dom().contains((kind, detail)) && round - sent[(kind, detail)]
                < 300_000_000_000;
            let found = exists|j: int|
                0 <= j < findings.len() && (#[trigger] findings[j]).kind == kind
                    && findings[j].detail == detail;
            &&& after.dom().contains((kind, detail)) == (told || found)
            &&& told ==> after[(kind, detail)] == sent[(kind, detail)]
            &&& !told && found ==> after[(kind, detail)] == round
        }),
{
    let key = (kind, detail);
    due_after(sent, findings, round, key);
    if exists|j: int|
        0 <= j < findings.len() && (#[trigger] findings[j]).kind == kind && findings[j].detail
            == detail {
        let j = choose|j: int|
            0 <= j < findings.len() && (#[trigger] findings[j]).kind == kind && findings[j].detail
                == detail;
        assert(key_of(findings[j]) == key);
    } else {
        assert forall|j: int| 0 <= j < findings.len() implies key_of(#[trigger] findings[j])
            != key by {
            let g = findings[j];
            assert(!(g.kind == kind && g.detail == detail));
        }
    }
}

/// What is noted after rounds is the alert of one of them.
proof fn noted_by_an_alert(rounds: Seq<Round>, key: FindingKey) -> (r: (int, int))
    requires
        sent_by(rounds).dom().contains(key),
    ensures
        0 <= r.0 < rounds.len(),
        0 <= r.1 < rounds[r.0].1.len(),
        alerts_at(rounds, r.0, r.1),
        key_of(rounds[r.0].1[r.1]) == key,
        rounds[r.0].0 == sent_by(rounds)[key],
    decreases rounds.len(),
{
    let rest = rounds.drop_last();
    let last = rounds.last();
    let before = sent_by(rest);
    due_after(before, last.1, last.0, key);
    if !due(before, key, last.0) {
        let (a, i) = noted_by_an_alert(rest, key);
        assert(rest.take(a) =~= rounds.take(a));
        (a, i)
    } else {
        let k = choose|j: int| 0 <= j < last.1.len() && key_of(#[trigger] last.1[j]) == key;
        finding_alerts_when_the_window_is_over(before, last.1, last.0, k);
        let j = choose|j: int|
            0 <= j <= k && key_of(#[trigger] last.1[j]) == key_of(last.1[k]) && alerting(
                before,
                last.1,
                last.0,
            ).contains(j);
        assert(rounds.take(rounds.len() - 1) =~= rest);
        (rounds.len() - 1, j)
    }
}

/// Over rounds one after another in time, a finding alerts exactly if it stands first
/// of its kind and detail in its round, and no round less than five minutes before
/// alerted one of the same kind and detail.
pub proof fn rounds_alert_what_is_new(rounds: Seq<Round>, b: int, j: int)
    requires
        in_time(rounds),
        0 <= b < rounds.len(),
        0 <= j < rounds[b].1.len(),
    ensures
        ({
            let f = rounds[b].1[j];
            let repeats = exists|i: int|
                0 <= i < j && (#[trigger] rounds[b].1[i]).kind == f.kind && rounds[b].1[i].detail
                    == f.detail;
            let told = exists|a: int, i: int|
                0 <= a < b && 0 <= i < rounds[a].1.len() && #[trigger] alerts_at(rounds, a, i)
                    && rounds[a].1[i].kind == f.kind && rounds[a].1[i].detail == f.detail
                    && rounds[b].0 - rounds[a].0 < 300_000_000_000;
            alerts_at(rounds, b, j) == (!repeats && !told)
        }),
{
    let f = rounds[b].1[j];
    let key = (f.kind, f.detail);
    let before = rounds.take(b);
    let sent = sent_by(before);
    let round = rounds[b].0;
    only_repeats_are_passed_over(sent, rounds[b].1, round, j);
    assert forall|x: int, y: int| 0 <= x <= y < before.len() implies (#[trigger] before[x]).0 <= (
    #[trigger] before[y]).0 by {
        assert(rounds[x].0 <= rounds[y].0);
    }
    if sent.dom().contains(key) && round - sent[key] < 300_000_000_000 {
        let (a, i) = noted_by_an_alert(before, key);
        assert(before.take(a) =~= rounds.take(a));
        assert(alerts_at(rounds, a, i));
    }
    if exists|a: int, i: int|
        0 <= a < b && 0 <= i < rounds[a].1.len() && #[trigger] alerts_at(rounds, a, i)
            && rounds[a].1[i].kind == f.kind && rounds[a].1[i].detail == f.detail && rounds[b].0
            - rounds[a].0 < 300_000_000_000 {
        let (a, i) = choose|a: int, i: int|
            0 <= a < b && 0 <= i < rounds[a].1.len() && #[trigger] alerts_at(rounds, a, i)
                && rounds[a].1[i].kind == f.kind && rounds[a].1[i].detail == f.detail
                && rounds[b].0 - rounds[a].0 < 300_000_000_000;
        assert(before.take(a) =~= rounds.take(a));
        alert_is_remembered(before, a, i);
        assert(rounds[b - 1].0 <= rounds[b].0);
    }
}

/// Whatever `alert_round` gives, the findings that alert are exactly those that no
/// finding of the same kind and the same detail stands before in the round, and that no
/// alert of the five minutes before was for. They come in their order, each once.
pub proof fn round_alerts_each_finding_once(
    log: AlertLog,
    findings: &Vec<Finding>,
    round: u128,
    r: (AlertLog, Vec<usize>),
    i: int,
)
    requires
        call_ensures(alert_round, (log, findings, round), r),
        0 <= i < findings@.len(),
    ensures
        ({
            let f = findings@[i];
            let told = log@.dom().contains((f.kind@, f.detail@)) && round - log@[(
                f.kind@,
                f.detail@,
            )] < 300_000_000_000;
            let repeats = exists|j: int|
                0 <= j < i && (#[trigger] findings@[j]).kind@ == f.kind@ && findings@[j].detail@
                    == f.detail@;
            (exists|x: int| 0 <= x < r.1@.len() && #[trigger] r.1@[x] == i) == (!told && !repeats)
        }),
        forall|x: int, y: int| 0 <= x < y < r.1@.len() ==> #[trigger] r.1@[x] < #[trigger] r.1@[y],
        forall|x: int| 0 <= x < r.1@.len() ==> #[trigger] r.1@[x] < findings@.len(),
{
    let all = findings_of(findings@);
    let list = alerting(log@, all, round);
    only_repeats_are_passed_over(log@, all, round, i);
    assert forall|j: int| 0 <= j < all.len() implies #[trigger] all[j] == findings@[j]@ by {}
    assert(list == r.1@.map_values(|i: usize| i as int));
    if list.contains(i) {
        assert(r.1@[list.index_of(i)] == i);
    }
    if exists|x: int| 0 <= x < r.1@.len() && #[trigger] r.1@[x] == i {
        let x = choose|x: int| 0 <= x < r.1@.len() && #[trigger] r.1@[x] == i;
        assert(list[x] == i);
    }
    assert forall|x: int, y: int| 0 <= x < y < r.1@.len() implies #[trigger] r.1@[x]
        < #[trigger] r.1@[y] by {
        alerts_keep_their_order(log@, all, round, x, y);
        assert(list[x] == r.1@[x] && list[y] == r.1@[y]);
    }
    assert forall|x: int| 0 <= x < r.1@.len() implies #[trigger] r.1@[x] < findings@.len() by {
        alerts_keep_their_order(log@, all, round, x, x);
        assert(list[x] == r.1@[x]);
    }
    let f = all[i];
    if exists|j: int| 0 <= j < i && (#[trigger] all[j]).kind == f.kind && all[j].detail == f.detail {
        let j = choose|j: int|
            0 <= j < i && (#[trigger] all[j]).kind == f.kind && all[j].detail == f.detail;
        assert(findings@[j].kind@ == f.kind);
    }
    if exists|j: int|
        0 <= j < i && (#[trigger] findings@[j]).kind@ == f.kind && findings@[j].detail@
            == f.detail {
        let j = choose|j: int|
            0 <= j < i && (#[trigger] findings@[j]).kind@ == f.kind && findings@[j].detail@
                == f.detail;
        assert(all[j].kind == f.kind);
    }
}

/// The lines of the watch: an alert tells the severity, the kind, the detail and the time
/// of its finding; a round its time and how many findings there are, in all, critical and
/// not; the start the seconds between rounds and the data directory.
pub proof fn lines_tell_all(
    finding: &Finding,
    alert: String,
    result: &ScanResult,
    round: String,
    interval: u64,
    data_dir: &str,
    start: String,
)
    requires
        call_ensures(alert_line, (finding,), alert),
        call_ensures(round_line, (result, false), round),
        call_ensures(start_line, (interval, data_dir), start),
    ensures
        alert@ == "[ALERT] ["@ + finding.severity@ + "] "@ + finding.kind@ + " "@ + finding.detail@
            + " (at "@ + finding.triggered_at@ + ")"@,
        round@ == result.scanned_at@ + " scan complete: "@ + (decimal(
            result.summary.total as nat,
        ) + " findings ("@ + decimal(result.summary.crit as nat) + " crit, "@ + decimal(
            result.summary.warn as nat,
        ) + " warn)"@),
        start@ == "adonword watch started (interval "@ + decimal(interval as nat)
            + "s, data dir "@ + data_dir@ + ", ctrl-c to stop)"@,
{
}

/// Whatever a round prints as JSON is the document of its result, on one line, and
/// whatever is posted is that of the finding, to the URL as it stands, unless that is
/// blank. What is said of the reply is said of every status from 400 on.
pub proof fn machines_get_documents(
    result: &ScanResult,
    line: String,
    url: &str,
    finding: &Finding,
    request: Option<WebhookRequest>,
    status: u16,
    told: Option<String>,
    interval: u64,
    secs: u64,
)
    requires
        call_ensures(round_line, (result, true), line),
        call_ensures(send_webhook, (url, finding), request),
        call_ensures(webhook_reply_line, (status,), told),
        call_ensures(round_interval, (interval,), secs),
    ensures
        line@ == compact_text(scan_tree(result@)),
        !line@.contains('\n'),
        (request is Some) == (trimmed(url@).len() > 0),
        request matches Some(r) ==> r.url@ == url@ && r.timeout_secs == 10 && r.body@
            == compact_text(sorted(finding_tree(finding@))) && !r.body@.contains('\n'),
        (told is Some) == (status >= 400),
        told matches Some(s) ==> s@ == "[webhook] unexpected status "@ + decimal(status as nat),
        secs >= 1,
        interval >= 1 ==> secs == interval,
        interval == 0 ==> secs == 1,
{
}

/// Whatever `run_scan` finds is what an inspection at its time finds.
pub proof fn a_scan_is_an_inspection_at_its_time(
    cfg: &Config,
    baseline: Option<&Baseline>,
    observed: &Observed,
    r: ScanResult,
    at: String,
    q: ScanResult,
)
    requires
        call_ensures(run_scan, (cfg, baseline, observed), r),
        call_ensures(scan_at, (at, cfg, baseline, observed), q),
        at@ == r.scanned_at@,
    ensures
        r@ == q@,
        utc_seconds(r.scanned_at@),
{
    assert(r@.findings == q@.findings);
    assert(r@.summary == q@.summary);
}

/// Whatever a scan round gives is what an inspection against the loaded baseline finds,
/// with the text that loads as it and the path of the state file. Where the baseline
/// cannot be loaded there is no round, for that reason.
pub proof fn a_round_is_an_inspection(
    cfg: &Config,
    data_dir: &Dir,
    file: Result<Option<String>, String>,
    observed: &Observed,
    r: Result<ScanRound, Failure>,
    base: Result<Option<Baseline>, Failure>,
    at: String,
    q: ScanResult,
)
    requires
        call_ensures(scan_once, (cfg, data_dir, file, observed), r),
        call_ensures(load, (data_dir, file), base),
        call_ensures(
            scan_at,
            (
                at,
                cfg,
                match base {
                    Ok(Some(b)) => Some(&b),
                    _ => None,
                },
                observed,
            ),
            q,
        ),
        r matches Ok(round) ==> at@ == round.result.scanned_at@,
    ensures
        r is Ok == base is Ok,
        r matches Ok(round) ==> round.result@ == q@ && round.path@ == joined(
            data_dir@,
            "state.json"@,
        ) && state_file(data_dir@, Ok(Some(round.text@))) == Ok::<Option<ScanModel>, Fault>(
            Some(q@),
        ),
        base matches Err(e) ==> (r matches Err(f) && f.context@ == e.context@ && f.cause@
            == e.cause@),
{
    if let Ok(round) = r {
        assert(round.result@.findings == q@.findings);
        assert(round.result@.summary == q@.summary);
    }
}

/// Whatever is said of an alert that could not be sent tells why.
pub proof fn a_failed_alert_is_told(error: &str, r: String)
    requires
        call_ensures(webhook_error_line, (error,), r),
    ensures
        r@ == "[webhook] failed to send alert: "@ + error@,
{
}

/// After a round the log holds, with their times, what was alerted within the five minutes
/// before it and what the round found, and nothing else.
pub proof fn a_round_leaves_the_window(
    log: AlertLog,
    findings: &Vec<Finding>,
    round: u128,
    r: (AlertLog, Vec<usize>),
    kind: Seq<char>,
    detail: Seq<char>,
)
    requires
        call_ensures(alert_round, (log, findings, round), r),
    ensures
        ({
            let told = log@.dom().contains((kind, detail)) && round - log@[(kind, detail)]
                < 300_000_000_000;
            let found = exists|j: int|
                0 <= j < findings@.len() && (#[trigger] findings@[j]).kind@ == kind
                    && findings@[j].detail@ == detail;
            &&& r.0@.dom().contains((kind, detail)) == (told || found)
            &&& told ==> r.0@[(kind, detail)] == log@[(kind, detail)]
            &&& !told && found ==> r.0@[(kind, detail)] == round
        }),
{
    let all = findings_of(findings@);
    log_holds_the_window(log@, all, round, kind, detail);
    assert forall|j: int| 0 <= j < all.len() implies #[trigger] all[j] == findings@[j]@ by {}
    if exists|j: int|
        0 <= j < all.len() && (#[trigger] all[j]).kind == kind && all[j].detail == detail {
        let j = choose|j: int|
            0 <= j < all.len() && (#[trigger] all[j]).kind == kind && all[j].detail == detail;
        assert(findings@[j].kind@ == kind);
    }
    if exists|j: int|
        0 <= j < findings@.len() && (#[trigger] findings@[j]).kind@ == kind
            && findings@[j].detail@ == detail {
        let j = choose|j: int|
            0 <= j < findings@.len() && (#[trigger] findings@[j]).kind@ == kind
                && findings@[j].detail@ == detail;
        assert(all[j].kind == kind);
    }
}

} // verus!
