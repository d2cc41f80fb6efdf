//! Running processes: the list of them, and those that are reported.

use crate::matching::{any_pattern_may_match, glob_matches, name_matches, name_matches_any};
use crate::text::{comes_before, concat3, decimal, decimal_text, lowercased, same_text,
    text_before, text_before_irreflexive, text_before_total, text_before_transitive, texts, trim,
    trimmed};
use crate::walk::push_some;
use vstd::prelude::*;
use vstd::string::*;

verus! {

/// The name of a process and its id.
pub type Process = (Seq<char>, u32);

/// What a list of processes says.
pub open spec fn processes_of(list: Seq<(String, u32)>) -> Seq<Process> {
    list.map_values(|p: (String, u32)| (p.0@, p.1))
}

/// The order of processes: by name, then by id.
pub open spec fn process_before(a: Process, b: Process) -> bool {
    text_before(a.0, b.0) || (a.0 == b.0 && a.1 < b.1)
}

/// A process put among processes in order.
pub open spec fn process_in_order(s: Seq<Process>, p: Process) -> Seq<Process>
    decreases s.len(),
{
    if s.len() == 0 || !process_before(p, s.last()) {
        s.push(p)
    } else {
        process_in_order(s.drop_last(), p).push(s.last())
    }
}

/// The process as it is listed: its name without the white space around it, unless
/// nothing is left of the name.
pub open spec fn listed_process(p: Process) -> Option<Process> {
    if trimmed(p.0).len() > 0 {
        Some((trimmed(p.0), p.1))
    } else {
        None
    }
}

/// The processes as they are listed, in order.
pub open spec fn process_list(raw: Seq<Process>) -> Seq<Process>
    decreases raw.len(),
{
    if raw.len() == 0 {
        Seq::empty()
    } else {
        let before = process_list(raw.drop_last());
        match listed_process(raw.last()) {
            Some(p) => process_in_order(before, p),
            None => before,
        }
    }
}

fn goes_before(a_name: &str, a_pid: u32, b: &(String, u32)) -> (r: bool)
    ensures
        r == process_before((a_name@, a_pid), (b.0@, b.1)),
{
    comes_before(a_name, b.0.as_str()) || (same_text(a_name, b.0.as_str()) && a_pid < b.1)
}

/// The (process name, pid) pairs of a snapshot of the running processes: trimmed
/// names, no empty ones, in order.
pub fn collect_processes(raw: &Vec<(String, u32)>) -> (r: Vec<(String, u32)>)
    ensures
        processes_of(r@) == process_list(processes_of(raw@)),
{
    let ghost all = processes_of(raw@);
    let mut out: Vec<(String, u32)> = Vec::new();
    let mut i: usize = 0;
    assert(all.take(0) =~= Seq::<Process>::empty());
    assert(processes_of(out@) =~= Seq::<Process>::empty());
    while i < raw.len()
        invariant
            i <= raw@.len(),
            all == processes_of(raw@),
            processes_of(out@) == process_list(all.take(i as int)),
        decreases raw@.len() - i,
    {
        let name = trim(raw[i].0.as_str());
        let pid: u32 = raw[i].1;
        let ghost s = processes_of(out@);
        let ghost p = (name@, pid);
        proof {
            assert(all.take(i + 1).drop_last() =~= all.take(i as int));
            assert(all.take(i + 1).last() == all[i as int]);
        }
        if !name.as_str().is_empty() {
            let mut at: usize = out.len();
            assert(s.take(at as int) =~= s);
            assert(process_in_order(s, p) =~= process_in_order(s.take(at as int), p) + s.skip(
                at as int,
            ));
            while at > 0 && goes_before(name.as_str(), pid, &out[at - 1])
                invariant
                    at <= out@.len() == s.len(),
                    s == processes_of(out@),
                    p == (name@, pid),
                    process_in_order(s, p) == process_in_order(s.take(at as int), p) + s.skip(
                        at as int,
                    ),
                decreases at,
            {
                proof {
                    assert(s[at - 1] == (out@[at - 1].0@, out@[at - 1].1));
                    assert(s.take(at as int).drop_last() =~= s.take(at - 1));
                    assert(s.take(at as int).last() == s[at - 1]);
                    assert(process_in_order(s.take(at as int), p) + s.skip(at as int) =~=
                        process_in_order(s.take(at - 1), p) + s.skip(at - 1));
                }
                at = at - 1;
            }
            proof {
                if at > 0 {
                    assert(s.take(at as int).last() == s[at - 1]);
                    assert(s[at - 1] == (out@[at - 1].0@, out@[at - 1].1));
                }
                assert(process_in_order(s.take(at as int), p) =~= s.take(at as int).push(p));
            }
            out.insert(at, (name, pid));
            assert(processes_of(out@) =~= s.take(at as int).push(p) + s.skip(at as int));
        }
        i = i + 1;
    }
    assert(all.take(raw@.len() as int) =~= all);
    out
}

// ---------------------------------------------------------------------------
// Reports
// ---------------------------------------------------------------------------

/// Whether no process before an index has the same name, case aside.
pub open spec fn first_of_name(s: Seq<Process>, at: int) -> bool {
    forall|j: int| 0 <= j < at ==> lowercased((#[trigger] s[j]).0) != lowercased(s[at].0)
}

pub open spec fn blocked_text(p: Process) -> Seq<char> {
    "blocked process is running: "@ + p.0 + " (pid "@ + decimal(p.1 as nat) + ")"@
}

pub open spec fn unlisted_text(p: Process) -> Seq<char> {
    "process outside allowlist: "@ + p.0 + " (pid "@ + decimal(p.1 as nat) + ")"@
}

/// Whether a process is on the blocklist.
pub open spec fn is_blocked(p: Process, blocklist: Seq<Seq<char>>) -> bool {
    name_matches_any(p.0, blocklist)
}

/// Whether a process is neither on the blocklist nor on the allowlist.
pub open spec fn is_unlisted(
    p: Process,
    blocklist: Seq<Seq<char>>,
    allowlist: Seq<Seq<char>>,
) -> bool {
    !name_matches_any(p.0, blocklist) && !name_matches_any(p.0, allowlist)
}

/// The details of the reports on processes of the blocklist: one for the first
/// process of each name, among the first `n`.
pub open spec fn blocked_details(s: Seq<Process>, blocklist: Seq<Seq<char>>, n: int) -> Seq<
    Seq<char>,
>
    decreases n,
{
    if n <= 0 {
        Seq::empty()
    } else {
        push_some(
            blocked_details(s, blocklist, n - 1),
            if is_blocked(s[n - 1], blocklist) && first_of_name(s, n - 1) {
                Some(blocked_text(s[n - 1]))
            } else {
                None
            },
        )
    }
}

/// The details of the reports on processes outside the allowlist: one for the
/// first process of each name, among the first `n`.
pub open spec fn unlisted_details(
    s: Seq<Process>,
    blocklist: Seq<Seq<char>>,
    allowlist: Seq<Seq<char>>,
    n: int,
) -> Seq<Seq<char>>
    decreases n,
{
    if n <= 0 {
        Seq::empty()
    } else {
        push_some(
            unlisted_details(s, blocklist, allowlist, n - 1),
            if is_unlisted(s[n - 1], blocklist, allowlist) && first_of_name(s, n - 1) {
                Some(unlisted_text(s[n - 1]))
            } else {
                None
            },
        )
    }
}

fn process_text(lead: &str, name: &str, pid: u32) -> (r: String)
    ensures
        r@ == lead@ + name@ + " (pid "@ + decimal(pid as nat) + ")"@,
{
    let mut out = concat3(lead, name, " (pid ");
    out.append(decimal_text(pid as u64).as_str());
    out.append(")");
    out
}

fn holds_text(list: &Vec<String>, s: &str) -> (r: bool)
    ensures
        r == texts(list@).contains(s@),
{
    let mut i: usize = 0;
    while i < list.len()
        invariant
            i <= list@.len(),
            forall|k: int| 0 <= k < i ==> (#[trigger] list@[k])@ != s@,
        decreases list@.len() - i,
    {
        if same_text(list[i].as_str(), s) {
            assert(texts(list@)[i as int] == s@);
            return true;
        }
        i = i + 1;
    }
    assert forall|k: int| 0 <= k < texts(list@).len() implies texts(list@)[k] != s@ by {
        assert(list@[k]@ != s@);
    }
    false
}

/// The lower-case names of the processes that a test picks among the first `n`.
pub open spec fn names_seen(s: Seq<Process>, pick: spec_fn(Process) -> bool, n: int) -> Set<
    Seq<char>,
> {
    Set::new(
        |name: Seq<char>|
            exists|j: int| 0 <= j < n && pick(#[trigger] s[j]) && lowercased(s[j].0) == name,
    )
}

/// A process is the first of its name exactly when its name was not seen among the
/// processes that the test picks, where the test looks at the lower case only.
proof fn first_means_unseen(s: Seq<Process>, pick: spec_fn(Process) -> bool, at: int)
    requires
        0 <= at < s.len(),
        pick(s[at]),
        forall|a: Process, b: Process|
            lowercased(a.0) == lowercased(b.0) ==> #[trigger] pick(a) == #[trigger] pick(b),
    ensures
        first_of_name(s, at) == !names_seen(s, pick, at).contains(lowercased(s[at].0)),
{
    if first_of_name(s, at) {
        if names_seen(s, pick, at).contains(lowercased(s[at].0)) {
            let j = choose|j: int|
                0 <= j < at && pick(#[trigger] s[j]) && lowercased(s[j].0) == lowercased(s[at].0);
            assert(lowercased(s[j].0) != lowercased(s[at].0));
        }
    } else {
        let j = choose|j: int| 0 <= j < at && lowercased((#[trigger] s[j]).0) == lowercased(s[at].0);
        assert(pick(s[j]) == pick(s[at]));
    }
}

/// What is seen among one process more.
proof fn seen_grows(
    s: Seq<Process>,
    pick: spec_fn(Process) -> bool,
    seen: Seq<Seq<char>>,
    n: int,
    next: Seq<Seq<char>>,
)
    requires
        0 <= n < s.len(),
        forall|name: Seq<char>| #[trigger]
            seen.contains(name) == names_seen(s, pick, n).contains(name),
        pick(s[n]) && !seen.contains(lowercased(s[n].0)) ==> next == seen.push(lowercased(s[n].0)),
        !pick(s[n]) || seen.contains(lowercased(s[n].0)) ==> next == seen,
    ensures
        forall|name: Seq<char>| #[trigger]
            next.contains(name) == names_seen(s, pick, n + 1).contains(name),
{
    assert forall|name: Seq<char>| #[trigger] next.contains(name) == names_seen(
        s,
        pick,
        n + 1,
    ).contains(name) by {
        assert(seen.contains(name) == names_seen(s, pick, n).contains(name));
        if next.len() == seen.len() + 1 {
            if seen.contains(name) {
                let k = seen.index_of(name);
                assert(next[k] == name);
            }
            assert(next[seen.len() as int] == lowercased(s[n].0));
            if next.contains(name) {
                let k = next.index_of(name);
                if k < seen.len() {
                    assert(seen[k] == name);
                }
            }
        }
        if names_seen(s, pick, n).contains(name) {
            let j = choose|j: int| 0 <= j < n && pick(#[trigger] s[j]) && lowercased(s[j].0) == name;
            assert(pick(s[j]) && lowercased(s[j].0) == name);
        }
        if names_seen(s, pick, n + 1).contains(name) {
            let j = choose|j: int|
                0 <= j < n + 1 && pick(#[trigger] s[j]) && lowercased(s[j].0) == name;
            if j < n {
                assert(names_seen(s, pick, n).contains(name));
            } else {
                assert(seen.contains(lowercased(s[n].0)) || next.contains(lowercased(s[n].0)));
            }
        }
        if pick(s[n]) && lowercased(s[n].0) == name {
            assert(names_seen(s, pick, n + 1).contains(name));
        }
    }
}

/// The details of the reports on processes of the blocklist.
pub fn blocked_processes(processes: &Vec<(String, u32)>, blocklist: &Vec<String>) -> (r: Vec<
    String,
>)
    ensures
        texts(r@) == blocked_details(
            processes_of(processes@),
            texts(blocklist@),
            processes@.len() as int,
        ),
{
    let ghost s = processes_of(processes@);
    let ghost blocked = texts(blocklist@);
    let ghost pick = |p: Process| is_blocked(p, blocked);
    let mut out: Vec<String> = Vec::new();
    let mut seen: Vec<String> = Vec::new();
    let mut i: usize = 0;
    assert(texts(out@) =~= Seq::<Seq<char>>::empty());
    assert(texts(seen@) =~= Seq::<Seq<char>>::empty());
    while i < processes.len()
        invariant
            i <= processes@.len(),
            s == processes_of(processes@),
            blocked == texts(blocklist@),
            pick == |p: Process| is_blocked(p, blocked),
            texts(out@) == blocked_details(s, blocked, i as int),
            forall|name: Seq<char>| #[trigger]
                texts(seen@).contains(name) == names_seen(s, pick, i as int).contains(name),
        decreases processes@.len() - i,
    {
        let (name, pid) = (&processes[i].0, processes[i].1);
        let ghost told = out@;
        let ghost was = seen@;
        assert(s[i as int] == (name@, pid));
        if name_matches(name.as_str(), blocklist.as_slice()) {
            let lower = name.as_str().to_lowercase();
            proof {
                assert(pick(s[i as int]));
                first_means_unseen(s, pick, i as int);
            }
            if !holds_text(&seen, lower.as_str()) {
                seen.push(lower);
                assert(texts(seen@) =~= texts(was).push(lower@));
                let line = process_text("blocked process is running: ", name.as_str(), pid);
                out.push(line);
                assert(texts(out@) =~= texts(told).push(line@));
            }
        }
        proof {
            seen_grows(s, pick, texts(was), i as int, texts(seen@));
        }
        i = i + 1;
    }
    out
}

/// The details of the reports on processes outside the allowlist.
pub fn unlisted_processes(
    processes: &Vec<(String, u32)>,
    blocklist: &Vec<String>,
    allowlist: &Vec<String>,
) -> (r: Vec<String>)
    ensures
        texts(r@) == unlisted_details(
            processes_of(processes@),
            texts(blocklist@),
            texts(allowlist@),
            processes@.len() as int,
        ),
{
    let ghost s = processes_of(processes@);
    let ghost blocked = texts(blocklist@);
    let ghost allowed = texts(allowlist@);
    let ghost pick = |p: Process| is_unlisted(p, blocked, allowed);
    let mut out: Vec<String> = Vec::new();
    let mut seen: Vec<String> = Vec::new();
    let mut i: usize = 0;
    assert(texts(out@) =~= Seq::<Seq<char>>::empty());
    assert(texts(seen@) =~= Seq::<Seq<char>>::empty());
    while i < processes.len()
        invariant
            i <= processes@.len(),
            s == processes_of(processes@),
            blocked == texts(blocklist@),
            allowed == texts(allowlist@),
            pick == |p: Process| is_unlisted(p, blocked, allowed),
            texts(out@) == unlisted_details(s, blocked, allowed, i as int),
            forall|name: Seq<char>| #[trigger]
                texts(seen@).contains(name) == names_seen(s, pick, i as int).contains(name),
        decreases processes@.len() - i,
    {
        let (name, pid) = (&processes[i].0, processes[i].1);
        let ghost told = out@;
        let ghost was = seen@;
        assert(s[i as int] == (name@, pid));
        // what is on the blocklist has been reported as blocked
        if !name_matches(name.as_str(), blocklist.as_slice()) && !name_matches(
            name.as_str(),
            allowlist.as_slice(),
        ) {
            let lower = name.as_str().to_lowercase();
            proof {
                assert(pick(s[i as int]));
                first_means_unseen(s, pick, i as int);
            }
            if !holds_text(&seen, lower.as_str()) {
                seen.push(lower);
                assert(texts(seen@) =~= texts(was).push(lower@));
                let line = process_text("process outside allowlist: ", name.as_str(), pid);
                out.push(line);
                assert(texts(out@) =~= texts(told).push(line@));
            }
        }
        proof {
            seen_grows(s, pick, texts(was), i as int, texts(seen@));
        }
        i = i + 1;
    }
    out
}

// ---------------------------------------------------------------------------
// Laws
// ---------------------------------------------------------------------------

/// Whether no process stands after one that it goes before.
pub open spec fn processes_in_order(s: Seq<Process>) -> bool {
    forall|i: int, j: int| 0 <= i < j < s.len() ==> !process_before(#[trigger] s[j], #[trigger] s[i])
}

/// The processes as they are listed, in the order in which they came.
pub open spec fn listed_processes(raw: Seq<Process>) -> Seq<Process>
    decreases raw.len(),
{
    if raw.len() == 0 {
        Seq::empty()
    } else {
        push_some(listed_processes(raw.drop_last()), listed_process(raw.last()))
    }
}

/// Of three processes, if neither of the first two goes back, the first and the
/// last do not.
proof fn process_order_chains(a: Process, b: Process, c: Process)
    requires
        !process_before(b, a),
        !process_before(c, b),
    ensures
        !process_before(c, a),
{
    text_before_total(a.0, b.0);
    text_before_total(b.0, c.0);
    text_before_total(a.0, c.0);
    text_before_irreflexive(a.0);
    text_before_irreflexive(b.0);
    text_before_irreflexive(c.0);
    if text_before(a.0, b.0) && text_before(b.0, c.0) {
        text_before_transitive(a.0, b.0, c.0);
    }
    if process_before(c, a) && text_before(c.0, a.0) {
        if text_before(a.0, c.0) {
            text_before_transitive(a.0, c.0, a.0);
        }
    }
}

proof fn process_goes_in(s: Seq<Process>, p: Process)
    requires
        processes_in_order(s),
    ensures
        processes_in_order(process_in_order(s, p)),
        process_in_order(s, p).to_multiset() == s.to_multiset().insert(p),
    decreases s.len(),
{
    broadcast use vstd::seq_lib::group_to_multiset_ensures;

    let t = process_in_order(s, p);
    if s.len() == 0 || !process_before(p, s.last()) {
        assert forall|i: int, j: int| 0 <= i < j < t.len() implies !process_before(
            #[trigger] t[j],
            #[trigger] t[i],
        ) by {
            if j == s.len() {
                if i < s.len() - 1 {
                    assert(!process_before(s[s.len() - 1], s[i]));
                    process_order_chains(s[i], s[s.len() - 1], p);
                }
            } else {
                assert(!process_before(s[j], s[i]));
            }
        }
    } else {
        let rest = s.drop_last();
        let last = s.last();
        assert forall|i: int, j: int| 0 <= i < j < rest.len() implies !process_before(
            #[trigger] rest[j],
            #[trigger] rest[i],
        ) by {
            assert(!process_before(s[j], s[i]));
        }
        process_goes_in(rest, p);
        let u = process_in_order(rest, p);
        assert(s =~= rest.push(last));
        assert(t.to_multiset() =~= s.to_multiset().insert(p));
        assert forall|i: int, j: int| 0 <= i < j < t.len() implies !process_before(
            #[trigger] t[j],
            #[trigger] t[i],
        ) by {
            if j < u.len() {
                assert(!process_before(u[j], u[i]));
            } else {
                assert(u.to_multiset().count(u[i]) > 0) by {
                    assert(u.contains(u[i]));
                }
                if u[i] == p {
                    text_before_irreflexive(p.0);
                    if process_before(last, p) {
                        if text_before(p.0, last.0) && text_before(last.0, p.0) {
                            text_before_transitive(p.0, last.0, p.0);
                        }
                    }
                } else {
                    assert(rest.to_multiset().count(u[i]) > 0);
                    assert(rest.contains(u[i]));
                    let k = rest.index_of(u[i]);
                    assert(!process_before(s[s.len() - 1], s[k]));
                }
            }
        }
    }
}

/// The list of processes is sorted, and holds exactly the processes that came, with
/// trimmed names and without those whose name is blank.
pub proof fn process_list_is_sorted(raw: Seq<Process>)
    ensures
        processes_in_order(process_list(raw)),
        process_list(raw).to_multiset() == listed_processes(raw).to_multiset(),
    decreases raw.len(),
{
    broadcast use vstd::seq_lib::group_to_multiset_ensures;

    if raw.len() > 0 {
        process_list_is_sorted(raw.drop_last());
        if let Some(p) = listed_process(raw.last()) {
            process_goes_in(process_list(raw.drop_last()), p);
        }
    }
}

/// Every process of the blocklist is reported: by itself, or by one before it that
/// has the same name, case aside.
pub proof fn every_blocked_name_is_reported(s: Seq<Process>, blocklist: Seq<Seq<char>>, at: int)
    requires
        0 <= at < s.len(),
        is_blocked(s[at], blocklist),
    ensures
        exists|j: int|
            0 <= j <= at && lowercased((#[trigger] s[j]).0) == lowercased(s[at].0)
                && blocked_details(s, blocklist, s.len() as int).contains(blocked_text(s[j])),
    decreases at,
{
    if first_of_name(s, at) {
        reported_stays(s, blocklist, at, s.len() as int);
    } else {
        let j = choose|j: int| 0 <= j < at && lowercased((#[trigger] s[j]).0) == lowercased(s[at].0);
        assert(is_blocked(s[j], blocklist));
        every_blocked_name_is_reported(s, blocklist, j);
    }
}

proof fn reported_stays(s: Seq<Process>, blocklist: Seq<Seq<char>>, at: int, n: int)
    requires
        0 <= at < n <= s.len(),
        is_blocked(s[at], blocklist),
        first_of_name(s, at),
    ensures
        blocked_details(s, blocklist, n).contains(blocked_text(s[at])),
    decreases n,
{
    let d = blocked_details(s, blocklist, n);
    let before = blocked_details(s, blocklist, n - 1);
    if n == at + 1 {
        assert(d[before.len() as int] == blocked_text(s[at]));
    } else {
        reported_stays(s, blocklist, at, n - 1);
        let k = before.index_of(blocked_text(s[at]));
        assert(d[k] == blocked_text(s[at]));
    }
}

/// Every process outside a non-empty allowlist and off the blocklist is reported:
/// by itself, or by one before it that has the same name, case aside.
pub proof fn every_unlisted_name_is_reported(
    s: Seq<Process>,
    blocklist: Seq<Seq<char>>,
    allowlist: Seq<Seq<char>>,
    at: int,
)
    requires
        0 <= at < s.len(),
        is_unlisted(s[at], blocklist, allowlist),
    ensures
        exists|j: int|
            0 <= j <= at && lowercased((#[trigger] s[j]).0) == lowercased(s[at].0)
                && unlisted_details(s, blocklist, allowlist, s.len() as int).contains(
                unlisted_text(s[j]),
            ),
    decreases at,
{
    if first_of_name(s, at) {
        unlisted_stays(s, blocklist, allowlist, at, s.len() as int);
    } else {
        let j = choose|j: int| 0 <= j < at && lowercased((#[trigger] s[j]).0) == lowercased(s[at].0);
        assert(is_unlisted(s[j], blocklist, allowlist));
        every_unlisted_name_is_reported(s, blocklist, allowlist, j);
    }
}

proof fn unlisted_stays(
    s: Seq<Process>,
    blocklist: Seq<Seq<char>>,
    allowlist: Seq<Seq<char>>,
    at: int,
    n: int,
)
    requires
        0 <= at < n <= s.len(),
        is_unlisted(s[at], blocklist, allowlist),
        first_of_name(s, at),
    ensures
        unlisted_details(s, blocklist, allowlist, n).contains(unlisted_text(s[at])),
    decreases n,
{
    let d = unlisted_details(s, blocklist, allowlist, n);
    let before = unlisted_details(s, blocklist, allowlist, n - 1);
    if n == at + 1 {
        assert(d[before.len() as int] == unlisted_text(s[at]));
    } else {
        unlisted_stays(s, blocklist, allowlist, at, n - 1);
        let k = before.index_of(unlisted_text(s[at]));
        assert(d[k] == unlisted_text(s[at]));
    }
}

/// Nothing is reported as blocked but processes of the blocklist.
pub proof fn only_blocked_names_are_reported(
    s: Seq<Process>,
    blocklist: Seq<Seq<char>>,
    n: int,
    k: int,
)
    requires
        0 <= n <= s.len(),
        0 <= k < blocked_details(s, blocklist, n).len(),
    ensures
        exists|i: int|
            0 <= i < n && is_blocked(#[trigger] s[i], blocklist) && blocked_details(
                s,
                blocklist,
                n,
            )[k] == blocked_text(s[i]),
    decreases n,
{
    let before = blocked_details(s, blocklist, n - 1);
    if n > 0 {
        if k < before.len() {
            only_blocked_names_are_reported(s, blocklist, n - 1, k);
            let i = choose|i: int|
                0 <= i < n - 1 && is_blocked(#[trigger] s[i], blocklist) && before[k]
                    == blocked_text(s[i]);
            assert(is_blocked(s[i], blocklist));
        } else {
            assert(is_blocked(s[n - 1], blocklist));
        }
    }
}

/// Nothing but processes that are neither on the blocklist nor on the allowlist is
/// reported as being outside the allowlist.
pub proof fn only_unlisted_names_are_reported(
    s: Seq<Process>,
    blocklist: Seq<Seq<char>>,
    allowlist: Seq<Seq<char>>,
    n: int,
    k: int,
)
    requires
        0 <= n <= s.len(),
        0 <= k < unlisted_details(s, blocklist, allowlist, n).len(),
    ensures
        exists|i: int|
            0 <= i < n && is_unlisted(#[trigger] s[i], blocklist, allowlist) && unlisted_details(
                s,
                blocklist,
                allowlist,
                n,
            )[k] == unlisted_text(s[i]),
    decreases n,
{
    if n > 0 {
        let before = unlisted_details(s, blocklist, allowlist, n - 1);
        if k < before.len() {
            only_unlisted_names_are_reported(s, blocklist, allowlist, n - 1, k);
            let i = choose|i: int|
                0 <= i < n - 1 && is_unlisted(#[trigger] s[i], blocklist, allowlist) && before[k]
                    == unlisted_text(s[i]);
            assert(is_unlisted(s[i], blocklist, allowlist));
        } else {
            assert(is_unlisted(s[n - 1], blocklist, allowlist));
        }
    }
}

/// What is reported of processes does not hang on those that come after.
proof fn later_processes_change_nothing(
    s: Seq<Process>,
    p: Process,
    blocklist: Seq<Seq<char>>,
    allowlist: Seq<Seq<char>>,
    n: int,
)
    requires
        n <= s.len(),
    ensures
        blocked_details(s.push(p), blocklist, n) == blocked_details(s, blocklist, n),
        unlisted_details(s.push(p), blocklist, allowlist, n) == unlisted_details(
            s,
            blocklist,
            allowlist,
            n,
        ),
    decreases n,
{
    if n > 0 {
        let t = s.push(p);
        later_processes_change_nothing(s, p, blocklist, allowlist, n - 1);
        assert(t[n - 1] == s[n - 1]);
        assert(first_of_name(t, n - 1) == first_of_name(s, n - 1)) by {
            assert forall|j: int| 0 <= j < n - 1 implies #[trigger] t[j] == s[j] by {}
            if first_of_name(t, n - 1) {
                assert forall|j: int| 0 <= j < n - 1 implies lowercased((#[trigger] s[j]).0)
                    != lowercased(s[n - 1].0) by {
                    assert(lowercased(t[j].0) != lowercased(t[n - 1].0));
                }
            }
            if first_of_name(s, n - 1) {
                assert forall|j: int| 0 <= j < n - 1 implies lowercased((#[trigger] t[j]).0)
                    != lowercased(t[n - 1].0) by {
                    assert(lowercased(s[j].0) != lowercased(s[n - 1].0));
                }
            }
        }
    }
}

/// One running process more is reported as blocked exactly if a pattern of the
/// blocklist, whichever it is, matches its name and no process before has that name,
/// case aside. What was reported before stays.
pub proof fn blocked_processes_add_up(s: Seq<Process>, p: Process, blocklist: Seq<Seq<char>>)
    ensures
        ({
            let before = blocked_details(s, blocklist, s.len() as int);
            let after = blocked_details(s.push(p), blocklist, (s.len() + 1) as int);
            let hit = exists|k: int|
                0 <= k < blocklist.len() && glob_matches(
                    lowercased(#[trigger] blocklist[k]),
                    lowercased(p.0),
                );
            let fresh = forall|j: int|
                0 <= j < s.len() ==> lowercased((#[trigger] s[j]).0) != lowercased(p.0);
            after == if hit && fresh {
                before.push(
                    "blocked process is running: "@ + p.0 + " (pid "@ + decimal(p.1 as nat) + ")"@,
                )
            } else {
                before
            }
        }),
        blocked_details(s, blocklist, 0).len() == 0,
{
    let t = s.push(p);
    later_processes_change_nothing(s, p, blocklist, Seq::empty(), s.len() as int);
    any_pattern_may_match(p.0, blocklist);
    fresh_names(s, p);
}

proof fn fresh_names(s: Seq<Process>, p: Process)
    ensures
        first_of_name(s.push(p), s.len() as int) == forall|j: int|
            0 <= j < s.len() ==> lowercased((#[trigger] s[j]).0) != lowercased(p.0),
{
    let t = s.push(p);
    if first_of_name(t, s.len() as int) {
        assert forall|j: int| 0 <= j < s.len() implies lowercased((#[trigger] s[j]).0)
            != lowercased(p.0) by {
            assert(lowercased(t[j].0) != lowercased(t[s.len() as int].0));
        }
    }
}

/// One running process more is reported as outside the allowlist exactly if no pattern
/// of the blocklist and none of the allowlist matches its name, and no process before
/// has that name, case aside. What was reported before stays.
pub proof fn unlisted_processes_add_up(
    s: Seq<Process>,
    p: Process,
    blocklist: Seq<Seq<char>>,
    allowlist: Seq<Seq<char>>,
)
    ensures
        ({
            let before = unlisted_details(s, blocklist, allowlist, s.len() as int);
            let after = unlisted_details(s.push(p), blocklist, allowlist, (s.len() + 1) as int);
            let blocked = exists|k: int|
                0 <= k < blocklist.len() && glob_matches(
                    lowercased(#[trigger] blocklist[k]),
                    lowercased(p.0),
                );
            let allowed = exists|k: int|
                0 <= k < allowlist.len() && glob_matches(
                    lowercased(#[trigger] allowlist[k]),
                    lowercased(p.0),
                );
            let fresh = forall|j: int|
                0 <= j < s.len() ==> lowercased((#[trigger] s[j]).0) != lowercased(p.0);
            after == if !blocked && !allowed && fresh {
                before.push(
                    "process outside allowlist: "@ + p.0 + " (pid "@ + decimal(p.1 as nat) + ")"@,
                )
            } else {
                before
            }
        }),
        unlisted_details(s, blocklist, allowlist, 0).len() == 0,
{
    let t = s.push(p);
    later_processes_change_nothing(s, p, blocklist, allowlist, s.len() as int);
    any_pattern_may_match(p.0, blocklist);
    any_pattern_may_match(p.0, allowlist);
    fresh_names(s, p);
}

/// Whatever `blocked_processes` gives, a running process whose name a pattern of the
/// blocklist matches, at whatever place it stands, is told of: with its own id, or by
/// one before it of the same name, case aside.
pub proof fn every_blocked_process_is_told(
    processes: &Vec<(String, u32)>,
    blocklist: &Vec<String>,
    r: Vec<String>,
    at: int,
    k: int,
)
    requires
        call_ensures(blocked_processes, (processes, blocklist), r),
        0 <= at < processes@.len(),
        0 <= k < blocklist@.len(),
        glob_matches(lowercased(blocklist@[k]@), lowercased(processes@[at].0@)),
    ensures
        exists|j: int, x: int|
            0 <= j <= at && 0 <= x < r@.len() && lowercased((#[trigger] processes@[j]).0@)
                == lowercased(processes@[at].0@) && (#[trigger] r@[x])@
                == "blocked process is running: "@ + processes@[j].0@ + " (pid "@ + decimal(
                processes@[j].1 as nat,
            ) + ")"@,
{
    let s = processes_of(processes@);
    let list = texts(blocklist@);
    any_pattern_may_match(s[at].0, list);
    assert(list[k] == blocklist@[k]@);
    every_blocked_name_is_reported(s, list, at);
    let d = blocked_details(s, list, s.len() as int);
    let j = choose|j: int|
        0 <= j <= at && lowercased((#[trigger] s[j]).0) == lowercased(s[at].0) && d.contains(
            blocked_text(s[j]),
        );
    let x = d.index_of(blocked_text(s[j]));
    assert(r@[x]@ == d[x]);
    assert(s[j] == (processes@[j].0@, processes@[j].1));
}

/// Whatever `blocked_processes` gives, each text tells of a running process whose name
/// a pattern of the blocklist matches.
pub proof fn only_blocked_processes_are_told(
    processes: &Vec<(String, u32)>,
    blocklist: &Vec<String>,
    r: Vec<String>,
    x: int,
)
    requires
        call_ensures(blocked_processes, (processes, blocklist), r),
        0 <= x < r@.len(),
    ensures
        exists|i: int, k: int|
            0 <= i < processes@.len() && 0 <= k < blocklist@.len() && glob_matches(
                lowercased((#[trigger] blocklist@[k])@),
                lowercased((#[trigger] processes@[i]).0@),
            ) && r@[x]@ == "blocked process is running: "@ + processes@[i].0@ + " (pid "@
                + decimal(processes@[i].1 as nat) + ")"@,
{
    let s = processes_of(processes@);
    let list = texts(blocklist@);
    let d = blocked_details(s, list, s.len() as int);
    only_blocked_names_are_reported(s, list, s.len() as int, x);
    let i = choose|i: int|
        0 <= i < s.len() && is_blocked(#[trigger] s[i], list) && d[x] == blocked_text(s[i]);
    any_pattern_may_match(s[i].0, list);
    let k = choose|k: int|
        0 <= k < list.len() && glob_matches(lowercased(#[trigger] list[k]), lowercased(s[i].0));
    assert(list[k] == blocklist@[k]@);
    assert(s[i] == (processes@[i].0@, processes@[i].1));
    assert(r@[x]@ == d[x]);
}

/// Whatever `unlisted_processes` gives, a running process whose name no pattern of
/// either list matches is told of: with its own id, or by one before it of the same
/// name, case aside.
pub proof fn every_unlisted_process_is_told(
    processes: &Vec<(String, u32)>,
    blocklist: &Vec<String>,
    allowlist: &Vec<String>,
    r: Vec<String>,
    at: int,
)
    requires
        call_ensures(unlisted_processes, (processes, blocklist, allowlist), r),
        0 <= at < processes@.len(),
        forall|k: int|
            0 <= k < blocklist@.len() ==> !glob_matches(
                lowercased((#[trigger] blocklist@[k])@),
                lowercased(processes@[at].0@),
            ),
        forall|k: int|
            0 <= k < allowlist@.len() ==> !glob_matches(
                lowercased((#[trigger] allowlist@[k])@),
                lowercased(processes@[at].0@),
            ),
    ensures
        exists|j: int, x: int|
            0 <= j <= at && 0 <= x < r@.len() && lowercased((#[trigger] processes@[j]).0@)
                == lowercased(processes@[at].0@) && (#[trigger] r@[x])@
                == "process outside allowlist: "@ + processes@[j].0@ + " (pid "@ + decimal(
                processes@[j].1 as nat,
            ) + ")"@,
{
    let s = processes_of(processes@);
    let blocked = texts(blocklist@);
    let allowed = texts(allowlist@);
    any_pattern_may_match(s[at].0, blocked);
    any_pattern_may_match(s[at].0, allowed);
    assert forall|k: int| 0 <= k < blocked.len() implies !glob_matches(
        lowercased(#[trigger] blocked[k]),
        lowercased(s[at].0),
    ) by {
        assert(blocked[k] == blocklist@[k]@);
    }
    assert forall|k: int| 0 <= k < allowed.len() implies !glob_matches(
        lowercased(#[trigger] allowed[k]),
        lowercased(s[at].0),
    ) by {
        assert(allowed[k] == allowlist@[k]@);
    }
    every_unlisted_name_is_reported(s, blocked, allowed, at);
    let d = unlisted_details(s, blocked, allowed, s.len() as int);
    let j = choose|j: int|
        0 <= j <= at && lowercased((#[trigger] s[j]).0) == lowercased(s[at].0) && d.contains(
            unlisted_text(s[j]),
        );
    let x = d.index_of(unlisted_text(s[j]));
    assert(r@[x]@ == d[x]);
    assert(s[j] == (processes@[j].0@, processes@[j].1));
}

/// Whatever `unlisted_processes` gives, each text tells of a running process whose name
/// no pattern of either list matches.
pub proof fn only_unlisted_processes_are_told(
    processes: &Vec<(String, u32)>,
    blocklist: &Vec<String>,
    allowlist: &Vec<String>,
    r: Vec<String>,
    x: int,
)
    requires
        call_ensures(unlisted_processes, (processes, blocklist, allowlist), r),
        0 <= x < r@.len(),
    ensures
        exists|i: int|
            0 <= i < processes@.len() && r@[x]@ == "process outside allowlist: "@ + (
            #[trigger] processes@[i]).0@ + " (pid "@ + decimal(processes@[i].1 as nat) + ")"@
                && (forall|k: int|
                0 <= k < blocklist@.len() ==> !glob_matches(
                    lowercased((#[trigger] blocklist@[k])@),
                    lowercased(processes@[i].0@),
                )) && (forall|k: int|
                0 <= k < allowlist@.len() ==> !glob_matches(
                    lowercased((#[trigger] allowlist@[k])@),
                    lowercased(processes@[i].0@),
                )),
{
    let s = processes_of(processes@);
    let blocked = texts(blocklist@);
    let allowed = texts(allowlist@);
    let d = unlisted_details(s, blocked, allowed, s.len() as int);
    only_unlisted_names_are_reported(s, blocked, allowed, s.len() as int, x);
    let i = choose|i: int|
        0 <= i < s.len() && is_unlisted(#[trigger] s[i], blocked, allowed) && d[x]
            == unlisted_text(s[i]);
    any_pattern_may_match(s[i].0, blocked);
    any_pattern_may_match(s[i].0, allowed);
    assert forall|k: int| 0 <= k < blocklist@.len() implies !glob_matches(
        lowercased((#[trigger] blocklist@[k])@),
        lowercased(s[i].0),
    ) by {
        assert(blocked[k] == blocklist@[k]@);
    }
    assert forall|k: int| 0 <= k < allowlist@.len() implies !glob_matches(
        lowercased((#[trigger] allowlist@[k])@),
        lowercased(s[i].0),
    ) by {
        assert(allowed[k] == allowlist@[k]@);
    }
    assert(s[i] == (processes@[i].0@, processes@[i].1));
    assert(r@[x]@ == d[x]);
}

/// A name is reported once: a process whose name one before it has, case aside, adds no
/// report of either kind.
pub proof fn a_name_is_reported_once(
    s: Seq<Process>,
    p: Process,
    blocklist: Seq<Seq<char>>,
    allowlist: Seq<Seq<char>>,
    j: int,
)
    requires
        0 <= j < s.len(),
        lowercased(s[j].0) == lowercased(p.0),
    ensures
        blocked_details(s.push(p), blocklist, (s.len() + 1) as int) == blocked_details(
            s,
            blocklist,
            s.len() as int,
        ),
        unlisted_details(s.push(p), blocklist, allowlist, (s.len() + 1) as int) == unlisted_details(
            s,
            blocklist,
            allowlist,
            s.len() as int,
        ),
{
    blocked_processes_add_up(s, p, blocklist);
    unlisted_processes_add_up(s, p, blocklist, allowlist);
}

/// A process is listed exactly if something is left of its name without the white space
/// around it; that is then its name.
pub proof fn blank_names_are_not_listed(raw: Seq<Process>, p: Process)
    ensures
        listed_processes(raw.push(p)) == if trimmed(p.0).len() > 0 {
            listed_processes(raw).push((trimmed(p.0), p.1))
        } else {
            listed_processes(raw)
        },
        listed_processes(Seq::empty()).len() == 0,
{
    assert(raw.push(p).drop_last() =~= raw);
}

/// Whatever `collect_processes` gives, every process whose name is not blank is in it,
/// under its trimmed name and with its id, in the order of names and then ids, and
/// nothing else is.
pub proof fn every_process_is_listed(
    raw: &Vec<(String, u32)>,
    r: Vec<(String, u32)>,
    name: Seq<char>,
    pid: u32,
)
    requires
        call_ensures(collect_processes, (raw,), r),
    ensures
        (exists|x: int| 0 <= x < r@.len() && (#[trigger] r@[x]).0@ == name && r@[x].1 == pid) == (
        name.len() > 0 && exists|i: int|
            0 <= i < raw@.len() && trimmed((#[trigger] raw@[i]).0@) == name && raw@[i].1 == pid),
        forall|x: int, y: int|
            0 <= x < y < r@.len() ==> {
                ||| text_before((#[trigger] r@[x]).0@, (#[trigger] r@[y]).0@)
                ||| r@[x].0@ == r@[y].0@ && r@[x].1 <= r@[y].1
            },
{
    broadcast use vstd::seq_lib::group_to_multiset_ensures;

    let s = processes_of(raw@);
    let t = process_list(s);
    let p = (name, pid);
    process_list_is_sorted(s);
    listed_comes_from_raw(s, p);
    let u = listed_processes(s);
    assert(t.contains(p) == u.contains(p)) by {
        assert(t.contains(p) == (t.to_multiset().count(p) > 0));
        assert(u.contains(p) == (u.to_multiset().count(p) > 0));
    }
    assert forall|x: int| 0 <= x < r@.len() implies #[trigger] t[x] == (r@[x].0@, r@[x].1) by {}
    if t.contains(p) {
        let x = t.index_of(p);
        assert(r@[x].0@ == name && r@[x].1 == pid);
    }
    if exists|x: int| 0 <= x < r@.len() && (#[trigger] r@[x]).0@ == name && r@[x].1 == pid {
        let x = choose|x: int| 0 <= x < r@.len() && (#[trigger] r@[x]).0@ == name && r@[x].1 == pid;
        assert(t[x] == p);
    }
    if exists|i: int| 0 <= i < s.len() && trimmed((#[trigger] s[i]).0) == name && s[i].1 == pid {
        let i = choose|i: int| 0 <= i < s.len() && trimmed((#[trigger] s[i]).0) == name && s[i].1 == pid;
        assert(trimmed(raw@[i].0@) == name);
    }
    if exists|i: int|
        0 <= i < raw@.len() && trimmed((#[trigger] raw@[i]).0@) == name && raw@[i].1 == pid {
        let i = choose|i: int|
            0 <= i < raw@.len() && trimmed((#[trigger] raw@[i]).0@) == name && raw@[i].1 == pid;
        assert(s[i] == (raw@[i].0@, raw@[i].1));
    }
    assert forall|x: int, y: int| 0 <= x < y < r@.len() implies {
        ||| text_before((#[trigger] r@[x]).0@, (#[trigger] r@[y]).0@)
        ||| r@[x].0@ == r@[y].0@ && r@[x].1 <= r@[y].1
    } by {
        assert(!process_before(t[y], t[x]));
        text_before_total(r@[x].0@, r@[y].0@);
    }
}

proof fn listed_comes_from_raw(s: Seq<Process>, p: Process)
    ensures
        listed_processes(s).contains(p) == (p.0.len() > 0 && exists|i: int|
            0 <= i < s.len() && trimmed((#[trigger] s[i]).0) == p.0 && s[i].1 == p.1),
    decreases s.len(),
{
    if s.len() > 0 {
        let rest = s.drop_last();
        let last = s.last();
        listed_comes_from_raw(rest, p);
        let before = listed_processes(rest);
        let all = listed_processes(s);
        if before.contains(p) {
            assert(all[before.index_of(p)] == p);
        }
        if trimmed(last.0).len() > 0 {
            assert(all[before.len() as int] == (trimmed(last.0), last.1));
        }
        if all.contains(p) {
            let k = all.index_of(p);
            if k < before.len() {
                assert(before[k] == p);
            } else {
                assert(s[s.len() - 1] == last);
            }
        }
        if exists|i: int| 0 <= i < rest.len() && trimmed((#[trigger] rest[i]).0) == p.0 && rest[i].1 == p.1 {
            let i = choose|i: int|
                0 <= i < rest.len() && trimmed((#[trigger] rest[i]).0) == p.0 && rest[i].1 == p.1;
            assert(s[i] == rest[i]);
        }
        if p.0.len() > 0 && exists|i: int| 0 <= i < s.len() && trimmed((#[trigger] s[i]).0) == p.0 && s[i].1 == p.1 {
            let i = choose|i: int|
                0 <= i < s.len() && trimmed((#[trigger] s[i]).0) == p.0 && s[i].1 == p.1;
            if i < rest.len() {
                assert(rest[i] == s[i]);
            } else {
                assert(all[before.len() as int] == p);
            }
        }
    }
}

/// The list of processes holds a process exactly if one came with that name, white space
/// around it aside, and that id, and the name is not blank.
pub proof fn process_list_holds(raw: Seq<Process>, p: Process)
    ensures
        process_list(raw).contains(p) == (p.0.len() > 0 && exists|i: int|
            0 <= i < raw.len() && trimmed((#[trigger] raw[i]).0) == p.0 && raw[i].1 == p.1),
{
    broadcast use vstd::seq_lib::group_to_multiset_ensures;

    let t = process_list(raw);
    let u = listed_processes(raw);
    process_list_is_sorted(raw);
    listed_comes_from_raw(raw, p);
    assert(t.contains(p) == (t.to_multiset().count(p) > 0));
    assert(u.contains(p) == (u.to_multiset().count(p) > 0));
}

} // verus!
