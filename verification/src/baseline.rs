//! The file-integrity baseline: taking one, storing it, and checking the current
//! files against it.

use crate::clock::{now_rfc3339, utc_seconds};
use crate::codec::{field, int_field, is_record, read_field, read_int, read_text, record_of,
    text_field, texts_json, texts_tree, Misfit};
use crate::config::{misfit_text, outcome};
use crate::failure::{file_read, Failure, Fault};
use crate::hashing::{content_hash, hex_digits, sha256_digest, sha256_hex};
use crate::json::{distinct_keys, lookup_distinct, members_of, pretty_text, read_tree,
    render_pretty, Json, JsonObject, JsonTree};
use crate::paths::{join_path, joined, Dir, DirModel};
use crate::stored::{find_field, levels, list_members, listed, member_reads_back, members_read_back,
    pairs_of, raw_fault, raw_field, raw_members, read_shallow, read_stored, repeats_one_of,
    shallow_tree, stored_parsed, written_as, Levels, RECORD_DEPTH};
use crate::text::{concat3, copy_texts, same_text, text_before, text_before_irreflexive, texts};
use crate::textmap::{ascending, has_key, in_order, in_order_answers, in_order_inserts, lookup, lookup_at,
    same_lookups_same_entries, TextMap};
use crate::walk::push_some;
use vstd::prelude::*;
use vstd::string::*;

verus! {

/// What the baseline holds of a file.
#[derive(Debug, Clone)]
pub struct BaselineEntry {
    /// sha256 hex digest of the file content
    pub hash: String,
    /// modification time in milliseconds since the Unix epoch
    pub mtime_ms: i64,
}

/// The hashes of the watched files at one time, by the keys of the files.
#[derive(Debug, Clone)]
pub struct Baseline {
    pub version: u32,
    pub generated_at: String,
    pub entries: TextMap<BaselineEntry>,
}

/// How the current files differ from a baseline.
#[derive(Debug, Clone)]
pub struct CheckReport {
    /// "clean" | "changed" | "missing"
    pub status: String,
    pub added: Vec<String>,
    pub removed: Vec<String>,
    pub modified: Vec<String>,
    pub warnings: Vec<String>,
}

pub struct EntryModel {
    pub hash: Seq<char>,
    pub mtime_ms: i64,
}

/// Hashed files by their keys, in the order of the keys.
pub type Entries = Seq<(Seq<char>, EntryModel)>;

pub struct BaselineModel {
    pub version: u32,
    pub generated_at: Seq<char>,
    pub entries: Entries,
}

pub struct ReportModel {
    pub status: Seq<char>,
    pub added: Seq<Seq<char>>,
    pub removed: Seq<Seq<char>>,
    pub modified: Seq<Seq<char>>,
    pub warnings: Seq<Seq<char>>,
}

impl View for BaselineEntry {
    type V = EntryModel;

    open spec fn view(&self) -> EntryModel {
        EntryModel { hash: self.hash@, mtime_ms: self.mtime_ms }
    }
}

/// What stored entries say.
pub open spec fn entries_of(s: Seq<(Seq<char>, BaselineEntry)>) -> Entries {
    s.map_values(|e: (Seq<char>, BaselineEntry)| (e.0, e.1@))
}

impl View for Baseline {
    type V = BaselineModel;

    open spec fn view(&self) -> BaselineModel {
        BaselineModel {
            version: self.version,
            generated_at: self.generated_at@,
            entries: entries_of(self.entries@),
        }
    }
}

impl View for CheckReport {
    type V = ReportModel;

    open spec fn view(&self) -> ReportModel {
        ReportModel {
            status: self.status@,
            added: texts(self.added@),
            removed: texts(self.removed@),
            modified: texts(self.modified@),
            warnings: texts(self.warnings@),
        }
    }
}

/// Entries answer alike whether taken as stored or as what they say.
proof fn entries_answer(s: Seq<(Seq<char>, BaselineEntry)>, key: Seq<char>)
    requires
        ascending(s),
    ensures
        ascending(entries_of(s)),
        has_key(entries_of(s), key) == has_key(s, key),
        lookup(s, key) matches Some(e) ==> lookup(entries_of(s), key) == Some(e@),
{
    let t = entries_of(s);
    assert forall|i: int, j: int| 0 <= i < j < t.len() implies text_before(
        #[trigger] t[i].0,
        #[trigger] t[j].0,
    ) by {
        assert(text_before(s[i].0, s[j].0));
    }
    if has_key(s, key) {
        let i = choose|i: int| 0 <= i < s.len() && #[trigger] s[i].0 == key;
        assert(t[i].0 == key);
        lookup_at(s, i);
        lookup_at(t, i);
    } else if has_key(t, key) {
        let i = choose|i: int| 0 <= i < t.len() && #[trigger] t[i].0 == key;
        assert(s[i].0 == key);
    }
}

pub fn baseline_path(data_dir: &Dir) -> (r: String)
    ensures
        r@ == joined(data_dir@, "baseline.json"@),
{
    join_path(data_dir, "baseline.json")
}

// ---------------------------------------------------------------------------
// Snapshots
// ---------------------------------------------------------------------------

/// The current files, hashed as they are read, with the warnings of the walk and
/// those of the files that could not be read.
pub struct Snapshot {
    pub files: TextMap<BaselineEntry>,
    pub walk_warnings: Vec<String>,
    pub read_warnings: Vec<String>,
}

/// The warning for a file that cannot be read.
pub open spec fn unreadable_warning(rel: Seq<char>, error: Seq<char>) -> Seq<char> {
    "skipping unreadable file "@ + rel + ": "@ + error
}

/// What came of reading a file: its content, or why there is none.
pub struct FileRead {
    pub key: Seq<char>,
    pub mtime_ms: i64,
    pub content: Result<Seq<u8>, Seq<char>>,
}

pub open spec fn read_of(key: Seq<char>, mtime_ms: i64, read: Result<Vec<u8>, String>) -> FileRead {
    FileRead {
        key,
        mtime_ms,
        content: match read {
            Ok(bytes) => Ok(bytes@),
            Err(e) => Err(e@),
        },
    }
}

/// Hashed files, and the warnings for those that could not be read.
pub struct Recorded {
    pub files: Entries,
    pub warnings: Seq<Seq<char>>,
}

/// Entries with one put in the place of its key.
pub open spec fn placed(s: Entries, key: Seq<char>, e: EntryModel) -> Entries {
    if has_key(s, key) {
        s.map_values(
            |x: (Seq<char>, EntryModel)|
                if x.0 == key {
                    (key, e)
                } else {
                    x
                },
        )
    } else {
        in_order(s, key, e)
    }
}

/// What is recorded after one more file was read.
pub open spec fn with_read(r: Recorded, read: FileRead) -> Recorded {
    match read.content {
        Ok(bytes) => Recorded {
            files: placed(
                r.files,
                read.key,
                EntryModel { hash: content_hash(bytes), mtime_ms: read.mtime_ms },
            ),
            warnings: r.warnings,
        },
        Err(error) => Recorded {
            files: r.files,
            warnings: r.warnings.push(unreadable_warning(read.key, error)),
        },
    }
}

/// What is recorded after files were read one after another.
pub open spec fn recorded(reads: Seq<FileRead>) -> Recorded
    decreases reads.len(),
{
    if reads.len() == 0 {
        Recorded { files: Seq::empty(), warnings: Seq::empty() }
    } else {
        with_read(recorded(reads.drop_last()), reads.last())
    }
}

/// Placing keeps the order and changes what one key answers.
proof fn placed_answers(s: Entries, key: Seq<char>, e: EntryModel)
    requires
        ascending(s),
    ensures
        ascending(placed(s, key, e)),
        lookup(placed(s, key, e), key) == Some(e),
        forall|k: Seq<char>| k != key ==> #[trigger] lookup(placed(s, key, e), k) == lookup(s, k),
{
    if !has_key(s, key) {
        in_order_answers(s, key, e);
    } else {
        let t = placed(s, key, e);
        assert forall|i: int, j: int| 0 <= i < j < t.len() implies text_before(
            #[trigger] t[i].0,
            #[trigger] t[j].0,
        ) by {
            assert(text_before(s[i].0, s[j].0));
        }
        let at = choose|i: int| 0 <= i < s.len() && #[trigger] s[i].0 == key;
        assert(t[at].0 == key);
        lookup_at(t, at);
        assert forall|k: Seq<char>| k != key implies #[trigger] lookup(t, k) == lookup(s, k) by {
            if has_key(s, k) {
                let i = choose|i: int| 0 <= i < s.len() && #[trigger] s[i].0 == k;
                assert(t[i] == s[i]);
                lookup_at(s, i);
                lookup_at(t, i);
            } else if has_key(t, k) {
                let i = choose|i: int| 0 <= i < t.len() && #[trigger] t[i].0 == k;
                assert(s[i].0 == k);
            }
        }
    }
}

impl Snapshot {
    /// What is recorded of the files that were read.
    pub open spec fn recorded_files(&self) -> Recorded {
        Recorded { files: entries_of(self.files@), warnings: texts(self.read_warnings@) }
    }

    /// A snapshot without files, with the warnings of the walk.
    pub fn new(walk_warnings: Vec<String>) -> (r: Self)
        ensures
            r.recorded_files() == recorded(Seq::empty()),
            r.walk_warnings == walk_warnings,
    {
        let r = Snapshot { files: TextMap::new(), walk_warnings, read_warnings: Vec::new() };
        assert(entries_of(r.files@) =~= Seq::<(Seq<char>, EntryModel)>::empty());
        assert(texts(r.read_warnings@) =~= Seq::<Seq<char>>::empty());
        r
    }

    /// All warnings: those of the walk, then those of the reading.
    pub open spec fn all_warnings(&self) -> Seq<Seq<char>> {
        texts(self.walk_warnings@) + texts(self.read_warnings@)
    }

    pub fn warnings(&self) -> (r: Vec<String>)
        ensures
            texts(r@) == self.all_warnings(),
    {
        let mut out = copy_texts(&self.walk_warnings);
        let mut rest = copy_texts(&self.read_warnings);
        out.append(&mut rest);
        assert(texts(out@) =~= self.all_warnings());
        out
    }

    /// Records what came of reading a file: its hash, or a warning.
    pub fn record(self, rel: &str, mtime_ms: i64, read: Result<Vec<u8>, String>) -> (r: Self)
        ensures
            r.recorded_files() == with_read(self.recorded_files(), read_of(rel@, mtime_ms, read)),
            r.walk_warnings == self.walk_warnings,
            ascending(r.files@),
    {
        // Taking the length states that the keys are in order.
        let _len: usize = self.files.len();
        let ghost before = self.recorded_files();
        let ghost m = read_of(rel@, mtime_ms, read);
        match read {
            Ok(bytes) => {
                let entry = BaselineEntry { hash: sha256_hex(bytes.as_slice()), mtime_ms };
                let ghost e = entry@;
                let files = self.files.with(rel.to_string(), entry);
                proof {
                    entries_answer(files@, rel@);
                    entries_answer(self.files@, rel@);
                    assert forall|k: Seq<char>| k != rel@ implies #[trigger] lookup(
                        entries_of(files@),
                        k,
                    ) == lookup(before.files, k) by {
                        entries_answer(files@, k);
                        entries_answer(self.files@, k);
                        assert(lookup(files@, k) == lookup(self.files@, k));
                    }
                    placed_answers(before.files, rel@, e);
                    assert forall|k: Seq<char>| #[trigger] lookup(entries_of(files@), k) == lookup(
                        placed(before.files, rel@, e),
                        k,
                    ) by {}
                    same_lookups_same_entries(entries_of(files@), placed(before.files, rel@, e));
                }
                Snapshot {
                    files,
                    walk_warnings: self.walk_warnings,
                    read_warnings: self.read_warnings,
                }
            },
            Err(e) => {
                let mut line = concat3("skipping unreadable file ", rel, ": ");
                line.append(e.as_str());
                let mut read_warnings = self.read_warnings;
                let ghost told = read_warnings@;
                read_warnings.push(line);
                assert(texts(read_warnings@) =~= texts(told).push(line@));
                Snapshot { files: self.files, walk_warnings: self.walk_warnings, read_warnings }
            },
        }
    }
}

/// A baseline of the hashed files, made at the given time.
pub fn baseline_at(generated_at: String, snapshot: Snapshot) -> (r: (Baseline, Vec<String>))
    ensures
        r.0@ == (BaselineModel {
            version: 1,
            generated_at: generated_at@,
            entries: entries_of(snapshot.files@),
        }),
        texts(r.1@) == snapshot.all_warnings(),
{
    let warnings = snapshot.warnings();
    (Baseline { version: 1, generated_at, entries: snapshot.files }, warnings)
}

/// A baseline of the hashed files, made now. Returns the baseline plus the
/// warnings of the snapshot.
pub fn update(snapshot: Snapshot) -> (r: (Baseline, Vec<String>))
    ensures
        r.0@.version == 1,
        utc_seconds(r.0@.generated_at),
        r.0@.entries == entries_of(snapshot.files@),
        texts(r.1@) == snapshot.all_warnings(),
{
    baseline_at(now_rfc3339(), snapshot)
}

// ---------------------------------------------------------------------------
// Checking
// ---------------------------------------------------------------------------

/// The keys of the entries that pass a test, in order.
pub open spec fn select<V>(
    s: Seq<(Seq<char>, V)>,
    keep: spec_fn((Seq<char>, V)) -> bool,
) -> Seq<Seq<char>>
    decreases s.len(),
{
    if s.len() == 0 {
        Seq::empty()
    } else {
        push_some(
            select(s.drop_last(), keep),
            if keep(s.last()) {
                Some(s.last().0)
            } else {
                None
            },
        )
    }
}

/// The hash of the file under a key.
pub open spec fn hash_at(s: Entries, key: Seq<char>) -> Option<Seq<char>> {
    match lookup(s, key) {
        Some(e) => Some(e.hash),
        None => None,
    }
}

/// The keys of the current files that the baseline does not hold.
pub open spec fn added_keys(current: Entries, base: Entries) -> Seq<Seq<char>> {
    select(current, |e: (Seq<char>, EntryModel)| !has_key(base, e.0))
}

/// The keys of the current files whose hash is not the one in the baseline.
pub open spec fn modified_keys(current: Entries, base: Entries) -> Seq<Seq<char>> {
    select(
        current,
        |e: (Seq<char>, EntryModel)| has_key(base, e.0) && hash_at(base, e.0) != Some(e.1.hash),
    )
}

/// The keys of the baseline that no current file has.
pub open spec fn removed_keys(current: Entries, base: Entries) -> Seq<Seq<char>> {
    select(base, |e: (Seq<char>, EntryModel)| !has_key(current, e.0))
}

/// What a check of the current files against a baseline reports.
pub open spec fn check_report(
    current: Entries,
    base: Entries,
    warnings: Seq<Seq<char>>,
) -> ReportModel {
    let added = added_keys(current, base);
    let removed = removed_keys(current, base);
    let modified = modified_keys(current, base);
    ReportModel {
        status: if added.len() == 0 && removed.len() == 0 && modified.len() == 0 {
            "clean"@
        } else {
            "changed"@
        },
        added,
        removed,
        modified,
        warnings,
    }
}

/// Compare the current files against a baseline. Only the hashes count (mtime is
/// stored for information only, never trusted).
pub fn check(snapshot: &Snapshot, baseline: &Baseline) -> (r: CheckReport)
    ensures
        r@ == check_report(
            entries_of(snapshot.files@),
            baseline@.entries,
            snapshot.all_warnings(),
        ),
{
    let n: usize = snapshot.files.len();
    let m: usize = baseline.entries.len();
    let ghost current = entries_of(snapshot.files@);
    let ghost base = baseline@.entries;
    let mut added: Vec<String> = Vec::new();
    let mut modified: Vec<String> = Vec::new();
    let mut i: usize = 0;
    assert(current.take(0) =~= Seq::<(Seq<char>, EntryModel)>::empty());
    assert(texts(added@) =~= Seq::<Seq<char>>::empty());
    assert(texts(modified@) =~= Seq::<Seq<char>>::empty());
    while i < n
        invariant
            i <= n == snapshot.files@.len(),
            current == entries_of(snapshot.files@),
            base == entries_of(baseline.entries@),
            ascending(baseline.entries@),
            texts(added@) == added_keys(current.take(i as int), base),
            texts(modified@) == modified_keys(current.take(i as int), base),
        decreases n - i,
    {
        let (rel, entry) = snapshot.files.entry(i);
        let ghost was_added = added@;
        let ghost was_modified = modified@;
        proof {
            assert(current.take(i + 1).drop_last() =~= current.take(i as int));
            assert(current.take(i + 1).last() == current[i as int]);
            assert(current[i as int] == (rel@, entry@));
            entries_answer(baseline.entries@, rel@);
        }
        match baseline.entries.get(rel.as_str()) {
            None => {
                added.push(rel.clone());
                assert(texts(added@) =~= texts(was_added).push(rel@));
            },
            Some(old) => {
                if !same_text(old.hash.as_str(), entry.hash.as_str()) {
                    modified.push(rel.clone());
                    assert(texts(modified@) =~= texts(was_modified).push(rel@));
                }
            },
        }
        i = i + 1;
    }
    let mut removed: Vec<String> = Vec::new();
    let mut j: usize = 0;
    assert(base.take(0) =~= Seq::<(Seq<char>, EntryModel)>::empty());
    assert(texts(removed@) =~= Seq::<Seq<char>>::empty());
    while j < m
        invariant
            j <= m == baseline.entries@.len(),
            current == entries_of(snapshot.files@),
            base == entries_of(baseline.entries@),
            ascending(snapshot.files@),
            texts(removed@) == removed_keys(current, base.take(j as int)),
        decreases m - j,
    {
        let (rel, _entry) = baseline.entries.entry(j);
        let ghost was = removed@;
        proof {
            assert(base.take(j + 1).drop_last() =~= base.take(j as int));
            assert(base.take(j + 1).last() == base[j as int]);
            assert(base[j as int].0 == rel@);
            entries_answer(snapshot.files@, rel@);
        }
        if !snapshot.files.contains_key(rel.as_str()) {
            removed.push(rel.clone());
            assert(texts(removed@) =~= texts(was).push(rel@));
        }
        j = j + 1;
    }
    assert(current.take(n as int) =~= current);
    assert(base.take(m as int) =~= base);
    let status = if added.len() == 0 && removed.len() == 0 && modified.len() == 0 {
        "clean".to_string()
    } else {
        "changed".to_string()
    };
    CheckReport {
        status,
        added,
        removed,
        modified,
        warnings: snapshot.warnings(),
    }
}

/// The report where there is no baseline.
pub open spec fn missing_report() -> ReportModel {
    ReportModel {
        status: "missing"@,
        added: Seq::empty(),
        removed: Seq::empty(),
        modified: Seq::empty(),
        warnings: Seq::empty(),
    }
}

impl CheckReport {
    pub fn missing() -> (r: Self)
        ensures
            r@ == missing_report(),
    {
        let r = CheckReport {
            status: "missing".to_string(),
            added: Vec::new(),
            removed: Vec::new(),
            modified: Vec::new(),
            warnings: Vec::new(),
        };
        assert(r@.added =~= Seq::<Seq<char>>::empty());
        assert(r@.removed =~= Seq::<Seq<char>>::empty());
        assert(r@.modified =~= Seq::<Seq<char>>::empty());
        assert(r@.warnings =~= Seq::<Seq<char>>::empty());
        r
    }
}

// ---------------------------------------------------------------------------
// Storing
// ---------------------------------------------------------------------------

pub open spec fn entry_tree(e: EntryModel) -> JsonTree {
    JsonTree::Object(
        seq![("hash"@, JsonTree::Text(e.hash)), ("mtime_ms"@, JsonTree::Int(e.mtime_ms as int))],
    )
}

pub open spec fn entries_tree(s: Entries) -> JsonTree {
    JsonTree::Object(s.map_values(|e: (Seq<char>, EntryModel)| (e.0, entry_tree(e.1))))
}

/// A baseline as a document.
pub open spec fn baseline_tree(b: BaselineModel) -> JsonTree {
    JsonTree::Object(
        seq![
            ("version"@, JsonTree::Int(b.version as int)),
            ("generated_at"@, JsonTree::Text(b.generated_at)),
            ("entries"@, entries_tree(b.entries)),
        ],
    )
}

proof fn names_differ()
    ensures
        "hash"@ != "mtime_ms"@,
        "version"@ != "generated_at"@,
        "version"@ != "entries"@,
        "generated_at"@ != "entries"@,
        "status"@ != "added"@,
        "status"@ != "removed"@,
        "status"@ != "modified"@,
        "status"@ != "warnings"@,
        "added"@ != "removed"@,
        "added"@ != "modified"@,
        "added"@ != "warnings"@,
        "removed"@ != "modified"@,
        "removed"@ != "warnings"@,
        "modified"@ != "warnings"@,
{
    reveal_strlit("hash");
    reveal_strlit("mtime_ms");
    reveal_strlit("version");
    reveal_strlit("generated_at");
    reveal_strlit("entries");
    reveal_strlit("status");
    reveal_strlit("added");
    reveal_strlit("removed");
    reveal_strlit("modified");
    reveal_strlit("warnings");
    assert("hash"@[0] != "mtime_ms"@[0]);
    assert("version"@[0] != "generated_at"@[0]);
    assert("version"@[0] != "entries"@[0]);
    assert("generated_at"@[0] != "entries"@[0]);
    assert("status"@[0] != "added"@[0]);
    assert("status"@[0] != "removed"@[0]);
    assert("status"@[0] != "modified"@[0]);
    assert("status"@[0] != "warnings"@[0]);
    assert("added"@[0] != "removed"@[0]);
    assert("added"@[0] != "modified"@[0]);
    assert("added"@[0] != "warnings"@[0]);
    assert("removed"@[0] != "modified"@[0]);
    assert("removed"@[0] != "warnings"@[0]);
    assert("modified"@[0] != "warnings"@[0]);
}

fn entry_json(e: &BaselineEntry) -> (r: Json)
    ensures
        r@ == entry_tree(e@),
{
    proof {
        names_differ();
    }
    let o = JsonObject::new().with("hash".to_string(), Json::Text(e.hash.clone()));
    assert(o@ =~= seq![("hash"@, JsonTree::Text(e.hash@))]);
    let o = o.with("mtime_ms".to_string(), Json::Int(e.mtime_ms));
    assert(o@ =~= entry_tree(e@)->Object_0);
    Json::Object(o)
}

fn entries_json(entries: &TextMap<BaselineEntry>) -> (r: Json)
    ensures
        r@ == entries_tree(entries_of(entries@)),
{
    let n: usize = entries.len();
    let ghost all = entries_tree(entries_of(entries@))->Object_0;
    let mut out: Vec<(String, Json)> = Vec::new();
    let mut i: usize = 0;
    while i < n
        invariant
            i <= n == entries@.len(),
            all == entries_tree(entries_of(entries@))->Object_0,
            out@.len() == i,
            forall|k: int| 0 <= k < i ==> members_of(out@)[k] == #[trigger] all[k],
        decreases n - i,
    {
        let (rel, entry) = entries.entry(i);
        let ghost was = out@;
        out.push((rel.clone(), entry_json(entry)));
        assert forall|k: int| 0 <= k < i + 1 implies members_of(out@)[k] == #[trigger] all[k] by {
            if k < i {
                assert(members_of(was)[k] == all[k]);
            }
        }
        i = i + 1;
    }
    assert(members_of(out@) =~= all);
    assert forall|x: int, y: int| 0 <= x < y < all.len() implies #[trigger] all[x].0
        != #[trigger] all[y].0 by {
        assert(text_before(entries@[x].0, entries@[y].0));
        text_before_irreflexive(all[x].0);
    }
    Json::Object(JsonObject::of(out))
}

/// Reads an entry of a baseline.
pub open spec fn entry_in(t: JsonTree) -> Option<EntryModel> {
    if !record_of(t, 2) {
        None
    } else {
        match (text_field(t, "hash"@, 0), int_field(t, "mtime_ms"@, 1)) {
            (Some(hash), Some(ms)) => if i64::MIN <= ms <= i64::MAX {
                Some(EntryModel { hash, mtime_ms: ms as i64 })
            } else {
                None
            },
            _ => None,
        }
    }
}

/// Reads the entries of a baseline, into the order of their keys.
pub open spec fn entries_in(s: Seq<(Seq<char>, JsonTree)>) -> Option<Entries>
    decreases s.len(),
{
    if s.len() == 0 {
        Some(Seq::empty())
    } else {
        match (entries_in(s.drop_last()), entry_in(s.last().1)) {
            (Some(before), Some(e)) => Some(in_order(before, s.last().0, e)),
            _ => None,
        }
    }
}

/// Reads a baseline. All its fields must be there.
pub open spec fn baseline_in(t: JsonTree) -> Result<BaselineModel, Seq<char>> {
    if !record_of(t, 3) {
        Err("baseline"@)
    } else {
        match int_field(t, "version"@, 0) {
            Some(version) => if !(0 <= version <= u32::MAX) {
                Err("version"@)
            } else {
                match text_field(t, "generated_at"@, 1) {
                    None => Err("generated_at"@),
                    Some(generated_at) => match field(t, "entries"@, 2) {
                        Some(JsonTree::Object(s)) => match entries_in(s) {
                            None => Err("entries"@),
                            Some(entries) => Ok(
                                BaselineModel { version: version as u32, generated_at, entries },
                            ),
                        },
                        _ => Err("entries"@),
                    },
                }
            },
            None => Err("version"@),
        }
    }
}

fn read_entry(j: &Json) -> (r: Option<BaselineEntry>)
    ensures
        r is Some == entry_in(j@) is Some,
        r matches Some(e) ==> entry_in(j@) == Some(e@),
{
    if !is_record(j, 2) {
        return None;
    }
    match (read_text(j, "hash", 0), read_int(j, "mtime_ms", 1)) {
        (Some(hash), Some(ms)) => if ms <= 9223372036854775807 {
            Some(BaselineEntry { hash, mtime_ms: ms as i64 })
        } else {
            None
        },
        _ => None,
    }
}

/// Putting an entry in order is the same on stored entries and on what they say.
proof fn in_order_entries(s: Seq<(Seq<char>, BaselineEntry)>, key: Seq<char>, e: BaselineEntry)
    ensures
        entries_of(in_order(s, key, e)) == in_order(entries_of(s), key, e@),
    decreases s.len(),
{
    if s.len() == 0 || text_before(s.last().0, key) {
        assert(entries_of(s.push((key, e))) =~= entries_of(s).push((key, e@)));
    } else {
        in_order_entries(s.drop_last(), key, e);
        assert(entries_of(s).drop_last() =~= entries_of(s.drop_last()));
        assert(entries_of(in_order(s.drop_last(), key, e).push(s.last())) =~= entries_of(
            in_order(s.drop_last(), key, e),
        ).push((s.last().0, s.last().1@)));
    }
}

fn read_entries(o: &JsonObject) -> (r: Option<TextMap<BaselineEntry>>)
    ensures
        r is Some == entries_in(o@) is Some,
        r matches Some(m) ==> entries_in(o@) == Some(entries_of(m@)),
{
    let n: usize = o.len();
    let ghost all = o@;
    let mut out: TextMap<BaselineEntry> = TextMap::new();
    let mut i: usize = 0;
    assert(all.take(0) =~= Seq::<(Seq<char>, JsonTree)>::empty());
    assert(entries_of(out@) =~= Seq::<(Seq<char>, EntryModel)>::empty());
    while i < n
        invariant
            i <= n == o@.len(),
            all == o@,
            distinct_keys(all),
            entries_in(all.take(i as int)) == Some(entries_of(out@)),
            forall|k: Seq<char>| #[trigger]
                has_key(out@, k) ==> exists|x: int| 0 <= x < i && (#[trigger] all[x]).0 == k,
        decreases n - i,
    {
        let (rel, value) = o.entry(i);
        let ghost was = out@;
        proof {
            assert(all.take(i + 1).drop_last() =~= all.take(i as int));
            assert(all.take(i + 1).last() == all[i as int]);
            if has_key(out@, rel@) {
                let x = choose|x: int| 0 <= x < i && (#[trigger] all[x]).0 == rel@;
                assert(all[x].0 != all[i as int].0);
            }
        }
        match read_entry(value) {
            Some(entry) => {
                let ghost e0 = entry;
                out = out.with(rel.clone(), entry);
                proof {
                    in_order_entries(was, rel@, e0);
                    assert forall|k: Seq<char>| #[trigger] has_key(out@, k) implies exists|x: int|
                        0 <= x < i + 1 && (#[trigger] all[x]).0 == k by {
                        if k == rel@ {
                            assert(all[i as int].0 == k);
                        } else {
                            assert(lookup(out@, k) == lookup(was, k));
                            assert(has_key(was, k));
                            let x = choose|x: int| 0 <= x < i && (#[trigger] all[x]).0 == k;
                            assert(all[x].0 == k);
                        }
                    }
                }
            },
            None => {
                proof {
                    entries_in_prefix(all, i + 1);
                }
                return None;
            },
        }
        i = i + 1;
    }
    assert(all.take(n as int) =~= all);
    Some(out)
}

/// Entries of which a part cannot be read cannot be read.
proof fn entries_in_prefix(s: Seq<(Seq<char>, JsonTree)>, n: int)
    requires
        0 <= n <= s.len(),
        entries_in(s.take(n)) is None,
    ensures
        entries_in(s) is None,
    decreases s.len() - n,
{
    if n < s.len() {
        assert(s.take(n + 1).drop_last() =~= s.take(n));
        entries_in_prefix(s, n + 1);
    } else {
        assert(s.take(n) =~= s);
    }
}

impl Baseline {
    /// The baseline as a document.
    pub fn to_json(&self) -> (r: Json)
        ensures
            r@ == baseline_tree(self@),
    {
        proof {
            names_differ();
        }
        let o = JsonObject::new().with("version".to_string(), Json::Uint(self.version as u64));
        assert(o@ =~= seq![("version"@, JsonTree::Int(self.version as int))]);
        let o = o.with("generated_at".to_string(), Json::Text(self.generated_at.clone()));
        assert(o@ =~= seq![
            ("version"@, JsonTree::Int(self.version as int)),
            ("generated_at"@, JsonTree::Text(self.generated_at@)),
        ]);
        let o = o.with("entries".to_string(), entries_json(&self.entries));
        assert(o@ =~= baseline_tree(self@)->Object_0);
        Json::Object(o)
    }

    /// Reads a baseline from a document.
    pub fn from_json(j: &Json) -> (r: Result<Baseline, Misfit>)
        ensures
            outcome(r) == baseline_in(j@),
    {
        if !is_record(j, 3) {
            return Err(Misfit::new("baseline"));
        }
        let version: u32 = match read_int(j, "version", 0) {
            Some(n) => if 0 <= n && n <= 4294967295 {
                n as u32
            } else {
                return Err(Misfit::new("version"));
            },
            None => return Err(Misfit::new("version")),
        };
        let generated_at = match read_text(j, "generated_at", 1) {
            Some(s) => s,
            None => return Err(Misfit::new("generated_at")),
        };
        match read_field(j, "entries", 2) {
            Some(Json::Object(o)) => match read_entries(o) {
                Some(entries) => Ok(Baseline { version, generated_at, entries }),
                None => Err(Misfit::new("entries")),
            },
            Some(Json::Real(x)) => {
                x.is_number();
                Err(Misfit::new("entries"))
            },
            _ => Err(Misfit::new("entries")),
        }
    }
}

/// What a stored baseline says, given what came of reading it as JSON.
pub open spec fn stored_baseline(parsed: Result<JsonTree, Seq<char>>) -> Result<
    BaselineModel,
    Seq<char>,
> {
    match parsed {
        Err(e) => Err(e),
        Ok(t) => match baseline_in(t) {
            Ok(b) => Ok(b),
            Err(at) => Err(misfit_text(at)),
        },
    }
}

/// The names that the records of a baseline file hold once, by level.
pub open spec fn baseline_levels() -> Levels {
    seq![
        seq![],
        seq!["hash"@, "mtime_ms"@],
        seq![],
        seq!["version"@, "generated_at"@, "entries"@],
    ]
}

fn baseline_names() -> (r: Vec<Vec<String>>)
    ensures
        r@.len() == RECORD_DEPTH,
        levels(r@) == baseline_levels(),
{
    let none: Vec<String> = Vec::new();
    let entry: Vec<String> = vec!["hash".to_string(), "mtime_ms".to_string()];
    let root: Vec<String> = vec![
        "version".to_string(),
        "generated_at".to_string(),
        "entries".to_string(),
    ];
    let r = vec![Vec::new(), entry, none, root];
    assert(texts(r@[0]@) =~= baseline_levels()[0]);
    assert(texts(r@[1]@) =~= baseline_levels()[1]);
    assert(texts(r@[2]@) =~= baseline_levels()[2]);
    assert(texts(r@[3]@) =~= baseline_levels()[3]);
    assert(levels(r@) =~= baseline_levels());
    r
}

/// Whether every entry that stands in the text of `entries` reads as one, those
/// that a later entry of the same file overrides among them.
pub open spec fn entries_sound(entries: Seq<char>) -> bool {
    forall|i: int|
        0 <= i < listed(entries).len() ==> entry_in(
            shallow_tree((#[trigger] listed(entries)[i]).1, 2, baseline_levels()),
        ) is Some
}

/// What a baseline file says.
pub open spec fn baseline_text(text: Seq<char>) -> Result<BaselineModel, Seq<char>> {
    match (
        stored_baseline(stored_parsed(text, baseline_levels())),
        raw_field(text, "entries"@, 2),
    ) {
        (Ok(b), Some(entries)) => if entries_sound(entries) {
            Ok(b)
        } else {
            Err(misfit_text("entries"@))
        },
        (r, _) => r,
    }
}

/// What came of reading the baseline file: nothing where there is none.
pub open spec fn baseline_file(
    data_dir: DirModel,
    file: Result<Option<Seq<char>>, Seq<char>>,
) -> Result<Option<BaselineModel>, Fault> {
    let path = joined(data_dir, "baseline.json"@);
    match file {
        Ok(None) => Ok(None),
        Ok(Some(text)) => match baseline_text(text) {
            Ok(b) => Ok(Some(b)),
            Err(cause) => Err(Fault { context: "failed to parse baseline "@ + path, cause }),
        },
        Err(cause) => Err(Fault { context: "failed to read baseline "@ + path, cause }),
    }
}

/// What came of loading a baseline.
pub open spec fn loaded(r: Result<Option<Baseline>, Failure>) -> Result<
    Option<BaselineModel>,
    Fault,
> {
    match r {
        Ok(Some(b)) => Ok(Some(b@)),
        Ok(None) => Ok(None),
        Err(e) => Err(e@),
    }
}

/// What came of reading a stored baseline.
pub open spec fn baseline_read(r: Result<Baseline, String>) -> Result<BaselineModel, Seq<char>> {
    match r {
        Ok(b) => Ok(b@),
        Err(e) => Err(e@),
    }
}

/// Reads a baseline, given what came of reading its text as JSON.
pub fn read_baseline(parsed: Result<Json, String>) -> (r: Result<Baseline, String>)
    ensures
        baseline_read(r) == stored_baseline(read_tree(parsed)),
{
    match parsed {
        Err(e) => Err(e),
        Ok(j) => match Baseline::from_json(&j) {
            Ok(b) => Ok(b),
            Err(e) => Err(e.message()),
        },
    }
}

/// Whether every entry that stands in the text of `entries` reads as one.
fn check_entries(entries: &str) -> (r: bool)
    ensures
        r == entries_sound(entries@),
{
    let names = baseline_names();
    let members = list_members(entries);
    let mut i: usize = 0;
    while i < members.len()
        invariant
            i <= members@.len(),
            names@.len() == RECORD_DEPTH,
            levels(names@) == baseline_levels(),
            pairs_of(members@) == listed(entries@),
            forall|k: int|
                0 <= k < i ==> entry_in(
                    shallow_tree((#[trigger] listed(entries@)[k]).1, 2, baseline_levels()),
                ) is Some,
        decreases members@.len() - i,
    {
        assert(listed(entries@)[i as int].1 == members@[i as int].1@);
        if read_entry(&read_shallow(members[i].1.as_str(), 2, &names)).is_none() {
            return false;
        }
        i = i + 1;
    }
    true
}

/// Reads the text of a baseline file.
fn read_file(text: &str) -> (r: Result<Baseline, String>)
    ensures
        baseline_read(r) == baseline_text(text@),
{
    let b = match read_baseline(read_stored(text, &baseline_names())) {
        Ok(b) => b,
        Err(e) => return Err(e),
    };
    match find_field(text, "entries", 2) {
        Some(entries) => if check_entries(entries.as_str()) {
            Ok(b)
        } else {
            Err(Misfit::new("entries").message())
        },
        None => Ok(b),
    }
}

/// Loads the baseline of a data directory, given what came of reading its file:
/// its text, or `None` where it is not there.
pub fn load(data_dir: &Dir, file: Result<Option<String>, String>) -> (r: Result<
    Option<Baseline>,
    Failure,
>)
    ensures
        loaded(r) == baseline_file(data_dir@, file_read(file)),
{
    let path = baseline_path(data_dir);
    match file {
        Ok(None) => Ok(None),
        Ok(Some(text)) => match read_file(text.as_str()) {
            Ok(b) => Ok(Some(b)),
            Err(e) => Err(Failure::on("failed to parse baseline ", path.as_str(), e)),
        },
        Err(e) => Err(Failure::on("failed to read baseline ", path.as_str(), e)),
    }
}

impl Baseline {
    /// The text of the baseline file. Loading the text gives the baseline back.
    pub fn to_text(&self) -> (r: String)
        ensures
            r@ == pretty_text(baseline_tree(self@)),
            baseline_text(r@) == Ok::<BaselineModel, Seq<char>>(self@),
    {
        // Taking the length states that the keys are in order.
        let _len: usize = self.entries.len();
        let text = render_pretty(&self.to_json());
        proof {
            entries_answer(self.entries@, Seq::empty());
            baseline_text_reads_back(text@, self@);
        }
        text
    }
}

pub open spec fn report_tree(r: ReportModel) -> JsonTree {
    JsonTree::Object(
        seq![
            ("status"@, JsonTree::Text(r.status)),
            ("added"@, texts_tree(r.added)),
            ("removed"@, texts_tree(r.removed)),
            ("modified"@, texts_tree(r.modified)),
            ("warnings"@, texts_tree(r.warnings)),
        ],
    )
}

impl CheckReport {
    /// The report as a document.
    pub fn to_json(&self) -> (r: Json)
        ensures
            r@ == report_tree(self@),
    {
        proof {
            names_differ();
        }
        let o = JsonObject::new().with("status".to_string(), Json::Text(self.status.clone()));
        assert(o@ =~= report_tree(self@)->Object_0.take(1));
        let o = o.with("added".to_string(), texts_json(&self.added));
        assert(o@ =~= report_tree(self@)->Object_0.take(2));
        let o = o.with("removed".to_string(), texts_json(&self.removed));
        assert(o@ =~= report_tree(self@)->Object_0.take(3));
        let o = o.with("modified".to_string(), texts_json(&self.modified));
        assert(o@ =~= report_tree(self@)->Object_0.take(4));
        let o = o.with("warnings".to_string(), texts_json(&self.warnings));
        assert(o@ =~= report_tree(self@)->Object_0);
        Json::Object(o)
    }
}

// ---------------------------------------------------------------------------
// Laws
// ---------------------------------------------------------------------------

/// What is recorded stands in the order of its keys.
pub proof fn recorded_files_ascend(reads: Seq<FileRead>)
    ensures
        ascending(recorded(reads).files),
    decreases reads.len(),
{
    if reads.len() > 0 {
        recorded_files_ascend(reads.drop_last());
        if let Ok(bytes) = reads.last().content {
            placed_answers(
                recorded(reads.drop_last()).files,
                reads.last().key,
                EntryModel { hash: content_hash(bytes), mtime_ms: reads.last().mtime_ms },
            );
        }
    }
}

/// Every file that could be read is recorded with the hash of its content, unless
/// one that was read later has its key.
pub proof fn every_file_read_is_recorded(reads: Seq<FileRead>, at: int)
    requires
        0 <= at < reads.len(),
        reads[at].content is Ok,
        forall|j: int| at < j < reads.len() ==> (#[trigger] reads[j]).key != reads[at].key,
    ensures
        lookup(recorded(reads).files, reads[at].key) == Some(
            EntryModel {
                hash: content_hash(reads[at].content->Ok_0),
                mtime_ms: reads[at].mtime_ms,
            },
        ),
    decreases reads.len(),
{
    let rest = reads.drop_last();
    recorded_files_ascend(rest);
    let last = reads.last();
    if let Ok(bytes) = last.content {
        placed_answers(
            recorded(rest).files,
            last.key,
            EntryModel { hash: content_hash(bytes), mtime_ms: last.mtime_ms },
        );
    }
    if at < rest.len() {
        assert(reads[reads.len() - 1].key != reads[at].key);
        assert(rest[at] == reads[at]);
        assert forall|j: int| at < j < rest.len() implies (#[trigger] rest[j]).key
            != rest[at].key by {
            assert(reads[j].key != reads[at].key);
        }
        every_file_read_is_recorded(rest, at);
    }
}

/// Nothing is recorded but files that could be read, and every file that could not
/// be read is warned of.
pub proof fn only_files_read_are_recorded(reads: Seq<FileRead>, key: Seq<char>, at: int)
    requires
        0 <= at < reads.len(),
    ensures
        has_key(recorded(reads).files, key) ==> exists|i: int|
            0 <= i < reads.len() && (#[trigger] reads[i]).key == key && reads[i].content is Ok,
        reads[at].content matches Err(error) ==> recorded(reads).warnings.contains(
            unreadable_warning(reads[at].key, error),
        ),
    decreases reads.len(),
{
    let rest = reads.drop_last();
    let last = reads.last();
    let before = recorded(rest);
    recorded_files_ascend(rest);
    if let Ok(bytes) = last.content {
        let e = EntryModel { hash: content_hash(bytes), mtime_ms: last.mtime_ms };
        placed_answers(before.files, last.key, e);
        if key != last.key {
            assert(lookup(placed(before.files, last.key, e), key) == lookup(before.files, key));
        } else {
            assert(reads[reads.len() - 1].key == key);
        }
    }
    if rest.len() > 0 {
        let i = if at < rest.len() {
            at
        } else {
            0
        };
        only_files_read_are_recorded(rest, key, i);
        if has_key(before.files, key) {
            let j = choose|j: int|
                0 <= j < rest.len() && (#[trigger] rest[j]).key == key && rest[j].content is Ok;
            assert(reads[j] == rest[j]);
        }
    }
    if let Err(error) = reads[at].content {
        let line = unreadable_warning(reads[at].key, error);
        let all = recorded(reads).warnings;
        if at < rest.len() {
            assert(rest[at] == reads[at]);
            assert(all[before.warnings.index_of(line)] == line);
        } else {
            assert(all[before.warnings.len() as int] == line);
        }
    }
}

/// A written entry reads back.
proof fn entry_reads_back(e: EntryModel)
    ensures
        entry_in(entry_tree(e)) == Some(e),
{
    names_differ();
    let f = entry_tree(e)->Object_0;
    assert(f[0].0 == "hash"@ && f[1].0 == "mtime_ms"@);
    lookup_distinct(f, 0);
    lookup_distinct(f, 1);
}

/// Members that read as entries, one for one and in order, read as the entries.
proof fn entries_read_back(m: Seq<(Seq<char>, JsonTree)>, s: Entries)
    requires
        ascending(s),
        m.len() == s.len(),
        forall|i: int|
            0 <= i < s.len() ==> (#[trigger] m[i]).0 == s[i].0 && entry_in(m[i].1) == Some(
                s[i].1,
            ),
    ensures
        entries_in(m) == Some(s),
    decreases s.len(),
{
    if s.len() == 0 {
        assert(s =~= Seq::<(Seq<char>, EntryModel)>::empty());
    } else {
        let rest = s.drop_last();
        let front = m.drop_last();
        assert forall|i: int, j: int| 0 <= i < j < rest.len() implies text_before(
            #[trigger] rest[i].0,
            #[trigger] rest[j].0,
        ) by {
            assert(text_before(s[i].0, s[j].0));
        }
        assert forall|i: int| 0 <= i < rest.len() implies (#[trigger] front[i]).0 == rest[i].0
            && entry_in(front[i].1) == Some(rest[i].1) by {
            assert(m[i].0 == s[i].0);
        }
        entries_read_back(front, rest);
        assert(m[s.len() - 1].0 == s[s.len() - 1].0);
        if rest.len() > 0 {
            assert(text_before(s[s.len() - 2].0, s[s.len() - 1].0));
        }
        assert(in_order(rest, s.last().0, s.last().1) =~= s);
    }
}

/// A baseline survives being made a document and read from it.
pub proof fn baseline_reads_back(b: BaselineModel)
    requires
        ascending(b.entries),
    ensures
        baseline_in(baseline_tree(b)) == Ok::<BaselineModel, Seq<char>>(b),
{
    names_differ();
    let s = baseline_tree(b)->Object_0;
    assert(s[0].0 == "version"@ && s[1].0 == "generated_at"@ && s[2].0 == "entries"@);
    lookup_distinct(s, 0);
    lookup_distinct(s, 1);
    lookup_distinct(s, 2);
    let m = entries_tree(b.entries)->Object_0;
    assert forall|i: int| 0 <= i < b.entries.len() implies (#[trigger] m[i]).0 == b.entries[i].0
        && entry_in(m[i].1) == Some(b.entries[i].1) by {
        entry_reads_back(b.entries[i].1);
    }
    entries_read_back(m, b.entries);
}

/// The text of an entry reads as the entry.
proof fn entry_text_reads_back(text: Seq<char>, e: EntryModel)
    requires
        written_as(text, entry_tree(e)),
    ensures
        entry_in(shallow_tree(text, 2, baseline_levels())) == Some(e),
{
    let f = entry_tree(e)->Object_0;
    names_differ();
    assert(f[0].0 == "hash"@ && f[1].0 == "mtime_ms"@);
    member_reads_back(text, f, 0, 2, baseline_levels());
    member_reads_back(text, f, 1, 2, baseline_levels());
    let hash = lookup(raw_members(text)->Some_0, f[0].0)->Some_0;
    let ms = lookup(raw_members(text)->Some_0, f[1].0)->Some_0;
    assert(shallow_tree(hash, 1, baseline_levels()) == JsonTree::Text(e.hash));
    assert(shallow_tree(ms, 1, baseline_levels()) == JsonTree::Int(e.mtime_ms as int));
}

/// A baseline survives being written and loaded: a text that reads as its document
/// reads as the baseline, whatever the keys of its files are.
pub proof fn baseline_text_reads_back(text: Seq<char>, b: BaselineModel)
    requires
        ascending(b.entries),
        raw_fault(text) is None,
        written_as(text, baseline_tree(b)),
    ensures
        baseline_text(text) == Ok::<BaselineModel, Seq<char>>(b),
{
    let s = baseline_tree(b)->Object_0;
    names_differ();
    assert(s[0].0 == "version"@ && s[1].0 == "generated_at"@ && s[2].0 == "entries"@);
    member_reads_back(text, s, 0, 4, baseline_levels());
    member_reads_back(text, s, 1, 4, baseline_levels());
    member_reads_back(text, s, 2, 4, baseline_levels());
    let r = raw_members(text)->Some_0;
    let version = lookup(r, s[0].0)->Some_0;
    let generated_at = lookup(r, s[1].0)->Some_0;
    let entries = lookup(r, s[2].0)->Some_0;
    assert(shallow_tree(version, 3, baseline_levels()) == JsonTree::Int(b.version as int));
    assert(shallow_tree(generated_at, 3, baseline_levels()) == JsonTree::Text(b.generated_at));
    let m = entries_tree(b.entries)->Object_0;
    assert forall|i: int, j: int| 0 <= i < j < m.len() implies text_before(
        #[trigger] m[i].0,
        #[trigger] m[j].0,
    ) by {
        assert(text_before(b.entries[i].0, b.entries[j].0));
    }
    members_read_back(entries, m, 3, baseline_levels());
    let read = shallow_tree(entries, 3, baseline_levels())->Object_0;
    let raw = raw_members(entries)->Some_0;
    assert forall|i: int| 0 <= i < b.entries.len() implies (#[trigger] read[i]).0
        == b.entries[i].0 && entry_in(read[i].1) == Some(b.entries[i].1) by {
        assert(m[i] == (b.entries[i].0, entry_tree(b.entries[i].1)));
        entry_text_reads_back(raw[i].1, b.entries[i].1);
    }
    entries_read_back(read, b.entries);
    assert forall|i: int| 0 <= i < listed(entries).len() implies entry_in(
        shallow_tree((#[trigger] listed(entries)[i]).1, 2, baseline_levels()),
    ) is Some by {
        assert(m[i] == (b.entries[i].0, entry_tree(b.entries[i].1)));
        entry_text_reads_back(listed(entries)[i].1, b.entries[i].1);
    }
}

/// A baseline file that holds a field of the baseline more than once is refused, as
/// is an entry that holds one of its own more than once.
pub proof fn repeated_fields_are_refused(text: Seq<char>)
    requires
        raw_members(text) is Some,
    ensures
        repeats_one_of(text, seq!["version"@, "generated_at"@, "entries"@]) ==> baseline_text(
            text,
        ) is Err,
        repeats_one_of(text, seq!["hash"@, "mtime_ms"@]) ==> entry_in(
            shallow_tree(text, 2, baseline_levels()),
        ) is None,
{
}

/// A baseline file is read only if every entry in it is one.
pub proof fn unsound_entries_are_refused(text: Seq<char>, i: int)
    requires
        raw_field(text, "entries"@, 2) matches Some(entries) && 0 <= i < listed(entries).len()
            && entry_in(shallow_tree(listed(entries)[i].1, 2, baseline_levels())) is None,
    ensures
        baseline_text(text) is Err,
{
    let entries = raw_field(text, "entries"@, 2)->Some_0;
    let e = listed(entries)[i];
}

/// What `select` keeps.
proof fn select_keeps<V>(
    s: Seq<(Seq<char>, V)>,
    keep: spec_fn((Seq<char>, V)) -> bool,
    key: Seq<char>,
)
    ensures
        select(s, keep).contains(key) == (exists|i: int|
            0 <= i < s.len() && (#[trigger] s[i]).0 == key && keep(s[i])),
    decreases s.len(),
{
    if s.len() > 0 {
        let rest = s.drop_last();
        select_keeps(rest, keep, key);
        let all = select(s, keep);
        let before = select(rest, keep);
        if before.contains(key) {
            let i = choose|i: int| 0 <= i < rest.len() && (#[trigger] rest[i]).0 == key && keep(
                rest[i],
            );
            assert(s[i] == rest[i]);
            let k = before.index_of(key);
            assert(all[k] == key);
        }
        if keep(s.last()) && s.last().0 == key {
            assert(all[before.len() as int] == key);
            assert(s[s.len() - 1].0 == key);
        }
        if all.contains(key) {
            let k = all.index_of(key);
            if k < before.len() {
                assert(before[k] == key);
            } else {
                assert(s[s.len() - 1].0 == key && keep(s[s.len() - 1]));
            }
        }
        if exists|i: int| 0 <= i < s.len() && (#[trigger] s[i]).0 == key && keep(s[i]) {
            let i = choose|i: int| 0 <= i < s.len() && (#[trigger] s[i]).0 == key && keep(s[i]);
            if i < rest.len() {
                assert(rest[i].0 == key && keep(rest[i]));
            }
        }
    }
}

/// Every path is reported for exactly what happened to it: added where only the
/// current files have it, removed where only the baseline has it, modified where
/// both have it with different hashes, and not at all otherwise.
pub proof fn every_path_is_reported_once(current: Entries, base: Entries, key: Seq<char>)
    requires
        ascending(current),
        ascending(base),
    ensures
        added_keys(current, base).contains(key) == (has_key(current, key) && !has_key(base, key)),
        removed_keys(current, base).contains(key) == (has_key(base, key) && !has_key(current, key)),
        modified_keys(current, base).contains(key) == (has_key(current, key) && has_key(base, key)
            && hash_at(current, key) != hash_at(base, key)),
{
    let added = |e: (Seq<char>, EntryModel)| !has_key(base, e.0);
    let modified = |e: (Seq<char>, EntryModel)|
        has_key(base, e.0) && hash_at(base, e.0) != Some(e.1.hash);
    let removed = |e: (Seq<char>, EntryModel)| !has_key(current, e.0);
    select_keeps(current, added, key);
    select_keeps(current, modified, key);
    select_keeps(base, removed, key);
    if has_key(current, key) {
        let i = choose|i: int| 0 <= i < current.len() && #[trigger] current[i].0 == key;
        lookup_at(current, i);
        assert(current[i].0 == key);
        assert forall|j: int| 0 <= j < current.len() && (#[trigger] current[j]).0 == key implies
            hash_at(current, key) == Some(current[j].1.hash) by {
            lookup_at(current, j);
        }
    }
    if has_key(base, key) {
        let i = choose|i: int| 0 <= i < base.len() && #[trigger] base[i].0 == key;
        assert(base[i].0 == key);
    }
}

/// A check is clean exactly when the current files have the paths and the hashes
/// of the baseline.
pub proof fn clean_means_same_hashes(
    current: Entries,
    base: Entries,
    warnings: Seq<Seq<char>>,
)
    requires
        ascending(current),
        ascending(base),
    ensures
        (check_report(current, base, warnings).status == "clean"@) == (forall|key: Seq<char>|
            #[trigger] hash_at(current, key) == hash_at(base, key)),
{
    reveal_strlit("clean");
    reveal_strlit("changed");
    assert("clean"@.len() != "changed"@.len());
    let report = check_report(current, base, warnings);
    if report.status == "clean"@ {
        assert forall|key: Seq<char>| #[trigger] hash_at(current, key) == hash_at(base, key) by {
            every_path_is_reported_once(current, base, key);
            assert(!report.added.contains(key));
            assert(!report.removed.contains(key));
            assert(!report.modified.contains(key));
        }
    } else {
        if report.added.len() > 0 {
            let key = report.added[0];
            every_path_is_reported_once(current, base, key);
            assert(report.added.contains(key));
            assert(hash_at(current, key) != hash_at(base, key));
        } else if report.removed.len() > 0 {
            let key = report.removed[0];
            every_path_is_reported_once(current, base, key);
            assert(report.removed.contains(key));
            assert(hash_at(current, key) != hash_at(base, key));
        } else {
            let key = report.modified[0];
            every_path_is_reported_once(current, base, key);
            assert(report.modified.contains(key));
            assert(hash_at(current, key) != hash_at(base, key));
        }
    }
}

/// Files checked against the baseline taken of them are clean, and nothing is
/// reported of them.
pub proof fn fresh_baseline_is_clean(current: Entries, warnings: Seq<Seq<char>>)
    requires
        ascending(current),
    ensures
        check_report(current, current, warnings) == (ReportModel {
            status: "clean"@,
            added: Seq::empty(),
            removed: Seq::empty(),
            modified: Seq::empty(),
            warnings,
        }),
{
    let report = check_report(current, current, warnings);
    if report.added.len() > 0 {
        every_path_is_reported_once(current, current, report.added[0]);
        assert(report.added.contains(report.added[0]));
    }
    if report.removed.len() > 0 {
        every_path_is_reported_once(current, current, report.removed[0]);
        assert(report.removed.contains(report.removed[0]));
    }
    if report.modified.len() > 0 {
        every_path_is_reported_once(current, current, report.modified[0]);
        assert(report.modified.contains(report.modified[0]));
    }
    assert(report.added =~= Seq::<Seq<char>>::empty());
    assert(report.removed =~= Seq::<Seq<char>>::empty());
    assert(report.modified =~= Seq::<Seq<char>>::empty());
}

/// Whether two lists of entries differ in modification times only.
pub open spec fn same_hashes(a: Entries, b: Entries) -> bool {
    &&& a.len() == b.len()
    &&& forall|i: int| 0 <= i < a.len() ==> (#[trigger] a[i]).0 == b[i].0 && a[i].1.hash == b[i].1.hash
}

proof fn select_same<V>(
    a: Seq<(Seq<char>, V)>,
    b: Seq<(Seq<char>, V)>,
    keep_a: spec_fn((Seq<char>, V)) -> bool,
    keep_b: spec_fn((Seq<char>, V)) -> bool,
)
    requires
        a.len() == b.len(),
        forall|i: int|
            0 <= i < a.len() ==> (#[trigger] a[i]).0 == b[i].0 && keep_a(a[i]) == keep_b(b[i]),
    ensures
        select(a, keep_a) == select(b, keep_b),
    decreases a.len(),
{
    if a.len() > 0 {
        assert forall|i: int| 0 <= i < a.drop_last().len() implies (#[trigger] a.drop_last()[i]).0
            == b.drop_last()[i].0 && keep_a(a.drop_last()[i]) == keep_b(b.drop_last()[i]) by {
            assert(a[i].0 == b[i].0);
        }
        select_same(a.drop_last(), b.drop_last(), keep_a, keep_b);
        assert(a[a.len() - 1].0 == b[b.len() - 1].0);
    }
}

/// Modification times are never trusted: files and baselines that differ in them
/// only give the same report.
pub proof fn mtimes_do_not_matter(
    current: Entries,
    other: Entries,
    base: Entries,
    other_base: Entries,
    warnings: Seq<Seq<char>>,
)
    requires
        ascending(current),
        ascending(other),
        ascending(base),
        ascending(other_base),
        same_hashes(current, other),
        same_hashes(base, other_base),
    ensures
        check_report(current, base, warnings) == check_report(other, other_base, warnings),
{
    assert forall|k: Seq<char>| #[trigger] has_key(base, k) == has_key(other_base, k) && hash_at(
        base,
        k,
    ) == hash_at(other_base, k) by {
        same_hashes_answer(base, other_base, k);
    }
    assert forall|k: Seq<char>| #[trigger] has_key(current, k) == has_key(other, k) by {
        same_hashes_answer(current, other, k);
    }
    select_same(
        current,
        other,
        |e: (Seq<char>, EntryModel)| !has_key(base, e.0),
        |e: (Seq<char>, EntryModel)| !has_key(other_base, e.0),
    );
    select_same(
        current,
        other,
        |e: (Seq<char>, EntryModel)| has_key(base, e.0) && hash_at(base, e.0) != Some(e.1.hash),
        |e: (Seq<char>, EntryModel)|
            has_key(other_base, e.0) && hash_at(other_base, e.0) != Some(e.1.hash),
    );
    select_same(
        base,
        other_base,
        |e: (Seq<char>, EntryModel)| !has_key(current, e.0),
        |e: (Seq<char>, EntryModel)| !has_key(other, e.0),
    );
}

proof fn same_hashes_answer(a: Entries, b: Entries, key: Seq<char>)
    requires
        ascending(a),
        ascending(b),
        same_hashes(a, b),
    ensures
        has_key(a, key) == has_key(b, key),
        hash_at(a, key) == hash_at(b, key),
{
    if has_key(a, key) {
        let i = choose|i: int| 0 <= i < a.len() && #[trigger] a[i].0 == key;
        assert(b[i].0 == key);
        lookup_at(a, i);
        lookup_at(b, i);
    } else if has_key(b, key) {
        let i = choose|i: int| 0 <= i < b.len() && #[trigger] b[i].0 == key;
        assert(a[i].0 == key);
    }
}

/// The keys that pass a test keep the order of the entries.
proof fn select_keeps_order<V>(s: Seq<(Seq<char>, V)>, keep: spec_fn((Seq<char>, V)) -> bool, x: int, y: int)
    requires
        ascending(s),
        0 <= x < y < select(s, keep).len(),
    ensures
        text_before(select(s, keep)[x], select(s, keep)[y]),
    decreases s.len(),
{
    if s.len() > 0 {
        let rest = s.drop_last();
        let before = select(rest, keep);
        assert forall|i: int, j: int| 0 <= i < j < rest.len() implies text_before(
            #[trigger] rest[i].0,
            #[trigger] rest[j].0,
        ) by {
            assert(text_before(s[i].0, s[j].0));
        }
        if y < before.len() {
            select_keeps_order(rest, keep, x, y);
        } else {
            let key = before[x];
            select_keeps(rest, keep, key);
            assert(before.contains(key));
            let i = choose|i: int| 0 <= i < rest.len() && (#[trigger] rest[i]).0 == key && keep(rest[i]);
            assert(text_before(s[i].0, s[s.len() - 1].0));
        }
    }
}

/// Whatever `check` gives, a path is in it for exactly what happened to it: added where
/// only the current files have it, removed where only the baseline has it, modified
/// where both have it and the hashes are not the same text. The status is clean exactly
/// if nothing is in it, and all warnings are kept.
pub proof fn check_tells_every_change(
    snapshot: &Snapshot,
    baseline: &Baseline,
    r: CheckReport,
    key: Seq<char>,
)
    requires
        call_ensures(check, (snapshot, baseline), r),
        ascending(snapshot.files@),
        ascending(baseline.entries@),
    ensures
        ({
            let now = snapshot.files@;
            let old = baseline.entries@;
            let has = exists|i: int| 0 <= i < now.len() && (#[trigger] now[i]).0 == key;
            let had = exists|j: int| 0 <= j < old.len() && (#[trigger] old[j]).0 == key;
            let differs = exists|i: int, j: int|
                0 <= i < now.len() && 0 <= j < old.len() && (#[trigger] now[i]).0 == key && (
                #[trigger] old[j]).0 == key && now[i].1.hash@ != old[j].1.hash@;
            &&& (exists|x: int| 0 <= x < r.added@.len() && (#[trigger] r.added@[x])@ == key) == (has
                && !had)
            &&& (exists|x: int| 0 <= x < r.removed@.len() && (#[trigger] r.removed@[x])@ == key)
                == (had && !has)
            &&& (exists|x: int| 0 <= x < r.modified@.len() && (#[trigger] r.modified@[x])@ == key)
                == differs
        }),
        r.status@ == if r.added@.len() + r.removed@.len() + r.modified@.len() == 0 {
            "clean"@
        } else {
            "changed"@
        },
        texts(r.warnings@) == texts(snapshot.walk_warnings@) + texts(snapshot.read_warnings@),
{
    changes_are_in_the_report(
        snapshot.files@,
        baseline.entries@,
        snapshot.all_warnings(),
        key,
    );
    texts_contain(r.added@, key);
    texts_contain(r.removed@, key);
    texts_contain(r.modified@, key);
    assert(texts(r.added@).len() == r.added@.len());
    assert(texts(r.removed@).len() == r.removed@.len());
    assert(texts(r.modified@).len() == r.modified@.len());
}

/// A list of strings holds a text exactly if one of the strings is the text.
pub proof fn texts_contain(list: Seq<String>, s: Seq<char>)
    ensures
        texts(list).contains(s) == exists|x: int| 0 <= x < list.len() && (#[trigger] list[x])@ == s,
{
    if texts(list).contains(s) {
        assert(list[texts(list).index_of(s)]@ == s);
    }
    if exists|x: int| 0 <= x < list.len() && (#[trigger] list[x])@ == s {
        let x = choose|x: int| 0 <= x < list.len() && (#[trigger] list[x])@ == s;
        assert(texts(list)[x] == s);
    }
}

/// Whatever `check` gives, the paths of each kind come in their order, each once.
pub proof fn check_keeps_the_order(snapshot: &Snapshot, baseline: &Baseline, r: CheckReport)
    requires
        call_ensures(check, (snapshot, baseline), r),
        ascending(snapshot.files@),
        ascending(baseline.entries@),
    ensures
        forall|x: int, y: int|
            0 <= x < y < r.added@.len() ==> text_before(
                (#[trigger] r.added@[x])@,
                (#[trigger] r.added@[y])@,
            ),
        forall|x: int, y: int|
            0 <= x < y < r.removed@.len() ==> text_before(
                (#[trigger] r.removed@[x])@,
                (#[trigger] r.removed@[y])@,
            ),
        forall|x: int, y: int|
            0 <= x < y < r.modified@.len() ==> text_before(
                (#[trigger] r.modified@[x])@,
                (#[trigger] r.modified@[y])@,
            ),
{
    let current = entries_of(snapshot.files@);
    let base = entries_of(baseline.entries@);
    entries_answer(snapshot.files@, Seq::empty());
    entries_answer(baseline.entries@, Seq::empty());
    let added = |e: (Seq<char>, EntryModel)| !has_key(base, e.0);
    let modified = |e: (Seq<char>, EntryModel)|
        has_key(base, e.0) && hash_at(base, e.0) != Some(e.1.hash);
    let removed = |e: (Seq<char>, EntryModel)| !has_key(current, e.0);
    assert(texts(r.added@) == select(current, added));
    assert(texts(r.removed@) == select(base, removed));
    assert(texts(r.modified@) == select(current, modified));
    assert forall|x: int, y: int| 0 <= x < y < r.added@.len() implies text_before(
        (#[trigger] r.added@[x])@,
        (#[trigger] r.added@[y])@,
    ) by {
        select_keeps_order(current, added, x, y);
        assert(texts(r.added@)[x] == r.added@[x]@ && texts(r.added@)[y] == r.added@[y]@);
    }
    assert forall|x: int, y: int| 0 <= x < y < r.removed@.len() implies text_before(
        (#[trigger] r.removed@[x])@,
        (#[trigger] r.removed@[y])@,
    ) by {
        select_keeps_order(base, removed, x, y);
        assert(texts(r.removed@)[x] == r.removed@[x]@ && texts(r.removed@)[y] == r.removed@[y]@);
    }
    assert forall|x: int, y: int| 0 <= x < y < r.modified@.len() implies text_before(
        (#[trigger] r.modified@[x])@,
        (#[trigger] r.modified@[y])@,
    ) by {
        select_keeps_order(current, modified, x, y);
        assert(texts(r.modified@)[x] == r.modified@[x]@ && texts(r.modified@)[y]
            == r.modified@[y]@);
    }
}

/// Whatever recording a file gives, a file that could be read stands under its key with
/// the hash of all its bytes and its time, and all other files stand as they did; of one
/// that could not be read there is one more warning and no file.
pub proof fn a_file_is_recorded(
    before: Snapshot,
    rel: &str,
    mtime_ms: i64,
    read: Result<Vec<u8>, String>,
    r: Snapshot,
    key: Seq<char>,
)
    requires
        call_ensures(Snapshot::record, (before, rel, mtime_ms, read), r),
        ascending(before.files@),
    ensures
        ({
            let now = entries_of(r.files@);
            let then = entries_of(before.files@);
            match read {
                Ok(bytes) => {
                    &&& lookup(now, rel@) matches Some(e) && e.hash == hex_digits(
                        sha256_digest(bytes@),
                    ) && e.mtime_ms == mtime_ms
                    &&& key != rel@ ==> lookup(now, key) == lookup(then, key)
                    &&& texts(r.read_warnings@) == texts(before.read_warnings@)
                },
                Err(error) => {
                    &&& lookup(now, key) == lookup(then, key)
                    &&& texts(r.read_warnings@) == texts(before.read_warnings@).push(
                        "skipping unreadable file "@ + rel@ + ": "@ + error@,
                    )
                },
            }
        }),
        r.walk_warnings == before.walk_warnings,
{
    entries_answer(before.files@, key);
    assert(r.recorded_files() == with_read(
        before.recorded_files(),
        read_of(rel@, mtime_ms, read),
    ));
    if let Ok(bytes) = read {
        placed_answers(
            entries_of(before.files@),
            rel@,
            EntryModel { hash: content_hash(bytes@), mtime_ms },
        );
    }
}

/// Whatever taking a baseline gives, it holds the files of the snapshot as they are.
pub proof fn a_baseline_is_its_snapshot(
    generated_at: String,
    snapshot: Snapshot,
    r: (Baseline, Vec<String>),
)
    requires
        call_ensures(baseline_at, (generated_at, snapshot), r),
    ensures
        r.0.version == 1,
        r.0.generated_at@ == generated_at@,
        entries_of(r.0.entries@) == entries_of(snapshot.files@),
        texts(r.1@) == texts(snapshot.walk_warnings@) + texts(snapshot.read_warnings@),
{
}

/// What a report on stored entries holds, told of the entries as they are stored.
pub proof fn changes_are_in_the_report(
    now: Seq<(Seq<char>, BaselineEntry)>,
    old: Seq<(Seq<char>, BaselineEntry)>,
    warnings: Seq<Seq<char>>,
    key: Seq<char>,
)
    requires
        ascending(now),
        ascending(old),
    ensures
        ({
            let r = check_report(entries_of(now), entries_of(old), warnings);
            let has = exists|i: int| 0 <= i < now.len() && (#[trigger] now[i]).0 == key;
            let had = exists|j: int| 0 <= j < old.len() && (#[trigger] old[j]).0 == key;
            let differs = exists|i: int, j: int|
                0 <= i < now.len() && 0 <= j < old.len() && (#[trigger] now[i]).0 == key && (
                #[trigger] old[j]).0 == key && now[i].1.hash@ != old[j].1.hash@;
            &&& r.added.contains(key) == (has && !had)
            &&& r.removed.contains(key) == (had && !has)
            &&& r.modified.contains(key) == differs
        }),
{
    let current = entries_of(now);
    let base = entries_of(old);
    entries_answer(now, key);
    entries_answer(old, key);
    every_path_is_reported_once(current, base, key);
    assert(has_key(now, key) == exists|i: int| 0 <= i < now.len() && (#[trigger] now[i]).0 == key);
    assert(has_key(old, key) == exists|j: int| 0 <= j < old.len() && (#[trigger] old[j]).0 == key);
    assert forall|i: int, j: int|
        0 <= i < now.len() && 0 <= j < old.len() && (#[trigger] now[i]).0 == key && (
        #[trigger] old[j]).0 == key implies (now[i].1.hash@ != old[j].1.hash@) == (hash_at(
        current,
        key,
    ) != hash_at(base, key)) by {
        lookup_at(now, i);
        lookup_at(old, j);
    }
    if has_key(now, key) && has_key(old, key) {
        let i = choose|i: int| 0 <= i < now.len() && (#[trigger] now[i]).0 == key;
        let j = choose|j: int| 0 <= j < old.len() && (#[trigger] old[j]).0 == key;
        assert(now[i].0 == key && old[j].0 == key);
    }
}

/// A report is clean exactly if the entries have the same paths and the same hashes,
/// one for one.
pub proof fn same_entries_are_clean(
    now: Seq<(Seq<char>, BaselineEntry)>,
    old: Seq<(Seq<char>, BaselineEntry)>,
    warnings: Seq<Seq<char>>,
)
    requires
        ascending(now),
        ascending(old),
    ensures
        (check_report(entries_of(now), entries_of(old), warnings).status == "clean"@) == (now.len()
            == old.len() && forall|i: int|
            0 <= i < now.len() ==> (#[trigger] now[i]).0 == old[i].0 && now[i].1.hash@
                == old[i].1.hash@),
{
    let current = entries_of(now);
    let base = entries_of(old);
    entries_answer(now, Seq::empty());
    entries_answer(old, Seq::empty());
    clean_means_same_hashes(current, base, warnings);
    let same = now.len() == old.len() && forall|i: int|
        0 <= i < now.len() ==> (#[trigger] now[i]).0 == old[i].0 && now[i].1.hash@
            == old[i].1.hash@;
    if same {
        assert(same_hashes(current, base)) by {
            assert forall|i: int| 0 <= i < current.len() implies (#[trigger] current[i]).0
                == base[i].0 && current[i].1.hash == base[i].1.hash by {
                assert(now[i].0 == old[i].0);
            }
        }
        assert forall|key: Seq<char>| #[trigger] hash_at(current, key) == hash_at(base, key) by {
            same_hashes_answer(current, base, key);
        }
    } else if forall|key: Seq<char>| #[trigger] hash_at(current, key) == hash_at(base, key) {
        let a = current.map_values(|e: (Seq<char>, EntryModel)| (e.0, e.1.hash));
        let b = base.map_values(|e: (Seq<char>, EntryModel)| (e.0, e.1.hash));
        hashes_only(current);
        hashes_only(base);
        assert forall|key: Seq<char>| #[trigger] lookup(a, key) == lookup(b, key) by {
            assert(hash_at(current, key) == hash_at(base, key));
            assert(lookup(a, key) == hash_at(current, key));
            assert(lookup(b, key) == hash_at(base, key));
        }
        same_lookups_same_entries(a, b);
        assert(now.len() == a.len() && old.len() == b.len());
        assert forall|i: int| 0 <= i < now.len() implies (#[trigger] now[i]).0 == old[i].0
            && now[i].1.hash@ == old[i].1.hash@ by {
            assert(a[i] == (now[i].0, now[i].1.hash@));
            assert(b[i] == (old[i].0, old[i].1.hash@));
        }
    }
}

proof fn hashes_only(s: Entries)
    requires
        ascending(s),
    ensures
        ({
            let a = s.map_values(|e: (Seq<char>, EntryModel)| (e.0, e.1.hash));
            &&& ascending(a)
            &&& forall|key: Seq<char>| #[trigger] lookup(a, key) == hash_at(s, key)
        }),
{
    let a = s.map_values(|e: (Seq<char>, EntryModel)| (e.0, e.1.hash));
    assert forall|i: int, j: int| 0 <= i < j < a.len() implies text_before(
        #[trigger] a[i].0,
        #[trigger] a[j].0,
    ) by {
        assert(text_before(s[i].0, s[j].0));
    }
    assert forall|key: Seq<char>| #[trigger] lookup(a, key) == hash_at(s, key) by {
        if has_key(s, key) {
            let i = choose|i: int| 0 <= i < s.len() && #[trigger] s[i].0 == key;
            assert(a[i].0 == key);
            lookup_at(s, i);
            lookup_at(a, i);
        } else if has_key(a, key) {
            let i = choose|i: int| 0 <= i < a.len() && #[trigger] a[i].0 == key;
            assert(s[i].0 == key);
        }
    }
}

/// The document of a baseline names its version, its time and its entries, each under its
/// path with its hash and its time; that of a report its status and its lists.
pub proof fn documents_name_their_fields(b: BaselineModel, r: ReportModel, i: int)
    requires
        ascending(b.entries),
        0 <= i < b.entries.len(),
    ensures
        ({
            let t = baseline_tree(b);
            &&& t->Object_0.len() == 3
            &&& lookup(t->Object_0, "version"@) == Some(JsonTree::Int(b.version as int))
            &&& lookup(t->Object_0, "generated_at"@) == Some(JsonTree::Text(b.generated_at))
            &&& lookup(t->Object_0, "entries"@) matches Some(JsonTree::Object(s)) && s.len()
                == b.entries.len() && s[i].0 == b.entries[i].0 && s[i].1 == entry_tree(
                b.entries[i].1,
            )
        }),
        ({
            let t = entry_tree(b.entries[i].1);
            &&& t->Object_0.len() == 2
            &&& lookup(t->Object_0, "hash"@) == Some(JsonTree::Text(b.entries[i].1.hash))
            &&& lookup(t->Object_0, "mtime_ms"@) == Some(
                JsonTree::Int(b.entries[i].1.mtime_ms as int),
            )
        }),
        ({
            let t = report_tree(r);
            &&& t->Object_0.len() == 5
            &&& lookup(t->Object_0, "status"@) == Some(JsonTree::Text(r.status))
            &&& lookup(t->Object_0, "added"@) == Some(texts_tree(r.added))
            &&& lookup(t->Object_0, "removed"@) == Some(texts_tree(r.removed))
            &&& lookup(t->Object_0, "modified"@) == Some(texts_tree(r.modified))
            &&& lookup(t->Object_0, "warnings"@) == Some(texts_tree(r.warnings))
        }),
{
    names_differ();
    let s = baseline_tree(b)->Object_0;
    assert(s[0].0 == "version"@ && s[1].0 == "generated_at"@ && s[2].0 == "entries"@);
    lookup_distinct(s, 0);
    lookup_distinct(s, 1);
    lookup_distinct(s, 2);
    let f = entry_tree(b.entries[i].1)->Object_0;
    assert(f[0].0 == "hash"@ && f[1].0 == "mtime_ms"@);
    lookup_distinct(f, 0);
    lookup_distinct(f, 1);
    let t = report_tree(r)->Object_0;
    assert(t[0].0 == "status"@ && t[1].0 == "added"@ && t[2].0 == "removed"@ && t[3].0
        == "modified"@ && t[4].0 == "warnings"@);
    lookup_distinct(t, 0);
    lookup_distinct(t, 1);
    lookup_distinct(t, 2);
    lookup_distinct(t, 3);
    lookup_distinct(t, 4);
}

/// Whatever text a baseline is stored as, loading it gives the baseline back whole: its
/// version, its time, and every path with its hash and its time.
pub proof fn a_stored_baseline_loads(
    baseline: &Baseline,
    stored: String,
    data_dir: &Dir,
    text: String,
    r: Result<Option<Baseline>, Failure>,
)
    requires
        call_ensures(Baseline::to_text, (baseline,), stored),
        text@ == stored@,
        call_ensures(load, (data_dir, Ok(Some(text))), r),
    ensures
        r matches Ok(Some(b)) && b.version == baseline.version && b.generated_at@
            == baseline.generated_at@ && entries_of(b.entries@) == entries_of(baseline.entries@),
{
    assert(r matches Ok(Some(b)) && b@ == baseline@);
}

/// Whatever `load` gives where nothing was read: nothing where there is no file; an error
/// that names the file where it could not be read or is no JSON.
pub proof fn what_cannot_be_loaded_is_told(
    data_dir: &Dir,
    none: Result<Option<Baseline>, Failure>,
    error: String,
    unread: Result<Option<Baseline>, Failure>,
    text: String,
    r: Result<Option<Baseline>, Failure>,
)
    requires
        call_ensures(load, (data_dir, Ok(None)), none),
        call_ensures(load, (data_dir, Err(error)), unread),
        call_ensures(load, (data_dir, Ok(Some(text))), r),
    ensures
        none matches Ok(None),
        unread matches Err(e) && e.context@ == "failed to read baseline "@ + joined(
            data_dir@,
            "baseline.json"@,
        ) && e.cause@ == error@,
        raw_fault(text@) matches Some(fault) ==> (r matches Err(e) && e.context@
            == "failed to parse baseline "@ + joined(data_dir@, "baseline.json"@) && e.cause@
            == fault),
        !(r matches Ok(None)),
{
}

/// An entry is read from an object exactly if its hash and its time are there, whatever
/// else is there; it is then these.
pub proof fn an_entry_asks_for_its_fields(s: Seq<(Seq<char>, JsonTree)>, e: EntryModel)
    ensures
        (entry_in(JsonTree::Object(s)) == Some(e)) == (lookup(s, "hash"@) == Some(
            JsonTree::Text(e.hash),
        ) && lookup(s, "mtime_ms"@) == Some(JsonTree::Int(e.mtime_ms as int))),
{
}

/// A baseline is read from an object exactly if its version, its time and its entries are
/// there, whatever else is there; it is then these.
pub proof fn a_baseline_asks_for_its_fields(s: Seq<(Seq<char>, JsonTree)>, b: BaselineModel)
    ensures
        (baseline_in(JsonTree::Object(s)) == Ok::<BaselineModel, Seq<char>>(b)) == (lookup(
            s,
            "version"@,
        ) == Some(JsonTree::Int(b.version as int)) && lookup(s, "generated_at"@) == Some(
            JsonTree::Text(b.generated_at),
        ) && (lookup(s, "entries"@) matches Some(JsonTree::Object(m)) && entries_in(m) == Some(
            b.entries,
        ))),
{
}

/// Entries are read one by one: one more is put in the order of the paths, and where it is
/// none, nothing is read.
pub proof fn entries_are_read_one_by_one(
    s: Seq<(Seq<char>, JsonTree)>,
    key: Seq<char>,
    t: JsonTree,
    e: Entries,
)
    requires
        entries_in(s) == Some(e),
        ascending(e),
        !has_key(e, key),
    ensures
        entries_in(Seq::empty()) == Some(Seq::<(Seq<char>, EntryModel)>::empty()),
        entry_in(t) is None ==> entries_in(s.push((key, t))) is None,
        entry_in(t) is Some ==> {
            let after = entries_in(s.push((key, t)));
            &&& after is Some
            &&& ascending(after->Some_0)
            &&& after->Some_0.len() == e.len() + 1
            &&& lookup(after->Some_0, key) == entry_in(t)
            &&& forall|k: Seq<char>|
                k != key ==> #[trigger] lookup(after->Some_0, k) == lookup(e, k)
        },
{
    assert(s.push((key, t)).drop_last() =~= s);
    if let Some(x) = entry_in(t) {
        in_order_answers(e, key, x);
        let at = in_order_inserts(e, key, x);
    }
}

/// What a baseline and a report hold: every path, hash, time and warning.
pub proof fn baselines_and_reports_hold_all(b: Baseline, r: CheckReport, i: int)
    ensures
        b@.version == b.version,
        b@.generated_at == b.generated_at@,
        b@.entries.len() == b.entries@.len(),
        0 <= i < b.entries@.len() ==> b@.entries[i].0 == b.entries@[i].0 && b@.entries[i].1.hash
            == b.entries@[i].1.hash@ && b@.entries[i].1.mtime_ms == b.entries@[i].1.mtime_ms,
        r@.status == r.status@,
        r@.added.len() == r.added@.len(),
        r@.removed.len() == r.removed@.len(),
        r@.modified.len() == r.modified@.len(),
        r@.warnings.len() == r.warnings@.len(),
        0 <= i < r.added@.len() ==> r@.added[i] == r.added@[i]@,
        0 <= i < r.removed@.len() ==> r@.removed[i] == r.removed@[i]@,
        0 <= i < r.modified@.len() ==> r@.modified[i] == r.modified@[i]@,
        0 <= i < r.warnings@.len() ==> r@.warnings[i] == r.warnings@[i]@,
{
}

} // verus!
