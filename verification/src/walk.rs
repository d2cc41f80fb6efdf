//! From what a directory walk came across to the files that are watched.

use crate::matching::{any_match, any_matches, glob_matches, literal_pattern_matches_itself_only};
use crate::paths::path_string;
use crate::text::{concat2, concat3, copy_texts, slashed, slashed_text, texts};
use crate::textmap::{ascending, has_key, lookup, TextMap};
use vstd::prelude::*;
use vstd::string::*;

verus! {

/// A watched file.
#[derive(Debug, Clone)]
pub struct FileEntry {
    /// The absolute path.
    pub abs: String,
    /// The number under which the walk came across the file.
    pub source: usize,
    /// Modification time in milliseconds since the Unix epoch.
    pub mtime_ms: i64,
}

/// What is known of a watched file.
pub struct FileModel {
    pub abs: Seq<char>,
    pub source: usize,
    pub mtime_ms: i64,
}

impl View for FileEntry {
    type V = FileModel;

    open spec fn view(&self) -> FileModel {
        FileModel { abs: self.abs@, source: self.source, mtime_ms: self.mtime_ms }
    }
}

/// The watched files by their keys, with the warnings of the walk.
#[derive(Debug, Clone)]
pub struct WalkResult {
    pub files: TextMap<FileEntry>,
    pub warnings: Vec<String>,
}

/// When a file that a walk came across was modified.
#[derive(Debug, Clone)]
pub enum FileTime {
    /// So many milliseconds after the Unix epoch.
    Millis(u128),
    /// Its metadata hold no such time, for this reason.
    NoMtime(String),
    /// Its metadata cannot be read, for this reason.
    NoStat(String),
}

/// One thing that the walk of a directory came across. `names` are the names on
/// the way from the root of the walk down to it.
#[derive(Debug, Clone)]
pub enum Listed {
    Unreadable { error: String },
    Symlink { names: Vec<String>, path: String },
    Directory,
    File { names: Vec<String>, path: String, source: usize, time: FileTime },
}

/// What stands at a watch path.
#[derive(Debug)]
pub enum RootState {
    Inaccessible { error: String },
    NoStat { error: String },
    File { path: String, source: usize, time: Result<u128, String> },
    Special,
    Directory { path: String, listing: Vec<Listed> },
}

/// A watch path and what stands there.
#[derive(Debug)]
pub struct RootListing {
    pub raw: String,
    pub state: RootState,
}

// ---------------------------------------------------------------------------
// Exclusion
// ---------------------------------------------------------------------------

/// The names that are always skipped.
pub open spec fn default_exclude_names() -> Seq<Seq<char>> {
    seq!["target"@, "node_modules"@, ".git"@]
}

/// Names that are always skipped while walking watch roots.
pub fn default_excludes() -> (r: Vec<String>)
    ensures
        texts(r@) == default_exclude_names(),
{
    let mut out: Vec<String> = Vec::new();
    out.push("target".to_string());
    out.push("node_modules".to_string());
    out.push(".git".to_string());
    assert(texts(out@) =~= default_exclude_names());
    out
}

/// The patterns of the names to skip.
pub open spec fn exclude_patterns(extra: Seq<Seq<char>>) -> Seq<Seq<char>> {
    default_exclude_names() + extra
}

pub fn excludes(extra: &Vec<String>) -> (r: Vec<String>)
    ensures
        texts(r@) == exclude_patterns(texts(extra@)),
{
    let mut out = default_excludes();
    let ghost first = out@;
    let mut more = copy_texts(extra);
    out.append(&mut more);
    assert(texts(out@) =~= texts(first) + texts(extra@));
    out
}

/// Whether a name on the way to an entry is to be skipped.
pub open spec fn excluded(names: Seq<Seq<char>>, patterns: Seq<Seq<char>>) -> bool {
    exists|i: int| 0 <= i < names.len() && any_matches(patterns, #[trigger] names[i])
}

/// Whether an entry found at some depth below a root is followed: the root itself
/// always, anything else unless its name is to be skipped.
pub fn entry_kept(depth: usize, name: &str, patterns: &[String]) -> (r: bool)
    ensures
        r == (depth == 0 || !any_matches(texts(patterns@), name@)),
{
    depth == 0 || !any_match(patterns, name)
}

fn is_excluded(names: &Vec<String>, patterns: &[String]) -> (r: bool)
    ensures
        r == excluded(texts(names@), texts(patterns@)),
{
    let mut i: usize = 0;
    while i < names.len()
        invariant
            i <= names@.len(),
            forall|k: int|
                0 <= k < i ==> !any_matches(texts(patterns@), #[trigger] texts(names@)[k]),
        decreases names@.len() - i,
    {
        assert(texts(names@)[i as int] == names@[i as int]@);
        if any_match(patterns, names[i].as_str()) {
            return true;
        }
        i = i + 1;
    }
    false
}

// ---------------------------------------------------------------------------
// Keys
// ---------------------------------------------------------------------------

/// Names with `/` between them.
pub open spec fn names_joined(names: Seq<Seq<char>>) -> Seq<char>
    decreases names.len(),
{
    if names.len() == 0 {
        Seq::empty()
    } else if names.len() == 1 {
        names[0]
    } else {
        names_joined(names.drop_last()) + "/"@ + names.last()
    }
}

fn join_names(names: &Vec<String>) -> (r: String)
    ensures
        r@ == names_joined(texts(names@)),
{
    let mut out: String = String::new();
    let mut i: usize = 0;
    let ghost all = texts(names@);
    assert(all.take(0) =~= Seq::<Seq<char>>::empty());
    while i < names.len()
        invariant
            i <= names@.len(),
            all == texts(names@),
            out@ == names_joined(all.take(i as int)),
        decreases names@.len() - i,
    {
        let ghost was = out@;
        assert(all.take(i + 1).drop_last() =~= all.take(i as int));
        assert(all.take(i + 1).last() == names@[i as int]@);
        if i > 0 {
            out.append("/");
        }
        out.append(names[i].as_str());
        assert(i == 0 ==> out@ =~= names@[0]@);
        i = i + 1;
    }
    assert(all.take(names@.len() as int) =~= all);
    out
}

/// The key of a file in a directory: its path below the watch root with `/`
/// separators, after the path of the root where there are several roots.
pub open spec fn file_key(root: Seq<char>, names: Seq<Seq<char>>, multi: bool) -> Seq<char> {
    let below = slashed(names_joined(names));
    if multi {
        slashed(root) + "/"@ + below
    } else {
        below
    }
}

fn key_of(root: &str, names: &Vec<String>, multi: bool) -> (r: String)
    ensures
        r@ == file_key(root@, texts(names@), multi),
{
    let below = slashed_text(join_names(names).as_str());
    if multi {
        concat3(path_string(root).as_str(), "/", below.as_str())
    } else {
        below
    }
}

/// Milliseconds as they are stored: at most the greatest `i64`.
pub open spec fn stored_millis(millis: u128) -> i64 {
    if millis <= i64::MAX {
        millis as i64
    } else {
        i64::MAX
    }
}

pub fn mtime_ms(millis: u128) -> (r: i64)
    ensures
        r == stored_millis(millis),
{
    if millis <= 9223372036854775807 {
        millis as i64
    } else {
        i64::MAX
    }
}

// ---------------------------------------------------------------------------
// What a walk finds
// ---------------------------------------------------------------------------

/// Files in the order in which they were found, each with its key.
pub type Found = Seq<(Seq<char>, FileModel)>;

/// The file that an entry of a listing is, if it is to be watched.
pub open spec fn found_entry(
    root: Seq<char>,
    e: Listed,
    patterns: Seq<Seq<char>>,
    multi: bool,
) -> Option<(Seq<char>, FileModel)> {
    match e {
        Listed::File { names, path, source, time: FileTime::Millis(ms) } => if excluded(
            texts(names@),
            patterns,
        ) {
            None
        } else {
            Some(
                (
                    file_key(root, texts(names@), multi),
                    FileModel { abs: path@, source, mtime_ms: stored_millis(ms) },
                ),
            )
        },
        _ => None,
    }
}

/// The warning for an entry of a listing, if there is one.
pub open spec fn entry_warning(
    raw: Seq<char>,
    e: Listed,
    patterns: Seq<Seq<char>>,
) -> Option<Seq<char>> {
    match e {
        Listed::Unreadable { error } => Some(
            "skipped unreadable path under "@ + raw + ": "@ + error@,
        ),
        Listed::Symlink { names, path } => if excluded(texts(names@), patterns) {
            None
        } else {
            Some("skipping symlink "@ + slashed(path@))
        },
        Listed::Directory => None,
        Listed::File { names, path, source, time } => if excluded(texts(names@), patterns) {
            None
        } else {
            match time {
                FileTime::Millis(_) => None,
                FileTime::NoMtime(error) => Some(
                    "cannot read mtime for "@ + slashed(path@) + ": "@ + error@,
                ),
                FileTime::NoStat(error) => Some(
                    "cannot stat "@ + slashed(path@) + ": "@ + error@,
                ),
            }
        },
    }
}

/// A sequence with one more at its end, if there is one.
pub open spec fn push_some<A>(s: Seq<A>, v: Option<A>) -> Seq<A> {
    match v {
        Some(a) => s.push(a),
        None => s,
    }
}

pub open spec fn found_listing(
    root: Seq<char>,
    listing: Seq<Listed>,
    patterns: Seq<Seq<char>>,
    multi: bool,
) -> Found
    decreases listing.len(),
{
    if listing.len() == 0 {
        Seq::empty()
    } else {
        push_some(
            found_listing(root, listing.drop_last(), patterns, multi),
            found_entry(root, listing.last(), patterns, multi),
        )
    }
}

pub open spec fn listing_warnings(
    raw: Seq<char>,
    listing: Seq<Listed>,
    patterns: Seq<Seq<char>>,
) -> Seq<Seq<char>>
    decreases listing.len(),
{
    if listing.len() == 0 {
        Seq::empty()
    } else {
        push_some(
            listing_warnings(raw, listing.drop_last(), patterns),
            entry_warning(raw, listing.last(), patterns),
        )
    }
}

/// The files that a watch path gives: itself where it is a file, the files of its
/// walk where it is a directory.
pub open spec fn found_root(r: RootListing, patterns: Seq<Seq<char>>, multi: bool) -> Found {
    match r.state {
        RootState::File { path, source, time: Ok(ms) } => seq![
            (
                slashed(path@),
                FileModel { abs: path@, source, mtime_ms: stored_millis(ms) },
            ),
        ],
        RootState::Directory { path, listing } => found_listing(path@, listing@, patterns, multi),
        _ => Seq::empty(),
    }
}

pub open spec fn root_warnings(r: RootListing, patterns: Seq<Seq<char>>) -> Seq<Seq<char>> {
    match r.state {
        RootState::Inaccessible { error } => seq![
            "watch path "@ + r.raw@ + " is not accessible: "@ + error@,
        ],
        RootState::NoStat { error } => seq![
            "cannot stat watch path "@ + r.raw@ + ": "@ + error@,
        ],
        RootState::File { path, source, time: Ok(_) } => Seq::empty(),
        RootState::File { path, source, time: Err(error) } => seq![
            "cannot read mtime for "@ + r.raw@ + ": "@ + error@,
        ],
        RootState::Special => seq!["watch path "@ + r.raw@ + " is not a file or directory"@],
        RootState::Directory { path, listing } => listing_warnings(r.raw@, listing@, patterns),
    }
}

pub open spec fn found_roots(
    roots: Seq<RootListing>,
    patterns: Seq<Seq<char>>,
    multi: bool,
) -> Found
    decreases roots.len(),
{
    if roots.len() == 0 {
        Seq::empty()
    } else {
        found_roots(roots.drop_last(), patterns, multi) + found_root(roots.last(), patterns, multi)
    }
}

pub open spec fn roots_warnings(roots: Seq<RootListing>, patterns: Seq<Seq<char>>) -> Seq<
    Seq<char>,
>
    decreases roots.len(),
{
    if roots.len() == 0 {
        Seq::empty()
    } else {
        roots_warnings(roots.drop_last(), patterns) + root_warnings(roots.last(), patterns)
    }
}

/// The first value under a key.
pub open spec fn first_of<V>(s: Seq<(Seq<char>, V)>, key: Seq<char>) -> Option<V>
    decreases s.len(),
{
    if s.len() == 0 {
        None
    } else {
        match first_of(s.drop_last(), key) {
            Some(v) => Some(v),
            None => if s.last().0 == key {
                Some(s.last().1)
            } else {
                None
            },
        }
    }
}

/// What is known of the file under a key.
pub open spec fn file_at(files: Seq<(Seq<char>, FileEntry)>, key: Seq<char>) -> Option<FileModel> {
    match lookup(files, key) {
        Some(e) => Some(e@),
        None => None,
    }
}

/// Whether the files of a walk are those that were found, the first one where a
/// key was found twice.
pub open spec fn holds_found(files: Seq<(Seq<char>, FileEntry)>, found: Found) -> bool {
    forall|key: Seq<char>| #[trigger] file_at(files, key) == first_of(found, key)
}

fn add_file(
    files: TextMap<FileEntry>,
    Ghost(found): Ghost<Found>,
    key: String,
    entry: FileEntry,
) -> (r: TextMap<FileEntry>)
    requires
        holds_found(files@, found),
    ensures
        holds_found(r@, found.push((key@, entry@))),
{
    let ghost old = files@;
    let ghost k0 = key@;
    let ghost e0 = entry@;
    let r = files.with_first(key, entry);
    proof {
        let more = found.push((k0, e0));
        assert(more.drop_last() =~= found);
        assert forall|k: Seq<char>| #[trigger] file_at(r@, k) == first_of(more, k) by {
            assert(file_at(old, k) == first_of(found, k));
            assert(file_at(old, k0) == first_of(found, k0));
        }
    }
    r
}

/// Adds what an entry of a listing gives.
fn visit_entry(
    files: TextMap<FileEntry>,
    warnings: &mut Vec<String>,
    Ghost(found): Ghost<Found>,
    raw: &str,
    root: &str,
    e: &Listed,
    patterns: &Vec<String>,
    multi: bool,
) -> (r: TextMap<FileEntry>)
    requires
        holds_found(files@, found),
    ensures
        holds_found(r@, push_some(found, found_entry(root@, *e, texts(patterns@), multi))),
        texts(final(warnings)@) == push_some(
            texts(old(warnings)@),
            entry_warning(raw@, *e, texts(patterns@)),
        ),
{
    let ghost told = warnings@;
    match e {
        Listed::Unreadable { error } => {
            let mut line = concat3("skipped unreadable path under ", raw, ": ");
            line.append(error.as_str());
            warnings.push(line);
            assert(texts(warnings@) =~= texts(told).push(line@));
            files
        },
        Listed::Symlink { names, path } => {
            if !is_excluded(names, patterns.as_slice()) {
                let line = concat2("skipping symlink ", path_string(path.as_str()).as_str());
                warnings.push(line);
                assert(texts(warnings@) =~= texts(told).push(line@));
            }
            files
        },
        Listed::Directory => files,
        Listed::File { names, path, source, time } => {
            if is_excluded(names, patterns.as_slice()) {
                return files;
            }
            match time {
                FileTime::Millis(ms) => {
                    let key = key_of(root, names, multi);
                    add_file(
                        files,
                        Ghost(found),
                        key,
                        FileEntry {
                            abs: path.clone(),
                            source: *source,
                            mtime_ms: mtime_ms(*ms),
                        },
                    )
                },
                FileTime::NoMtime(error) => {
                    let mut line = concat3(
                        "cannot read mtime for ",
                        path_string(path.as_str()).as_str(),
                        ": ",
                    );
                    line.append(error.as_str());
                    warnings.push(line);
                    assert(texts(warnings@) =~= texts(told).push(line@));
                    files
                },
                FileTime::NoStat(error) => {
                    let mut line = concat3(
                        "cannot stat ",
                        path_string(path.as_str()).as_str(),
                        ": ",
                    );
                    line.append(error.as_str());
                    warnings.push(line);
                    assert(texts(warnings@) =~= texts(told).push(line@));
                    files
                },
            }
        },
    }
}

/// Adds what a watch path gives.
fn visit_root(
    files: TextMap<FileEntry>,
    warnings: &mut Vec<String>,
    Ghost(found): Ghost<Found>,
    root: &RootListing,
    patterns: &Vec<String>,
    multi: bool,
) -> (r: TextMap<FileEntry>)
    requires
        holds_found(files@, found),
    ensures
        holds_found(r@, found + found_root(*root, texts(patterns@), multi)),
        texts(final(warnings)@) == texts(old(warnings)@) + root_warnings(*root, texts(patterns@)),
{
    let ghost told = warnings@;
    let raw = root.raw.as_str();
    match &root.state {
        RootState::Inaccessible { error } => {
            let mut line = concat3("watch path ", raw, " is not accessible: ");
            line.append(error.as_str());
            warnings.push(line);
            assert(texts(warnings@) =~= texts(told) + seq![line@]);
            assert(found + Seq::<(Seq<char>, FileModel)>::empty() =~= found);
            files
        },
        RootState::NoStat { error } => {
            let mut line = concat3("cannot stat watch path ", raw, ": ");
            line.append(error.as_str());
            warnings.push(line);
            assert(texts(warnings@) =~= texts(told) + seq![line@]);
            assert(found + Seq::<(Seq<char>, FileModel)>::empty() =~= found);
            files
        },
        RootState::File { path, source, time } => match time {
            Ok(ms) => {
                let entry = FileEntry {
                    abs: path.clone(),
                    source: *source,
                    mtime_ms: mtime_ms(*ms),
                };
                let key = path_string(path.as_str());
                assert(found.push((key@, entry@)) =~= found + seq![(key@, entry@)]);
                assert(texts(warnings@) + Seq::<Seq<char>>::empty() =~= texts(warnings@));
                add_file(files, Ghost(found), key, entry)
            },
            Err(error) => {
                let mut line = concat3("cannot read mtime for ", raw, ": ");
                line.append(error.as_str());
                warnings.push(line);
                assert(texts(warnings@) =~= texts(told) + seq![line@]);
                assert(found + Seq::<(Seq<char>, FileModel)>::empty() =~= found);
                files
            },
        },
        RootState::Special => {
            let line = concat3("watch path ", raw, " is not a file or directory");
            warnings.push(line);
            assert(texts(warnings@) =~= texts(told) + seq![line@]);
            assert(found + Seq::<(Seq<char>, FileModel)>::empty() =~= found);
            files
        },
        RootState::Directory { path, listing } => {
            let ghost pats = texts(patterns@);
            let ghost mut here: Found = found;
            let mut out = files;
            let mut i: usize = 0;
            assert(listing@.take(0) =~= Seq::<Listed>::empty());
            assert(texts(told) + Seq::<Seq<char>>::empty() =~= texts(told));
            assert(found + Seq::<(Seq<char>, FileModel)>::empty() =~= found);
            while i < listing.len()
                invariant
                    i <= listing@.len(),
                    pats == texts(patterns@),
                    raw@ == root.raw@,
                    here == found + found_listing(path@, listing@.take(i as int), pats, multi),
                    holds_found(out@, here),
                    texts(warnings@) == texts(told) + listing_warnings(
                        raw@,
                        listing@.take(i as int),
                        pats,
                    ),
                decreases listing@.len() - i,
            {
                let ghost before = texts(warnings@);
                out =
                visit_entry(
                    out,
                    warnings,
                    Ghost(here),
                    raw,
                    path.as_str(),
                    &listing[i],
                    patterns,
                    multi,
                );
                proof {
                    let e = listing@[i as int];
                    assert(listing@.take(i + 1).drop_last() =~= listing@.take(i as int));
                    assert(listing@.take(i + 1).last() == e);
                    let f = found_entry(path@, e, pats, multi);
                    assert(push_some(here, f) =~= found + found_listing(
                        path@,
                        listing@.take(i + 1),
                        pats,
                        multi,
                    ));
                    assert(push_some(before, entry_warning(raw@, e, pats)) =~= texts(told)
                        + listing_warnings(raw@, listing@.take(i + 1), pats));
                    here = push_some(here, f);
                }
                i = i + 1;
            }
            assert(listing@.take(listing@.len() as int) =~= listing@);
            out
        },
    }
}

/// Collect the regular files under the watch roots, given what stands at them.
///
/// - Keys are the path relative to the watch root with `/` separators. With
///   more than one root the (normalized) root path prefixes the key to avoid
///   collisions.
/// - `target/`, `node_modules/` and `.git/` are always skipped; extra excludes
///   come from `[watch].exclude` (glob, matched against file/dir names).
/// - Symlinks and unreadable paths are skipped and recorded as warnings.
pub fn collect_files(roots: &Vec<RootListing>, extra_excludes: &Vec<String>) -> (r: WalkResult)
    ensures
        ({
            let patterns = exclude_patterns(texts(extra_excludes@));
            &&& holds_found(r.files@, found_roots(roots@, patterns, roots@.len() > 1))
            &&& texts(r.warnings@) == roots_warnings(roots@, patterns)
        }),
        ascending(r.files@),
{
    let patterns = excludes(extra_excludes);
    let multi: bool = roots.len() > 1;
    let mut files: TextMap<FileEntry> = TextMap::new();
    let mut warnings: Vec<String> = Vec::new();
    let mut i: usize = 0;
    let ghost pats = texts(patterns@);
    assert(roots@.take(0) =~= Seq::<RootListing>::empty());
    assert(texts(warnings@) =~= Seq::<Seq<char>>::empty());
    assert(holds_found(files@, Seq::empty()));
    while i < roots.len()
        invariant
            i <= roots@.len(),
            pats == texts(patterns@),
            holds_found(files@, found_roots(roots@.take(i as int), pats, multi)),
            texts(warnings@) == roots_warnings(roots@.take(i as int), pats),
        decreases roots@.len() - i,
    {
        files =
        visit_root(
            files,
            &mut warnings,
            Ghost(found_roots(roots@.take(i as int), pats, multi)),
            &roots[i],
            &patterns,
            multi,
        );
        proof {
            assert(roots@.take(i + 1).drop_last() =~= roots@.take(i as int));
            assert(roots@.take(i + 1).last() == roots@[i as int]);
        }
        i = i + 1;
    }
    assert(roots@.take(roots@.len() as int) =~= roots@);
    // Taking the length states that the keys are in order.
    let _len: usize = files.len();
    WalkResult { files, warnings }
}

// ---------------------------------------------------------------------------
// Laws
// ---------------------------------------------------------------------------

/// Whatever else is excluded, `target`, `node_modules` and `.git` are: nothing on
/// whose way one of them stands is watched or warned of.
pub proof fn default_excludes_always_apply(
    names: Seq<Seq<char>>,
    at: int,
    extra: Seq<Seq<char>>,
)
    requires
        0 <= at < names.len(),
        default_exclude_names().contains(names[at]),
    ensures
        excluded(names, exclude_patterns(extra)),
{
    let name = names[at];
    reveal_strlit("target");
    reveal_strlit("node_modules");
    reveal_strlit(".git");
    let i = default_exclude_names().index_of(name);
    let patterns = exclude_patterns(extra);
    assert(patterns[i] == name);
    assert(!name.contains('*'));
    literal_pattern_matches_itself_only(name, name);
    assert(any_matches(patterns, name));
}

/// An excluded entry gives no file and no warning: a listing says the same with it
/// as without it.
pub proof fn excluded_entry_changes_nothing(
    raw: Seq<char>,
    root: Seq<char>,
    listing: Seq<Listed>,
    e: Listed,
    patterns: Seq<Seq<char>>,
    multi: bool,
)
    requires
        match e {
            Listed::Unreadable { error } => false,
            Listed::Directory => true,
            Listed::Symlink { names, path } => excluded(texts(names@), patterns),
            Listed::File { names, path, source, time } => excluded(texts(names@), patterns),
        },
    ensures
        found_listing(root, listing.push(e), patterns, multi) == found_listing(
            root,
            listing,
            patterns,
            multi,
        ),
        listing_warnings(raw, listing.push(e), patterns) == listing_warnings(
            raw,
            listing,
            patterns,
        ),
{
    assert(listing.push(e).drop_last() =~= listing);
}

/// A symlink is never watched, and an unreadable path never either; each leaves a
/// warning unless it is excluded.
pub proof fn skipped_entries_are_warned_of(
    raw: Seq<char>,
    root: Seq<char>,
    e: Listed,
    patterns: Seq<Seq<char>>,
    multi: bool,
)
    requires
        match e {
            Listed::Unreadable { error } => true,
            Listed::Symlink { names, path } => !excluded(texts(names@), patterns),
            _ => false,
        },
    ensures
        found_entry(root, e, patterns, multi) is None,
        entry_warning(raw, e, patterns) is Some,
{
}

/// Whether names are such as a directory holds: none has a separator in it.
pub open spec fn plain_names(names: Seq<Seq<char>>) -> bool {
    names.len() > 0 && forall|i: int|
        0 <= i < names.len() ==> !(#[trigger] names[i]).contains('/') && !names[i].contains('\\')
}

/// Names joined hold no backslash where none of them does.
proof fn joined_names_have_no_backslash(names: Seq<Seq<char>>)
    requires
        plain_names(names),
    ensures
        !names_joined(names).contains('\\'),
    decreases names.len(),
{
    let s = names_joined(names);
    assert(!names[0].contains('\\'));
    if names.len() > 1 {
        let rest = names.drop_last();
        assert forall|i: int| 0 <= i < rest.len() implies !(#[trigger] rest[i]).contains('/')
            && !rest[i].contains('\\') by {
            assert(rest[i] == names[i]);
        }
        joined_names_have_no_backslash(rest);
        reveal_strlit("/");
        let before = names_joined(rest);
        let last = names[names.len() - 1];
        assert(!last.contains('\\'));
        if s.contains('\\') {
            let k = s.index_of('\\');
            if k < before.len() {
                assert(before[k] == '\\');
            } else if k > before.len() {
                assert(last[k - before.len() - 1] == '\\');
            }
        }
    }
}

proof fn slashed_as_it_is(s: Seq<char>)
    requires
        !s.contains('\\'),
    ensures
        slashed(s) == s,
{
    assert(slashed(s) =~= s);
}

/// Two texts that end in parts without a slash, after a slash, are the same only
/// where the parts are.
proof fn last_parts_differ(a: Seq<char>, x: Seq<char>, b: Seq<char>, y: Seq<char>)
    requires
        !x.contains('/'),
        !y.contains('/'),
        a + "/"@ + x == b + "/"@ + y,
    ensures
        a == b,
        x == y,
{
    reveal_strlit("/");
    let s = a + "/"@ + x;
    let t = b + "/"@ + y;
    assert(s.len() == a.len() + 1 + x.len());
    assert(t.len() == b.len() + 1 + y.len());
    if a.len() < b.len() {
        assert(t[b.len() as int] == "/"@[0]);
        assert(s[b.len() as int] == x[b.len() - a.len() - 1]);
        assert(x.contains(x[b.len() - a.len() - 1]));
    } else if b.len() < a.len() {
        assert(s[a.len() as int] == "/"@[0]);
        assert(t[a.len() as int] == y[a.len() - b.len() - 1]);
        assert(y.contains(y[a.len() - b.len() - 1]));
    }
    assert(s.take(a.len() as int) =~= a);
    assert(t.take(b.len() as int) =~= b);
    assert(s.skip((a.len() + 1) as int) =~= x);
    assert(t.skip((b.len() + 1) as int) =~= y);
}

proof fn joined_names_differ(a: Seq<Seq<char>>, b: Seq<Seq<char>>)
    requires
        plain_names(a),
        plain_names(b),
        names_joined(a) == names_joined(b),
    ensures
        a == b,
    decreases a.len(),
{
    reveal_strlit("/");
    assert(!a[a.len() - 1].contains('/'));
    assert(!b[b.len() - 1].contains('/'));
    if a.len() == 1 && b.len() == 1 {
        assert(a =~= b);
    } else if a.len() > 1 && b.len() > 1 {
        let c = a.drop_last();
        let d = b.drop_last();
        assert forall|i: int| 0 <= i < c.len() implies !(#[trigger] c[i]).contains('/')
            && !c[i].contains('\\') by {
            assert(c[i] == a[i]);
        }
        assert forall|i: int| 0 <= i < d.len() implies !(#[trigger] d[i]).contains('/')
            && !d[i].contains('\\') by {
            assert(d[i] == b[i]);
        }
        last_parts_differ(names_joined(c), a.last(), names_joined(d), b.last());
        joined_names_differ(c, d);
        assert(a =~= c.push(a.last()));
        assert(b =~= d.push(b.last()));
    } else if a.len() == 1 {
        let d = names_joined(b.drop_last());
        assert(names_joined(b)[d.len() as int] == '/');
        assert(a[0][d.len() as int] == '/');
    } else {
        let c = names_joined(a.drop_last());
        assert(names_joined(a)[c.len() as int] == '/');
        assert(b[0][c.len() as int] == '/');
    }
}

/// Different files below a root have different keys, so that none stands in for
/// another.
pub proof fn file_keys_differ(
    root: Seq<char>,
    a: Seq<Seq<char>>,
    b: Seq<Seq<char>>,
    multi: bool,
)
    requires
        plain_names(a),
        plain_names(b),
        file_key(root, a, multi) == file_key(root, b, multi),
    ensures
        a == b,
{
    joined_names_have_no_backslash(a);
    joined_names_have_no_backslash(b);
    slashed_as_it_is(names_joined(a));
    slashed_as_it_is(names_joined(b));
    if multi {
        let prefix = slashed(root) + "/"@;
        assert((prefix + names_joined(a)).skip(prefix.len() as int) =~= names_joined(a));
        assert((prefix + names_joined(b)).skip(prefix.len() as int) =~= names_joined(b));
    }
    joined_names_differ(a, b);
}

/// With several roots the key of a file is its path, so that files of different
/// roots stand under one key only where their paths are the same.
pub proof fn several_roots_key_by_path(root: Seq<char>, names: Seq<Seq<char>>)
    requires
        plain_names(names),
        !root.contains('\\'),
    ensures
        file_key(root, names, true) == root + "/"@ + names_joined(names),
{
    joined_names_have_no_backslash(names);
    slashed_as_it_is(names_joined(names));
    slashed_as_it_is(root);
}

/// A name is skipped exactly if it is `target`, `node_modules` or `.git`, or matches one
/// of the extra patterns.
proof fn name_is_skipped(name: Seq<char>, extra: Seq<Seq<char>>)
    ensures
        any_matches(exclude_patterns(extra), name) == (name == "target"@ || name
            == "node_modules"@ || name == ".git"@ || exists|p: int|
            0 <= p < extra.len() && glob_matches(#[trigger] extra[p], name)),
{
    reveal_strlit("target");
    reveal_strlit("node_modules");
    reveal_strlit(".git");
    let patterns = exclude_patterns(extra);
    literal_pattern_matches_itself_only("target"@, name);
    literal_pattern_matches_itself_only("node_modules"@, name);
    literal_pattern_matches_itself_only(".git"@, name);
    assert(patterns[0] == "target"@ && patterns[1] == "node_modules"@ && patterns[2] == ".git"@);
    if exists|p: int| 0 <= p < extra.len() && glob_matches(#[trigger] extra[p], name) {
        let p = choose|p: int| 0 <= p < extra.len() && glob_matches(#[trigger] extra[p], name);
        assert(patterns[p + 3] == extra[p]);
    }
    if any_matches(patterns, name) {
        let i = choose|i: int| 0 <= i < patterns.len() && glob_matches(#[trigger] patterns[i], name);
        if i >= 3 {
            assert(extra[i - 3] == patterns[i]);
        }
    }
}

/// Only names keep a file out: what is found is skipped exactly if a name on its way is
/// `target`, `node_modules` or `.git`, or matches one of the extra patterns.
pub proof fn only_names_exclude(names: Seq<Seq<char>>, extra: Seq<Seq<char>>)
    ensures
        excluded(names, exclude_patterns(extra)) == exists|i: int|
            0 <= i < names.len() && ((#[trigger] names[i]) == "target"@ || names[i]
                == "node_modules"@ || names[i] == ".git"@ || exists|p: int|
                0 <= p < extra.len() && glob_matches(#[trigger] extra[p], names[i])),
{
    assert forall|i: int| 0 <= i < names.len() implies any_matches(
        exclude_patterns(extra),
        #[trigger] names[i],
    ) == (names[i] == "target"@ || names[i] == "node_modules"@ || names[i] == ".git"@
        || exists|p: int| 0 <= p < extra.len() && glob_matches(#[trigger] extra[p], names[i])) by {
        name_is_skipped(names[i], extra);
    }
}

/// The path below a root has a slash between names and nothing else.
pub proof fn joined_names_grow(names: Seq<Seq<char>>, name: Seq<char>)
    ensures
        names_joined(seq![name]) == name,
        names.len() > 0 ==> names_joined(names.push(name)) == names_joined(names) + seq!['/']
            + name,
{
    reveal_strlit("/");
    assert("/"@ =~= seq!['/']);
    assert(names.push(name).drop_last() =~= names);
}

/// Files of a listing: each regular file that is readable and that no name keeps out is
/// found, in its turn, under its path below the root, after the path of the root where
/// there are several; nothing else is found.
pub proof fn listing_gives_its_files(
    root: Seq<char>,
    listing: Seq<Listed>,
    e: Listed,
    extra: Seq<Seq<char>>,
    multi: bool,
)
    ensures
        ({
            let patterns = exclude_patterns(extra);
            let before = found_listing(root, listing, patterns, multi);
            let after = found_listing(root, listing.push(e), patterns, multi);
            match e {
                Listed::File { names, path, source, time: FileTime::Millis(ms) } => {
                    let skipped = exists|i: int|
                        0 <= i < names@.len() && ((#[trigger] names@[i]@) == "target"@
                            || names@[i]@ == "node_modules"@ || names@[i]@ == ".git"@
                            || exists|p: int|
                            0 <= p < extra.len() && glob_matches(#[trigger] extra[p], names@[i]@));
                    let below = slashed(names_joined(texts(names@)));
                    let key = if multi {
                        slashed(root) + seq!['/'] + below
                    } else {
                        below
                    };
                    &&& skipped ==> after == before
                    &&& !skipped ==> after.len() == before.len() + 1 && after.drop_last() == before
                        && after.last().0 == key && after.last().1.abs == path@
                        && after.last().1.source == source && after.last().1.mtime_ms == (if ms
                        <= i64::MAX {
                        ms as int
                    } else {
                        i64::MAX as int
                    })
                },
                _ => after == before,
            }
        }),
        found_listing(root, Seq::empty(), exclude_patterns(extra), multi).len() == 0,
{
    reveal_strlit("/");
    assert("/"@ =~= seq!['/']);
    assert(listing.push(e).drop_last() =~= listing);
    if let Listed::File { names, path, source, time } = e {
        let all = texts(names@);
        only_names_exclude(all, extra);
        assert forall|i: int| 0 <= i < names@.len() implies #[trigger] names@[i]@ == all[i] by {}
        if excluded(all, exclude_patterns(extra)) {
            let i = choose|i: int|
                0 <= i < all.len() && ((#[trigger] all[i]) == "target"@ || all[i]
                    == "node_modules"@ || all[i] == ".git"@ || exists|p: int|
                    0 <= p < extra.len() && glob_matches(#[trigger] extra[p], all[i]));
            assert(names@[i]@ == all[i]);
        }
        let before = found_listing(root, listing, exclude_patterns(extra), multi);
        let after = found_listing(root, listing.push(e), exclude_patterns(extra), multi);
        if after.len() > before.len() {
            assert(after.drop_last() =~= before);
        }
    }
}

/// Files of several watch paths: those of each, one after another. A watch path that is
/// a file gives itself, under its own path.
pub proof fn roots_give_their_files(
    roots: Seq<RootListing>,
    r: RootListing,
    patterns: Seq<Seq<char>>,
    multi: bool,
)
    ensures
        found_roots(roots.push(r), patterns, multi) == found_roots(roots, patterns, multi) + (
        match r.state {
            RootState::File { path, source, time: Ok(ms) } => seq![
                (
                    slashed(path@),
                    FileModel {
                        abs: path@,
                        source,
                        mtime_ms: if ms <= i64::MAX {
                            ms as i64
                        } else {
                            i64::MAX
                        },
                    },
                ),
            ],
            RootState::Directory { path, listing } => found_listing(
                path@,
                listing@,
                patterns,
                multi,
            ),
            _ => Seq::empty(),
        }),
        found_roots(Seq::empty(), patterns, multi).len() == 0,
{
    assert(roots.push(r).drop_last() =~= roots);
}

/// What a listing finds of a part it still finds of the whole.
proof fn found_stays(
    root: Seq<char>,
    listing: Seq<Listed>,
    patterns: Seq<Seq<char>>,
    multi: bool,
    i: int,
)
    requires
        0 <= i < listing.len(),
        found_entry(root, listing[i], patterns, multi) is Some,
    ensures
        found_listing(root, listing, patterns, multi).contains(
            found_entry(root, listing[i], patterns, multi)->Some_0,
        ),
    decreases listing.len(),
{
    let x = found_entry(root, listing[i], patterns, multi)->Some_0;
    let rest = listing.drop_last();
    let before = found_listing(root, rest, patterns, multi);
    let all = found_listing(root, listing, patterns, multi);
    if i == rest.len() {
        assert(all[before.len() as int] == x);
    } else {
        assert(rest[i] == listing[i]);
        found_stays(root, rest, patterns, multi, i);
        assert(all[before.index_of(x)] == x);
    }
}

proof fn found_among(
    roots: Seq<RootListing>,
    patterns: Seq<Seq<char>>,
    multi: bool,
    r: int,
    x: (Seq<char>, FileModel),
)
    requires
        0 <= r < roots.len(),
        found_root(roots[r], patterns, multi).contains(x),
    ensures
        found_roots(roots, patterns, multi).contains(x),
    decreases roots.len(),
{
    let rest = roots.drop_last();
    let before = found_roots(rest, patterns, multi);
    let last = found_root(roots.last(), patterns, multi);
    let all = found_roots(roots, patterns, multi);
    if r == rest.len() {
        assert(all[before.len() + last.index_of(x)] == x);
    } else {
        assert(rest[r] == roots[r]);
        found_among(rest, patterns, multi, r, x);
        assert(all[before.index_of(x)] == x);
    }
}

/// The first value under a key is that of the first place where the key stands.
pub proof fn first_of_is_the_first<V>(s: Seq<(Seq<char>, V)>, key: Seq<char>, i: int)
    requires
        0 <= i < s.len(),
        s[i].0 == key,
        forall|j: int| 0 <= j < i ==> (#[trigger] s[j]).0 != key,
    ensures
        first_of(s, key) == Some(s[i].1),
    decreases s.len(),
{
    let rest = s.drop_last();
    if i < rest.len() {
        assert forall|j: int| 0 <= j < i implies (#[trigger] rest[j]).0 != key by {
            assert(s[j].0 != key);
        }
        first_of_is_the_first(rest, key, i);
    } else {
        no_first_of(rest, key);
    }
}

/// Where a key does not stand there is no first value under it.
pub proof fn no_first_of<V>(s: Seq<(Seq<char>, V)>, key: Seq<char>)
    requires
        forall|j: int| 0 <= j < s.len() ==> (#[trigger] s[j]).0 != key,
    ensures
        first_of(s, key) is None,
    decreases s.len(),
{
    if s.len() > 0 {
        assert(s[s.len() - 1].0 != key);
        assert forall|j: int| 0 <= j < s.drop_last().len() implies (#[trigger] s.drop_last()[j]).0
            != key by {
            assert(s[j].0 != key);
        }
        no_first_of(s.drop_last(), key);
    }
}

proof fn first_of_some<V>(s: Seq<(Seq<char>, V)>, key: Seq<char>, i: int)
    requires
        0 <= i < s.len(),
        s[i].0 == key,
    ensures
        first_of(s, key) is Some,
    decreases s.len(),
{
    if i < s.len() - 1 {
        assert(s.drop_last()[i] == s[i]);
        first_of_some(s.drop_last(), key, i);
    }
}

/// A readable regular file of a listing that no name keeps out is found.
proof fn file_is_found(
    roots: Seq<RootListing>,
    extra: &Vec<String>,
    r: int,
    root: String,
    listing: Vec<Listed>,
    i: int,
    names: Vec<String>,
    path: String,
    source: usize,
    ms: u128,
) -> (at: int)
    requires
        0 <= r < roots.len(),
        roots[r].state == (RootState::Directory { path: root, listing }),
        0 <= i < listing@.len(),
        listing@[i] == (Listed::File { names, path, source, time: FileTime::Millis(ms) }),
        forall|k: int|
            0 <= k < names@.len() ==> (#[trigger] names@[k])@ != "target"@ && names@[k]@
                != "node_modules"@ && names@[k]@ != ".git"@,
        forall|k: int, p: int|
            0 <= k < names@.len() && 0 <= p < extra@.len() ==> !glob_matches(
                (#[trigger] extra@[p])@,
                (#[trigger] names@[k])@,
            ),
    ensures
        ({
            let found = found_roots(roots, exclude_patterns(texts(extra@)), roots.len() > 1);
            &&& 0 <= at < found.len()
            &&& found[at].0 == file_key(root@, texts(names@), roots.len() > 1)
            &&& found[at].1 == (FileModel { abs: path@, source, mtime_ms: stored_millis(ms) })
        }),
{
    let multi = roots.len() > 1;
    let more = texts(extra@);
    let patterns = exclude_patterns(more);
    let all = texts(names@);
    only_names_exclude(all, more);
    if excluded(all, patterns) {
        let k = choose|k: int|
            0 <= k < all.len() && ((#[trigger] all[k]) == "target"@ || all[k] == "node_modules"@
                || all[k] == ".git"@ || exists|p: int|
                0 <= p < more.len() && glob_matches(#[trigger] more[p], all[k]));
        assert(names@[k]@ == all[k]);
        let p = choose|p: int| 0 <= p < more.len() && glob_matches(#[trigger] more[p], all[k]);
        assert(more[p] == extra@[p]@);
        assert(!glob_matches(extra@[p]@, names@[k]@));
    }
    let x = found_entry(root@, listing@[i], patterns, multi)->Some_0;
    found_stays(root@, listing@, patterns, multi, i);
    found_among(roots, patterns, multi, r, x);
    found_roots(roots, patterns, multi).index_of(x)
}

proof fn key_in_full(root: Seq<char>, names: Seq<Seq<char>>, multi: bool)
    ensures
        file_key(root, names, multi) == if multi {
            slashed(root) + seq!['/'] + slashed(names_joined(names))
        } else {
            slashed(names_joined(names))
        },
{
    reveal_strlit("/");
    assert("/"@ =~= seq!['/']);
}

/// Whatever `collect_files` gives, every readable regular file under a watch path is in
/// it, however deep it lies, unless a name on its way is `target`, `node_modules` or
/// `.git` or matches an extra pattern: under its path below the root, with slashes, after
/// the path of the root where there are several.
pub proof fn every_file_is_watched(
    roots: &Vec<RootListing>,
    extra: &Vec<String>,
    walked: WalkResult,
    r: int,
    root: String,
    listing: Vec<Listed>,
    i: int,
    names: Vec<String>,
    path: String,
    source: usize,
    ms: u128,
)
    requires
        call_ensures(collect_files, (roots, extra), walked),
        0 <= r < roots@.len(),
        roots@[r].state == (RootState::Directory { path: root, listing }),
        0 <= i < listing@.len(),
        listing@[i] == (Listed::File { names, path, source, time: FileTime::Millis(ms) }),
        forall|k: int|
            0 <= k < names@.len() ==> (#[trigger] names@[k])@ != "target"@ && names@[k]@
                != "node_modules"@ && names@[k]@ != ".git"@,
        forall|k: int, p: int|
            0 <= k < names@.len() && 0 <= p < extra@.len() ==> !glob_matches(
                (#[trigger] extra@[p])@,
                (#[trigger] names@[k])@,
            ),
    ensures
        ({
            let below = slashed(names_joined(texts(names@)));
            let key = if roots@.len() > 1 {
                slashed(root@) + seq!['/'] + below
            } else {
                below
            };
            has_key(walked.files@, key)
        }),
{
    let found = found_roots(roots@, exclude_patterns(texts(extra@)), roots@.len() > 1);
    let at = file_is_found(roots@, extra, r, root, listing, i, names, path, source, ms);
    let key = file_key(root@, texts(names@), roots@.len() > 1);
    key_in_full(root@, texts(names@), roots@.len() > 1);
    first_of_some(found, key, at);
    assert(file_at(walked.files@, key) == first_of(found, key));
}

/// Whether no two files were found under one key.
pub open spec fn one_per_key(found: Found) -> bool {
    forall|x: int, y: int|
        0 <= x < y < found.len() ==> (#[trigger] found[x]).0 != (#[trigger] found[y]).0
}

/// Where no two files are found under one key, what `collect_files` gives under the key of
/// a file is the file itself, with its time.
pub proof fn a_file_alone_under_its_key_is_itself(
    roots: &Vec<RootListing>,
    extra: &Vec<String>,
    walked: WalkResult,
    r: int,
    root: String,
    listing: Vec<Listed>,
    i: int,
    names: Vec<String>,
    path: String,
    source: usize,
    ms: u128,
)
    requires
        call_ensures(collect_files, (roots, extra), walked),
        0 <= r < roots@.len(),
        roots@[r].state == (RootState::Directory { path: root, listing }),
        0 <= i < listing@.len(),
        listing@[i] == (Listed::File { names, path, source, time: FileTime::Millis(ms) }),
        forall|k: int|
            0 <= k < names@.len() ==> (#[trigger] names@[k])@ != "target"@ && names@[k]@
                != "node_modules"@ && names@[k]@ != ".git"@,
        forall|k: int, p: int|
            0 <= k < names@.len() && 0 <= p < extra@.len() ==> !glob_matches(
                (#[trigger] extra@[p])@,
                (#[trigger] names@[k])@,
            ),
        one_per_key(found_roots(roots@, exclude_patterns(texts(extra@)), roots@.len() > 1)),
    ensures
        ({
            let below = slashed(names_joined(texts(names@)));
            let key = if roots@.len() > 1 {
                slashed(root@) + seq!['/'] + below
            } else {
                below
            };
            let e = lookup(walked.files@, key)->Some_0;
            &&& e.abs@ == path@
            &&& e.source == source
            &&& ms <= i64::MAX ==> e.mtime_ms == ms
            &&& ms > i64::MAX ==> e.mtime_ms == i64::MAX
        }),
{
    let found = found_roots(roots@, exclude_patterns(texts(extra@)), roots@.len() > 1);
    let at = file_is_found(roots@, extra, r, root, listing, i, names, path, source, ms);
    let key = file_key(root@, texts(names@), roots@.len() > 1);
    key_in_full(root@, texts(names@), roots@.len() > 1);
    assert forall|j: int| 0 <= j < at implies (#[trigger] found[j]).0 != key by {
        assert(found[j].0 != found[at].0);
    }
    first_of_is_the_first(found, key, at);
    assert(file_at(walked.files@, key) == first_of(found, key));
}

/// Nothing is watched that was not found.
pub proof fn only_found_files_are_watched(
    files: Seq<(Seq<char>, FileEntry)>,
    found: Found,
    key: Seq<char>,
)
    requires
        holds_found(files, found),
        has_key(files, key),
    ensures
        exists|i: int|
            0 <= i < found.len() && (#[trigger] found[i]).0 == key && found[i].1.abs == lookup(
                files,
                key,
            )->Some_0.abs@ && found[i].1.source == lookup(files, key)->Some_0.source
                && found[i].1.mtime_ms == lookup(files, key)->Some_0.mtime_ms,
{
    assert(file_at(files, key) == first_of(found, key));
    first_of_came(found, key);
}

proof fn first_of_came<V>(s: Seq<(Seq<char>, V)>, key: Seq<char>)
    requires
        first_of(s, key) is Some,
    ensures
        exists|i: int| 0 <= i < s.len() && (#[trigger] s[i]).0 == key && first_of(s, key) == Some(s[i].1),
    decreases s.len(),
{
    let rest = s.drop_last();
    if first_of(rest, key) is Some {
        first_of_came(rest, key);
        let i = choose|i: int|
            0 <= i < rest.len() && (#[trigger] rest[i]).0 == key && first_of(rest, key) == Some(
                rest[i].1,
            );
        assert(s[i] == rest[i]);
    } else {
        assert(s[s.len() - 1].0 == key);
    }
}

/// Whether a watch path gives a file under a key: itself, where it is a readable file,
/// under its own path; where it is a directory, a readable regular file of its listing
/// that no name keeps out, under its path below the root.
pub open spec fn gives(
    root: RootListing,
    extra: Seq<Seq<char>>,
    multi: bool,
    key: Seq<char>,
    abs: Seq<char>,
) -> bool {
    match root.state {
        RootState::File { path, source, time: Ok(_) } => key == slashed(path@) && abs == path@,
        RootState::Directory { path, listing } => exists|i: int|
            0 <= i < listing@.len() && ((#[trigger] listing@[i]) matches Listed::File {
                names,
                path: at,
                source,
                time: FileTime::Millis(_),
            } && {
                let below = slashed(names_joined(texts(names@)));
                &&& abs == at@
                &&& key == if multi {
                    slashed(path@) + seq!['/'] + below
                } else {
                    below
                }
                &&& forall|k: int|
                    0 <= k < names@.len() ==> (#[trigger] names@[k])@ != "target"@ && names@[k]@
                        != "node_modules"@ && names@[k]@ != ".git"@
                &&& forall|k: int, p: int|
                    0 <= k < names@.len() && 0 <= p < extra.len() ==> !glob_matches(
                        #[trigger] extra[p],
                        (#[trigger] names@[k])@,
                    )
            }),
        _ => false,
    }
}

proof fn entry_gives(
    root: RootListing,
    path: String,
    listing: Vec<Listed>,
    extra: Seq<Seq<char>>,
    multi: bool,
    n: int,
    x: int,
)
    requires
        root.state == (RootState::Directory { path, listing }),
        0 <= n <= listing@.len(),
        0 <= x < found_listing(path@, listing@.take(n), exclude_patterns(extra), multi).len(),
    ensures
        ({
            let f = found_listing(path@, listing@.take(n), exclude_patterns(extra), multi)[x];
            gives(root, extra, multi, f.0, f.1.abs)
        }),
    decreases n,
{
    reveal_strlit("/");
    assert("/"@ =~= seq!['/']);
    let patterns = exclude_patterns(extra);
    let part = listing@.take(n);
    if n > 0 {
        let rest = listing@.take(n - 1);
        assert(part.drop_last() =~= rest);
        let before = found_listing(path@, rest, patterns, multi);
        if x < before.len() {
            entry_gives(root, path, listing, extra, multi, n - 1, x);
        } else {
            let e = listing@[n - 1];
            assert(part.last() == e);
            if let Listed::File { names, path: at, source, time: FileTime::Millis(_) } = e {
                let all = texts(names@);
                only_names_exclude(all, extra);
                assert forall|k: int| 0 <= k < names@.len() implies (#[trigger] names@[k])@
                    != "target"@ && names@[k]@ != "node_modules"@ && names@[k]@ != ".git"@ by {
                    assert(all[k] == names@[k]@);
                }
                assert forall|k: int, p: int|
                    0 <= k < names@.len() && 0 <= p < extra.len() implies !glob_matches(
                    #[trigger] extra[p],
                    (#[trigger] names@[k])@,
                ) by {
                    assert(all[k] == names@[k]@);
                }
            }
        }
    }
}

proof fn root_gives(
    roots: Seq<RootListing>,
    extra: Seq<Seq<char>>,
    multi: bool,
    x: int,
)
    requires
        0 <= x < found_roots(roots, exclude_patterns(extra), multi).len(),
    ensures
        ({
            let f = found_roots(roots, exclude_patterns(extra), multi)[x];
            exists|r: int|
                0 <= r < roots.len() && gives(#[trigger] roots[r], extra, multi, f.0, f.1.abs)
        }),
    decreases roots.len(),
{
    let patterns = exclude_patterns(extra);
    let f = found_roots(roots, patterns, multi)[x];
    if roots.len() > 0 {
        let rest = roots.drop_last();
        let last = roots.last();
        let before = found_roots(rest, patterns, multi);
        if x < before.len() {
            root_gives(rest, extra, multi, x);
            let r = choose|r: int|
                0 <= r < rest.len() && gives(#[trigger] rest[r], extra, multi, f.0, f.1.abs);
            assert(roots[r] == rest[r]);
        } else {
            assert(f == found_root(last, patterns, multi)[x - before.len()]);
            if let RootState::Directory { path, listing } = last.state {
                assert(listing@.take(listing@.len() as int) =~= listing@);
                entry_gives(
                    last,
                    path,
                    listing,
                    extra,
                    multi,
                    listing@.len() as int,
                    x - before.len(),
                );
            }
            assert(gives(roots[roots.len() - 1], extra, multi, f.0, f.1.abs));
        }
    }
}

/// Whatever `collect_files` gives, each file in it is one that a watch path gives, and
/// its keys stand in order.
pub proof fn only_given_files_are_watched(
    roots: &Vec<RootListing>,
    extra: &Vec<String>,
    walked: WalkResult,
    key: Seq<char>,
)
    requires
        call_ensures(collect_files, (roots, extra), walked),
        has_key(walked.files@, key),
    ensures
        exists|r: int|
            0 <= r < roots@.len() && gives(
                #[trigger] roots@[r],
                texts(extra@),
                roots@.len() > 1,
                key,
                lookup(walked.files@, key)->Some_0.abs@,
            ),
        ascending(walked.files@),
{
    let more = texts(extra@);
    let found = found_roots(roots@, exclude_patterns(more), roots@.len() > 1);
    only_found_files_are_watched(walked.files@, found, key);
    let i = choose|i: int|
        0 <= i < found.len() && (#[trigger] found[i]).0 == key && found[i].1.abs == lookup(
            walked.files@,
            key,
        )->Some_0.abs@;
    root_gives(roots@, more, roots@.len() > 1, i);
}

/// Warnings of a listing: each path that could not be read and, unless a name keeps it
/// out, each symlink and each file whose time could not be had, in turn; nothing else.
pub proof fn listing_gives_its_warnings(
    raw: Seq<char>,
    listing: Seq<Listed>,
    e: Listed,
    patterns: Seq<Seq<char>>,
)
    ensures
        ({
            let before = listing_warnings(raw, listing, patterns);
            let after = listing_warnings(raw, listing.push(e), patterns);
            match e {
                Listed::Unreadable { error } => after == before.push(
                    "skipped unreadable path under "@ + raw + ": "@ + error@,
                ),
                Listed::Directory => after == before,
                Listed::Symlink { names, path } => after == if excluded(texts(names@), patterns) {
                    before
                } else {
                    before.push("skipping symlink "@ + slashed(path@))
                },
                Listed::File { names, path, source, time } => after == if excluded(
                    texts(names@),
                    patterns,
                ) {
                    before
                } else {
                    match time {
                        FileTime::Millis(_) => before,
                        FileTime::NoMtime(error) => before.push(
                            "cannot read mtime for "@ + slashed(path@) + ": "@ + error@,
                        ),
                        FileTime::NoStat(error) => before.push(
                            "cannot stat "@ + slashed(path@) + ": "@ + error@,
                        ),
                    }
                },
            }
        }),
        listing_warnings(raw, Seq::empty(), patterns).len() == 0,
{
    assert(listing.push(e).drop_last() =~= listing);
}

/// Warnings of several watch paths: those of each, one after another. A watch path that
/// is neither a readable file nor a directory gives one.
pub proof fn roots_give_their_warnings(
    roots: Seq<RootListing>,
    r: RootListing,
    patterns: Seq<Seq<char>>,
)
    ensures
        ({
            let before = roots_warnings(roots, patterns);
            let after = roots_warnings(roots.push(r), patterns);
            match r.state {
                RootState::Inaccessible { error } => after == before.push(
                    "watch path "@ + r.raw@ + " is not accessible: "@ + error@,
                ),
                RootState::NoStat { error } => after == before.push(
                    "cannot stat watch path "@ + r.raw@ + ": "@ + error@,
                ),
                RootState::File { path, source, time: Ok(_) } => after == before,
                RootState::File { path, source, time: Err(error) } => after == before.push(
                    "cannot read mtime for "@ + r.raw@ + ": "@ + error@,
                ),
                RootState::Special => after == before.push(
                    "watch path "@ + r.raw@ + " is not a file or directory"@,
                ),
                RootState::Directory { path, listing } => after == before + listing_warnings(
                    r.raw@,
                    listing@,
                    patterns,
                ),
            }
        }),
        roots_warnings(Seq::empty(), patterns).len() == 0,
{
    let before = roots_warnings(roots, patterns);
    assert(roots.push(r).drop_last() =~= roots);
    assert(before + Seq::<Seq<char>>::empty() =~= before);
    match r.state {
        RootState::Inaccessible { error } => {
            let w = "watch path "@ + r.raw@ + " is not accessible: "@ + error@;
            assert(before + seq![w] =~= before.push(w));
        },
        RootState::NoStat { error } => {
            let w = "cannot stat watch path "@ + r.raw@ + ": "@ + error@;
            assert(before + seq![w] =~= before.push(w));
        },
        RootState::File { path, source, time: Err(error) } => {
            let w = "cannot read mtime for "@ + r.raw@ + ": "@ + error@;
            assert(before + seq![w] =~= before.push(w));
        },
        RootState::Special => {
            let w = "watch path "@ + r.raw@ + " is not a file or directory"@;
            assert(before + seq![w] =~= before.push(w));
        },
        _ => {},
    }
}

/// Whatever `collect_files` warns of is what there is to warn of at the watch paths, with
/// the names that are always skipped and the extra patterns.
pub proof fn every_skip_is_told(roots: &Vec<RootListing>, extra: &Vec<String>, walked: WalkResult)
    requires
        call_ensures(collect_files, (roots, extra), walked),
    ensures
        texts(walked.warnings@) == roots_warnings(roots@, exclude_patterns(texts(extra@))),
{
}

/// Whatever `entry_kept` gives: the root of a walk is always followed, anything else
/// unless one of the patterns matches its name.
pub proof fn entries_are_kept_by_name(depth: usize, name: &str, patterns: &[String], r: bool)
    requires
        call_ensures(entry_kept, (depth, name, patterns), r),
    ensures
        depth == 0 ==> r,
        depth > 0 ==> r == forall|p: int|
            0 <= p < patterns@.len() ==> !glob_matches((#[trigger] patterns@[p])@, name@),
{
    let list = texts(patterns@);
    if any_matches(list, name@) {
        let p = choose|p: int| 0 <= p < list.len() && glob_matches(#[trigger] list[p], name@);
        assert(list[p] == patterns@[p]@);
    } else {
        assert forall|p: int| 0 <= p < patterns@.len() implies !glob_matches(
            (#[trigger] patterns@[p])@,
            name@,
        ) by {
            assert(list[p] == patterns@[p]@);
        }
    }
}

} // verus!
