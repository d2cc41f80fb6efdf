//! Stored documents, read level by level: what no record asks for is passed over
//! unread, whatever stands there, and no record holds a field of its own twice.

use crate::json::{distinct_keys, members_of, read_tree, Json, JsonObject, JsonTree};
use crate::text::{chars_of, concat3, same_text, text_before, text_before_irreflexive, texts};
use crate::textmap::{ascending, has_key, lookup, lookup_at, same_lookups_same_entries};
use vstd::prelude::*;

verus! {

/// Why `serde_json::from_str` finds no JSON document in a text, read as a
/// `serde_json::value::RawValue`: nothing where it finds one.
pub uninterp spec fn raw_fault(text: Seq<char>) -> Option<Seq<char>>;

/// What `serde_json::from_str` makes of a text read as a map of
/// `serde_json::value::RawValue`: the keys, in order, with the texts of what stands
/// under them.
pub uninterp spec fn raw_members(text: Seq<char>) -> Option<Seq<(Seq<char>, Seq<char>)>>;

/// What `serde_json::from_str` makes of a text read as a list of
/// `serde_json::value::RawValue`: the texts of the items.
pub uninterp spec fn raw_items(text: Seq<char>) -> Option<Seq<Seq<char>>>;

/// What `serde_json::from_str` makes of a text read as a `String`.
pub uninterp spec fn raw_string(text: Seq<char>) -> Option<Seq<char>>;

/// What `serde_json::from_str` makes of a text read as a `u64`.
pub uninterp spec fn raw_uint(text: Seq<char>) -> Option<u64>;

/// What `serde_json::from_str` makes of a text read as an `i64`.
pub uninterp spec fn raw_int(text: Seq<char>) -> Option<i64>;

/// What keys with texts say.
pub open spec fn pairs_of(s: Seq<(String, String)>) -> Seq<(Seq<char>, Seq<char>)> {
    s.map_values(|e: (String, String)| (e.0@, e.1@))
}

/// Names by level.
pub type Levels = Seq<Seq<Seq<char>>>;

pub open spec fn levels(names: Seq<Vec<String>>) -> Levels {
    names.map_values(|v: Vec<String>| texts(v@))
}

pub open spec fn some_text(r: Option<String>) -> Option<Seq<char>> {
    match r {
        Some(s) => Some(s@),
        None => None,
    }
}

pub open spec fn some_pairs(r: Option<Vec<(String, String)>>) -> Option<
    Seq<(Seq<char>, Seq<char>)>,
> {
    match r {
        Some(v) => Some(pairs_of(v@)),
        None => None,
    }
}

pub open spec fn some_texts(r: Option<Vec<String>>) -> Option<Seq<Seq<char>>> {
    match r {
        Some(v) => Some(texts(v@)),
        None => None,
    }
}

/// `serde_json::from_str` into a `serde_json::value::RawValue`: whether the whole
/// text is one JSON document, and the message of the error where it is not. The
/// contract says that the outcome is a function of the text alone.
#[verifier::external_body]
fn find_fault(text: &str) -> (r: Option<String>)
    ensures
        some_text(r) == raw_fault(text@),
{
    match serde_json::from_str::<Box<serde_json::value::RawValue>>(text) {
        Ok(_) => None,
        Err(e) => Some(e.to_string()),
    }
}

/// `serde_json::from_str` into a `BTreeMap` of `serde_json::value::RawValue`: the
/// members of an object with the text of each, unread. The contract says that the
/// outcome is a function of the text alone and that the keys come in order.
#[verifier::external_body]
fn read_members(text: &str) -> (r: Option<Vec<(String, String)>>)
    ensures
        some_pairs(r) == raw_members(text@),
        r matches Some(v) ==> ascending(pairs_of(v@)),
{
    serde_json::from_str::<
        std::collections::BTreeMap<String, Box<serde_json::value::RawValue>>,
    >(text).ok().map(|m| m.into_iter().map(|e| (e.0, e.1.get().to_string())).collect())
}

/// `serde_json::from_str` into a `Vec` of `serde_json::value::RawValue`: the items
/// of an array, each as its text, unread. The contract says that the outcome is a
/// function of the text alone.
#[verifier::external_body]
fn read_items(text: &str) -> (r: Option<Vec<String>>)
    ensures
        some_texts(r) == raw_items(text@),
{
    serde_json::from_str::<Vec<Box<serde_json::value::RawValue>>>(text).ok().map(
        |v| v.into_iter().map(|e| e.get().to_string()).collect(),
    )
}

/// `serde_json::from_str` into a `String`. The contract says that the outcome is a
/// function of the text alone.
#[verifier::external_body]
fn read_string(text: &str) -> (r: Option<String>)
    ensures
        some_text(r) == raw_string(text@),
{
    serde_json::from_str(text).ok()
}

/// `serde_json::from_str` into a `u64`. The contract says that the outcome is a
/// function of the text alone.
#[verifier::external_body]
fn read_uint(text: &str) -> (r: Option<u64>)
    ensures
        r == raw_uint(text@),
{
    serde_json::from_str(text).ok()
}

/// `serde_json::from_str` into an `i64`. The contract says that the outcome is a
/// function of the text alone.
#[verifier::external_body]
fn read_int(text: &str) -> (r: Option<i64>)
    ensures
        r == raw_int(text@),
{
    serde_json::from_str(text).ok()
}

// ---------------------------------------------------------------------------
// Members in turn
// ---------------------------------------------------------------------------

/// How far the text of an object has been cut into the texts of its members: how
/// many brackets are open, whether a string is open and a backslash stands before
/// the next character in it, the text of the member under way, and those before.
pub struct Cut {
    pub depth: nat,
    pub quoted: bool,
    pub escaped: bool,
    pub piece: Seq<char>,
    pub pieces: Seq<Seq<char>>,
}

/// A member ends at a comma that stands directly in the object, and at the bracket
/// that closes the object.
pub open spec fn cut_on(c: Cut, x: char) -> Cut {
    let kept = Cut { piece: c.piece.push(x), ..c };
    let ended = Cut { piece: Seq::empty(), pieces: c.pieces.push(c.piece), ..c };
    if c.quoted {
        Cut { quoted: x != '"' || c.escaped, escaped: x == '\\' && !c.escaped, ..kept }
    } else if x == '"' {
        Cut { quoted: true, ..kept }
    } else if x == '{' || x == '[' {
        if c.depth == 0 {
            Cut { depth: 1, ..c }
        } else {
            Cut { depth: c.depth + 1, ..kept }
        }
    } else if x == '}' || x == ']' {
        if c.depth <= 1 {
            Cut { depth: 0, ..ended }
        } else {
            Cut { depth: (c.depth - 1) as nat, ..kept }
        }
    } else if x == ',' && c.depth == 1 {
        ended
    } else if c.depth == 0 {
        c
    } else {
        kept
    }
}

pub open spec fn cut(text: Seq<char>) -> Cut
    decreases text.len(),
{
    if text.len() == 0 {
        Cut {
            depth: 0,
            quoted: false,
            escaped: false,
            piece: Seq::empty(),
            pieces: Seq::empty(),
        }
    } else {
        cut_on(cut(text.drop_last()), text.last())
    }
}

/// The members that texts hold, each read as an object of its own.
pub open spec fn read_apart(pieces: Seq<Seq<char>>) -> Seq<(Seq<char>, Seq<char>)>
    decreases pieces.len(),
{
    if pieces.len() == 0 {
        Seq::empty()
    } else {
        read_apart(pieces.drop_last()) + match raw_members("{"@ + pieces.last() + "}"@) {
            Some(r) => r,
            None => Seq::empty(),
        }
    }
}

/// The members of an object as they stand in its text, in turn, with each key as
/// often as it stands there.
pub open spec fn listed(text: Seq<char>) -> Seq<(Seq<char>, Seq<char>)> {
    read_apart(cut(text).pieces)
}

/// Whether a key stands in the text of an object more than once.
pub open spec fn repeated(text: Seq<char>, key: Seq<char>) -> bool {
    exists|i: int, j: int|
        0 <= i < j < listed(text).len() && #[trigger] listed(text)[i].0 == key
            && #[trigger] listed(text)[j].0 == key
}

/// Whether one of the names stands in the text of an object more than once.
pub open spec fn repeats_one_of(text: Seq<char>, names: Seq<Seq<char>>) -> bool {
    exists|i: int| 0 <= i < names.len() && repeated(text, #[trigger] names[i])
}

/// Cuts the text of an object into the texts of its members.
fn cut_members(text: &str) -> (r: Vec<String>)
    ensures
        texts(r@) == cut(text@).pieces,
{
    let chars = chars_of(text);
    let mut depth: usize = 0;
    let mut quoted = false;
    let mut escaped = false;
    let mut piece: String = String::new();
    let mut pieces: Vec<String> = Vec::new();
    let mut i: usize = 0;
    assert(texts(pieces@) =~= Seq::<Seq<char>>::empty());
    assert(piece@ =~= Seq::<char>::empty());
    while i < chars.len()
        invariant
            depth <= i <= chars@.len(),
            chars@ == text@,
            cut(text@.take(i as int)) == (Cut {
                depth: depth as nat,
                quoted,
                escaped,
                piece: piece@,
                pieces: texts(pieces@),
            }),
        decreases chars@.len() - i,
    {
        let x = chars[i];
        let ghost before = pieces@;
        let ghost last = piece;
        assert(text@.take(i + 1).drop_last() =~= text@.take(i as int));
        assert(texts(before.push(last)) =~= texts(before).push(last@));
        let ends = !quoted && ((x == ',' && depth == 1) || ((x == '}' || x == ']') && depth <= 1));
        let outside = !quoted && x != '"' && depth == 0;
        if quoted {
            quoted = x != '"' || escaped;
            escaped = x == '\\' && !escaped;
        } else if x == '"' {
            quoted = true;
        } else if x == '{' || x == '[' {
            depth = depth + 1;
        } else if x == '}' || x == ']' {
            depth = if depth <= 1 {
                0
            } else {
                depth - 1
            };
        }
        if ends {
            pieces.push(piece);
            piece = String::new();
            assert(piece@ =~= Seq::<char>::empty());
        } else if !outside {
            piece.push(x);
        }
        i = i + 1;
    }
    assert(text@.take(text@.len() as int) =~= text@);
    pieces
}

/// The members of an object in turn, with each key as often as it stands there.
pub fn list_members(text: &str) -> (r: Vec<(String, String)>)
    ensures
        pairs_of(r@) == listed(text@),
{
    let pieces = cut_members(text);
    let ghost all = texts(pieces@);
    let mut out: Vec<(String, String)> = Vec::new();
    let mut i: usize = 0;
    assert(pairs_of(out@) =~= read_apart(all.take(0)));
    while i < pieces.len()
        invariant
            i <= pieces@.len(),
            all == texts(pieces@),
            pairs_of(out@) == read_apart(all.take(i as int)),
        decreases pieces@.len() - i,
    {
        assert(all.take(i + 1).drop_last() =~= all.take(i as int));
        assert(all.take(i + 1).last() == pieces@[i as int]@);
        let ghost before = out@;
        if let Some(mut members) = read_members(concat3("{", pieces[i].as_str(), "}").as_str()) {
            let ghost more = members@;
            out.append(&mut members);
            assert(pairs_of(out@) =~= pairs_of(before) + pairs_of(more));
        } else {
            assert(read_apart(all.take(i + 1)) =~= read_apart(all.take(i as int)));
        }
        i = i + 1;
    }
    assert(all.take(all.len() as int) =~= all);
    out
}

/// Whether a key stands among members more than once.
fn stands_twice(members: &Vec<(String, String)>, key: &str) -> (r: bool)
    ensures
        r == exists|i: int, j: int|
            0 <= i < j < pairs_of(members@).len() && #[trigger] pairs_of(members@)[i].0 == key@
                && #[trigger] pairs_of(members@)[j].0 == key@,
{
    let ghost s = pairs_of(members@);
    let mut seen: Option<usize> = None;
    let mut i: usize = 0;
    while i < members.len()
        invariant
            i <= members@.len() == s.len(),
            s == pairs_of(members@),
            seen matches Some(k) ==> k < i && s[k as int].0 == key@ && forall|x: int|
                0 <= x < i && (#[trigger] s[x]).0 == key@ ==> x == k,
            seen is None ==> forall|x: int| 0 <= x < i ==> (#[trigger] s[x]).0 != key@,
        decreases members@.len() - i,
    {
        assert(s[i as int].0 == members@[i as int].0@);
        if same_text(members[i].0.as_str(), key) {
            if seen.is_some() {
                return true;
            }
            seen = Some(i);
        }
        i = i + 1;
    }
    false
}

/// Whether one of the names stands in the text of an object more than once.
fn find_repeat(text: &str, names: &Vec<String>) -> (r: bool)
    ensures
        r == repeats_one_of(text@, texts(names@)),
{
    if names.len() == 0 {
        return false;
    }
    let members = list_members(text);
    let mut i: usize = 0;
    while i < names.len()
        invariant
            i <= names@.len(),
            pairs_of(members@) == listed(text@),
            forall|k: int| 0 <= k < i ==> !repeated(text@, #[trigger] texts(names@)[k]),
        decreases names@.len() - i,
    {
        assert(texts(names@)[i as int] == names@[i as int]@);
        if stands_twice(&members, names[i].as_str()) {
            return true;
        }
        i = i + 1;
    }
    false
}

// ---------------------------------------------------------------------------
// Reading
// ---------------------------------------------------------------------------

/// A document read so many levels deep: objects, with their keys in order, arrays,
/// texts and integers. What lies deeper, and every other kind of value, is `null`.
/// So is an object that holds one of its level's names more than once, where
/// `names` has at each place the names for an object with so many levels below it.
pub open spec fn shallow_tree(text: Seq<char>, depth: nat, names: Levels) -> JsonTree
    decreases depth,
{
    if depth == 0 {
        JsonTree::Null
    } else if let Some(s) = raw_members(text) {
        if repeats_one_of(text, names[depth - 1]) {
            JsonTree::Null
        } else {
            JsonTree::Object(
                s.map_values(
                    |e: (Seq<char>, Seq<char>)|
                        (e.0, shallow_tree(e.1, (depth - 1) as nat, names)),
                ),
            )
        }
    } else if let Some(s) = raw_items(text) {
        JsonTree::Array(s.map_values(|e: Seq<char>| shallow_tree(e, (depth - 1) as nat, names)))
    } else if let Some(s) = raw_string(text) {
        JsonTree::Text(s)
    } else if let Some(n) = raw_uint(text) {
        JsonTree::Int(n as int)
    } else if let Some(n) = raw_int(text) {
        JsonTree::Int(n as int)
    } else {
        JsonTree::Null
    }
}

/// How many levels deep the records of stored documents lie.
pub const RECORD_DEPTH: usize = 4;

/// What a stored document says, as deep as its records lie.
pub open spec fn stored_parsed(text: Seq<char>, names: Levels) -> Result<JsonTree, Seq<char>> {
    match raw_fault(text) {
        Some(e) => Err(e),
        None => Ok(shallow_tree(text, RECORD_DEPTH as nat, names)),
    }
}

fn read_object(pairs: Vec<(String, String)>, depth: usize, names: &Vec<Vec<String>>) -> (r: JsonObject)
    requires
        ascending(pairs_of(pairs@)),
        depth <= names@.len(),
    ensures
        r@ == pairs_of(pairs@).map_values(
            |e: (Seq<char>, Seq<char>)| (e.0, shallow_tree(e.1, depth as nat, levels(names@))),
        ),
    decreases depth, 1nat,
{
    let ghost all = pairs_of(pairs@).map_values(
        |e: (Seq<char>, Seq<char>)| (e.0, shallow_tree(e.1, depth as nat, levels(names@))),
    );
    let mut out: Vec<(String, Json)> = Vec::new();
    let mut i: usize = 0;
    while i < pairs.len()
        invariant
            i <= pairs@.len() == all.len(),
            depth <= names@.len(),
            all == pairs_of(pairs@).map_values(
                |e: (Seq<char>, Seq<char>)| (e.0, shallow_tree(e.1, depth as nat, levels(names@))),
            ),
            out@.len() == i,
            forall|k: int| 0 <= k < i ==> members_of(out@)[k] == #[trigger] all[k],
        decreases pairs@.len() - i,
    {
        let ghost was = out@;
        let value = read_shallow(pairs[i].1.as_str(), depth, names);
        out.push((pairs[i].0.clone(), value));
        assert forall|k: int| 0 <= k < i + 1 implies members_of(out@)[k] == #[trigger] all[k] by {
            if k < i {
                assert(members_of(was)[k] == all[k]);
            } else {
                assert(pairs_of(pairs@)[k] == (pairs@[k].0@, pairs@[k].1@));
            }
        }
        i = i + 1;
    }
    assert(members_of(out@) =~= all);
    assert forall|x: int, y: int| 0 <= x < y < all.len() implies #[trigger] all[x].0
        != #[trigger] all[y].0 by {
        assert(text_before(pairs_of(pairs@)[x].0, pairs_of(pairs@)[y].0));
        text_before_irreflexive(all[x].0);
    }
    JsonObject::of(out)
}

fn read_list(items: Vec<String>, depth: usize, names: &Vec<Vec<String>>) -> (r: Json)
    requires
        depth <= names@.len(),
    ensures
        r@ == JsonTree::Array(
            texts(items@).map_values(|e: Seq<char>| shallow_tree(e, depth as nat, levels(names@))),
        ),
    decreases depth, 1nat,
{
    let mut out: Vec<Json> = Vec::new();
    let mut i: usize = 0;
    while i < items.len()
        invariant
            i <= items@.len(),
            depth <= names@.len(),
            out@.len() == i,
            forall|k: int|
                0 <= k < i ==> (#[trigger] out@[k])@ == shallow_tree(items@[k]@, depth as nat, levels(names@)),
        decreases items@.len() - i,
    {
        out.push(read_shallow(items[i].as_str(), depth, names));
        i = i + 1;
    }
    let r = Json::Array(out);
    assert(r@->Array_0 =~= texts(items@).map_values(
        |e: Seq<char>| shallow_tree(e, depth as nat, levels(names@)),
    ));
    r
}

/// Reads a document so many levels deep.
pub fn read_shallow(text: &str, depth: usize, names: &Vec<Vec<String>>) -> (r: Json)
    requires
        depth <= names@.len(),
    ensures
        r@ == shallow_tree(text@, depth as nat, levels(names@)),
    decreases depth, 0nat,
{
    if depth == 0 {
        return Json::Null;
    }
    if let Some(pairs) = read_members(text) {
        assert(levels(names@)[depth - 1] == texts(names@[depth - 1]@));
        if find_repeat(text, &names[depth - 1]) {
            return Json::Null;
        }
        let o = read_object(pairs, depth - 1, names);
        assert(o@ =~= shallow_tree(text@, depth as nat, levels(names@))->Object_0);
        return Json::Object(o);
    }
    if let Some(items) = read_items(text) {
        let list = read_list(items, depth - 1, names);
        assert(list@->Array_0 =~= shallow_tree(text@, depth as nat, levels(names@))->Array_0);
        return list;
    }
    if let Some(s) = read_string(text) {
        return Json::Text(s);
    }
    if let Some(n) = read_uint(text) {
        return Json::Uint(n);
    }
    match read_int(text) {
        Some(n) => Json::Int(n),
        None => Json::Null,
    }
}

/// The text of a field of a record, which is an object or the list of its fields.
pub open spec fn raw_field(text: Seq<char>, name: Seq<char>, at: int) -> Option<Seq<char>> {
    match (raw_members(text), raw_items(text)) {
        (Some(s), _) => lookup(s, name),
        (None, Some(s)) => if at < s.len() {
            Some(s[at])
        } else {
            None
        },
        (None, None) => None,
    }
}

/// Finds the text of a field of a record.
pub fn find_field(text: &str, name: &str, at: usize) -> (r: Option<String>)
    ensures
        some_text(r) == raw_field(text@, name@, at as int),
{
    if let Some(pairs) = read_members(text) {
        let ghost s = pairs_of(pairs@);
        let mut i: usize = 0;
        while i < pairs.len()
            invariant
                i <= pairs@.len() == s.len(),
                s == pairs_of(pairs@),
                ascending(s),
                raw_members(text@) == Some(s),
                forall|k: int| 0 <= k < i ==> (#[trigger] s[k]).0 != name@,
            decreases pairs@.len() - i,
        {
            assert(s[i as int] == (pairs@[i as int].0@, pairs@[i as int].1@));
            if same_text(pairs[i].0.as_str(), name) {
                proof {
                    lookup_at(s, i as int);
                }
                return Some(pairs[i].1.clone());
            }
            i = i + 1;
        }
        return None;
    }
    match read_items(text) {
        Some(items) => if at < items.len() {
            Some(items[at].clone())
        } else {
            None
        },
        None => None,
    }
}

/// Reads a stored document as deep as its records lie.
pub fn read_stored(text: &str, names: &Vec<Vec<String>>) -> (r: Result<Json, String>)
    requires
        names@.len() == RECORD_DEPTH,
    ensures
        read_tree(r) == stored_parsed(text@, levels(names@)),
{
    match find_fault(text) {
        Some(e) => Err(e),
        None => Ok(read_shallow(text, RECORD_DEPTH, names)),
    }
}

// ---------------------------------------------------------------------------
// Reading back
// ---------------------------------------------------------------------------

/// Whether a text reads as a document: an object by its keys, which stand in the
/// text in turn and once each, an array by its items, a text and an integer as they
/// are. Of other values nothing is said.
pub open spec fn written_as(text: Seq<char>, t: JsonTree) -> bool
    decreases t,
{
    match t {
        JsonTree::Object(s) => match raw_members(text) {
            Some(r) => {
                &&& ascending(r)
                &&& forall|k: Seq<char>| #[trigger] has_key(r, k) == has_key(s, k)
                &&& listed(text).len() == s.len()
                &&& forall|i: int|
                    0 <= i < s.len() ==> {
                        let e = listed(text)[i];
                        &&& e.0 == (#[trigger] s[i]).0
                        &&& lookup(r, e.0) == Some(e.1)
                        &&& written_as(e.1, s[i].1)
                    }
            },
            None => false,
        },
        JsonTree::Array(s) => raw_members(text) is None && match raw_items(text) {
            Some(r) => r.len() == s.len() && forall|i: int|
                0 <= i < s.len() ==> written_as(r[i], #[trigger] s[i]),
            None => false,
        },
        JsonTree::Text(x) => raw_members(text) is None && raw_items(text) is None && raw_string(
            text,
        ) == Some(x),
        JsonTree::Int(n) => {
            &&& raw_members(text) is None
            &&& raw_items(text) is None
            &&& raw_string(text) is None
            &&& n >= 0 ==> raw_uint(text) == Some(n as u64)
            &&& n < 0 ==> raw_uint(text) is None && raw_int(text) == Some(n as i64)
        },
        _ => true,
    }
}

/// Keys in order that are the same keys stand at the same places.
proof fn same_keys_same_places<A, B>(a: Seq<(Seq<char>, A)>, b: Seq<(Seq<char>, B)>)
    requires
        ascending(a),
        ascending(b),
        forall|k: Seq<char>| #[trigger] has_key(a, k) == has_key(b, k),
    ensures
        a.len() == b.len(),
        forall|i: int| 0 <= i < a.len() ==> (#[trigger] a[i]).0 == b[i].0,
{
    let x = a.map_values(|e: (Seq<char>, A)| (e.0, ()));
    let y = b.map_values(|e: (Seq<char>, B)| (e.0, ()));
    keys_only(a);
    keys_only(b);
    assert forall|k: Seq<char>| #[trigger] lookup(x, k) == lookup(y, k) by {
        assert(has_key(a, k) == has_key(b, k));
        assert(has_key(x, k) == has_key(a, k));
        assert(has_key(y, k) == has_key(b, k));
    }
    same_lookups_same_entries(x, y);
    assert forall|i: int| 0 <= i < a.len() implies (#[trigger] a[i]).0 == b[i].0 by {
        assert(x[i] == y[i]);
    }
}

proof fn keys_only<A>(a: Seq<(Seq<char>, A)>)
    requires
        ascending(a),
    ensures
        ({
            let x = a.map_values(|e: (Seq<char>, A)| (e.0, ()));
            &&& ascending(x)
            &&& forall|k: Seq<char>| #[trigger] has_key(x, k) == has_key(a, k)
        }),
{
    let x = a.map_values(|e: (Seq<char>, A)| (e.0, ()));
    assert forall|i: int, j: int| 0 <= i < j < x.len() implies text_before(
        #[trigger] x[i].0,
        #[trigger] x[j].0,
    ) by {
        assert(text_before(a[i].0, a[j].0));
    }
    assert forall|k: Seq<char>| #[trigger] has_key(x, k) == has_key(a, k) by {
        if has_key(a, k) {
            let i = choose|i: int| 0 <= i < a.len() && #[trigger] a[i].0 == k;
            assert(x[i].0 == k);
        }
        if has_key(x, k) {
            let i = choose|i: int| 0 <= i < x.len() && #[trigger] x[i].0 == k;
            assert(a[i].0 == k);
        }
    }
}

/// A written object holds no key more than once.
proof fn written_once(text: Seq<char>, s: Seq<(Seq<char>, JsonTree)>)
    requires
        written_as(text, JsonTree::Object(s)),
        distinct_keys(s),
    ensures
        forall|key: Seq<char>| !repeated(text, key),
{
    let l = listed(text);
    assert forall|i: int| 0 <= i < l.len() implies #[trigger] l[i].0 == s[i].0 by {
        let _ = s[i];
    }
    assert forall|i: int, j: int| 0 <= i < j < l.len() implies #[trigger] l[i].0
        != #[trigger] l[j].0 by {
        assert(s[i].0 != s[j].0);
    }
}

/// What a member of a written object reads as.
pub proof fn member_reads_back(
    text: Seq<char>,
    s: Seq<(Seq<char>, JsonTree)>,
    i: int,
    depth: nat,
    names: Levels,
)
    requires
        written_as(text, JsonTree::Object(s)),
        distinct_keys(s),
        depth > 0,
        0 <= i < s.len(),
    ensures
        ({
            let r = lookup(raw_members(text)->Some_0, s[i].0)->Some_0;
            &&& written_as(r, s[i].1)
            &&& shallow_tree(text, depth, names) is Object
            &&& lookup(shallow_tree(text, depth, names)->Object_0, s[i].0) == Some(
                shallow_tree(r, (depth - 1) as nat, names),
            )
        }),
{
    written_once(text, s);
    let r = raw_members(text)->Some_0;
    let m = shallow_tree(text, depth, names)->Object_0;
    assert(has_key(s, s[i].0)) by {
        assert(s[i].0 == s[i].0);
    }
    assert(has_key(r, s[i].0));
    let k = choose|k: int| 0 <= k < r.len() && #[trigger] r[k].0 == s[i].0;
    assert forall|x: int, y: int| 0 <= x < y < m.len() implies text_before(
        #[trigger] m[x].0,
        #[trigger] m[y].0,
    ) by {
        assert(text_before(r[x].0, r[y].0));
    }
    lookup_at(r, k);
    assert(m[k].0 == s[i].0);
    lookup_at(m, k);
}

/// The members of a written object whose keys are in order stand at their places.
pub proof fn members_read_back(
    text: Seq<char>,
    s: Seq<(Seq<char>, JsonTree)>,
    depth: nat,
    names: Levels,
)
    requires
        written_as(text, JsonTree::Object(s)),
        ascending(s),
        depth > 0,
    ensures
        ({
            let r = raw_members(text)->Some_0;
            let m = shallow_tree(text, depth, names)->Object_0;
            &&& shallow_tree(text, depth, names) is Object
            &&& m.len() == r.len() == s.len()
            &&& forall|i: int|
                0 <= i < s.len() ==> (#[trigger] m[i]).0 == s[i].0 && m[i].1 == shallow_tree(
                    r[i].1,
                    (depth - 1) as nat,
                    names,
                ) && written_as(r[i].1, s[i].1)
        }),
{
    assert(distinct_keys(s)) by {
        assert forall|x: int, y: int| 0 <= x < y < s.len() implies #[trigger] s[x].0
            != #[trigger] s[y].0 by {
            assert(text_before(s[x].0, s[y].0));
            text_before_irreflexive(s[x].0);
        }
    }
    written_once(text, s);
    let r = raw_members(text)->Some_0;
    let m = shallow_tree(text, depth, names)->Object_0;
    same_keys_same_places(r, s);
    assert forall|i: int| 0 <= i < s.len() implies (#[trigger] m[i]).0 == s[i].0 && m[i].1
        == shallow_tree(r[i].1, (depth - 1) as nat, names) && written_as(r[i].1, s[i].1) by {
        assert(r[i].0 == s[i].0);
        lookup_at(r, i);
        assert(written_as(lookup(r, s[i].0)->Some_0, s[i].1));
    }
}

// ---------------------------------------------------------------------------
// Laws
// ---------------------------------------------------------------------------

/// Texts with commas between them.
pub open spec fn with_commas(pieces: Seq<Seq<char>>, last: Seq<char>) -> Seq<char>
    decreases pieces.len(),
{
    if pieces.len() == 0 {
        last
    } else {
        with_commas(pieces.drop_last(), pieces.last()) + seq![','] + last
    }
}

/// Cutting an object loses nothing: as long as it is not closed, its text is the bracket
/// and the texts of its members with commas between them.
pub proof fn cutting_loses_nothing(text: Seq<char>)
    requires
        text.len() > 0,
        text[0] == '{',
        forall|n: int| 1 <= n <= text.len() ==> (#[trigger] cut(text.take(n))).depth >= 1,
    ensures
        text == seq!['{'] + with_commas(cut(text).pieces, cut(text).piece),
    decreases text.len(),
{
    assert(text.take(text.len() as int) =~= text);
    let rest = text.drop_last();
    let x = text.last();
    if text.len() == 1 {
        assert(rest =~= Seq::<char>::empty());
        assert(cut(rest).depth == 0);
        assert(text =~= seq!['{'] + Seq::<char>::empty());
    } else {
        assert forall|n: int| 1 <= n <= rest.len() implies (#[trigger] cut(rest.take(n))).depth
            >= 1 by {
            assert(rest.take(n) =~= text.take(n));
        }
        cutting_loses_nothing(rest);
        assert(rest.take(rest.len() as int) =~= rest);
        let c = cut(rest);
        let d = cut(text);
        assert(text =~= rest.push(x));
        if d.pieces.len() > c.pieces.len() {
            assert(d.pieces.drop_last() =~= c.pieces);
            assert(text =~= seq!['{'] + (with_commas(c.pieces, c.piece) + seq![','] + Seq::<
                char,
            >::empty()));
        } else {
            assert(d.piece =~= c.piece.push(x));
            if c.pieces.len() == 0 {
                assert(text =~= seq!['{'] + c.piece.push(x));
            } else {
                let front = with_commas(c.pieces.drop_last(), c.pieces.last()) + seq![','];
                assert(text =~= seq!['{'] + (front + c.piece.push(x)));
            }
        }
    }
}

/// A member ends at a comma or a closing bracket that stands in no string and in no inner
/// bracket, and nowhere else. A string ends at a quote that no backslash stands before.
pub proof fn members_end_in_the_object_only(text: Seq<char>, x: char)
    ensures
        ({
            let c = cut(text);
            let d = cut(text.push(x));
            let ends = !c.quoted && ((x == ',' && c.depth == 1) || ((x == '}' || x == ']')
                && c.depth <= 1));
            &&& ends ==> d.pieces == c.pieces.push(c.piece) && d.piece.len() == 0
            &&& !ends ==> d.pieces == c.pieces
            &&& c.quoted ==> d.depth == c.depth && d.quoted == !(x == '"' && !c.escaped)
                && d.escaped == (x == '\\' && !c.escaped)
            &&& !c.quoted ==> d.quoted == (x == '"')
            &&& !c.quoted && (x == '{' || x == '[') ==> d.depth == c.depth + 1
            &&& !c.quoted && (x == '}' || x == ']') ==> d.depth == (if c.depth == 0 {
                0
            } else {
                c.depth - 1
            })
            &&& !c.quoted && x != '{' && x != '[' && x != '}' && x != ']' ==> d.depth == c.depth
        }),
        cut(Seq::empty()).depth == 0,
        !cut(Seq::empty()).quoted,
        cut(Seq::empty()).pieces.len() == 0,
        cut(Seq::empty()).piece.len() == 0,
{
    assert(text.push(x).drop_last() =~= text);
}

/// Whatever `list_members` gives are the members of the texts between the commas, each
/// read on its own, one after another.
pub proof fn members_are_listed_one_by_one(
    text: &str,
    r: Vec<(String, String)>,
    pieces: Seq<Seq<char>>,
    piece: Seq<char>,
)
    requires
        call_ensures(list_members, (text,), r),
    ensures
        r@.len() == read_apart(cut(text@).pieces).len(),
        forall|i: int|
            0 <= i < r@.len() ==> (#[trigger] r@[i]).0@ == read_apart(cut(text@).pieces)[i].0
                && r@[i].1@ == read_apart(cut(text@).pieces)[i].1,
        read_apart(Seq::empty()).len() == 0,
        raw_members("{"@ + piece + "}"@) matches Some(m) ==> read_apart(pieces.push(piece))
            == read_apart(pieces) + m,
        raw_members("{"@ + piece + "}"@) is None ==> read_apart(pieces.push(piece))
            == read_apart(pieces),
{
    assert(pairs_of(r@).len() == r@.len());
    assert forall|i: int| 0 <= i < r@.len() implies (#[trigger] r@[i]).0@ == read_apart(
        cut(text@).pieces,
    )[i].0 && r@[i].1@ == read_apart(cut(text@).pieces)[i].1 by {
        assert(pairs_of(r@)[i] == (r@[i].0@, r@[i].1@));
    }
    assert(pieces.push(piece).drop_last() =~= pieces);
    assert(read_apart(pieces) + Seq::<(Seq<char>, Seq<char>)>::empty() =~= read_apart(pieces));
}

/// What is read of a text, as deep as is asked for: the members of an object, each by its
/// key, unless one of its names stands there twice; the items of an array, in their order;
/// a text; an integer.
pub proof fn a_level_is_read_whole(text: Seq<char>, depth: nat, names: Levels, i: int)
    requires
        depth > 0,
    ensures
        ({
            let t = shallow_tree(text, depth, names);
            match (raw_members(text), raw_items(text)) {
                (Some(r), _) => if exists|x: int|
                    0 <= x < names[depth - 1].len() && repeated(
                        text,
                        #[trigger] names[depth - 1][x],
                    ) {
                    t is Null
                } else {
                    t matches JsonTree::Object(s) && s.len() == r.len() && (0 <= i < r.len() ==> s[i].0
                        == r[i].0 && s[i].1 == shallow_tree(r[i].1, (depth - 1) as nat, names))
                },
                (None, Some(r)) => t matches JsonTree::Array(s) && s.len() == r.len() && (0 <= i
                    < r.len() ==> s[i] == shallow_tree(r[i], (depth - 1) as nat, names)),
                (None, None) => match (raw_string(text), raw_uint(text), raw_int(text)) {
                    (Some(s), _, _) => t == JsonTree::Text(s),
                    (None, Some(n), _) => t == JsonTree::Int(n as int),
                    (None, None, Some(n)) => t == JsonTree::Int(n as int),
                    (None, None, None) => t is Null,
                },
            }
        }),
{
}

} // verus!
