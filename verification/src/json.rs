//! JSON documents: the library's own tree, its rules for reading and merging,
//! and the calls into `serde_json` and `toml` that turn text into trees and back.

use crate::stored::{raw_fault, written_as};
use crate::text::{comes_before, same_text, text_before, text_before_total, text_before_transitive};
use crate::textmap::{ascending, has_key, in_order, in_order_answers, in_order_inserts, lookup};
use vstd::prelude::*;

verus! {

/// `serde_json::Value`, a JSON document as `serde_json` holds it.
#[verifier::external_type_specification]
#[verifier::external_body]
pub struct ExValue(serde_json::Value);

/// What a JSON document says. An object is the list of its members, in order; a
/// number that is no integer of 64 bits is the numeral that is printed for it.
#[verifier::ext_equal]
pub enum JsonTree {
    Null,
    Bool(bool),
    Int(int),
    Real(Seq<char>),
    Text(Seq<char>),
    Array(Seq<JsonTree>),
    Object(Seq<(Seq<char>, JsonTree)>),
}

/// What a `serde_json::Value` holds.
pub uninterp spec fn value_tree(v: serde_json::Value) -> JsonTree;

/// What `serde_json::from_slice` makes of bytes: the document, or the message of
/// the error.
pub uninterp spec fn json_parsed(bytes: Seq<u8>) -> Result<JsonTree, Seq<char>>;

/// What `toml::from_str` makes of a text read as a document: the document, or the
/// message of the error.
pub uninterp spec fn toml_parsed(text: Seq<char>) -> Result<JsonTree, Seq<char>>;

/// What the `Display` impl of `serde_json::Value` prints for a document.
pub uninterp spec fn compact_text(t: JsonTree) -> Seq<char>;

/// What `serde_json::to_string_pretty` prints for a document.
pub uninterp spec fn pretty_text(t: JsonTree) -> Seq<char>;

/// A number that is no integer of 64 bits, as `serde_json` holds it.
pub struct Real {
    value: serde_json::Value,
}

impl View for Real {
    type V = JsonTree;

    closed spec fn view(&self) -> JsonTree {
        value_tree(self.value)
    }
}

impl Real {
    #[verifier::type_invariant]
    spec fn is_real(self) -> bool {
        value_tree(self.value) is Real
    }

    /// States that the document is a number; it does nothing.
    pub fn is_number(&self)
        ensures
            self@ is Real,
    {
        proof {
            use_type_invariant(self);
        }
    }
}

/// A JSON document.
pub enum Json {
    Null,
    Bool(bool),
    Uint(u64),
    Int(i64),
    Real(Real),
    Text(String),
    Array(Vec<Json>),
    Object(JsonObject),
}

/// The members of a JSON object, in order, no key twice.
pub struct JsonObject {
    entries: Vec<(String, Json)>,
}

/// No key stands at two places.
pub open spec fn distinct_keys<V>(s: Seq<(Seq<char>, V)>) -> bool {
    forall|i: int, j: int| 0 <= i < j < s.len() ==> #[trigger] s[i].0 != #[trigger] s[j].0
}

impl Json {
    /// What the document says.
    pub open spec fn tree(self) -> JsonTree
        decreases self,
    {
        match self {
            Json::Null => JsonTree::Null,
            Json::Bool(b) => JsonTree::Bool(b),
            Json::Uint(u) => JsonTree::Int(u as int),
            Json::Int(i) => JsonTree::Int(i as int),
            Json::Real(r) => r@,
            Json::Text(s) => JsonTree::Text(s@),
            Json::Array(v) => JsonTree::Array(
                Seq::new(
                    v@.len(),
                    |i: int|
                        if 0 <= i < v@.len() {
                            v@[i].tree()
                        } else {
                            JsonTree::Null
                        },
                ),
            ),
            Json::Object(o) => JsonTree::Object(o.members()),
        }
    }
}

impl View for Json {
    type V = JsonTree;

    open spec fn view(&self) -> JsonTree {
        self.tree()
    }
}

impl JsonObject {
    /// The keys with what stands under them, in order.
    pub closed spec fn members(self) -> Seq<(Seq<char>, JsonTree)>
        decreases self,
    {
        Seq::new(
            self.entries@.len(),
            |i: int|
                if 0 <= i < self.entries@.len() {
                    (self.entries@[i].0@, self.entries@[i].1.tree())
                } else {
                    (Seq::empty(), JsonTree::Null)
                },
        )
    }

    #[verifier::type_invariant]
    spec fn keys_once(self) -> bool {
        distinct_keys(self.members())
    }
}

impl View for JsonObject {
    type V = Seq<(Seq<char>, JsonTree)>;

    open spec fn view(&self) -> Seq<(Seq<char>, JsonTree)> {
        self.members()
    }
}

// ---------------------------------------------------------------------------
// serde_json and toml
// ---------------------------------------------------------------------------

/// One level of a `serde_json::Value`.
pub enum Opened {
    Null,
    Bool(bool),
    Uint(u64),
    Int(i64),
    Real(serde_json::Value),
    Text(String),
    Array(Vec<serde_json::Value>),
    Object(Vec<(String, serde_json::Value)>),
}

impl View for Opened {
    type V = JsonTree;

    open spec fn view(&self) -> JsonTree {
        match *self {
            Opened::Null => JsonTree::Null,
            Opened::Bool(b) => JsonTree::Bool(b),
            Opened::Uint(u) => JsonTree::Int(u as int),
            Opened::Int(i) => JsonTree::Int(i as int),
            Opened::Real(v) => value_tree(v),
            Opened::Text(s) => JsonTree::Text(s@),
            Opened::Array(v) => JsonTree::Array(
                v@.map_values(|e: serde_json::Value| value_tree(e)),
            ),
            Opened::Object(v) => JsonTree::Object(
                v@.map_values(|e: (String, serde_json::Value)| (e.0@, value_tree(e.1))),
            ),
        }
    }
}

/// What came of reading a value.
pub open spec fn outcome_tree(r: Result<serde_json::Value, String>) -> Result<JsonTree, Seq<char>> {
    match r {
        Ok(v) => Ok(value_tree(v)),
        Err(e) => Err(e@),
    }
}

/// `serde_json::from_slice`: reads one JSON document from the whole of the bytes.
/// The contract says that the outcome is a function of the bytes alone.
#[verifier::external_body]
fn parse_value(bytes: &[u8]) -> (r: Result<serde_json::Value, String>)
    ensures
        outcome_tree(r) == json_parsed(bytes@),
{
    serde_json::from_slice(bytes).map_err(|e: serde_json::Error| e.to_string())
}

/// `toml::from_str`: reads a TOML text as a document, tables as objects. The
/// contract says that the outcome is a function of the text alone.
#[verifier::external_body]
fn parse_toml_value(text: &str) -> (r: Result<serde_json::Value, String>)
    ensures
        outcome_tree(r) == toml_parsed(text@),
{
    toml::from_str(text).map_err(|e: toml::de::Error| e.to_string())
}

/// Takes a `serde_json::Value` apart, one level deep. An integer comes out as a
/// `u64` where it is not negative and as an `i64` where it is; any other number
/// stays as it is. No key of a `serde_json::Map` stands twice.
#[verifier::external_body]
fn open_value(v: serde_json::Value) -> (r: Opened)
    ensures
        r@ == value_tree(v),
        r is Real ==> value_tree(v) is Real,
        r matches Opened::Object(_) ==> distinct_keys(value_tree(v)->Object_0),
{
    match v {
        serde_json::Value::Null => Opened::Null,
        serde_json::Value::Bool(b) => Opened::Bool(b),
        serde_json::Value::Number(n) => match (n.as_u64(), n.as_i64()) {
            (Some(u), _) => Opened::Uint(u),
            (None, Some(i)) => Opened::Int(i),
            (None, None) => Opened::Real(serde_json::Value::Number(n)),
        },
        serde_json::Value::String(s) => Opened::Text(s),
        serde_json::Value::Array(a) => Opened::Array(a),
        serde_json::Value::Object(m) => Opened::Object(m.into_iter().collect()),
    }
}

/// Puts one level of a `serde_json::Value` together. The members of an object
/// keep their order, as `serde_json::Map` does with the feature `preserve_order`.
#[verifier::external_body]
fn close_value(o: Opened) -> (v: serde_json::Value)
    requires
        o matches Opened::Object(_) ==> distinct_keys(o@->Object_0),
    ensures
        value_tree(v) == o@,
{
    match o {
        Opened::Null => serde_json::Value::Null,
        Opened::Bool(b) => serde_json::Value::Bool(b),
        Opened::Uint(u) => serde_json::Value::from(u),
        Opened::Int(i) => serde_json::Value::from(i),
        Opened::Real(v) => v,
        Opened::Text(s) => serde_json::Value::String(s),
        Opened::Array(a) => serde_json::Value::Array(a),
        Opened::Object(m) => serde_json::Value::Object(m.into_iter().collect()),
    }
}

/// `serde_json::Value::clone`: a value that holds the same document.
pub assume_specification[ <serde_json::Value as Clone>::clone ](v: &serde_json::Value) -> (r:
    serde_json::Value)
    ensures
        value_tree(r) == value_tree(*v),
;

/// Whether a text is a document on one line, and reads as the document.
pub open spec fn one_line(text: Seq<char>, t: JsonTree) -> bool {
    &&& raw_fault(text) is None
    &&& written_as(text, t)
    &&& !text.contains('\n')
    &&& !text.contains('\r')
}

/// The `Display` impl of `serde_json::Value`: the document on one line. The
/// contract says that the text is a function of the document alone, that it is a
/// JSON document without a line break, and that it reads, level by level, as the
/// document it was printed from, with each key of an object once.
#[verifier::external_body]
fn print_compact(v: &serde_json::Value) -> (r: String)
    ensures
        r@ == compact_text(value_tree(*v)),
        one_line(r@, value_tree(*v)),
{
    v.to_string()
}

/// `serde_json::to_string_pretty` on a `serde_json::Value`, which does not fail:
/// the document over several lines. The contract says that the text is a function
/// of the document alone, that the text is a JSON document, and that it reads, level
/// by level, as the document it was printed from, with each key of an object once.
#[verifier::external_body]
fn print_pretty(v: &serde_json::Value) -> (r: String)
    ensures
        r@ == pretty_text(value_tree(*v)),
        raw_fault(r@) is None,
        written_as(r@, value_tree(*v)),
{
    serde_json::to_string_pretty(v).unwrap_or_default()
}

// ---------------------------------------------------------------------------
// Trees and values
// ---------------------------------------------------------------------------

impl Json {
    /// The document that a `serde_json::Value` holds.
    pub fn from_value(v: serde_json::Value) -> (r: Json)
        ensures
            r@ == value_tree(v),
        decreases value_tree(v),
    {
        let ghost t = value_tree(v);
        match open_value(v) {
            Opened::Null => Json::Null,
            Opened::Bool(b) => Json::Bool(b),
            Opened::Uint(u) => Json::Uint(u),
            Opened::Int(i) => Json::Int(i),
            Opened::Real(value) => Json::Real(Real { value }),
            Opened::Text(s) => Json::Text(s),
            Opened::Array(items) => {
                let mut out: Vec<Json> = Vec::new();
                let ghost all = items@;
                for item in it: items
                    invariant
                        it.seq() == all,
                        t == JsonTree::Array(all.map_values(|e: serde_json::Value| value_tree(e))),
                        t == value_tree(v),
                        out@.len() == it.index(),
                        forall|k: int|
                            0 <= k < out@.len() ==> (#[trigger] out@[k]).tree() == t->Array_0[k],
                {
                    proof {
                        assert(decreases_to!(t => t->Array_0));
                        assert(decreases_to!(t->Array_0 => t->Array_0[it.index() as int]));
                    }
                    out.push(Json::from_value(item));
                }
                let r = Json::Array(out);
                assert(r.tree()->Array_0 =~= t->Array_0);
                r
            },
            Opened::Object(items) => {
                let mut out: Vec<(String, Json)> = Vec::new();
                let ghost all = items@;
                for item in it: items
                    invariant
                        it.seq() == all,
                        t == JsonTree::Object(
                            all.map_values(
                                |e: (String, serde_json::Value)| (e.0@, value_tree(e.1)),
                            ),
                        ),
                        t == value_tree(v),
                        out@.len() == it.index(),
                        forall|k: int|
                            0 <= k < out@.len() ==> (#[trigger] out@[k]).0@ == t->Object_0[k].0
                                && out@[k].1.tree() == t->Object_0[k].1,
                {
                    proof {
                        assert(decreases_to!(t => t->Object_0));
                        assert(decreases_to!(t->Object_0 => t->Object_0[it.index() as int]));
                        assert(decreases_to!(
                            t->Object_0[it.index() as int] => t->Object_0[it.index() as int].1
                        ));
                    }
                    out.push((item.0, Json::from_value(item.1)));
                }
                proof {
                    let o = JsonObject { entries: out };
                    assert(o.members() =~= t->Object_0);
                }
                Json::Object(JsonObject { entries: out })
            },
        }
    }

    /// The document as a `serde_json::Value`.
    pub fn to_value(&self) -> (v: serde_json::Value)
        ensures
            value_tree(v) == self@,
        decreases self,
    {
        match self {
            Json::Null => close_value(Opened::Null),
            Json::Bool(b) => close_value(Opened::Bool(*b)),
            Json::Uint(u) => close_value(Opened::Uint(*u)),
            Json::Int(i) => close_value(Opened::Int(*i)),
            Json::Real(r) => r.value.clone(),
            Json::Text(s) => close_value(Opened::Text(s.clone())),
            Json::Array(items) => {
                let mut out: Vec<serde_json::Value> = Vec::new();
                let mut i: usize = 0;
                while i < items.len()
                    invariant
                        i <= items@.len(),
                        *self == Json::Array(*items),
                        out@.len() == i,
                        forall|k: int|
                            0 <= k < i ==> value_tree(#[trigger] out@[k]) == items@[k].tree(),
                    decreases items@.len() - i,
                {
                    proof {
                        assert(decreases_to!(self => self->Array_0));
                        assert(decreases_to!(items => items@));
                        assert(decreases_to!(items@ => items@[i as int]));
                    }
                    out.push(items[i].to_value());
                    i = i + 1;
                }
                let o = Opened::Array(out);
                assert(o@->Array_0 =~= self@->Array_0);
                close_value(o)
            },
            Json::Object(object) => {
                let items = &object.entries;
                proof {
                    use_type_invariant(object);
                }
                let mut out: Vec<(String, serde_json::Value)> = Vec::new();
                let mut i: usize = 0;
                while i < items.len()
                    invariant
                        i <= items@.len(),
                        *self == Json::Object(*object),
                        *items == object.entries,
                        out@.len() == i,
                        forall|k: int|
                            0 <= k < i ==> (#[trigger] out@[k]).0@ == items@[k].0@ && value_tree(
                                out@[k].1,
                            ) == items@[k].1.tree(),
                    decreases items@.len() - i,
                {
                    proof {
                        assert(decreases_to!(self => self->Object_0));
                        assert(decreases_to!(object => object.entries));
                        assert(decreases_to!(items => items@));
                        assert(decreases_to!(items@ => items@[i as int]));
                        assert(decreases_to!(items@[i as int] => items@[i as int].1));
                    }
                    out.push((items[i].0.clone(), items[i].1.to_value()));
                    i = i + 1;
                }
                let o = Opened::Object(out);
                assert(o@->Object_0 =~= object.members());
                close_value(o)
            },
        }
    }

    /// A copy of the document.
    pub fn copy(&self) -> (r: Json)
        ensures
            r@ == self@,
    {
        Json::from_value(self.to_value())
    }
}

/// What came of reading a document.
pub open spec fn read_tree(r: Result<Json, String>) -> Result<JsonTree, Seq<char>> {
    match r {
        Ok(j) => Ok(j@),
        Err(e) => Err(e@),
    }
}

/// Reads a JSON document from bytes.
pub fn parse_json(bytes: &[u8]) -> (r: Result<Json, String>)
    ensures
        read_tree(r) == json_parsed(bytes@),
{
    match parse_value(bytes) {
        Ok(v) => Ok(Json::from_value(v)),
        Err(e) => Err(e),
    }
}

/// Reads a TOML text as a document.
pub fn parse_toml(text: &str) -> (r: Result<Json, String>)
    ensures
        read_tree(r) == toml_parsed(text@),
{
    match parse_toml_value(text) {
        Ok(v) => Ok(Json::from_value(v)),
        Err(e) => Err(e),
    }
}

/// The document on one line.
pub fn render_compact(j: &Json) -> (r: String)
    ensures
        r@ == compact_text(j@),
        one_line(r@, j@),
{
    print_compact(&j.to_value())
}

/// The document over several lines. The text reads as the document.
pub fn render_pretty(j: &Json) -> (r: String)
    ensures
        r@ == pretty_text(j@),
        raw_fault(r@) is None,
        written_as(r@, j@),
{
    print_pretty(&j.to_value())
}

// ---------------------------------------------------------------------------
// Members
// ---------------------------------------------------------------------------

/// Where keys are distinct, the value at an index is the value under its key.
pub proof fn lookup_distinct<V>(s: Seq<(Seq<char>, V)>, i: int)
    requires
        distinct_keys(s),
        0 <= i < s.len(),
    ensures
        has_key(s, s[i].0),
        lookup(s, s[i].0) == Some(s[i].1),
{
    let key = s[i].0;
    assert forall|j: int| 0 <= j < s.len() && #[trigger] s[j].0 == key implies j == i by {
        if i < j {
            assert(s[i].0 != s[j].0);
        } else if j < i {
            assert(s[j].0 != s[i].0);
        }
    }
}

/// The members with a value put under a key: in place of the one that stands
/// there, else at the end.
pub open spec fn put<V>(s: Seq<(Seq<char>, V)>, key: Seq<char>, value: V) -> Seq<(Seq<char>, V)> {
    if has_key(s, key) {
        s.update(choose|i: int| 0 <= i < s.len() && #[trigger] s[i].0 == key, (key, value))
    } else {
        s.push((key, value))
    }
}

/// Putting keeps keys distinct and changes what one key answers.
pub proof fn put_answers<V>(s: Seq<(Seq<char>, V)>, key: Seq<char>, value: V)
    requires
        distinct_keys(s),
    ensures
        distinct_keys(put(s, key, value)),
        lookup(put(s, key, value), key) == Some(value),
        forall|k: Seq<char>|
            k != key ==> #[trigger] lookup(put(s, key, value), k) == lookup(s, k),
{
    let t = put(s, key, value);
    if has_key(s, key) {
        let at = choose|i: int| 0 <= i < s.len() && #[trigger] s[i].0 == key;
        assert forall|i: int, j: int| 0 <= i < j < t.len() implies #[trigger] t[i].0
            != #[trigger] t[j].0 by {
            assert(s[i].0 != s[j].0);
        }
        assert(t[at].0 == key);
        lookup_distinct(t, at);
    } else {
        assert forall|i: int, j: int| 0 <= i < j < t.len() implies #[trigger] t[i].0
            != #[trigger] t[j].0 by {
            if j == s.len() {
                assert(s[i].0 != key);
            } else {
                assert(s[i].0 != s[j].0);
            }
        }
        assert(t[s.len() as int].0 == key);
        lookup_distinct(t, s.len() as int);
    }
    assert forall|k: Seq<char>| k != key implies #[trigger] lookup(t, k) == lookup(s, k) by {
        if has_key(s, k) {
            let i = choose|i: int| 0 <= i < s.len() && #[trigger] s[i].0 == k;
            assert(t[i] == s[i]);
            lookup_distinct(s, i);
            lookup_distinct(t, i);
        } else if has_key(t, k) {
            let i = choose|i: int| 0 <= i < t.len() && #[trigger] t[i].0 == k;
            assert(i < s.len());
            assert(s[i].0 == k);
        }
    }
}

/// What a list of keys and documents says.
pub open spec fn members_of(s: Seq<(String, Json)>) -> Seq<(Seq<char>, JsonTree)> {
    s.map_values(|e: (String, Json)| (e.0@, e.1@))
}

impl JsonObject {
    /// An object without members.
    pub fn new() -> (r: Self)
        ensures
            r@ == Seq::<(Seq<char>, JsonTree)>::empty(),
    {
        let entries: Vec<(String, Json)> = Vec::new();
        proof {
            let o = JsonObject { entries };
            assert(o.members() =~= Seq::<(Seq<char>, JsonTree)>::empty());
        }
        JsonObject { entries }
    }

    /// The object with the given members, whose keys must differ.
    pub(crate) fn of(entries: Vec<(String, Json)>) -> (r: Self)
        requires
            distinct_keys(members_of(entries@)),
        ensures
            r@ == members_of(entries@),
    {
        proof {
            let o = JsonObject { entries };
            assert(o.members() =~= members_of(entries@));
        }
        JsonObject { entries }
    }

    pub fn len(&self) -> (n: usize)
        ensures
            n == self@.len(),
            distinct_keys(self@),
    {
        proof {
            use_type_invariant(self);
        }
        self.entries.len()
    }

    /// The key and the value at an index.
    pub fn entry(&self, i: usize) -> (r: (&String, &Json))
        requires
            i < self@.len(),
        ensures
            r.0@ == self@[i as int].0,
            r.1@ == self@[i as int].1,
    {
        let e = &self.entries[i];
        (&e.0, &e.1)
    }

    /// The index of a key.
    fn find(&self, key: &str) -> (r: Option<usize>)
        ensures
            r is Some == has_key(self@, key@),
            r matches Some(i) ==> i < self@.len() && self@[i as int].0 == key@,
    {
        let mut i: usize = 0;
        while i < self.entries.len()
            invariant
                i <= self.entries@.len() == self@.len(),
                forall|k: int| 0 <= k < i ==> #[trigger] self@[k].0 != key@,
            decreases self.entries@.len() - i,
        {
            assert(self@[i as int].0 == self.entries@[i as int].0@);
            if same_text(self.entries[i].0.as_str(), key) {
                return Some(i);
            }
            i = i + 1;
        }
        None
    }

    /// What stands under a key.
    pub fn get(&self, key: &str) -> (r: Option<&Json>)
        ensures
            r is Some == has_key(self@, key@),
            r matches Some(j) ==> lookup(self@, key@) == Some(j@),
    {
        match self.find(key) {
            Some(i) => {
                proof {
                    use_type_invariant(self);
                    lookup_distinct(self@, i as int);
                }
                Some(&self.entries[i].1)
            },
            None => None,
        }
    }

    /// The object with a value put under a key.
    pub fn with(self, key: String, value: Json) -> (r: Self)
        ensures
            r@ == put(self@, key@, value@),
    {
        proof {
            use_type_invariant(&self);
        }
        let ghost old = self@;
        let ghost k0 = key@;
        let ghost v0 = value@;
        let found = self.find(key.as_str());
        let mut entries = self.entries;
        match found {
            Some(i) => {
                proof {
                    let at = choose|i: int| 0 <= i < old.len() && #[trigger] old[i].0 == k0;
                    if at < i {
                        assert(old[at].0 != old[i as int].0);
                    } else if i < at {
                        assert(old[i as int].0 != old[at].0);
                    }
                }
                entries.set(i, (key, value));
            },
            None => {
                entries.push((key, value));
            },
        }
        proof {
            let o = JsonObject { entries };
            put_answers(old, k0, v0);
            assert(o.members() =~= put(old, k0, v0));
        }
        JsonObject { entries }
    }
}

/// What stands under a key of a document; only objects have keys.
pub open spec fn member(t: JsonTree, key: Seq<char>) -> Option<JsonTree> {
    match t {
        JsonTree::Object(s) => lookup(s, key),
        _ => None,
    }
}

/// The text that a document is, if it is one.
pub open spec fn text_in(t: JsonTree) -> Option<Seq<char>> {
    match t {
        JsonTree::Text(s) => Some(s),
        _ => None,
    }
}

/// The text under a key of a document, if a text stands there.
pub open spec fn text_member(t: JsonTree, key: Seq<char>) -> Option<Seq<char>> {
    match member(t, key) {
        Some(v) => text_in(v),
        None => None,
    }
}

/// The integer under a key of a document, if one in the range of `u64` stands there.
pub open spec fn uint_member(t: JsonTree, key: Seq<char>) -> Option<int> {
    match member(t, key) {
        Some(JsonTree::Int(n)) => if 0 <= n <= u64::MAX {
            Some(n)
        } else {
            None
        },
        _ => None,
    }
}

impl Json {
    /// What stands under a key; `None` for a document that is no object.
    pub fn get(&self, key: &str) -> (r: Option<&Json>)
        ensures
            r is Some == member(self@, key@) is Some,
            r matches Some(j) ==> member(self@, key@) == Some(j@),
    {
        match self {
            Json::Object(o) => o.get(key),
            Json::Real(x) => {
                proof {
                    use_type_invariant(x);
                }
                None
            },
            _ => None,
        }
    }

    /// The text that the document is.
    pub fn as_str(&self) -> (r: Option<&str>)
        ensures
            r is Some == text_in(self@) is Some,
            r matches Some(s) ==> text_in(self@) == Some(s@),
    {
        match self {
            Json::Text(s) => Some(s.as_str()),
            Json::Real(x) => {
                proof {
                    use_type_invariant(x);
                }
                None
            },
            _ => None,
        }
    }

    /// The text under a key.
    pub fn get_str(&self, key: &str) -> (r: Option<&str>)
        ensures
            r is Some == text_member(self@, key@) is Some,
            r matches Some(s) ==> text_member(self@, key@) == Some(s@),
    {
        match self.get(key) {
            Some(j) => j.as_str(),
            None => None,
        }
    }

    /// The integer under a key, where it is in the range of `u64`.
    pub fn get_u64(&self, key: &str) -> (r: Option<u64>)
        ensures
            r is Some == uint_member(self@, key@) is Some,
            r matches Some(n) ==> uint_member(self@, key@) == Some(n as int),
    {
        match self.get(key) {
            Some(Json::Uint(u)) => Some(*u),
            Some(Json::Int(i)) => if *i >= 0 {
                Some(*i as u64)
            } else {
                None
            },
            Some(Json::Real(x)) => {
                proof {
                    use_type_invariant(x);
                }
                None
            },
            _ => None,
        }
    }
}

// ---------------------------------------------------------------------------
// Merging
// ---------------------------------------------------------------------------

/// A document with a patch over it: two objects are merged member by member,
/// anything else is replaced by the patch.
pub open spec fn merged(target: JsonTree, patch: JsonTree) -> JsonTree
    decreases patch,
{
    match (target, patch) {
        (JsonTree::Object(t), JsonTree::Object(p)) => JsonTree::Object(merged_members(t, p)),
        _ => patch,
    }
}

/// The members of an object with those of a patch over them, one after another.
pub open spec fn merged_members(
    t: Seq<(Seq<char>, JsonTree)>,
    p: Seq<(Seq<char>, JsonTree)>,
) -> Seq<(Seq<char>, JsonTree)>
    decreases p,
{
    if p.len() == 0 {
        t
    } else {
        let m = merged_members(t, p.drop_last());
        let key = p.last().0;
        let value = match lookup(m, key) {
            Some(old) => merged(old, p.last().1),
            None => p.last().1,
        };
        put(m, key, value)
    }
}

/// Merges a patch over a document.
pub fn merge_value(target: &Json, patch: &Json) -> (r: Json)
    ensures
        r@ == merged(target@, patch@),
    decreases patch@,
{
    match (target, patch) {
        (Json::Object(t), Json::Object(p)) => {
            let mut out = t.copy();
            let mut i: usize = 0;
            let n: usize = p.len();
            assert(p@.take(0) =~= Seq::<(Seq<char>, JsonTree)>::empty());
            while i < n
                invariant
                    i <= n == p@.len(),
                    *patch == Json::Object(*p),
                    out@ == merged_members(t@, p@.take(i as int)),
                decreases n - i,
            {
                let (key, value) = p.entry(i);
                proof {
                    assert(p@.take(i + 1).drop_last() =~= p@.take(i as int));
                    let whole = patch@;
                    assert(decreases_to!(whole => whole->Object_0));
                    assert(decreases_to!(p@ => p@[i as int]));
                    assert(decreases_to!(p@[i as int] => p@[i as int].1));
                }
                let next = match out.get(key.as_str()) {
                    Some(old) => merge_value(old, value),
                    None => value.copy(),
                };
                out = out.with(key.clone(), next);
                i = i + 1;
            }
            assert(p@.take(n as int) =~= p@);
            Json::Object(out)
        },
        _ => {
            proof {
                if let Json::Real(x) = target {
                    use_type_invariant(x);
                }
                if let Json::Real(x) = patch {
                    use_type_invariant(x);
                }
            }
            patch.copy()
        },
    }
}

impl JsonObject {
    /// A copy of the object.
    pub fn copy(&self) -> (r: Self)
        ensures
            r@ == self@,
    {
        proof {
            use_type_invariant(self);
        }
        let mut entries: Vec<(String, Json)> = Vec::new();
        let mut i: usize = 0;
        while i < self.entries.len()
            invariant
                i <= self.entries@.len(),
                entries@.len() == i,
                forall|k: int|
                    0 <= k < i ==> (#[trigger] entries@[k]).0@ == self.entries@[k].0@
                        && entries@[k].1.tree() == self.entries@[k].1.tree(),
            decreases self.entries@.len() - i,
        {
            entries.push((self.entries[i].0.clone(), self.entries[i].1.copy()));
            i = i + 1;
        }
        proof {
            let o = JsonObject { entries };
            assert(o.members() =~= self.members());
        }
        JsonObject { entries }
    }
}

/// Merging two lists of members with distinct keys: a key of the patch answers
/// with the patch merged over what stood there, any other key as before.
pub proof fn merged_members_answer(
    t: Seq<(Seq<char>, JsonTree)>,
    p: Seq<(Seq<char>, JsonTree)>,
    key: Seq<char>,
)
    requires
        distinct_keys(t),
        distinct_keys(p),
    ensures
        distinct_keys(merged_members(t, p)),
        !has_key(p, key) ==> lookup(merged_members(t, p), key) == lookup(t, key),
        has_key(p, key) && has_key(t, key) ==> lookup(merged_members(t, p), key) == Some(
            merged(lookup(t, key)->0, lookup(p, key)->0),
        ),
        has_key(p, key) && !has_key(t, key) ==> lookup(merged_members(t, p), key) == lookup(p, key),
    decreases p.len(),
{
    if p.len() > 0 {
        let rest = p.drop_last();
        let last = p.last().0;
        let m = merged_members(t, rest);
        assert(distinct_keys(rest)) by {
            assert forall|i: int, j: int| 0 <= i < j < rest.len() implies #[trigger] rest[i].0
                != #[trigger] rest[j].0 by {
                assert(p[i].0 != p[j].0);
            }
        }
        merged_members_answer(t, rest, key);
        merged_members_answer(t, rest, last);
        assert(!has_key(rest, last)) by {
            if has_key(rest, last) {
                let i = choose|i: int| 0 <= i < rest.len() && #[trigger] rest[i].0 == last;
                assert(p[i].0 != p[p.len() - 1].0);
            }
        }
        let value = match lookup(m, last) {
            Some(old) => merged(old, p.last().1),
            None => p.last().1,
        };
        put_answers(m, last, value);
        lookup_distinct(p, p.len() - 1);
        if key != last {
            if has_key(p, key) {
                let i = choose|i: int| 0 <= i < p.len() && #[trigger] p[i].0 == key;
                assert(rest[i] == p[i]);
                lookup_distinct(p, i);
                lookup_distinct(rest, i);
            } else if has_key(rest, key) {
                let i = choose|i: int| 0 <= i < rest.len() && #[trigger] rest[i].0 == key;
                assert(p[i].0 == key);
            }
        }
    }
}

// ---------------------------------------------------------------------------
// Sorting keys
// ---------------------------------------------------------------------------

/// A document with the members of every object sorted by key.
pub open spec fn sorted(t: JsonTree) -> JsonTree
    decreases t,
{
    match t {
        JsonTree::Array(s) => JsonTree::Array(
            Seq::new(
                s.len(),
                |i: int|
                    if 0 <= i < s.len() {
                        sorted(s[i])
                    } else {
                        JsonTree::Null
                    },
            ),
        ),
        JsonTree::Object(s) => JsonTree::Object(sorted_members(s)),
        _ => t,
    }
}

pub open spec fn sorted_members(s: Seq<(Seq<char>, JsonTree)>) -> Seq<(Seq<char>, JsonTree)>
    decreases s,
{
    if s.len() == 0 {
        s
    } else {
        in_order(sorted_members(s.drop_last()), s.last().0, sorted(s.last().1))
    }
}

/// Sorting keeps the keys that there are, and none twice.
proof fn sorted_members_keys(s: Seq<(Seq<char>, JsonTree)>)
    requires
        distinct_keys(s),
    ensures
        distinct_keys(sorted_members(s)),
        forall|k: Seq<char>| #[trigger] has_key(sorted_members(s), k) == has_key(s, k),
    decreases s.len(),
{
    if s.len() > 0 {
        let rest = s.drop_last();
        let key = s.last().0;
        assert forall|i: int, j: int| 0 <= i < j < rest.len() implies #[trigger] rest[i].0
            != #[trigger] rest[j].0 by {
            assert(s[i].0 != s[j].0);
        }
        sorted_members_keys(rest);
        let m = sorted_members(rest);
        let at = in_order_inserts(m, key, sorted(s.last().1));
        let t = sorted_members(s);
        assert(!has_key(rest, key)) by {
            if has_key(rest, key) {
                let i = choose|i: int| 0 <= i < rest.len() && #[trigger] rest[i].0 == key;
                assert(s[i].0 != s[s.len() - 1].0);
            }
        }
        assert(!has_key(m, key));
        assert forall|i: int, j: int| 0 <= i < j < t.len() implies #[trigger] t[i].0
            != #[trigger] t[j].0 by {
            let x = if i < at {
                i
            } else {
                i - 1
            };
            let y = if j < at {
                j
            } else {
                j - 1
            };
            if i == at {
                assert(m[y].0 != key);
            } else if j == at {
                assert(m[x].0 != key);
            } else {
                assert(m[x].0 != m[y].0);
            }
        }
        assert forall|k: Seq<char>| #[trigger] has_key(t, k) == has_key(s, k) by {
            assert(has_key(m, k) == has_key(rest, k));
            if has_key(t, k) {
                let i = choose|i: int| 0 <= i < t.len() && #[trigger] t[i].0 == k;
                if i == at {
                    assert(s[s.len() - 1].0 == k);
                } else {
                    let x = if i < at {
                        i
                    } else {
                        i - 1
                    };
                    assert(m[x].0 == k);
                    let y = choose|y: int| 0 <= y < rest.len() && #[trigger] rest[y].0 == k;
                    assert(s[y].0 == k);
                }
            }
            if has_key(s, k) {
                let y = choose|y: int| 0 <= y < s.len() && #[trigger] s[y].0 == k;
                if y == s.len() - 1 {
                    assert(t[at].0 == k);
                } else {
                    assert(rest[y].0 == k);
                    let x = choose|x: int| 0 <= x < m.len() && #[trigger] m[x].0 == k;
                    let i = if x < at {
                        x
                    } else {
                        x + 1
                    };
                    assert(t[i].0 == k);
                }
            }
        }
    }
}

/// Sorted members stand in ascending order of their keys.
pub proof fn sorted_members_ascend(s: Seq<(Seq<char>, JsonTree)>)
    requires
        distinct_keys(s),
    ensures
        ascending(sorted_members(s)),
    decreases s.len(),
{
    if s.len() > 0 {
        let rest = s.drop_last();
        let key = s.last().0;
        assert forall|i: int, j: int| 0 <= i < j < rest.len() implies #[trigger] rest[i].0
            != #[trigger] rest[j].0 by {
            assert(s[i].0 != s[j].0);
        }
        sorted_members_ascend(rest);
        sorted_members_keys(rest);
        let m = sorted_members(rest);
        let at = in_order_inserts(m, key, sorted(s.last().1));
        let t = sorted_members(s);
        assert(!has_key(m, key)) by {
            if has_key(rest, key) {
                let i = choose|i: int| 0 <= i < rest.len() && #[trigger] rest[i].0 == key;
                assert(s[i].0 != s[s.len() - 1].0);
            }
        }
        assert forall|i: int, j: int| 0 <= i < j < t.len() implies text_before(
            #[trigger] t[i].0,
            #[trigger] t[j].0,
        ) by {
            if j < at {
                assert(text_before(m[i].0, m[j].0));
            } else if j == at {
                if i < at - 1 {
                    text_before_transitive(m[i].0, m[at - 1].0, key);
                }
            } else if i == at {
                text_before_total(m[at].0, key);
                assert(m[at].0 != key);
                if j - 1 > at {
                    text_before_transitive(key, m[at].0, m[j - 1].0);
                }
            } else if i < at {
                assert(text_before(m[i].0, m[j - 1].0));
            } else {
                assert(text_before(m[i - 1].0, m[j - 1].0));
            }
        }
    }
}

/// The document with the members of every object sorted by key.
pub fn sort_keys(j: &Json) -> (r: Json)
    ensures
        r@ == sorted(j@),
    decreases j,
{
    match j {
        Json::Array(items) => {
            let mut out: Vec<Json> = Vec::new();
            let mut i: usize = 0;
            while i < items.len()
                invariant
                    i <= items@.len(),
                    *j == Json::Array(*items),
                    out@.len() == i,
                    forall|k: int|
                        0 <= k < i ==> (#[trigger] out@[k]).tree() == sorted(items@[k].tree()),
                decreases items@.len() - i,
            {
                proof {
                    assert(decreases_to!(j => j->Array_0));
                    assert(decreases_to!(items => items@));
                    assert(decreases_to!(items@ => items@[i as int]));
                }
                out.push(sort_keys(&items[i]));
                i = i + 1;
            }
            let r = Json::Array(out);
            assert(r@->Array_0 =~= sorted(j@)->Array_0);
            r
        },
        Json::Object(o) => {
            proof {
                use_type_invariant(o);
            }
            let items = &o.entries;
            let mut out: Vec<(String, Json)> = Vec::new();
            let mut i: usize = 0;
            let ghost empty = JsonObject { entries: out };
            assert(empty.members() =~= sorted_members(o.members().take(0)));
            while i < items.len()
                invariant
                    i <= items@.len() == o.members().len(),
                    *j == Json::Object(*o),
                    *items == o.entries,
                    (JsonObject { entries: out }).members() == sorted_members(
                        o.members().take(i as int),
                    ),
                decreases items@.len() - i,
            {
                proof {
                    assert(decreases_to!(j => j->Object_0));
                    assert(decreases_to!(o => o.entries));
                    assert(decreases_to!(items => items@));
                    assert(decreases_to!(items@ => items@[i as int]));
                    assert(decreases_to!(items@[i as int] => items@[i as int].1));
                }
                let key = items[i].0.clone();
                let value = sort_keys(&items[i].1);
                let ghost m = (JsonObject { entries: out }).members();
                let ghost v0 = value@;
                let mut at: usize = out.len();
                assert(m.take(at as int) =~= m);
                assert(in_order(m, key@, v0) =~= in_order(m.take(at as int), key@, v0) + m.skip(
                    at as int,
                ));
                while at > 0 && !comes_before_entry(&out[at - 1].0, &key)
                    invariant
                        at <= out@.len() == m.len(),
                        m == (JsonObject { entries: out }).members(),
                        in_order(m, key@, v0) == in_order(m.take(at as int), key@, v0) + m.skip(
                            at as int,
                        ),
                    decreases at,
                {
                    proof {
                        assert(m.take(at as int).drop_last() =~= m.take(at - 1));
                        assert(m.take(at as int).last() == m[at - 1]);
                        assert(seq![m[at - 1]] + m.skip(at as int) =~= m.skip(at - 1));
                        assert(in_order(m.take(at as int), key@, v0) + m.skip(at as int) =~=
                            in_order(m.take(at - 1), key@, v0) + m.skip(at - 1));
                    }
                    at = at - 1;
                }
                proof {
                    if at > 0 {
                        assert(m.take(at as int).last() == m[at - 1]);
                    }
                    assert(in_order(m.take(at as int), key@, v0) =~= m.take(at as int).push(
                        (key@, v0),
                    ));
                }
                let ghost k0 = key@;
                out.insert(at, (key, value));
                proof {
                    let n = (JsonObject { entries: out }).members();
                    assert(n =~= m.take(at as int).push((k0, v0)) + m.skip(at as int));
                    assert(o.members().take(i + 1).drop_last() =~= o.members().take(i as int));
                }
                i = i + 1;
            }
            proof {
                assert(o.members().take(items@.len() as int) =~= o.members());
                sorted_members_keys(o.members());
            }
            Json::Object(JsonObject { entries: out })
        },
        _ => {
            proof {
                if let Json::Real(x) = j {
                    use_type_invariant(x);
                }
            }
            j.copy()
        },
    }
}

fn comes_before_entry(a: &String, b: &String) -> (r: bool)
    ensures
        r == text_before(a@, b@),
{
    comes_before(a.as_str(), b.as_str())
}

/// Sorted members answer each key with what stood under it, sorted.
pub proof fn sorted_members_answer(s: Seq<(Seq<char>, JsonTree)>, key: Seq<char>)
    requires
        distinct_keys(s),
    ensures
        sorted_members(s).len() == s.len(),
        lookup(sorted_members(s), key) == (match lookup(s, key) {
            Some(v) => Some(sorted(v)),
            None => None,
        }),
    decreases s.len(),
{
    if s.len() > 0 {
        let rest = s.drop_last();
        let last = s.last();
        assert forall|i: int, j: int| 0 <= i < j < rest.len() implies #[trigger] rest[i].0
            != #[trigger] rest[j].0 by {
            assert(s[i].0 != s[j].0);
        }
        sorted_members_answer(rest, key);
        sorted_members_ascend(rest);
        sorted_members_keys(rest);
        let m = sorted_members(rest);
        if has_key(rest, last.0) {
            let i = choose|i: int| 0 <= i < rest.len() && #[trigger] rest[i].0 == last.0;
            assert(s[i].0 != s[s.len() - 1].0);
        }
        in_order_answers(m, last.0, sorted(last.1));
        let at = in_order_inserts(m, last.0, sorted(last.1));
        if key == last.0 {
            lookup_distinct(s, s.len() - 1);
        } else if has_key(rest, key) {
            let i = choose|i: int| 0 <= i < rest.len() && #[trigger] rest[i].0 == key;
            assert(s[i] == rest[i]);
            lookup_distinct(s, i);
            lookup_distinct(rest, i);
        } else if has_key(s, key) {
            let i = choose|i: int| 0 <= i < s.len() && #[trigger] s[i].0 == key;
            assert(rest[i].0 == key);
        }
    }
}

/// Whatever `sort_keys` gives says what the document said: a text, a number, a truth value
/// and null stay as they are, an array keeps its items in their order, each sorted, and an
/// object answers each key with what stood under it, sorted, its keys in order.
pub proof fn sorting_keeps_what_is_said(j: &Json, r: Json, key: Seq<char>, i: int)
    requires
        call_ensures(sort_keys, (j,), r),
        j@ matches JsonTree::Object(s) ==> distinct_keys(s),
    ensures
        match j@ {
            JsonTree::Object(s) => r@ matches JsonTree::Object(m) && ascending(m) && m.len()
                == s.len() && lookup(m, key) == (match lookup(s, key) {
                Some(v) => Some(sorted(v)),
                None => None,
            }),
            JsonTree::Array(s) => r@ matches JsonTree::Array(m) && m.len() == s.len() && (0 <= i
                < s.len() ==> m[i] == sorted(s[i])),
            _ => r@ == j@,
        },
{
    if let JsonTree::Object(s) = j@ {
        sorted_members_answer(s, key);
        sorted_members_ascend(s);
    }
}

/// Whatever merging gives: an object over an object answers a key of the patch with the
/// patch merged over what stood there, or with the patch where nothing did, and every
/// other key as before; anything else is replaced by the patch whole.
pub proof fn merging_lets_the_patch_win(target: &Json, patch: &Json, r: Json, key: Seq<char>)
    requires
        call_ensures(merge_value, (target, patch), r),
        target@ matches JsonTree::Object(t) ==> distinct_keys(t),
        patch@ matches JsonTree::Object(p) ==> distinct_keys(p),
    ensures
        target@ is Object && patch@ is Object ==> {
            let t = target@->Object_0;
            let p = patch@->Object_0;
            &&& r@ is Object
            &&& lookup(r@->Object_0, key) == (match (lookup(t, key), lookup(p, key)) {
                (_, None) => lookup(t, key),
                (None, Some(v)) => Some(v),
                (Some(old), Some(v)) => Some(merged(old, v)),
            })
        },
        !(target@ is Object && patch@ is Object) ==> r@ == patch@,
{
    if target@ is Object && patch@ is Object {
        merged_members_answer(target@->Object_0, patch@->Object_0, key);
    }
}

/// Whatever a document answers: a key of an object with what stands under it; a text and
/// a number that fits only where one stands.
pub proof fn documents_answer_by_key(
    j: &Json,
    key: &str,
    got: Option<&Json>,
    text: Option<&str>,
    number: Option<u64>,
)
    requires
        call_ensures(Json::get, (j, key), got),
        call_ensures(Json::get_str, (j, key), text),
        call_ensures(Json::get_u64, (j, key), number),
    ensures
        match j@ {
            JsonTree::Object(s) => match lookup(s, key@) {
                Some(v) => {
                    &&& got matches Some(g) && g@ == v
                    &&& (text is Some) == (v is Text)
                    &&& v matches JsonTree::Text(w) ==> text->Some_0@ == w
                    &&& (number is Some) == (v matches JsonTree::Int(n) && 0 <= n
                        <= 18446744073709551615)
                    &&& v matches JsonTree::Int(n) ==> (number is Some ==> number->Some_0 == n)
                },
                None => got is None && text is None && number is None,
            },
            _ => got is None && text is None && number is None,
        },
{
}

} // verus!
