//! The shared rules of the stored documents: how lists and records stand in JSON
//! and how they are read back.

use crate::json::{text_in, Json, JsonObject, JsonTree};
use crate::text::{concat2, texts};
use crate::textmap::lookup;
use vstd::prelude::*;

verus! {

/// A document that does not have the shape of the record it should hold.
#[derive(Debug, Clone, PartialEq, Eq)]
pub struct Misfit {
    /// The place in the record, e.g. `watch.paths`.
    pub at: String,
}

impl View for Misfit {
    type V = Seq<char>;

    open spec fn view(&self) -> Seq<char> {
        self.at@
    }
}

impl Misfit {
    pub fn new(at: &str) -> (r: Self)
        ensures
            r@ == at@,
    {
        Misfit { at: at.to_string() }
    }

    pub fn message(&self) -> (r: String)
        ensures
            r@ == "unexpected value at "@ + self@,
    {
        concat2("unexpected value at ", self.at.as_str())
    }
}

// ---------------------------------------------------------------------------
// Records
// ---------------------------------------------------------------------------

/// Whether a document can hold a record of `n` fields: an object, or an array of
/// at most `n` values in the order of the fields.
pub open spec fn record_of(t: JsonTree, n: nat) -> bool {
    match t {
        JsonTree::Object(_) => true,
        JsonTree::Array(s) => s.len() <= n,
        _ => false,
    }
}

/// The value of a field of a record: by its name in an object, by its place in an
/// array.
pub open spec fn field(t: JsonTree, name: Seq<char>, place: int) -> Option<JsonTree> {
    match t {
        JsonTree::Object(s) => lookup(s, name),
        JsonTree::Array(s) => if 0 <= place < s.len() {
            Some(s[place])
        } else {
            None
        },
        _ => None,
    }
}

pub fn is_record(j: &Json, n: usize) -> (r: bool)
    ensures
        r == record_of(j@, n as nat),
{
    match j {
        Json::Object(_) => true,
        Json::Array(items) => items.len() <= n,
        Json::Real(x) => {
            x.is_number();
            false
        },
        _ => false,
    }
}

pub fn read_field<'a>(j: &'a Json, name: &str, place: usize) -> (r: Option<&'a Json>)
    ensures
        r is Some == field(j@, name@, place as int) is Some,
        r matches Some(v) ==> field(j@, name@, place as int) == Some(v@),
{
    match j {
        Json::Object(o) => o.get(name),
        Json::Array(items) => if place < items.len() {
            Some(&items[place])
        } else {
            None
        },
        Json::Real(x) => {
            x.is_number();
            None
        },
        _ => None,
    }
}

/// A document of one member.
pub(crate) fn object1(key: &str, value: Json) -> (r: Json)
    ensures
        r@ == JsonTree::Object(seq![(key@, value@)]),
{
    let ghost v0 = value@;
    let o = JsonObject::new().with(key.to_string(), value);
    assert(o@ =~= seq![(key@, v0)]);
    Json::Object(o)
}

/// A document of two members.
pub(crate) fn object2(first: &str, a: Json, second: &str, b: Json) -> (r: Json)
    requires
        first@ != second@,
    ensures
        r@ == JsonTree::Object(seq![(first@, a@), (second@, b@)]),
{
    let ghost all = seq![(first@, a@), (second@, b@)];
    let o = JsonObject::new().with(first.to_string(), a);
    assert(o@ =~= all.take(1));
    let o = o.with(second.to_string(), b);
    assert(o@ =~= all);
    Json::Object(o)
}

/// A document of three members.
pub(crate) fn object3(first: &str, a: Json, second: &str, b: Json, third: &str, c: Json) -> (r: Json)
    requires
        first@ != second@,
        first@ != third@,
        second@ != third@,
    ensures
        r@ == JsonTree::Object(seq![(first@, a@), (second@, b@), (third@, c@)]),
{
    let ghost all = seq![(first@, a@), (second@, b@), (third@, c@)];
    let o = JsonObject::new().with(first.to_string(), a);
    assert(o@ =~= all.take(1));
    let o = o.with(second.to_string(), b);
    assert(o@ =~= all.take(2));
    let o = o.with(third.to_string(), c);
    assert(o@ =~= all);
    Json::Object(o)
}

// ---------------------------------------------------------------------------
// Texts
// ---------------------------------------------------------------------------

/// A list of texts as a document.
pub open spec fn texts_tree(list: Seq<Seq<char>>) -> JsonTree {
    JsonTree::Array(list.map_values(|s: Seq<char>| JsonTree::Text(s)))
}

pub fn texts_json(list: &Vec<String>) -> (r: Json)
    ensures
        r@ == texts_tree(texts(list@)),
{
    let mut out: Vec<Json> = Vec::new();
    let mut i: usize = 0;
    while i < list.len()
        invariant
            i <= list@.len(),
            out@.len() == i,
            forall|k: int| 0 <= k < i ==> (#[trigger] out@[k])@ == JsonTree::Text(list@[k]@),
        decreases list@.len() - i,
    {
        out.push(Json::Text(list[i].clone()));
        i = i + 1;
    }
    let r = Json::Array(out);
    assert(r@->Array_0 =~= texts_tree(texts(list@))->Array_0);
    r
}

/// The list of texts that a document is, if it is one.
pub open spec fn texts_in(t: JsonTree) -> Option<Seq<Seq<char>>> {
    match t {
        JsonTree::Array(s) => if forall|i: int| 0 <= i < s.len() ==> (#[trigger] s[i]) is Text {
            Some(s.map_values(|e: JsonTree| e->Text_0))
        } else {
            None
        },
        _ => None,
    }
}

/// A list of texts survives being written and read.
pub proof fn texts_read_back(list: Seq<Seq<char>>)
    ensures
        texts_in(texts_tree(list)) == Some(list),
{
    let s = texts_tree(list)->Array_0;
    assert(s.map_values(|e: JsonTree| e->Text_0) =~= list);
}

/// What came of reading a list of texts.
pub open spec fn read_list(r: Option<Vec<String>>) -> Option<Seq<Seq<char>>> {
    match r {
        Some(v) => Some(texts(v@)),
        None => None,
    }
}

pub fn read_texts(j: &Json) -> (r: Option<Vec<String>>)
    ensures
        read_list(r) == texts_in(j@),
{
    match j {
        Json::Array(items) => {
            let ghost s = j@->Array_0;
            let mut out: Vec<String> = Vec::new();
            let mut i: usize = 0;
            while i < items.len()
                invariant
                    i <= items@.len(),
                    s == j@->Array_0,
                    *j == Json::Array(*items),
                    out@.len() == i,
                    forall|k: int|
                        0 <= k < i ==> (#[trigger] s[k]) == JsonTree::Text(out@[k]@),
                decreases items@.len() - i,
            {
                assert(s[i as int] == items@[i as int]@);
                match items[i].as_str() {
                    Some(text) => {
                        out.push(text.to_string());
                    },
                    None => {
                        return None;
                    },
                }
                i = i + 1;
            }
            assert(texts(out@) =~= s.map_values(|e: JsonTree| e->Text_0));
            Some(out)
        },
        Json::Real(x) => {
            x.is_number();
            None
        },
        _ => None,
    }
}

/// The text of a required field.
pub open spec fn text_field(t: JsonTree, name: Seq<char>, place: int) -> Option<Seq<char>> {
    match field(t, name, place) {
        Some(v) => text_in(v),
        None => None,
    }
}

pub fn read_text(j: &Json, name: &str, place: usize) -> (r: Option<String>)
    ensures
        r is Some == text_field(j@, name@, place as int) is Some,
        r matches Some(s) ==> text_field(j@, name@, place as int) == Some(s@),
{
    match read_field(j, name, place) {
        Some(v) => match v.as_str() {
            Some(s) => Some(s.to_string()),
            None => None,
        },
        None => None,
    }
}

/// The integer of a required field.
pub open spec fn int_field(t: JsonTree, name: Seq<char>, place: int) -> Option<int> {
    match field(t, name, place) {
        Some(JsonTree::Int(n)) => Some(n),
        _ => None,
    }
}

pub fn read_int(j: &Json, name: &str, place: usize) -> (r: Option<i128>)
    ensures
        r is Some == int_field(j@, name@, place as int) is Some,
        r matches Some(n) ==> int_field(j@, name@, place as int) == Some(n as int),
        r matches Some(n) ==> i64::MIN <= n <= u64::MAX,
{
    match read_field(j, name, place) {
        Some(Json::Uint(u)) => Some(*u as i128),
        Some(Json::Int(i)) => Some(*i as i128),
        Some(Json::Real(x)) => {
            x.is_number();
            None
        },
        _ => None,
    }
}

/// A document is a list of texts exactly if it is an array of them, in their order.
pub proof fn lists_are_arrays_of_texts(t: JsonTree, list: Seq<Seq<char>>)
    ensures
        (texts_in(t) == Some(list)) == (t matches JsonTree::Array(s) && s.len() == list.len()
            && forall|i: int| 0 <= i < s.len() ==> #[trigger] s[i] == JsonTree::Text(list[i])),
{
    if let JsonTree::Array(s) = t {
        if texts_in(t) == Some(list) {
            assert forall|i: int| 0 <= i < s.len() implies #[trigger] s[i] == JsonTree::Text(
                list[i],
            ) by {
                assert(s[i] is Text);
            }
        }
        if s.len() == list.len() && forall|i: int|
            0 <= i < s.len() ==> #[trigger] s[i] == JsonTree::Text(list[i]) {
            assert(s.map_values(|e: JsonTree| e->Text_0) =~= list);
        }
    }
}

/// A record is an object, or an array no longer than its fields; a field is read by its
/// name from an object and by its place from an array.
pub proof fn records_are_objects_or_lists(
    j: &Json,
    n: usize,
    name: &str,
    place: usize,
    fits: bool,
    v: Option<&Json>,
)
    requires
        call_ensures(is_record, (j, n), fits),
        call_ensures(read_field, (j, name, place), v),
    ensures
        match j@ {
            JsonTree::Object(s) => fits && (match lookup(s, name@) {
                Some(t) => v matches Some(x) && x@ == t,
                None => v is None,
            }),
            JsonTree::Array(s) => fits == (s.len() <= n) && (if place < s.len() {
                v matches Some(x) && x@ == s[place as int]
            } else {
                v is None
            }),
            _ => !fits && v is None,
        },
{
}

} // verus!
