//! Maps keyed by text and walked in the order of their keys.

use crate::text::{
    comes_before, same_text, text_before, text_before_irreflexive, text_before_total,
    text_before_transitive,
};
use vstd::prelude::*;

verus! {

/// Whether the keys stand in strictly ascending order, so that none occurs twice.
pub open spec fn ascending<V>(s: Seq<(Seq<char>, V)>) -> bool {
    forall|i: int, j: int| 0 <= i < j < s.len() ==> text_before(#[trigger] s[i].0, #[trigger] s[j].0)
}

/// The place of a key: how many keys stand before it.
pub open spec fn is_place<V>(s: Seq<(Seq<char>, V)>, key: Seq<char>, at: int) -> bool {
    &&& 0 <= at <= s.len()
    &&& forall|i: int| 0 <= i < at ==> text_before(#[trigger] s[i].0, key)
    &&& forall|i: int| at <= i < s.len() ==> !text_before(#[trigger] s[i].0, key)
}

/// Whether the entries hold the key.
pub open spec fn has_key<V>(s: Seq<(Seq<char>, V)>, key: Seq<char>) -> bool {
    exists|i: int| 0 <= i < s.len() && #[trigger] s[i].0 == key
}

/// The value under a key, if there is one.
pub open spec fn lookup<V>(s: Seq<(Seq<char>, V)>, key: Seq<char>) -> Option<V> {
    if has_key(s, key) {
        Some(s[choose|i: int| 0 <= i < s.len() && #[trigger] s[i].0 == key].1)
    } else {
        None
    }
}

/// The keys, in order.
pub open spec fn keys<V>(s: Seq<(Seq<char>, V)>) -> Seq<Seq<char>> {
    s.map_values(|e: (Seq<char>, V)| e.0)
}

/// In ascending entries the value at an index is the value under its key.
pub proof fn lookup_at<V>(s: Seq<(Seq<char>, V)>, i: int)
    requires
        ascending(s),
        0 <= i < s.len(),
    ensures
        has_key(s, s[i].0),
        lookup(s, s[i].0) == Some(s[i].1),
{
    let key = s[i].0;
    assert forall|j: int| 0 <= j < s.len() && #[trigger] s[j].0 == key implies j == i by {
        text_before_irreflexive(key);
        if i < j {
            assert(text_before(s[i].0, s[j].0));
        } else if j < i {
            assert(text_before(s[j].0, s[i].0));
        }
    }
}

/// Ascending entries that answer every key alike are the same entries.
pub proof fn same_lookups_same_entries<V>(a: Seq<(Seq<char>, V)>, b: Seq<(Seq<char>, V)>)
    requires
        ascending(a),
        ascending(b),
        forall|key: Seq<char>| #[trigger] lookup(a, key) == lookup(b, key),
    ensures
        a == b,
    decreases a.len(),
{
    if a.len() == 0 {
        if b.len() > 0 {
            lookup_at(b, 0);
            assert(lookup(a, b[0].0) == lookup(b, b[0].0));
        }
        assert(a =~= b);
    } else {
        let k = a.last().0;
        lookup_at(a, a.len() - 1);
        assert(lookup(b, k) == Some(a.last().1));
        let i = choose|i: int| 0 <= i < b.len() && #[trigger] b[i].0 == k;
        lookup_at(b, i);
        lookup_at(b, b.len() - 1);
        let m = b.last().0;
        assert(lookup(a, m) == lookup(b, m));
        let j = choose|j: int| 0 <= j < a.len() && #[trigger] a[j].0 == m;
        if i < b.len() - 1 {
            assert(text_before(b[i].0, b[b.len() - 1].0));
            if j < a.len() - 1 {
                assert(text_before(a[j].0, a[a.len() - 1].0));
                text_before_transitive(k, m, k);
            }
            text_before_irreflexive(k);
        }
        assert(b.last() == a.last());
        let a1 = a.drop_last();
        let b1 = b.drop_last();
        assert forall|key: Seq<char>| #[trigger] lookup(a1, key) == lookup(b1, key) by {
            assert(lookup(a, key) == lookup(b, key));
            text_before_irreflexive(k);
            if has_key(a1, key) {
                let x = choose|x: int| 0 <= x < a1.len() && #[trigger] a1[x].0 == key;
                lookup_at(a1, x);
                lookup_at(a, x);
                assert(a1[x] == a[x]);
                assert(text_before(a[x].0, a[a.len() - 1].0));
                let y = choose|y: int| 0 <= y < b.len() && #[trigger] b[y].0 == key;
                assert(y < b.len() - 1);
                assert(b1[y] == b[y]);
                lookup_at(b1, y);
                lookup_at(b, y);
            } else if has_key(b1, key) {
                let y = choose|y: int| 0 <= y < b1.len() && #[trigger] b1[y].0 == key;
                lookup_at(b1, y);
                lookup_at(b, y);
                assert(b1[y] == b[y]);
                assert(text_before(b[y].0, b[b.len() - 1].0));
                let x = choose|x: int| 0 <= x < a.len() && #[trigger] a[x].0 == key;
                assert(x < a.len() - 1);
                assert(a1[x] == a[x]);
            }
        }
        same_lookups_same_entries(a1, b1);
        assert(a =~= a1.push(a.last()));
        assert(b =~= b1.push(b.last()));
    }
}

/// The entries with one more put before those whose keys do not come before it.
pub open spec fn in_order<V>(s: Seq<(Seq<char>, V)>, key: Seq<char>, value: V) -> Seq<
    (Seq<char>, V),
>
    decreases s.len(),
{
    if s.len() == 0 || text_before(s.last().0, key) {
        s.push((key, value))
    } else {
        in_order(s.drop_last(), key, value).push(s.last())
    }
}

/// Putting a key in order is inserting it somewhere.
pub proof fn in_order_inserts<V>(s: Seq<(Seq<char>, V)>, key: Seq<char>, value: V) -> (at: int)
    ensures
        0 <= at <= s.len(),
        in_order(s, key, value) == s.insert(at, (key, value)),
        at > 0 ==> text_before(s[at - 1].0, key),
        at < s.len() ==> !text_before(s[at].0, key),
    decreases s.len(),
{
    if s.len() == 0 || text_before(s.last().0, key) {
        assert(s.push((key, value)) =~= s.insert(s.len() as int, (key, value)));
        s.len() as int
    } else {
        let at = in_order_inserts(s.drop_last(), key, value);
        assert(s.drop_last().insert(at, (key, value)).push(s.last()) =~= s.insert(
            at,
            (key, value),
        ));
        at
    }
}

/// Putting a new key in order keeps the order, adds what the key answers and
/// changes nothing else.
pub proof fn in_order_answers<V>(s: Seq<(Seq<char>, V)>, key: Seq<char>, value: V)
    requires
        ascending(s),
        !has_key(s, key),
    ensures
        ascending(in_order(s, key, value)),
        lookup(in_order(s, key, value), key) == Some(value),
        forall|k: Seq<char>|
            k != key ==> #[trigger] lookup(in_order(s, key, value), k) == lookup(s, k),
{
    let at = in_order_inserts(s, key, value);
    assert(is_place(s, key, at)) by {
        assert forall|i: int| 0 <= i < at implies text_before(#[trigger] s[i].0, key) by {
            if i < at - 1 {
                text_before_transitive(s[i].0, s[at - 1].0, key);
            }
        }
        assert forall|i: int| at <= i < s.len() implies !text_before(#[trigger] s[i].0, key) by {
            if i > at && text_before(s[i].0, key) {
                text_before_transitive(s[at].0, s[i].0, key);
            }
        }
    }
    inserted(s, at, key, value, in_order(s, key, value));
}

/// A map from texts to values that keeps its keys in order.
#[derive(Debug)]
pub struct TextMap<V> {
    entries: Vec<(String, V)>,
}

impl<V> View for TextMap<V> {
    type V = Seq<(Seq<char>, V)>;

    closed spec fn view(&self) -> Seq<(Seq<char>, V)> {
        self.entries@.map_values(|e: (String, V)| (e.0@, e.1))
    }
}

impl<V> TextMap<V> {
    #[verifier::type_invariant]
    spec fn ordered(self) -> bool {
        ascending(self@)
    }

    pub fn new() -> (r: Self)
        ensures
            r@ == Seq::<(Seq<char>, V)>::empty(),
    {
        let r = TextMap { entries: Vec::new() };
        assert(r@ =~= Seq::<(Seq<char>, V)>::empty());
        r
    }

    /// How many keys the map holds; they stand in ascending order.
    pub fn len(&self) -> (n: usize)
        ensures
            n == self@.len(),
            ascending(self@),
    {
        proof {
            use_type_invariant(self);
        }
        self.entries.len()
    }

    pub fn is_empty(&self) -> (b: bool)
        ensures
            b == (self@.len() == 0),
    {
        self.entries.len() == 0
    }

    /// The key and the value at an index of the order.
    pub fn entry(&self, i: usize) -> (r: (&String, &V))
        requires
            i < self@.len(),
        ensures
            r.0@ == self@[i as int].0,
            *r.1 == self@[i as int].1,
    {
        let e = &self.entries[i];
        (&e.0, &e.1)
    }

    /// Where a key stands or would stand.
    fn place(&self, key: &str) -> (at: usize)
        ensures
            is_place(self@, key@, at as int),
    {
        proof {
            use_type_invariant(self);
        }
        let mut lo: usize = 0;
        let mut hi: usize = self.entries.len();
        while lo < hi
            invariant
                lo <= hi <= self@.len(),
                self.entries@.len() == self@.len(),
                ascending(self@),
                forall|i: int| 0 <= i < lo ==> text_before(#[trigger] self@[i].0, key@),
                forall|i: int| hi <= i < self@.len() ==> !text_before(#[trigger] self@[i].0, key@),
            decreases hi - lo,
        {
            let mid: usize = lo + (hi - lo) / 2;
            assert(self@[mid as int].0 == self.entries@[mid as int].0@);
            if comes_before(self.entries[mid].0.as_str(), key) {
                assert forall|i: int| 0 <= i < mid + 1 implies text_before(
                    #[trigger] self@[i].0,
                    key@,
                ) by {
                    if i < mid {
                        text_before_transitive(self@[i].0, self@[mid as int].0, key@);
                    }
                }
                lo = mid + 1;
            } else {
                assert forall|i: int| mid <= i < self@.len() implies !text_before(
                    #[trigger] self@[i].0,
                    key@,
                ) by {
                    if i > mid && text_before(self@[i].0, key@) {
                        text_before_transitive(self@[mid as int].0, self@[i].0, key@);
                    }
                }
                hi = mid;
            }
        }
        lo
    }

    /// Whether the key at a place is the key asked for.
    fn holds_at(&self, at: usize, key: &str) -> (b: bool)
        requires
            is_place(self@, key@, at as int),
        ensures
            b == has_key(self@, key@),
            b ==> at < self@.len() && self@[at as int].0 == key@,
    {
        proof {
            use_type_invariant(self);
        }
        if at < self.entries.len() {
            assert(self@[at as int].0 == self.entries@[at as int].0@);
            let b = same_text(self.entries[at].0.as_str(), key);
            proof {
                if !b && has_key(self@, key@) {
                    let i = choose|i: int| 0 <= i < self@.len() && #[trigger] self@[i].0 == key@;
                    text_before_irreflexive(key@);
                    if i > at {
                        assert(text_before(self@[at as int].0, self@[i].0));
                    }
                }
            }
            b
        } else {
            proof {
                if has_key(self@, key@) {
                    let i = choose|i: int| 0 <= i < self@.len() && #[trigger] self@[i].0 == key@;
                    text_before_irreflexive(key@);
                }
            }
            false
        }
    }

    /// The value under a key.
    pub fn get(&self, key: &str) -> (r: Option<&V>)
        ensures
            r is Some == has_key(self@, key@),
            r matches Some(v) ==> lookup(self@, key@) == Some(*v),
    {
        let at: usize = self.place(key);
        if self.holds_at(at, key) {
            proof {
                use_type_invariant(self);
                lookup_at(self@, at as int);
            }
            Some(&self.entries[at].1)
        } else {
            None
        }
    }

    pub fn contains_key(&self, key: &str) -> (b: bool)
        ensures
            b == has_key(self@, key@),
    {
        let at: usize = self.place(key);
        self.holds_at(at, key)
    }

    /// The map with a value put under a key, in place of the one that was there.
    pub fn with(self, key: String, value: V) -> (r: Self)
        ensures
            lookup(r@, key@) == Some(value),
            forall|k: Seq<char>| k != key@ ==> #[trigger] lookup(r@, k) == lookup(self@, k),
            !has_key(self@, key@) ==> r@ == in_order(self@, key@, value),
            has_key(self@, key@) ==> keys(r@) == keys(self@),
            ascending(r@),
    {
        proof {
            use_type_invariant(&self);
        }
        let at: usize = self.place(key.as_str());
        let held: bool = self.holds_at(at, key.as_str());
        let ghost old = self@;
        let ghost k0 = key@;
        let mut entries = self.entries;
        if held {
            entries.set(at, (key, value));
        } else {
            entries.insert(at, (key, value));
        }
        let ghost new = entries@.map_values(|e: (String, V)| (e.0@, e.1));
        proof {
            if held {
                assert(new =~= old.update(at as int, (k0, value)));
                replaced(old, at as int, value, new);
                assert(keys(new) =~= keys(old));
            } else {
                assert(new =~= old.insert(at as int, (k0, value)));
                inserted(old, at as int, k0, value, new);
                in_order_answers(old, k0, value);
                assert forall|k: Seq<char>| #[trigger] lookup(new, k) == lookup(
                    in_order(old, k0, value),
                    k,
                ) by {}
                same_lookups_same_entries(new, in_order(old, k0, value));
            }
        }
        TextMap { entries }
    }

    /// The map with a value put under a key that it did not hold; a key that it
    /// holds keeps its value.
    pub fn with_first(self, key: String, value: V) -> (r: Self)
        ensures
            has_key(self@, key@) ==> r@ == self@,
            !has_key(self@, key@) ==> r@ == in_order(self@, key@, value),
            !has_key(self@, key@) ==> lookup(r@, key@) == Some(value),
            forall|k: Seq<char>| k != key@ ==> #[trigger] lookup(r@, k) == lookup(self@, k),
    {
        if self.contains_key(key.as_str()) {
            self
        } else {
            self.with(key, value)
        }
    }
}

/// Replacing the value at an index changes what its key answers and nothing else.
proof fn replaced<V>(s: Seq<(Seq<char>, V)>, at: int, value: V, t: Seq<(Seq<char>, V)>)
    requires
        ascending(s),
        0 <= at < s.len(),
        t == s.update(at, (s[at].0, value)),
    ensures
        ascending(t),
        lookup(t, s[at].0) == Some(value),
        forall|k: Seq<char>| k != s[at].0 ==> #[trigger] lookup(t, k) == lookup(s, k),
{
    assert forall|i: int, j: int| 0 <= i < j < t.len() implies text_before(
        #[trigger] t[i].0,
        #[trigger] t[j].0,
    ) by {
        assert(text_before(s[i].0, s[j].0));
    }
    lookup_at(t, at);
    assert forall|k: Seq<char>| k != s[at].0 implies #[trigger] lookup(t, k) == lookup(s, k) by {
        if has_key(s, k) {
            let i = choose|i: int| 0 <= i < s.len() && #[trigger] s[i].0 == k;
            assert(t[i] == s[i]);
            lookup_at(s, i);
            lookup_at(t, i);
        } else if has_key(t, k) {
            let i = choose|i: int| 0 <= i < t.len() && #[trigger] t[i].0 == k;
            assert(s[i].0 == k);
        }
    }
}

/// Inserting a new key at its place adds what it answers and changes nothing else.
proof fn inserted<V>(
    s: Seq<(Seq<char>, V)>,
    at: int,
    key: Seq<char>,
    value: V,
    t: Seq<(Seq<char>, V)>,
)
    requires
        ascending(s),
        is_place(s, key, at),
        !has_key(s, key),
        t == s.insert(at, (key, value)),
    ensures
        ascending(t),
        lookup(t, key) == Some(value),
        forall|k: Seq<char>| k != key ==> #[trigger] lookup(t, k) == lookup(s, k),
{
    assert forall|i: int, j: int| 0 <= i < j < t.len() implies text_before(
        #[trigger] t[i].0,
        #[trigger] t[j].0,
    ) by {
        if j < at {
            assert(text_before(s[i].0, s[j].0));
        } else if j == at {
            assert(text_before(s[i].0, key));
        } else if i == at {
            assert(!text_before(s[j - 1].0, key));
            text_before_total(s[j - 1].0, key);
        } else if i < at {
            assert(text_before(s[i].0, s[j - 1].0));
        } else {
            assert(text_before(s[i - 1].0, s[j - 1].0));
        }
    }
    assert(t[at].0 == key);
    lookup_at(t, at);
    assert forall|k: Seq<char>| k != key implies #[trigger] lookup(t, k) == lookup(s, k) by {
        if has_key(s, k) {
            let i = choose|i: int| 0 <= i < s.len() && #[trigger] s[i].0 == k;
            let j = if i < at {
                i
            } else {
                i + 1
            };
            assert(t[j] == s[i]);
            lookup_at(s, i);
            lookup_at(t, j);
        } else if has_key(t, k) {
            let j = choose|j: int| 0 <= j < t.len() && #[trigger] t[j].0 == k;
            let i = if j < at {
                j
            } else {
                j - 1
            };
            assert(s[i].0 == k);
        }
    }
}

impl<V: Clone> Clone for TextMap<V> {
    fn clone(&self) -> (r: Self)
        ensures
            r@.len() == self@.len(),
            forall|i: int|
                0 <= i < r@.len() ==> (#[trigger] r@[i]).0 == self@[i].0 && cloned::<V>(
                    self@[i].1,
                    r@[i].1,
                ),
    {
        proof {
            use_type_invariant(self);
        }
        let mut entries: Vec<(String, V)> = Vec::new();
        let mut i: usize = 0;
        while i < self.entries.len()
            invariant
                i <= self.entries@.len(),
                entries@.len() == i,
                forall|k: int|
                    0 <= k < i ==> (#[trigger] entries@[k]).0 == self.entries@[k].0 && cloned::<V>(
                        self.entries@[k].1,
                        entries@[k].1,
                    ),
            decreases self.entries@.len() - i,
        {
            let e = &self.entries[i];
            entries.push((e.0.clone(), e.1.clone()));
            i = i + 1;
        }
        let ghost copy = TextMap { entries };
        assert forall|x: int, y: int| 0 <= x < y < copy@.len() implies text_before(
            #[trigger] copy@[x].0,
            #[trigger] copy@[y].0,
        ) by {
            assert(entries@[x].0 == self.entries@[x].0 && entries@[y].0 == self.entries@[y].0);
            assert(text_before(self@[x].0, self@[y].0));
        }
        TextMap { entries }
    }
}

} // verus!
