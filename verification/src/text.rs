//! Text as sequences of characters: ordering, trimming, numerals and joining.
//!
//! Everything the sentinel compares, prints or stores is text, so the contracts
//! of the other modules are written over `Seq<char>` with the functions below.

use vstd::prelude::*;
use vstd::string::*;

verus! {

/// `String::push`: the character goes to the end of the text.
pub assume_specification[ String::push ](s: &mut String, c: char)
    ensures
        final(s)@ == old(s)@.push(c),
;

/// The code points that carry the Unicode property White_Space.
pub open spec fn white_space(c: char) -> bool {
    let u = c as u32;
    ||| 0x9 <= u <= 0xD
    ||| u == 0x20
    ||| u == 0x85
    ||| u == 0xA0
    ||| u == 0x1680
    ||| 0x2000 <= u <= 0x200A
    ||| u == 0x2028
    ||| u == 0x2029
    ||| u == 0x202F
    ||| u == 0x205F
    ||| u == 0x3000
}

/// `char::is_whitespace`: whether the character has the property White_Space.
pub assume_specification[ char::is_whitespace ](c: char) -> (b: bool)
    ensures
        b == white_space(c),
;

/// What `str::to_lowercase` makes of a text.
pub uninterp spec fn lowercased(s: Seq<char>) -> Seq<char>;

/// The lower case of a character below 128.
pub open spec fn ascii_lower(c: char) -> char {
    if 'A' <= c && c <= 'Z' {
        ((c as u8 + 32) as u8) as char
    } else {
        c
    }
}

/// `str::to_lowercase`: the Unicode lower case of the text. On text below 128
/// that is the letters `A` to `Z` turned to `a` to `z` and nothing else; beyond
/// it the mapping is only named.
pub assume_specification[ str::to_lowercase ](s: &str) -> (r: String)
    ensures
        r@ == lowercased(s@),
        is_ascii(s) ==> r@ == s@.map_values(|c: char| ascii_lower(c)),
;

/// The characters of a text.
pub fn chars_of(s: &str) -> (r: Vec<char>)
    ensures
        r@ == s@,
{
    let mut out: Vec<char> = Vec::new();
    for c in it: s.chars()
        invariant
            out@ == s@.take(it.index() as int),
            it.seq() == s@,
    {
        out.push(c);
    }
    assert(s@.take(s@.len() as int) == s@);
    out
}

/// The text made of the characters from `from` up to, not including, `to`.
pub fn text_of(chars: &Vec<char>, from: usize, to: usize) -> (r: String)
    requires
        from <= to <= chars@.len(),
    ensures
        r@ == chars@.subrange(from as int, to as int),
{
    let mut out: String = String::new();
    let mut i: usize = from;
    assert(out@ == chars@.subrange(from as int, from as int));
    while i < to
        invariant
            from <= i <= to <= chars@.len(),
            out@ == chars@.subrange(from as int, i as int),
        decreases to - i,
    {
        out.push(chars[i]);
        assert(chars@.subrange(from as int, i as int).push(chars@[i as int]) == chars@.subrange(
            from as int,
            i + 1,
        ));
        i = i + 1;
    }
    out
}

/// Whether two texts hold the same characters.
pub fn same_text(a: &str, b: &str) -> (r: bool)
    ensures
        r == (a@ == b@),
{
    let x = chars_of(a);
    let y = chars_of(b);
    if x.len() != y.len() {
        return false;
    }
    let mut i: usize = 0;
    while i < x.len()
        invariant
            i <= x@.len(),
            x@.len() == y@.len(),
            x@ == a@,
            y@ == b@,
            forall|k: int| 0 <= k < i ==> x@[k] == y@[k],
        decreases x@.len() - i,
    {
        if x[i] != y[i] {
            assert(a@[i as int] != b@[i as int]);
            return false;
        }
        i = i + 1;
    }
    assert(a@ =~= b@);
    true
}

/// Whether a text begins with another one.
pub open spec fn begins_with(s: Seq<char>, prefix: Seq<char>) -> bool {
    prefix.len() <= s.len() && s.take(prefix.len() as int) == prefix
}

pub fn starts_with(s: &str, prefix: &str) -> (r: bool)
    ensures
        r == begins_with(s@, prefix@),
{
    let x = chars_of(s);
    let y = chars_of(prefix);
    if x.len() < y.len() {
        return false;
    }
    let mut i: usize = 0;
    while i < y.len()
        invariant
            i <= y@.len() <= x@.len(),
            x@ == s@,
            y@ == prefix@,
            forall|k: int| 0 <= k < i ==> x@[k] == y@[k],
        decreases y@.len() - i,
    {
        if x[i] != y[i] {
            assert(s@.take(prefix@.len() as int)[i as int] != prefix@[i as int]);
            return false;
        }
        i = i + 1;
    }
    assert(s@.take(prefix@.len() as int) =~= prefix@);
    true
}

// ---------------------------------------------------------------------------
// Order
// ---------------------------------------------------------------------------

/// The lexicographic order of texts by code point, which is the order of
/// `String` and of its UTF-8 bytes.
pub open spec fn text_before(a: Seq<char>, b: Seq<char>) -> bool
    decreases b.len(),
{
    if b.len() == 0 {
        false
    } else if a.len() == 0 {
        true
    } else if a[0] != b[0] {
        a[0] < b[0]
    } else {
        text_before(a.skip(1), b.skip(1))
    }
}

pub fn comes_before(a: &str, b: &str) -> (r: bool)
    ensures
        r == text_before(a@, b@),
{
    let x = chars_of(a);
    let y = chars_of(b);
    let mut i: usize = 0;
    assert(x@.skip(0) == x@ && y@.skip(0) == y@);
    while i < x.len() && i < y.len()
        invariant
            i <= x@.len(),
            i <= y@.len(),
            x@ == a@,
            y@ == b@,
            text_before(a@, b@) == text_before(x@.skip(i as int), y@.skip(i as int)),
        decreases x@.len() - i,
    {
        assert(x@.skip(i as int).skip(1) == x@.skip(i + 1));
        assert(y@.skip(i as int).skip(1) == y@.skip(i + 1));
        if x[i] != y[i] {
            return x[i] < y[i];
        }
        i = i + 1;
    }
    i < y.len()
}

/// No text comes before itself.
pub proof fn text_before_irreflexive(a: Seq<char>)
    ensures
        !text_before(a, a),
    decreases a.len(),
{
    if a.len() > 0 {
        text_before_irreflexive(a.skip(1));
    }
}

/// The order of texts is transitive.
pub proof fn text_before_transitive(a: Seq<char>, b: Seq<char>, c: Seq<char>)
    requires
        text_before(a, b),
        text_before(b, c),
    ensures
        text_before(a, c),
    decreases c.len(),
{
    if a.len() > 0 && a[0] == b[0] && b[0] == c[0] {
        text_before_transitive(a.skip(1), b.skip(1), c.skip(1));
    }
}

/// Of two different texts one comes before the other.
pub proof fn text_before_total(a: Seq<char>, b: Seq<char>)
    ensures
        a == b || text_before(a, b) || text_before(b, a),
    decreases b.len(),
{
    if a.len() > 0 && b.len() > 0 && a[0] == b[0] {
        text_before_total(a.skip(1), b.skip(1));
        if a.skip(1) == b.skip(1) {
            assert(a =~= b) by {
                assert forall|i: int| 0 <= i < a.len() implies a[i] == b[i] by {
                    if i > 0 {
                        assert(a.skip(1)[i - 1] == b.skip(1)[i - 1]);
                    }
                }
            }
        }
    } else if a.len() == 0 && b.len() == 0 {
        assert(a =~= b);
    }
}

// ---------------------------------------------------------------------------
// Trimming
// ---------------------------------------------------------------------------

/// A text without its leading white space.
pub open spec fn trimmed_front(s: Seq<char>) -> Seq<char>
    decreases s.len(),
{
    if s.len() > 0 && white_space(s[0]) {
        trimmed_front(s.skip(1))
    } else {
        s
    }
}

/// A text without its trailing white space.
pub open spec fn trimmed_back(s: Seq<char>) -> Seq<char>
    decreases s.len(),
{
    if s.len() > 0 && white_space(s.last()) {
        trimmed_back(s.drop_last())
    } else {
        s
    }
}

/// A text without the white space around it.
pub open spec fn trimmed(s: Seq<char>) -> Seq<char> {
    trimmed_back(trimmed_front(s))
}

pub fn trim(s: &str) -> (r: String)
    ensures
        r@ == trimmed(s@),
{
    let chars = chars_of(s);
    let n: usize = chars.len();
    let mut from: usize = 0;
    assert(chars@.skip(0) == chars@);
    while from < n && chars[from].is_whitespace()
        invariant
            from <= n == chars@.len(),
            chars@ == s@,
            trimmed_front(s@) == trimmed_front(chars@.skip(from as int)),
        decreases n - from,
    {
        assert(chars@.skip(from as int).skip(1) == chars@.skip(from + 1));
        from = from + 1;
    }
    assert(trimmed_front(s@) == chars@.skip(from as int));
    let mut to: usize = n;
    assert(chars@.skip(from as int) == chars@.subrange(from as int, n as int));
    while to > from && chars[to - 1].is_whitespace()
        invariant
            from <= to <= n == chars@.len(),
            trimmed(s@) == trimmed_back(chars@.subrange(from as int, to as int)),
        decreases to,
    {
        assert(chars@.subrange(from as int, to as int).drop_last() == chars@.subrange(
            from as int,
            to - 1,
        ));
        to = to - 1;
    }
    text_of(&chars, from, to)
}

// ---------------------------------------------------------------------------
// Numerals
// ---------------------------------------------------------------------------

/// The digit of a value below sixteen, in lower case.
pub open spec fn digit(d: nat) -> char
    recommends
        d < 16,
{
    if d < 10 {
        ((48 + d) as u8) as char
    } else {
        ((87 + d) as u8) as char
    }
}

/// Different values have different digits, none of which is a dash.
pub proof fn digits_differ(a: nat, b: nat)
    requires
        a < 16,
        b < 16,
        digit(a) == digit(b),
    ensures
        a == b,
        digit(a) != '-',
{
}

/// The shortest numeral of `n` in the given base, most significant digit first.
pub open spec fn numeral(n: nat, base: nat) -> Seq<char>
    recommends
        2 <= base <= 16,
    decreases n,
{
    if base < 2 || n < base {
        seq![digit(n)]
    } else {
        proof {
            vstd::arithmetic::div_mod::lemma_div_decreases(n as int, base as int);
        }
        numeral(n / base, base).push(digit(n % base))
    }
}

/// The decimal numeral of `n`.
pub open spec fn decimal(n: nat) -> Seq<char> {
    numeral(n, 10)
}

fn digit_char(d: u128) -> (c: char)
    requires
        d < 16,
    ensures
        c == digit(d as nat),
{
    if d < 10 {
        (48 + d as u8) as char
    } else {
        (87 + d as u8) as char
    }
}

/// The numeral of `n` in base ten or sixteen.
pub fn numeral_text(n: u128, base: u128) -> (r: String)
    requires
        base == 10 || base == 16,
    ensures
        r@ == numeral(n as nat, base as nat),
    decreases n,
{
    if n < base {
        let mut out: String = String::new();
        out.push(digit_char(n));
        assert(out@ =~= seq![digit(n as nat)]);
        out
    } else {
        let q: u128 = n / base;
        let mut out = numeral_text(q, base);
        out.push(digit_char(n % base));
        out
    }
}

pub fn decimal_text(n: u64) -> (r: String)
    ensures
        r@ == decimal(n as nat),
{
    numeral_text(n as u128, 10)
}

// ---------------------------------------------------------------------------
// Building
// ---------------------------------------------------------------------------

/// One text after another.
pub fn concat2(a: &str, b: &str) -> (r: String)
    ensures
        r@ == a@ + b@,
{
    let mut out: String = a.to_string();
    out.append(b);
    out
}

pub fn concat3(a: &str, b: &str, c: &str) -> (r: String)
    ensures
        r@ == a@ + b@ + c@,
{
    let mut out: String = concat2(a, b);
    out.append(c);
    out
}

/// A text with every backslash turned to a slash.
pub open spec fn slashed(s: Seq<char>) -> Seq<char> {
    s.map_values(|c: char| if c == '\\' { '/' } else { c })
}

pub fn slashed_text(s: &str) -> (r: String)
    ensures
        r@ == slashed(s@),
{
    let chars = chars_of(s);
    let mut out: String = String::new();
    let mut i: usize = 0;
    while i < chars.len()
        invariant
            i <= chars@.len(),
            chars@ == s@,
            out@ == slashed(s@.take(i as int)),
        decreases chars@.len() - i,
    {
        let c = if chars[i] == '\\' {
            '/'
        } else {
            chars[i]
        };
        out.push(c);
        assert(slashed(s@.take(i + 1)) =~= slashed(s@.take(i as int)).push(c));
        i = i + 1;
    }
    assert(s@.take(s@.len() as int) == s@);
    out
}

/// The texts of a list of strings.
pub open spec fn texts(list: Seq<String>) -> Seq<Seq<char>> {
    list.map_values(|s: String| s@)
}

/// A copy of a list of strings.
pub fn copy_texts(list: &Vec<String>) -> (r: Vec<String>)
    ensures
        texts(r@) == texts(list@),
        r@ == list@,
{
    let mut out: Vec<String> = Vec::new();
    let mut i: usize = 0;
    while i < list.len()
        invariant
            i <= list@.len(),
            out@ == list@.take(i as int),
        decreases list@.len() - i,
    {
        out.push(list[i].clone());
        assert(list@.take(i + 1) =~= list@.take(i as int).push(list@[i as int]));
        i = i + 1;
    }
    assert(list@.take(list@.len() as int) == list@);
    out
}

// ---------------------------------------------------------------------------
// Laws
// ---------------------------------------------------------------------------

/// The order of texts is that of dictionaries: by the first characters that differ, and
/// a text before those that go on from it.
pub proof fn text_order_is_by_first_difference(a: Seq<char>, b: Seq<char>)
    ensures
        text_before(a, b) == exists|n: int|
            0 <= n <= a.len() && n < b.len() && #[trigger] a.take(n) == b.take(n) && (n == a.len()
                || a[n] < b[n]),
    decreases b.len(),
{
    if b.len() > 0 {
        if a.len() == 0 {
            assert(a.take(0) =~= b.take(0));
        } else if a[0] != b[0] {
            assert(a.take(0) =~= b.take(0));
            if exists|n: int|
                0 <= n <= a.len() && n < b.len() && #[trigger] a.take(n) == b.take(n) && (n
                    == a.len() || a[n] < b[n]) {
                let n = choose|n: int|
                    0 <= n <= a.len() && n < b.len() && #[trigger] a.take(n) == b.take(n) && (n
                        == a.len() || a[n] < b[n]);
                if n > 0 {
                    assert(a.take(n)[0] == b.take(n)[0]);
                }
            }
        } else {
            let x = a.skip(1);
            let y = b.skip(1);
            text_order_is_by_first_difference(x, y);
            if text_before(x, y) {
                let n = choose|n: int|
                    0 <= n <= x.len() && n < y.len() && #[trigger] x.take(n) == y.take(n) && (n
                        == x.len() || x[n] < y[n]);
                assert(a.take(n + 1) =~= seq![a[0]] + x.take(n));
                assert(b.take(n + 1) =~= seq![b[0]] + y.take(n));
            }
            if exists|n: int|
                0 <= n <= a.len() && n < b.len() && #[trigger] a.take(n) == b.take(n) && (n
                    == a.len() || a[n] < b[n]) {
                let n = choose|n: int|
                    0 <= n <= a.len() && n < b.len() && #[trigger] a.take(n) == b.take(n) && (n
                        == a.len() || a[n] < b[n]);
                assert(n > 0);
                assert(x.take(n - 1) =~= a.take(n).skip(1));
                assert(y.take(n - 1) =~= b.take(n).skip(1));
            }
        }
    }
}

proof fn front_is_cut(s: Seq<char>) -> (from: int)
    ensures
        0 <= from <= s.len(),
        trimmed_front(s) == s.skip(from),
        forall|i: int| 0 <= i < from ==> white_space(#[trigger] s[i]),
        from < s.len() ==> !white_space(s[from]),
    decreases s.len(),
{
    if s.len() > 0 && white_space(s[0]) {
        let k = front_is_cut(s.skip(1));
        assert(s.skip(1).skip(k) =~= s.skip(k + 1));
        assert forall|i: int| 0 <= i < k + 1 implies white_space(#[trigger] s[i]) by {
            if i > 0 {
                assert(s.skip(1)[i - 1] == s[i]);
            }
        }
        k + 1
    } else {
        assert(s.skip(0) =~= s);
        0
    }
}

proof fn back_is_cut(s: Seq<char>) -> (to: int)
    ensures
        0 <= to <= s.len(),
        trimmed_back(s) == s.take(to),
        forall|i: int| to <= i < s.len() ==> white_space(#[trigger] s[i]),
        to > 0 ==> !white_space(s[to - 1]),
    decreases s.len(),
{
    if s.len() > 0 && white_space(s.last()) {
        let k = back_is_cut(s.drop_last());
        assert(s.drop_last().take(k) =~= s.take(k));
        assert forall|i: int| k <= i < s.len() implies white_space(#[trigger] s[i]) by {
            if i < s.len() - 1 {
                assert(s.drop_last()[i] == s[i]);
            }
        }
        k
    } else {
        assert(s.take(s.len() as int) =~= s);
        s.len() as int
    }
}

/// A text without the white space around it is a part of the text: around the part is
/// white space only, and the part neither begins nor ends with any.
pub proof fn trimming_takes_white_space_only(s: Seq<char>)
    ensures
        exists|from: int, to: int|
            {
                &&& 0 <= from <= to <= s.len()
                &&& trimmed(s) == #[trigger] s.subrange(from, to)
                &&& forall|i: int| 0 <= i < from ==> white_space(#[trigger] s[i])
                &&& forall|i: int| to <= i < s.len() ==> white_space(#[trigger] s[i])
                &&& from < to ==> !white_space(s[from]) && !white_space(s[to - 1])
            },
{
    let from = front_is_cut(s);
    let rest = s.skip(from);
    let n = back_is_cut(rest);
    assert(rest.take(n) =~= s.subrange(from, from + n));
    assert forall|i: int| from + n <= i < s.len() implies white_space(#[trigger] s[i]) by {
        assert(rest[i - from] == s[i]);
    }
    if n > 0 {
        assert(rest[n - 1] == s[from + n - 1]);
        assert(from < s.len());
    }
}

/// A slashed text has a slash for each backslash, and every other character as it was.
pub proof fn slashing_turns_backslashes_only(s: Seq<char>, i: int)
    requires
        0 <= i < s.len(),
    ensures
        slashed(s).len() == s.len(),
        slashed(s)[i] == if s[i] == '\\' {
            '/'
        } else {
            s[i]
        },
{
}

/// A decimal numeral has the digit of the rest by ten after the numeral of the tenth.
pub proof fn decimals_grow_by_digits(n: nat)
    ensures
        n < 10 ==> decimal(n).len() == 1 && decimal(n)[0] as u32 == 48 + n,
        n >= 10 ==> decimal(n).drop_last() == decimal(n / 10) && decimal(n).last() as u32 == 48 + n
            % 10,
{
    if n >= 10 {
        assert(decimal(n).drop_last() =~= decimal(n / 10));
    }
}

/// Whatever these give: `starts_with` tells whether the text is the prefix with something
/// after it, `same_text` whether the texts are one, `comes_before` their order.
pub proof fn texts_are_told_apart(a: &str, b: &str, starts: bool, same: bool, before: bool)
    requires
        call_ensures(starts_with, (a, b), starts),
        call_ensures(same_text, (a, b), same),
        call_ensures(comes_before, (a, b), before),
    ensures
        starts == exists|rest: Seq<char>| a@ == #[trigger] (b@ + rest),
        same == (a@ == b@),
        before == text_before(a@, b@),
{
    if starts {
        assert(a@ =~= b@ + a@.skip(b@.len() as int));
    }
    if exists|rest: Seq<char>| a@ == #[trigger] (b@ + rest) {
        let rest = choose|rest: Seq<char>| a@ == #[trigger] (b@ + rest);
        assert((b@ + rest).take(b@.len() as int) =~= b@);
    }
}

/// A numeral has the digit of the rest by the base after the numeral of the part: from
/// `0` to `9`, then from `a` on.
pub proof fn numerals_grow_by_digits(n: nat, base: nat)
    requires
        2 <= base <= 16,
    ensures
        n < base ==> numeral(n, base).len() == 1,
        n >= base ==> numeral(n, base).drop_last() == numeral(n / base, base),
        ({
            let d = n % base;
            numeral(n, base).last() as u32 == if d < 10 {
                48 + d
            } else {
                87 + d
            }
        }),
{
    if n < base {
        vstd::arithmetic::div_mod::lemma_small_mod(n, base);
    } else {
        vstd::arithmetic::div_mod::lemma_mod_bound(n as int, base as int);
        assert(numeral(n, base).drop_last() =~= numeral(n / base, base));
    }
}

} // verus!
