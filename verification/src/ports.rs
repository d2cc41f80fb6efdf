//! Port allowlists: single ports and inclusive `"start-end"` ranges.

use crate::text::{chars_of, concat3, decimal, decimal_text, digit, text_of, texts, trim, trimmed};
use std::collections::BTreeSet;
use vstd::prelude::*;
use vstd::string::*;

verus! {

/// A single entry of `[ports].allowed`: either a bare port number or an
/// inclusive range written as a string, e.g. `"8000-8100"`.
#[derive(Debug, Clone)]
pub enum PortSpec {
    Port(u16),
    Range(String),
}

/// What an entry of the allowlist says.
pub enum PortSpecModel {
    Port(u16),
    Range(Seq<char>),
}

impl View for PortSpec {
    type V = PortSpecModel;

    open spec fn view(&self) -> PortSpecModel {
        match *self {
            PortSpec::Port(p) => PortSpecModel::Port(p),
            PortSpec::Range(s) => PortSpecModel::Range(s@),
        }
    }
}

/// What the entries of an allowlist say.
pub open spec fn port_specs(list: Seq<PortSpec>) -> Seq<PortSpecModel> {
    list.map_values(|s: PortSpec| s@)
}

// ---------------------------------------------------------------------------
// Port numerals
// ---------------------------------------------------------------------------

pub open spec fn is_digit(c: char) -> bool {
    '0' <= c && c <= '9'
}

pub open spec fn all_digits(s: Seq<char>) -> bool {
    forall|i: int| 0 <= i < s.len() ==> is_digit(#[trigger] s[i])
}

/// The value of a string of decimal digits.
pub open spec fn digits_value(s: Seq<char>) -> nat
    decreases s.len(),
{
    if s.len() == 0 {
        0
    } else {
        digits_value(s.drop_last()) * 10 + (s.last() as u32 - 48) as nat
    }
}

/// The port that a numeral names: an optional `+`, then digits only, at least one,
/// of a value below 65536.
pub open spec fn port_of(s: Seq<char>) -> Option<u16> {
    let d = if s.len() > 0 && s[0] == '+' {
        s.skip(1)
    } else {
        s
    };
    if d.len() > 0 && all_digits(d) && digits_value(d) <= u16::MAX {
        Some(digits_value(d) as u16)
    } else {
        None
    }
}

/// More digits never make a smaller value.
proof fn digits_value_grows(s: Seq<char>, n: int)
    requires
        0 <= n <= s.len(),
    ensures
        digits_value(s.take(n)) <= digits_value(s),
    decreases s.len() - n,
{
    if n < s.len() {
        digits_value_grows(s, n + 1);
        assert(s.take(n + 1).drop_last() =~= s.take(n));
    } else {
        assert(s.take(n) =~= s);
    }
}

/// Reads a port numeral.
pub fn parse_port(text: &str) -> (r: Option<u16>)
    ensures
        r == port_of(text@),
{
    let chars = chars_of(text);
    let n: usize = chars.len();
    let from: usize = if n > 0 && chars[0] == '+' {
        1
    } else {
        0
    };
    let ghost d = chars@.skip(from as int);
    assert(from == 0 ==> d =~= chars@);
    if from == n {
        return None;
    }
    let mut value: u32 = 0;
    let mut i: usize = from;
    assert(d.take(0) =~= Seq::<char>::empty());
    while i < n
        invariant
            from <= i <= n == chars@.len(),
            d == chars@.skip(from as int),
            d == (if text@.len() > 0 && text@[0] == '+' {
                text@.skip(1)
            } else {
                text@
            }),
            value == digits_value(d.take(i - from)),
            value <= u16::MAX,
            forall|k: int| 0 <= k < i - from ==> is_digit(#[trigger] d[k]),
        decreases n - i,
    {
        let c = chars[i];
        assert(d[i - from] == c);
        if c < '0' || c > '9' {
            assert(!is_digit(d[i - from]));
            return None;
        }
        proof {
            assert(d.take(i - from + 1).drop_last() =~= d.take(i - from));
            digits_value_grows(d, i - from + 1);
        }
        value = value * 10 + (c as u32 - 48);
        if value > 65535 {
            return None;
        }
        i = i + 1;
    }
    assert(d.take(n - from) =~= d);
    Some(value as u16)
}

// ---------------------------------------------------------------------------
// Ranges
// ---------------------------------------------------------------------------

/// Why a text is no port range.
#[derive(Debug, Clone, PartialEq, Eq)]
pub enum RangeError {
    /// There is no `-` in it.
    NoDash,
    /// This part of it is no port.
    BadPort(String),
    /// The first port is greater than the second.
    Reversed(u16, u16),
}

/// What a range error says.
pub enum RangeFault {
    NoDash,
    BadPort(Seq<char>),
    Reversed(u16, u16),
}

impl View for RangeError {
    type V = RangeFault;

    open spec fn view(&self) -> RangeFault {
        match *self {
            RangeError::NoDash => RangeFault::NoDash,
            RangeError::BadPort(s) => RangeFault::BadPort(s@),
            RangeError::Reversed(a, b) => RangeFault::Reversed(a, b),
        }
    }
}

/// The message of a range error.
pub open spec fn fault_text(f: RangeFault) -> Seq<char> {
    match f {
        RangeFault::NoDash => "expected format 'start-end', e.g. '8000-8100'"@,
        RangeFault::BadPort(s) => "'"@ + s + "' is not a valid port"@,
        RangeFault::Reversed(a, b) => "start port "@ + decimal(a as nat)
            + " is greater than end port "@ + decimal(b as nat),
    }
}

impl RangeError {
    pub fn message(&self) -> (r: String)
        ensures
            r@ == fault_text(self@),
    {
        match self {
            RangeError::NoDash => "expected format 'start-end', e.g. '8000-8100'".to_string(),
            RangeError::BadPort(s) => concat3("'", s.as_str(), "' is not a valid port"),
            RangeError::Reversed(a, b) => {
                let mut out = concat3(
                    "start port ",
                    decimal_text(*a as u64).as_str(),
                    " is greater than end port ",
                );
                out.append(decimal_text(*b as u64).as_str());
                out
            },
        }
    }
}

/// Whether the first `-` of a text stands at an index.
pub open spec fn first_dash(s: Seq<char>, at: int) -> bool {
    0 <= at < s.len() && s[at] == '-' && forall|i: int| 0 <= i < at ==> #[trigger] s[i] != '-'
}

/// The two texts around the first `-`.
pub open spec fn around_dash(s: Seq<char>) -> Option<(Seq<char>, Seq<char>)> {
    if exists|at: int| first_dash(s, at) {
        let at = choose|at: int| first_dash(s, at);
        Some((s.take(at), s.skip(at + 1)))
    } else {
        None
    }
}

/// The inclusive range that a text names: two port numerals around the first `-`,
/// white space around each, the first not above the second.
pub open spec fn range_of(s: Seq<char>) -> Result<(u16, u16), RangeFault> {
    match around_dash(s) {
        None => Err(RangeFault::NoDash),
        Some((a, b)) => match port_of(trimmed(a)) {
            None => Err(RangeFault::BadPort(trimmed(a))),
            Some(start) => match port_of(trimmed(b)) {
                None => Err(RangeFault::BadPort(trimmed(b))),
                Some(end) => if start > end {
                    Err(RangeFault::Reversed(start, end))
                } else {
                    Ok((start, end))
                },
            },
        },
    }
}

/// The ports of an inclusive range, in order.
pub open spec fn ports_between(start: u16, end: u16) -> Seq<u16> {
    Seq::new((end - start + 1) as nat, |i: int| (start + i) as u16)
}

/// What came of reading a range.
pub open spec fn range_outcome(r: Result<Vec<u16>, RangeError>) -> Result<Seq<u16>, RangeFault> {
    match r {
        Ok(v) => Ok(v@),
        Err(e) => Err(e@),
    }
}

/// Reads an inclusive port range, e.g. `"8000-8100"`, into its ports.
pub fn parse_range(text: &str) -> (r: Result<Vec<u16>, RangeError>)
    ensures
        range_outcome(r) == (match range_of(text@) {
            Ok((start, end)) => Ok(ports_between(start, end)),
            Err(f) => Err(f),
        }),
{
    let chars = chars_of(text);
    let n: usize = chars.len();
    let mut at: usize = 0;
    while at < n && chars[at] != '-'
        invariant
            at <= n == chars@.len(),
            forall|i: int| 0 <= i < at ==> #[trigger] chars@[i] != '-',
        decreases n - at,
    {
        at = at + 1;
    }
    if at == n {
        assert forall|i: int| !first_dash(text@, i) by {}
        return Err(RangeError::NoDash);
    }
    proof {
        assert(first_dash(text@, at as int));
        let other = choose|i: int| first_dash(text@, i);
        if other < at {
            assert(chars@[other] != '-');
        }
        assert(other == at);
        assert(chars@.subrange(0, at as int) =~= text@.take(at as int));
        assert(chars@.subrange(at + 1, n as int) =~= text@.skip(at + 1));
    }
    let start_s = trim(text_of(&chars, 0, at).as_str());
    let end_s = trim(text_of(&chars, at + 1, n).as_str());
    let start: u16 = match parse_port(start_s.as_str()) {
        Some(p) => p,
        None => return Err(RangeError::BadPort(start_s)),
    };
    let end: u16 = match parse_port(end_s.as_str()) {
        Some(p) => p,
        None => return Err(RangeError::BadPort(end_s)),
    };
    if start > end {
        return Err(RangeError::Reversed(start, end));
    }
    let mut ports: Vec<u16> = Vec::new();
    let mut p: u32 = start as u32;
    while p <= end as u32
        invariant
            start <= p <= end + 1,
            ports@ == ports_between(start, end).take(p - start),
        decreases end + 1 - p,
    {
        ports.push(p as u16);
        assert(ports@ =~= ports_between(start, end).take(p - start + 1));
        p = p + 1;
    }
    assert(ports@ =~= ports_between(start, end));
    Ok(ports)
}

// ---------------------------------------------------------------------------
// Allowlists
// ---------------------------------------------------------------------------

/// Whether an entry of the allowlist admits a port.
pub open spec fn admits(spec: PortSpecModel, port: u16) -> bool {
    match spec {
        PortSpecModel::Port(p) => p == port,
        PortSpecModel::Range(s) => match range_of(s) {
            Ok((start, end)) => start <= port <= end,
            Err(_) => false,
        },
    }
}

/// The ports that an allowlist admits.
pub open spec fn allowed_ports(specs: Seq<PortSpecModel>) -> Set<u16> {
    Set::new(|p: u16| exists|i: int| 0 <= i < specs.len() && admits(#[trigger] specs[i], p))
}

/// The warning for an entry that is no range.
pub open spec fn range_warning(text: Seq<char>, f: RangeFault) -> Seq<char> {
    "invalid port range '"@ + text + "': "@ + fault_text(f)
}

/// The warnings for an allowlist: one for each malformed range, in order.
pub open spec fn port_warnings(specs: Seq<PortSpecModel>) -> Seq<Seq<char>>
    decreases specs.len(),
{
    if specs.len() == 0 {
        Seq::empty()
    } else {
        let before = port_warnings(specs.drop_last());
        match specs.last() {
            PortSpecModel::Port(_) => before,
            PortSpecModel::Range(s) => match range_of(s) {
                Ok(_) => before,
                Err(f) => before.push(range_warning(s, f)),
            },
        }
    }
}

/// Adds every port of a list to a set.
fn add_ports(set: &mut BTreeSet<u16>, ports: &Vec<u16>)
    ensures
        forall|p: u16| #[trigger]
            final(set)@.contains(p) == (old(set)@.contains(p) || ports@.contains(p)),
{
    broadcast use vstd::std_specs::btree::group_btree_axioms;

    let mut i: usize = 0;
    while i < ports.len()
        invariant
            i <= ports@.len(),
            forall|p: u16| #[trigger]
                set@.contains(p) == (old(set)@.contains(p) || ports@.take(i as int).contains(p)),
        decreases ports@.len() - i,
    {
        let ghost was = set@;
        set.insert(ports[i]);
        assert forall|p: u16| #[trigger] set@.contains(p) == (old(set)@.contains(p)
            || ports@.take(i + 1).contains(p)) by {
            assert(ports@.take(i + 1) =~= ports@.take(i as int).push(ports@[i as int]));
            if ports@.take(i as int).contains(p) {
                let k = ports@.take(i as int).index_of(p);
                assert(ports@.take(i + 1)[k] == p);
            }
            if p == ports@[i as int] {
                assert(ports@.take(i + 1)[i as int] == p);
            }
            if ports@.take(i + 1).contains(p) {
                let k = ports@.take(i + 1).index_of(p);
                if k < i {
                    assert(ports@.take(i as int)[k] == p);
                }
            }
        }
        i = i + 1;
    }
    assert(ports@.take(ports@.len() as int) =~= ports@);
}

/// Expand port specs (single values and inclusive `"start-end"` ranges) into a
/// set of ports. Malformed entries are reported as warnings instead of failing.
pub fn expand_ports(specs: &[PortSpec]) -> (r: (BTreeSet<u16>, Vec<String>))
    ensures
        r.0@ == allowed_ports(port_specs(specs@)),
        texts(r.1@) == port_warnings(port_specs(specs@)),
{
    broadcast use vstd::std_specs::btree::group_btree_axioms;

    let mut ports: BTreeSet<u16> = BTreeSet::new();
    let mut warnings: Vec<String> = Vec::new();
    let mut i: usize = 0;
    let ghost all = port_specs(specs@);
    assert(all.take(0) =~= Seq::<PortSpecModel>::empty());
    while i < specs.len()
        invariant
            i <= specs@.len(),
            all == port_specs(specs@),
            forall|p: u16| #[trigger]
                ports@.contains(p) == allowed_ports(all.take(i as int)).contains(p),
            texts(warnings@) == port_warnings(all.take(i as int)),
        decreases specs@.len() - i,
    {
        let ghost was = ports@;
        let ghost told = warnings@;
        let ghost here = all.take(i as int);
        let ghost next = all.take(i + 1);
        proof {
            assert(next.drop_last() =~= here);
            assert(next.last() == specs@[i as int]@);
            assert(next =~= here.push(specs@[i as int]@));
        }
        match &specs[i] {
            PortSpec::Port(p) => {
                ports.insert(*p);
            },
            PortSpec::Range(text) => match parse_range(text.as_str()) {
                Ok(range) => {
                    add_ports(&mut ports, &range);
                    proof {
                        let (start, end) = range_of(text@)->Ok_0;
                        assert forall|p: u16| range@.contains(p) == (start <= p <= end) by {
                            if start <= p <= end {
                                assert(range@[p - start] == p);
                            }
                        }
                    }
                },
                Err(e) => {
                    let mut line = concat3("invalid port range '", text.as_str(), "': ");
                    line.append(e.message().as_str());
                    warnings.push(line);
                    assert(texts(warnings@) =~= texts(told).push(line@));
                },
            },
        }
        assert forall|p: u16| #[trigger] ports@.contains(p) == allowed_ports(next).contains(p) by {
            assert(was.contains(p) == allowed_ports(here).contains(p));
            if allowed_ports(here).contains(p) {
                let k = choose|k: int| 0 <= k < here.len() && admits(#[trigger] here[k], p);
                assert(next[k] == here[k]);
            }
            if admits(next[i as int], p) {
                assert(allowed_ports(next).contains(p));
            }
            if allowed_ports(next).contains(p) {
                let k = choose|k: int| 0 <= k < next.len() && admits(#[trigger] next[k], p);
                if k < i {
                    assert(here[k] == next[k]);
                }
            }
        }
        i = i + 1;
    }
    assert(all.take(specs@.len() as int) =~= all);
    assert(ports@ =~= allowed_ports(all));
    (ports, warnings)
}

// ---------------------------------------------------------------------------
// Laws
// ---------------------------------------------------------------------------

/// A decimal numeral is made of digits and reads as its number.
pub proof fn decimal_reads_back(n: nat)
    ensures
        decimal(n).len() > 0,
        all_digits(decimal(n)),
        digits_value(decimal(n)) == n,
    decreases n,
{
    let s = decimal(n);
    if n < 10 {
        assert(s =~= seq![digit(n)]);
        assert(s.drop_last() =~= Seq::<char>::empty());
        assert(digits_value(s.drop_last()) == 0);
        assert(s.last() as u32 == 48 + n);
    } else {
        decimal_reads_back(n / 10);
        assert(s.drop_last() =~= decimal(n / 10));
        assert(s.last() as u32 == 48 + n % 10);
    }
}

/// A text without white space at its ends is its own trimmed text.
proof fn nothing_to_trim(s: Seq<char>)
    requires
        all_digits(s),
    ensures
        trimmed(s) == s,
{
    if s.len() > 0 {
        assert(is_digit(s[0]));
        assert(is_digit(s[s.len() - 1]));
    }
}

/// The range written as two decimal numerals around a `-` admits exactly the ports
/// from the first to the second, and gives no warning.
pub proof fn written_range_admits_its_ports(start: u16, end: u16, port: u16)
    requires
        start <= end,
    ensures
        ({
            let spec = PortSpecModel::Range(
                decimal(start as nat) + seq!['-'] + decimal(end as nat),
            );
            &&& allowed_ports(seq![spec]).contains(port) == (start <= port <= end)
            &&& port_warnings(seq![spec]).len() == 0
        }),
{
    let a = decimal(start as nat);
    let b = decimal(end as nat);
    let s = a + seq!['-'] + b;
    decimal_reads_back(start as nat);
    decimal_reads_back(end as nat);
    let n = a.len() as int;
    assert(s[n] == '-');
    assert forall|i: int| 0 <= i < n implies #[trigger] s[i] != '-' by {
        assert(is_digit(a[i]));
    }
    assert(first_dash(s, n));
    let at = choose|at: int| first_dash(s, at);
    assert(at == n) by {
        if at < n {
            assert(s[at] != '-');
        }
    }
    assert(s.take(n) =~= a);
    assert(s.skip(n + 1) =~= b);
    nothing_to_trim(a);
    nothing_to_trim(b);
    assert(is_digit(a[0]) && is_digit(b[0]));
    assert(range_of(s) == Ok::<(u16, u16), RangeFault>((start, end)));
    let spec = PortSpecModel::Range(s);
    let list = seq![spec];
    assert(list.drop_last() =~= Seq::<PortSpecModel>::empty());
    assert(list[0] == spec);
    assert(list.last() == spec);
    reveal_with_fuel(port_warnings, 2);
    if start <= port <= end {
        assert(admits(list[0], port));
    }
}

/// A port is admitted by two allowlists in a row exactly when one of them admits
/// it: entries never take a port away.
pub proof fn allowlists_add_up(a: Seq<PortSpecModel>, b: Seq<PortSpecModel>, port: u16)
    ensures
        allowed_ports(a + b).contains(port) == (allowed_ports(a).contains(port)
            || allowed_ports(b).contains(port)),
{
    let both = a + b;
    if allowed_ports(a).contains(port) {
        let i = choose|i: int| 0 <= i < a.len() && admits(#[trigger] a[i], port);
        assert(admits(both[i], port));
    }
    if allowed_ports(b).contains(port) {
        let i = choose|i: int| 0 <= i < b.len() && admits(#[trigger] b[i], port);
        assert(admits(both[i + a.len()], port));
    }
    if allowed_ports(both).contains(port) {
        let i = choose|i: int| 0 <= i < both.len() && admits(#[trigger] both[i], port);
        if i < a.len() {
            assert(admits(a[i], port));
        } else {
            assert(admits(b[i - a.len()], port));
        }
    }
}

/// A digit more makes ten times the value and the digit.
pub proof fn digits_count_by_ten(s: Seq<char>, c: char)
    ensures
        digits_value(Seq::empty()) == 0,
        is_digit(c) ==> digits_value(s.push(c)) == digits_value(s) * 10 + (c as u32 - '0' as u32),
{
    assert(s.push(c).drop_last() =~= s);
}

/// A text names a port exactly if it is digits, one at least, after a `+` or none, and
/// their value is that of a port; it is then the port.
pub proof fn ports_are_numerals(s: Seq<char>, d: Seq<char>, port: u16)
    requires
        s == d && (s.len() == 0 || s[0] != '+') || s == seq!['+'] + d,
    ensures
        (port_of(s) == Some(port)) == (d.len() > 0 && digits_value(d) == port && forall|i: int|
            0 <= i < d.len() ==> '0' <= #[trigger] d[i] && d[i] <= '9'),
{
    if s == seq!['+'] + d {
        assert(s[0] == '+');
        assert(s.skip(1) =~= d);
    }
    if all_digits(d) {
        assert forall|i: int| 0 <= i < d.len() implies '0' <= #[trigger] d[i] && d[i] <= '9' by {
            assert(is_digit(d[i]));
        }
    }
    if forall|i: int| 0 <= i < d.len() ==> '0' <= #[trigger] d[i] && d[i] <= '9' {
        assert forall|i: int| 0 <= i < d.len() implies is_digit(#[trigger] d[i]) by {}
        assert(all_digits(d));
    }
}

proof fn dash_stands_first(a: Seq<char>, b: Seq<char>)
    requires
        !a.contains('-'),
    ensures
        around_dash(a + seq!['-'] + b) == Some((a, b)),
{
    let s = a + seq!['-'] + b;
    let n = a.len() as int;
    assert forall|i: int| 0 <= i < n implies #[trigger] s[i] != '-' by {
        assert(a.contains(a[i]));
    }
    assert(first_dash(s, n));
    let at = choose|at: int| first_dash(s, at);
    assert(at == n) by {
        if at < n {
            assert(s[at] != '-');
        }
    }
    assert(s.take(n) =~= a);
    assert(s.skip(n + 1) =~= b);
}

/// Whatever `parse_range` gives for two parts around the first `-`: where both are ports,
/// white space around them aside, and the first is not above the second, all ports from
/// the first to the second, in order; else which part is no port, or that they stand the
/// wrong way round. A text without `-` is no range.
pub proof fn ranges_hold_all_between(
    text: &str,
    r: Result<Vec<u16>, RangeError>,
    a: Seq<char>,
    b: Seq<char>,
)
    requires
        call_ensures(parse_range, (text,), r),
    ensures
        !text@.contains('-') ==> (r matches Err(e) && e@ is NoDash),
        text@ == a + seq!['-'] + b && !a.contains('-') ==> match (
            port_of(trimmed(a)),
            port_of(trimmed(b)),
        ) {
            (None, _) => r matches Err(e) && e@ == RangeFault::BadPort(trimmed(a)),
            (Some(_), None) => r matches Err(e) && e@ == RangeFault::BadPort(trimmed(b)),
            (Some(start), Some(end)) => if start <= end {
                r matches Ok(v) && v@.len() == end - start + 1 && forall|i: int|
                    0 <= i < v@.len() ==> #[trigger] v@[i] == start + i
            } else {
                r matches Err(e) && e@ == RangeFault::Reversed(start, end)
            },
        },
{
    if !text@.contains('-') {
        assert forall|at: int| !first_dash(text@, at) by {
            if first_dash(text@, at) {
                assert(text@.contains(text@[at]));
            }
        }
    }
    if text@ == a + seq!['-'] + b && !a.contains('-') {
        dash_stands_first(a, b);
    }
}

/// Whatever `expand_ports` gives, a port is allowed exactly if one of the entries, at
/// whatever place, is the port itself or a range around it.
pub proof fn every_entry_allows_its_ports(
    specs: &[PortSpec],
    r: (BTreeSet<u16>, Vec<String>),
    port: u16,
)
    requires
        call_ensures(expand_ports, (specs,), r),
    ensures
        r.0@.contains(port) == exists|i: int|
            0 <= i < specs@.len() && match #[trigger] specs@[i] {
                PortSpec::Port(p) => p == port,
                PortSpec::Range(text) => range_of(text@) matches Ok((start, end)) && start <= port
                    <= end,
            },
{
    let all = port_specs(specs@);
    assert forall|i: int| 0 <= i < specs@.len() implies #[trigger] all[i] == specs@[i]@ by {}
    if r.0@.contains(port) {
        let i = choose|i: int| 0 <= i < all.len() && admits(#[trigger] all[i], port);
        let spec = specs@[i];
        assert(all[i] == spec@);
    }
    if exists|i: int|
        0 <= i < specs@.len() && match #[trigger] specs@[i] {
            PortSpec::Port(p) => p == port,
            PortSpec::Range(text) => range_of(text@) matches Ok((start, end)) && start <= port
                <= end,
        } {
        let i = choose|i: int|
            0 <= i < specs@.len() && match #[trigger] specs@[i] {
                PortSpec::Port(p) => p == port,
                PortSpec::Range(text) => range_of(text@) matches Ok((start, end)) && start <= port
                    <= end,
            };
        assert(admits(all[i], port));
    }
}

/// A range is two port numerals around the first `-`, white space around them aside, the
/// first not above the second.
pub proof fn ranges_are_two_ports(a: Seq<char>, b: Seq<char>, start: u16, end: u16)
    requires
        !a.contains('-'),
    ensures
        (range_of(a + seq!['-'] + b) == Ok::<(u16, u16), RangeFault>((start, end))) == (port_of(
            trimmed(a),
        ) == Some(start) && port_of(trimmed(b)) == Some(end) && start <= end),
{
    dash_stands_first(a, b);
}

/// Each entry that is no range is warned of, in turn, with what is wrong with it; an
/// entry that is one never is.
pub proof fn malformed_ranges_are_warned_of(specs: Seq<PortSpecModel>, spec: PortSpecModel)
    ensures
        ({
            let before = port_warnings(specs);
            let after = port_warnings(specs.push(spec));
            match spec {
                PortSpecModel::Port(_) => after == before,
                PortSpecModel::Range(s) => match range_of(s) {
                    Ok(_) => after == before,
                    Err(f) => after == before.push(
                        "invalid port range '"@ + s + "': "@ + match f {
                            RangeFault::NoDash => "expected format 'start-end', e.g. '8000-8100'"@,
                            RangeFault::BadPort(p) => "'"@ + p + "' is not a valid port"@,
                            RangeFault::Reversed(a, b) => "start port "@ + decimal(a as nat)
                                + " is greater than end port "@ + decimal(b as nat),
                        },
                    ),
                },
            }
        }),
        port_warnings(Seq::empty()).len() == 0,
{
    assert(specs.push(spec).drop_last() =~= specs);
}

/// Whatever `expand_ports` gives, its warnings are those for the entries, in order.
pub proof fn warnings_are_for_the_entries(specs: &[PortSpec], r: (BTreeSet<u16>, Vec<String>))
    requires
        call_ensures(expand_ports, (specs,), r),
    ensures
        texts(r.1@) == port_warnings(specs@.map_values(|s: PortSpec| s@)),
{
}

} // verus!
