//! Name patterns: `*` globs and case-insensitive matching against lists of them.

use crate::text::{begins_with, chars_of, lowercased, texts};
use vstd::prelude::*;

verus! {

/// Whether `text` matches `pattern`: a `*` stands for any run of characters, the
/// empty one included, and every other character for itself.
pub open spec fn glob_matches(pattern: Seq<char>, text: Seq<char>) -> bool
    decreases pattern.len(),
{
    if pattern.len() == 0 {
        text.len() == 0
    } else if pattern[0] == '*' {
        exists|k: int|
            0 <= k <= text.len() && glob_matches(pattern.skip(1), #[trigger] text.skip(k))
    } else {
        text.len() > 0 && text[0] == pattern[0] && glob_matches(pattern.skip(1), text.skip(1))
    }
}

/// A leading `*` either takes nothing or one more character of the text.
proof fn star_step(pattern: Seq<char>, text: Seq<char>)
    requires
        pattern.len() > 0,
        pattern[0] == '*',
    ensures
        glob_matches(pattern, text) == (glob_matches(pattern.skip(1), text) || (text.len() > 0
            && glob_matches(pattern, text.skip(1)))),
{
    let rest = pattern.skip(1);
    assert(text.skip(0) == text);
    if glob_matches(rest, text) {
        assert(glob_matches(rest, text.skip(0)));
    }
    if text.len() > 0 && glob_matches(pattern, text.skip(1)) {
        let k = choose|k: int|
            0 <= k <= text.skip(1).len() && glob_matches(rest, #[trigger] text.skip(1).skip(k));
        assert(text.skip(1).skip(k) == text.skip(k + 1));
    }
    if glob_matches(pattern, text) {
        let k = choose|k: int| 0 <= k <= text.len() && glob_matches(rest, #[trigger] text.skip(k));
        if k > 0 {
            assert(text.skip(1).skip(k - 1) == text.skip(k));
        }
    }
}

/// Minimal glob: `*` matches any sequence (including empty); everything else
/// is literal.
pub fn glob_match(pattern: &str, text: &str) -> (r: bool)
    ensures
        r == glob_matches(pattern@, text@),
{
    let p = chars_of(pattern);
    let t = chars_of(text);
    let n: usize = t.len();
    // `row[j]` tells whether the rest of the pattern matches the text from `j` on.
    let mut row: Vec<bool> = Vec::new();
    let mut j: usize = 0;
    while j < n
        invariant
            j <= n == t@.len(),
            row@.len() == j,
            forall|m: int| 0 <= m < j ==> row@[m] == false,
        decreases n - j,
    {
        row.push(false);
        j = j + 1;
    }
    row.push(true);
    let mut i: usize = p.len();
    assert(forall|m: int|
        0 <= m <= n ==> row@[m] == glob_matches(p@.skip(i as int), #[trigger] t@.skip(m)));
    while i > 0
        invariant
            i <= p@.len(),
            n == t@.len(),
            row@.len() == n + 1,
            forall|m: int|
                0 <= m <= n ==> row@[m] == glob_matches(p@.skip(i as int), #[trigger] t@.skip(m)),
        decreases i,
    {
        let ghost before = row@;
        let ghost rest = p@.skip(i as int);
        i = i - 1;
        let ghost whole = p@.skip(i as int);
        assert(whole.skip(1) == rest);
        assert(whole[0] == p@[i as int]);
        if p[i] == '*' {
            let mut j: usize = n;
            proof {
                star_step(whole, t@.skip(n as int));
            }
            while j > 0
                invariant
                    j <= n == t@.len(),
                    row@.len() == n + 1,
                    before.len() == n + 1,
                    whole.len() > 0,
                    whole[0] == '*',
                    whole.skip(1) == rest,
                    forall|m: int|
                        0 <= m <= n ==> before[m] == glob_matches(rest, #[trigger] t@.skip(m)),
                    forall|m: int| 0 <= m < j ==> row@[m] == before[m],
                    forall|m: int|
                        j <= m <= n ==> row@[m] == glob_matches(whole, #[trigger] t@.skip(m)),
                decreases j,
            {
                j = j - 1;
                proof {
                    star_step(whole, t@.skip(j as int));
                    assert(t@.skip(j as int).skip(1) == t@.skip(j + 1));
                }
                let b: bool = row[j] || row[j + 1];
                row.set(j, b);
            }
        } else {
            let mut j: usize = 0;
            while j < n
                invariant
                    j <= n == t@.len(),
                    i < p@.len(),
                    row@.len() == n + 1,
                    before.len() == n + 1,
                    whole.len() > 0,
                    whole[0] == p@[i as int],
                    whole[0] != '*',
                    whole.skip(1) == rest,
                    forall|m: int|
                        0 <= m <= n ==> before[m] == glob_matches(rest, #[trigger] t@.skip(m)),
                    forall|m: int| j <= m <= n ==> row@[m] == before[m],
                    forall|m: int|
                        0 <= m < j ==> row@[m] == glob_matches(whole, #[trigger] t@.skip(m)),
                decreases n - j,
            {
                proof {
                    assert(t@.skip(j as int).skip(1) == t@.skip(j + 1));
                    assert(t@.skip(j as int)[0] == t@[j as int]);
                }
                let b: bool = t[j] == p[i] && row[j + 1];
                row.set(j, b);
                j = j + 1;
            }
            row.set(n, false);
            assert(t@.skip(n as int).len() == 0);
        }
    }
    assert(p@.skip(0) == p@ && t@.skip(0) == t@);
    row[0]
}

/// Whether some pattern of the list matches the text.
pub open spec fn any_matches(patterns: Seq<Seq<char>>, text: Seq<char>) -> bool {
    exists|i: int| 0 <= i < patterns.len() && glob_matches(#[trigger] patterns[i], text)
}

/// Whether some pattern of the list matches the text, letter for letter.
pub fn any_match(patterns: &[String], text: &str) -> (r: bool)
    ensures
        r == any_matches(texts(patterns@), text@),
{
    let mut i: usize = 0;
    while i < patterns.len()
        invariant
            i <= patterns@.len(),
            forall|k: int| 0 <= k < i ==> !glob_matches(#[trigger] texts(patterns@)[k], text@),
        decreases patterns@.len() - i,
    {
        if glob_match(patterns[i].as_str(), text) {
            assert(texts(patterns@)[i as int] == patterns@[i as int]@);
            return true;
        }
        i = i + 1;
    }
    false
}

/// The lower case of each text of a list.
pub open spec fn all_lowercased(list: Seq<Seq<char>>) -> Seq<Seq<char>> {
    list.map_values(|s: Seq<char>| lowercased(s))
}

/// Whether a name matches some pattern, both taken in lower case.
pub open spec fn name_matches_any(name: Seq<char>, patterns: Seq<Seq<char>>) -> bool {
    any_matches(all_lowercased(patterns), lowercased(name))
}

/// Case-insensitive matching with `*` glob support.
pub fn name_matches(name: &str, patterns: &[String]) -> (r: bool)
    ensures
        r == name_matches_any(name@, texts(patterns@)),
{
    let lower = name.to_lowercase();
    let mut lowered: Vec<String> = Vec::new();
    let mut i: usize = 0;
    while i < patterns.len()
        invariant
            i <= patterns@.len(),
            texts(lowered@) == all_lowercased(texts(patterns@)).take(i as int),
        decreases patterns@.len() - i,
    {
        let ghost done = lowered@;
        let p = patterns[i].as_str().to_lowercase();
        lowered.push(p);
        assert(texts(lowered@) =~= texts(done).push(p@));
        assert(all_lowercased(texts(patterns@)).take(i + 1) =~= all_lowercased(
            texts(patterns@),
        ).take(i as int).push(p@));
        i = i + 1;
    }
    assert(all_lowercased(texts(patterns@)).take(patterns@.len() as int) == all_lowercased(
        texts(patterns@),
    ));
    any_match(lowered.as_slice(), lower.as_str())
}

// ---------------------------------------------------------------------------
// Laws
// ---------------------------------------------------------------------------

/// A pattern without `*` matches exactly itself.
pub proof fn literal_pattern_matches_itself_only(pattern: Seq<char>, text: Seq<char>)
    requires
        !pattern.contains('*'),
    ensures
        glob_matches(pattern, text) == (pattern == text),
    decreases pattern.len(),
{
    if pattern.len() == 0 {
        assert(text.len() == 0 ==> text =~= pattern);
    } else {
        assert(pattern[0] != '*');
        assert forall|i: int| 0 <= i < pattern.skip(1).len() implies pattern.skip(1)[i] != '*' by {
            assert(pattern.contains(pattern[i + 1]));
        }
        if text.len() > 0 {
            literal_pattern_matches_itself_only(pattern.skip(1), text.skip(1));
            if pattern[0] == text[0] && pattern.skip(1) == text.skip(1) {
                assert(pattern =~= seq![pattern[0]] + pattern.skip(1));
                assert(text =~= seq![text[0]] + text.skip(1));
            }
        }
    }
}

/// `*` alone matches every text.
pub proof fn star_matches_everything(text: Seq<char>)
    ensures
        glob_matches(seq!['*'], text),
{
    let p = seq!['*'];
    assert(p.skip(1).len() == 0);
    assert(text.skip(text.len() as int).len() == 0);
    assert(glob_matches(p.skip(1), text.skip(text.len() as int)));
}

/// A literal prefix and `*` match exactly the texts that begin with the prefix.
pub proof fn prefix_pattern_matches_prefix(prefix: Seq<char>, text: Seq<char>)
    requires
        !prefix.contains('*'),
    ensures
        glob_matches(prefix.push('*'), text) == begins_with(text, prefix),
    decreases prefix.len(),
{
    let p = prefix.push('*');
    if prefix.len() == 0 {
        assert(p =~= seq!['*']);
        star_matches_everything(text);
        assert(text.take(0) =~= prefix);
    } else {
        assert(p[0] == prefix[0]);
        assert(prefix.contains(prefix[0]));
        assert(p.skip(1) =~= prefix.skip(1).push('*'));
        assert forall|i: int| 0 <= i < prefix.skip(1).len() implies prefix.skip(1)[i] != '*' by {
            assert(prefix.contains(prefix[i + 1]));
        }
        if text.len() > 0 {
            prefix_pattern_matches_prefix(prefix.skip(1), text.skip(1));
            let n = prefix.len() as int;
            if n <= text.len() {
                assert(text.skip(1).take(n - 1) =~= text.take(n).skip(1));
                if text[0] == prefix[0] && text.take(n).skip(1) == prefix.skip(1) {
                    assert(text.take(n) =~= seq![text[0]] + text.take(n).skip(1));
                    assert(prefix =~= seq![prefix[0]] + prefix.skip(1));
                }
                if text.take(n) == prefix {
                    assert(text[0] == text.take(n)[0]);
                }
            }
        }
    }
}

/// Matching by name does not see case: names and patterns with the same lower
/// case give the same answer.
pub proof fn name_matching_ignores_case(
    name: Seq<char>,
    other: Seq<char>,
    patterns: Seq<Seq<char>>,
    others: Seq<Seq<char>>,
)
    requires
        lowercased(name) == lowercased(other),
        all_lowercased(patterns) == all_lowercased(others),
    ensures
        name_matches_any(name, patterns) == name_matches_any(other, others),
{
}

/// A pattern made of two matches exactly the texts made of two, the first of which the
/// first matches and the second the second. With what a character and a `*` match, that
/// says of every pattern what it matches.
pub proof fn patterns_match_part_by_part(a: Seq<char>, b: Seq<char>, text: Seq<char>)
    ensures
        glob_matches(a + b, text) == exists|k: int|
            0 <= k <= text.len() && glob_matches(a, #[trigger] text.take(k)) && glob_matches(
                b,
                text.skip(k),
            ),
    decreases a.len(),
{
    let both = a + b;
    if a.len() == 0 {
        assert(both =~= b);
        assert(text.take(0).len() == 0);
        assert(text.skip(0) =~= text);
        if exists|k: int|
            0 <= k <= text.len() && glob_matches(a, #[trigger] text.take(k)) && glob_matches(
                b,
                text.skip(k),
            ) {
            let k = choose|k: int|
                0 <= k <= text.len() && glob_matches(a, #[trigger] text.take(k)) && glob_matches(
                    b,
                    text.skip(k),
                );
            assert(text.take(k).len() == 0);
            assert(text.skip(k) =~= text);
        }
    } else {
        let c = a.skip(1);
        assert(both.skip(1) =~= c + b);
        assert(both[0] == a[0]);
        if a[0] == '*' {
            if glob_matches(both, text) {
                let j = choose|j: int|
                    0 <= j <= text.len() && glob_matches(both.skip(1), #[trigger] text.skip(j));
                let rest = text.skip(j);
                patterns_match_part_by_part(c, b, rest);
                let k = choose|k: int|
                    0 <= k <= rest.len() && glob_matches(c, #[trigger] rest.take(k))
                        && glob_matches(b, rest.skip(k));
                assert(rest.skip(k) =~= text.skip(j + k));
                assert(rest.take(k) =~= text.take(j + k).skip(j));
                assert(glob_matches(a, text.take(j + k)));
            }
            if exists|k: int|
                0 <= k <= text.len() && glob_matches(a, #[trigger] text.take(k)) && glob_matches(
                    b,
                    text.skip(k),
                ) {
                let k = choose|k: int|
                    0 <= k <= text.len() && glob_matches(a, #[trigger] text.take(k))
                        && glob_matches(b, text.skip(k));
                let front = text.take(k);
                let j = choose|j: int|
                    0 <= j <= front.len() && glob_matches(c, #[trigger] front.skip(j));
                let rest = text.skip(j);
                patterns_match_part_by_part(c, b, rest);
                assert(rest.take(k - j) =~= front.skip(j));
                assert(rest.skip(k - j) =~= text.skip(k));
                assert(glob_matches(both.skip(1), text.skip(j)));
            }
        } else {
            if text.len() > 0 {
                patterns_match_part_by_part(c, b, text.skip(1));
            }
            if glob_matches(both, text) {
                let rest = text.skip(1);
                let k = choose|k: int|
                    0 <= k <= rest.len() && glob_matches(c, #[trigger] rest.take(k))
                        && glob_matches(b, rest.skip(k));
                assert(text.take(k + 1).skip(1) =~= rest.take(k));
                assert(text.skip(k + 1) =~= rest.skip(k));
                assert(glob_matches(a, text.take(k + 1)));
            }
            if exists|k: int|
                0 <= k <= text.len() && glob_matches(a, #[trigger] text.take(k)) && glob_matches(
                    b,
                    text.skip(k),
                ) {
                let k = choose|k: int|
                    0 <= k <= text.len() && glob_matches(a, #[trigger] text.take(k))
                        && glob_matches(b, text.skip(k));
                let rest = text.skip(1);
                assert(text.take(k)[0] == text[0]);
                assert(text.take(k).skip(1) =~= rest.take(k - 1));
                assert(rest.skip(k - 1) =~= text.skip(k));
            }
        }
    }
}

/// A name is on a list exactly if one of the patterns, at whatever place, matches it,
/// case aside.
pub proof fn any_pattern_may_match(name: Seq<char>, patterns: Seq<Seq<char>>)
    ensures
        name_matches_any(name, patterns) == exists|k: int|
            0 <= k < patterns.len() && glob_matches(
                lowercased(#[trigger] patterns[k]),
                lowercased(name),
            ),
        any_matches(patterns, name) == exists|k: int|
            0 <= k < patterns.len() && glob_matches(#[trigger] patterns[k], name),
{
    let low = all_lowercased(patterns);
    if exists|k: int|
        0 <= k < patterns.len() && glob_matches(
            lowercased(#[trigger] patterns[k]),
            lowercased(name),
        ) {
        let k = choose|k: int|
            0 <= k < patterns.len() && glob_matches(
                lowercased(#[trigger] patterns[k]),
                lowercased(name),
            );
        assert(low[k] == lowercased(patterns[k]));
    }
    if any_matches(low, lowercased(name)) {
        let k = choose|k: int|
            0 <= k < low.len() && glob_matches(#[trigger] low[k], lowercased(name));
        assert(low[k] == lowercased(patterns[k]));
    }
}

/// Whatever `name_matches` and `any_match` give, they tell whether some pattern of the
/// list matches: with the lower case of both, and letter for letter. What `glob_match`
/// gives is whether the one pattern matches.
pub proof fn matching_looks_at_every_pattern(
    name: &str,
    patterns: &[String],
    pattern: &str,
    by_name: bool,
    by_letter: bool,
    alone: bool,
)
    requires
        call_ensures(name_matches, (name, patterns), by_name),
        call_ensures(any_match, (patterns, name), by_letter),
        call_ensures(glob_match, (pattern, name), alone),
    ensures
        by_name == exists|k: int|
            0 <= k < patterns@.len() && glob_matches(
                lowercased((#[trigger] patterns@[k])@),
                lowercased(name@),
            ),
        by_letter == exists|k: int|
            0 <= k < patterns@.len() && glob_matches((#[trigger] patterns@[k])@, name@),
        alone == glob_matches(pattern@, name@),
{
    let list = texts(patterns@);
    any_pattern_may_match(name@, list);
    assert forall|k: int| 0 <= k < patterns@.len() implies #[trigger] list[k]
        == patterns@[k]@ by {}
    if exists|k: int|
        0 <= k < patterns@.len() && glob_matches(
            lowercased((#[trigger] patterns@[k])@),
            lowercased(name@),
        ) {
        let k = choose|k: int|
            0 <= k < patterns@.len() && glob_matches(
                lowercased((#[trigger] patterns@[k])@),
                lowercased(name@),
            );
        assert(list[k] == patterns@[k]@);
    }
    if exists|k: int|
        0 <= k < patterns@.len() && glob_matches((#[trigger] patterns@[k])@, name@) {
        let k = choose|k: int|
            0 <= k < patterns@.len() && glob_matches((#[trigger] patterns@[k])@, name@);
        assert(list[k] == patterns@[k]@);
    }
    if by_name {
        let k = choose|k: int|
            0 <= k < list.len() && glob_matches(
                lowercased(#[trigger] list[k]),
                lowercased(name@),
            );
        assert(list[k] == patterns@[k]@);
    }
    if by_letter {
        let k = choose|k: int| 0 <= k < list.len() && glob_matches(#[trigger] list[k], name@);
        assert(list[k] == patterns@[k]@);
    }
}

} // verus!
