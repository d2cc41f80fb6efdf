//! The time of day as text.

use crate::ports::is_digit;
use vstd::prelude::*;

verus! {

/// Whether two digits stand at an index.
pub open spec fn two_digits(s: Seq<char>, at: int) -> bool {
    is_digit(s[at]) && is_digit(s[at + 1])
}

/// Whether a text is a time of RFC 3339 in UTC, to the second:
/// `YYYY-MM-DDThh:mm:ssZ`, with a longer, signed year outside 0 to 9999.
pub open spec fn utc_seconds(s: Seq<char>) -> bool {
    let y = s.len() - 16;
    &&& s.len() >= 20
    &&& forall|i: int| 1 <= i < y ==> is_digit(#[trigger] s[i])
    &&& is_digit(s[0]) ==> y == 4
    &&& !is_digit(s[0]) ==> y > 4 && (s[0] == '+' || s[0] == '-')
    &&& s[y] == '-' && two_digits(s, y + 1)
    &&& s[y + 3] == '-' && two_digits(s, y + 4)
    &&& s[y + 6] == 'T' && two_digits(s, y + 7)
    &&& s[y + 9] == ':' && two_digits(s, y + 10)
    &&& s[y + 12] == ':' && two_digits(s, y + 13)
    &&& s[y + 15] == 'Z'
}

/// `chrono::Utc::now` printed by `to_rfc3339_opts` with whole seconds and `Z`. The
/// contract states the form of the text; which time it names is left unsaid, since
/// that is for the clock to say. `chrono` panics where the clock stands before the
/// Unix epoch.
#[verifier::external_body]
pub fn now_rfc3339() -> (r: String)
    ensures
        utc_seconds(r@),
{
    chrono::Utc::now().to_rfc3339_opts(chrono::SecondsFormat::Secs, true)
}

} // verus!
