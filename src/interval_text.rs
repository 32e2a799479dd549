//! The text form of time intervals in manifests: `()`, `[a, b]`, `(a, b]`,
//! `(-inf, b]`, `(a, inf)` and `(-inf, inf)`, instants written in RFC 3339.

use vstd::prelude::*;
use vstd::string::*;

use crate::metadata_chain::str_eq;
use crate::text::concat3;
use crate::time_interval::TimeInterval;

verus! {

/// The RFC 3339 text, with milliseconds and `Z`, of an instant given in
/// milliseconds since the Unix epoch; none when it is out of chrono's range.
pub uninterp spec fn rfc3339_of(ms: i64) -> Option<Seq<char>>;

/// The instant, in milliseconds since the Unix epoch, that an RFC 3339 text
/// names; none when the text is not RFC 3339.
pub uninterp spec fn rfc3339_millis(s: Seq<char>) -> Option<i64>;

/// Relies on chrono's `DateTime::<Utc>::from_timestamp_millis` and
/// `to_rfc3339_opts(SecondsFormat::Millis, true)`: the text depends on the
/// instant alone.
#[verifier::external_body]
fn time_text(ms: i64) -> (r: Option<String>)
    ensures
        match r {
            Some(t) => rfc3339_of(ms) == Some(t@),
            None => rfc3339_of(ms) is None,
        },
{
    match chrono::DateTime::<chrono::Utc>::from_timestamp_millis(ms) {
        Some(t) => Some(t.to_rfc3339_opts(chrono::SecondsFormat::Millis, true)),
        None => None,
    }
}

/// Relies on chrono's `DateTime::parse_from_rfc3339` and `timestamp_millis`:
/// the instant depends on the text alone.
#[verifier::external_body]
fn parse_time(s: &str) -> (r: Option<i64>)
    ensures
        r == rfc3339_millis(s@),
{
    match chrono::DateTime::parse_from_rfc3339(s) {
        Ok(t) => Some(t.timestamp_millis()),
        Err(_) => None,
    }
}

/// The text of an interval, when its instants can be written.
pub open spec fn interval_text(iv: TimeInterval) -> Option<Seq<char>> {
    match iv {
        TimeInterval::Empty => Some("()"@),
        TimeInterval::Unbounded => Some("(-inf, inf)"@),
        TimeInterval::UnboundedClosedRight { upper } => match rfc3339_of(upper) {
            Some(u) => Some("(-inf, "@ + u + "]"@),
            None => None,
        },
        TimeInterval::UnboundedOpenLeft { lower } => match rfc3339_of(lower) {
            Some(l) => Some("("@ + l + ", inf)"@),
            None => None,
        },
        TimeInterval::LeftOpen { lower, upper } => match (rfc3339_of(lower), rfc3339_of(upper)) {
            (Some(l), Some(u)) => Some("("@ + l + ", "@ + u + "]"@),
            _ => None,
        },
        TimeInterval::Closed { lower, upper } => match (rfc3339_of(lower), rfc3339_of(upper)) {
            (Some(l), Some(u)) => Some("["@ + l + ", "@ + u + "]"@),
            _ => None,
        },
    }
}

/// Writes an interval; none when one of its instants is out of range.
pub fn interval_to_text(iv: &TimeInterval) -> (r: Option<String>)
    ensures
        match r {
            Some(t) => interval_text(*iv) == Some(t@),
            None => interval_text(*iv) is None,
        },
{
    match iv {
        TimeInterval::Empty => Some("()".to_owned()),
        TimeInterval::Unbounded => Some("(-inf, inf)".to_owned()),
        TimeInterval::UnboundedClosedRight { upper } => match time_text(*upper) {
            Some(u) => Some(concat3("(-inf, ", u.as_str(), "]")),
            None => None,
        },
        TimeInterval::UnboundedOpenLeft { lower } => match time_text(*lower) {
            Some(l) => Some(concat3("(", l.as_str(), ", inf)")),
            None => None,
        },
        TimeInterval::LeftOpen { lower, upper } => match (time_text(*lower), time_text(*upper)) {
            (Some(l), Some(u)) => {
                let a = concat3("(", l.as_str(), ", ");
                Some(concat3(a.as_str(), u.as_str(), "]"))
            },
            _ => None,
        },
        TimeInterval::Closed { lower, upper } => match (time_text(*lower), time_text(*upper)) {
            (Some(l), Some(u)) => {
                let a = concat3("[", l.as_str(), ", ");
                Some(concat3(a.as_str(), u.as_str(), "]"))
            },
            _ => None,
        },
    }
}

/// The position of the first `", "` in `s` at or after `i`.
pub open spec fn first_sep(s: Seq<char>, i: int) -> Option<int>
    decreases s.len() - i,
{
    if i < 0 || i + 1 >= s.len() {
        None
    } else if s[i] == ',' && s[i + 1] == ' ' {
        Some(i)
    } else {
        first_sep(s, i + 1)
    }
}

/// The interval that a text names: an opening bracket, two edges separated
/// by the first `", "`, and a closing bracket.
pub open spec fn parse_interval_text(s: Seq<char>) -> Option<TimeInterval> {
    if s == "()"@ {
        Some(TimeInterval::Empty)
    } else if s.len() < 2 {
        None
    } else {
        let body = s.subrange(1, s.len() - 1);
        match first_sep(body, 0) {
            None => None,
            Some(k) => {
                let lo = body.subrange(0, k);
                let hi = body.subrange(k + 2, body.len() as int);
                let open = s[0];
                let close = s[s.len() - 1];
                if open == '(' && lo == "-inf"@ && hi == "inf"@ && close == ')' {
                    Some(TimeInterval::Unbounded)
                } else if open == '(' && lo == "-inf"@ && close == ']' {
                    match rfc3339_millis(hi) {
                        Some(u) => Some(TimeInterval::UnboundedClosedRight { upper: u }),
                        None => None,
                    }
                } else if open == '(' && hi == "inf"@ && close == ')' {
                    match rfc3339_millis(lo) {
                        Some(l) => Some(TimeInterval::UnboundedOpenLeft { lower: l }),
                        None => None,
                    }
                } else if (open == '(' || open == '[') && close == ']' {
                    match (rfc3339_millis(lo), rfc3339_millis(hi)) {
                        (Some(l), Some(u)) => if open == '(' && l < u {
                            Some(TimeInterval::LeftOpen { lower: l, upper: u })
                        } else if open == '[' && l <= u {
                            Some(TimeInterval::Closed { lower: l, upper: u })
                        } else {
                            None
                        },
                        _ => None,
                    }
                } else {
                    None
                }
            },
        }
    }
}

fn find_sep(s: &str, n: usize) -> (r: Option<usize>)
    requires
        n == s@.len(),
    ensures
        match r {
            Some(k) => first_sep(s@, 0) == Some(k as int) && k + 1 < n,
            None => first_sep(s@, 0) is None,
        },
{
    if n < 2 {
        return None;
    }
    let mut i: usize = 0;
    while i < n - 1
        invariant
            n == s@.len(),
            n >= 2,
            0 <= i <= n - 1,
            first_sep(s@, 0) == first_sep(s@, i as int),
        decreases n - i,
    {
        if s.get_char(i) == ',' && s.get_char(i + 1) == ' ' {
            return Some(i);
        }
        i += 1;
    }
    None
}

/// Reads an interval in its text form; the result is well formed.
pub fn parse_interval(s: &str) -> (r: Option<TimeInterval>)
    ensures
        r == parse_interval_text(s@),
        r matches Some(iv) ==> iv.wf(),
{
    if str_eq(s, "()") {
        return Some(TimeInterval::Empty);
    }
    let n = s.unicode_len();
    if n < 2 {
        return None;
    }
    let body = s.substring_char(1, n - 1);
    let bn = n - 2;
    let k = match find_sep(body, bn) {
        Some(k) => k,
        None => {
            return None;
        },
    };
    let lo = body.substring_char(0, k);
    let hi = body.substring_char(k + 2, bn);
    let open = s.get_char(0);
    let close = s.get_char(n - 1);
    let lo_neg = str_eq(lo, "-inf");
    let hi_pos = str_eq(hi, "inf");
    if open == '(' && lo_neg && hi_pos && close == ')' {
        Some(TimeInterval::Unbounded)
    } else if open == '(' && lo_neg && close == ']' {
        match parse_time(hi) {
            Some(u) => Some(TimeInterval::UnboundedClosedRight { upper: u }),
            None => None,
        }
    } else if open == '(' && hi_pos && close == ')' {
        match parse_time(lo) {
            Some(l) => Some(TimeInterval::UnboundedOpenLeft { lower: l }),
            None => None,
        }
    } else if (open == '(' || open == '[') && close == ']' {
        match (parse_time(lo), parse_time(hi)) {
            (Some(l), Some(u)) => if open == '(' && l < u {
                Some(TimeInterval::LeftOpen { lower: l, upper: u })
            } else if open == '[' && l <= u {
                Some(TimeInterval::Closed { lower: l, upper: u })
            } else {
                None
            },
            _ => None,
        }
    } else {
        None
    }
}

} // verus!
