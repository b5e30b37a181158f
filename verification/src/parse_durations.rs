//! Durations written as a list of amounts with units, such as `30s 1y` or `2months`.

use vstd::prelude::*;

use crate::matching::{captures_all, regex_captures};
use crate::text::{chars_eq_str, chars_of, parse_u64, parse_u64_chars};

verus! {

/// One amount and its unit: at the start of the text or after white space, digits,
/// an optional space, then a unit.
pub const DURATION_PATTERN: &'static str = r"(?:\s+|^)(\d+) ?(months?|s|m|h|d|w|y)";

/// A length of time in whole seconds.
#[derive(Clone, Copy, Debug, PartialEq, Eq, Structural, PartialOrd, Ord, Hash, Default)]
pub struct Duration(pub u64);

/// The text does not describe a positive duration that fits in a `u64` of seconds.
#[derive(Clone, Copy, Debug, PartialEq, Eq, Structural)]
pub struct DurationParseError;

/// The number of seconds in one of a unit.
pub open spec fn unit_seconds(unit: Seq<char>) -> Option<u64> {
    if unit == "s"@ {
        Some(1)
    } else if unit == "m"@ {
        Some(60)
    } else if unit == "h"@ {
        Some(3600)
    } else if unit == "d"@ {
        Some(86400)
    } else if unit == "w"@ {
        Some(604800)
    } else if unit == "month"@ || unit == "months"@ {
        Some(2592000)
    } else if unit == "y"@ {
        Some(31536000)
    } else {
        None
    }
}

/// A match of [`DURATION_PATTERN`] has its amount in group 1 and its unit in group 2.
pub open spec fn capture_well_formed(c: Seq<Option<Seq<char>>>) -> bool {
    c.len() >= 3 && c[1] is Some && c[2] is Some
}

/// Every match has both groups.
pub open spec fn captures_well_formed(caps: Seq<Seq<Option<Seq<char>>>>) -> bool {
    forall|i: int| 0 <= i < caps.len() ==> capture_well_formed(#[trigger] caps[i])
}

/// The seconds one match stands for: its amount times its unit, or `None` when the
/// amount is not a `u64` or the unit is unknown.
pub open spec fn capture_seconds(c: Seq<Option<Seq<char>>>) -> Option<int> {
    match (parse_u64(c[1]->0), unit_seconds(c[2]->0)) {
        (Some(n), Some(m)) => Some(n * m),
        _ => None,
    }
}

/// The sum of the seconds of all matches, or `None` when one of them is invalid.
pub open spec fn total_seconds(caps: Seq<Seq<Option<Seq<char>>>>) -> Option<int>
    decreases caps.len(),
{
    if caps.len() == 0 {
        Some(0)
    } else {
        match (total_seconds(caps.drop_last()), capture_seconds(caps.last())) {
            (Some(a), Some(b)) => Some(a + b),
            _ => None,
        }
    }
}

/// The duration that a list of matches describes: their total, which must be positive
/// and fit in a `u64`.
pub open spec fn duration_of(caps: Seq<Seq<Option<Seq<char>>>>) -> Result<
    Duration,
    DurationParseError,
> {
    match total_seconds(caps) {
        Some(t) => if 0 < t && t <= u64::MAX {
            Ok(Duration(t as u64))
        } else {
            Err(DurationParseError)
        },
        None => Err(DurationParseError),
    }
}

/// The duration `text` describes, read through the matches of [`DURATION_PATTERN`].
pub open spec fn parsed_duration(text: Seq<char>) -> Result<Duration, DurationParseError> {
    match regex_captures(DURATION_PATTERN@, text) {
        Some(caps) => if captures_well_formed(caps) {
            duration_of(caps)
        } else {
            Err(DurationParseError)
        },
        None => Err(DurationParseError),
    }
}

/// A valid total is at least as large as the total of each prefix, and every match in
/// the prefix is valid.
proof fn lemma_total_prefix(caps: Seq<Seq<Option<Seq<char>>>>, k: int)
    requires
        0 <= k <= caps.len(),
        total_seconds(caps) is Some,
    ensures
        total_seconds(caps.take(k)) is Some,
        total_seconds(caps.take(k))->0 <= total_seconds(caps)->0,
        total_seconds(caps.take(k))->0 >= 0,
    decreases caps.len(),
{
    if k < caps.len() {
        lemma_total_prefix(caps.drop_last(), k);
        assert(caps.drop_last().take(k) =~= caps.take(k));
        lemma_total_nonneg(caps.drop_last());
        let c = caps.last();
        assert(capture_seconds(c)->0 >= 0) by {
            let n = parse_u64(c[1]->0)->0;
            let m = unit_seconds(c[2]->0)->0;
            assert(n * m >= 0) by (nonlinear_arith);
        }
    } else {
        assert(caps.take(k) =~= caps);
        lemma_total_nonneg(caps);
    }
}

proof fn lemma_total_nonneg(caps: Seq<Seq<Option<Seq<char>>>>)
    requires
        total_seconds(caps) is Some,
    ensures
        total_seconds(caps)->0 >= 0,
    decreases caps.len(),
{
    if caps.len() > 0 {
        lemma_total_nonneg(caps.drop_last());
        let c = caps.last();
        let n = parse_u64(c[1]->0)->0;
        let m = unit_seconds(c[2]->0)->0;
        assert(n * m >= 0) by (nonlinear_arith);
    }
}

/// The seconds of one unit, looked up by name.
fn unit_seconds_of(unit: &[char]) -> (r: Option<u64>)
    ensures
        r == unit_seconds(unit@),
{
    if chars_eq_str(unit, "s") {
        Some(1)
    } else if chars_eq_str(unit, "m") {
        Some(60)
    } else if chars_eq_str(unit, "h") {
        Some(3600)
    } else if chars_eq_str(unit, "d") {
        Some(86400)
    } else if chars_eq_str(unit, "w") {
        Some(604800)
    } else if chars_eq_str(unit, "month") || chars_eq_str(unit, "months") {
        Some(2592000)
    } else if chars_eq_str(unit, "y") {
        Some(31536000)
    } else {
        None
    }
}

impl Duration {
    /// Adds up the amounts of a list of matches of [`DURATION_PATTERN`], each amount
    /// times the seconds of its unit; fails on an amount that is not a `u64`, an
    /// unknown unit, a total beyond `u64::MAX`, or a total of zero.
    pub fn from_captures(caps: &Vec<Vec<Option<String>>>) -> (res: Result<
        Duration,
        DurationParseError,
    >)
        requires
            captures_well_formed(caps.deep_view()),
        ensures
            res == duration_of(caps.deep_view()),
    {
        let ghost all = caps.deep_view();
        let mut secs: u64 = 0;
        for i in 0..caps.len()
            invariant
                all == caps.deep_view(),
                captures_well_formed(all),
                total_seconds(all.take(i as int)) == Some(secs as int),
        {
            let c = &caps[i];
            assert(all[i as int] == c.deep_view());
            assert(capture_well_formed(all[i as int]));
            assert(all.take(i + 1).drop_last() =~= all.take(i as int));
            assert(all.take(i + 1).last() == all[i as int]);
            let amount = c[1].as_ref().unwrap();
            let unit = c[2].as_ref().unwrap();
            assert(amount@ == all[i as int][1]->0);
            assert(unit@ == all[i as int][2]->0);
            let amount_chars = chars_of(amount.as_str());
            let unit_chars = chars_of(unit.as_str());
            let n = parse_u64_chars(amount_chars.as_slice());
            let m = unit_seconds_of(unit_chars.as_slice());
            if n.is_none() || m.is_none() {
                proof {
                    if total_seconds(all) is Some {
                        lemma_total_prefix(all, i + 1);
                    }
                }
                return Err(DurationParseError);
            }
            let n = n.unwrap();
            let m = m.unwrap();
            let v = n.checked_mul(m);
            if v.is_none() {
                proof {
                    if total_seconds(all) is Some {
                        lemma_total_prefix(all, i + 1);
                        lemma_total_prefix(all, i as int);
                    }
                }
                return Err(DurationParseError);
            }
            let v = v.unwrap();
            let next = secs.checked_add(v);
            if next.is_none() {
                proof {
                    if total_seconds(all) is Some {
                        lemma_total_prefix(all, i + 1);
                    }
                }
                return Err(DurationParseError);
            }
            secs = next.unwrap();
        }
        assert(all.take(caps.len() as int) =~= all);
        if secs == 0 {
            Err(DurationParseError)
        } else {
            Ok(Duration(secs))
        }
    }

    /// Reads a duration from text: every match of [`DURATION_PATTERN`] contributes its
    /// amount times its unit (`s`, `m`, `h`, `d`, `w`, `month`/`months`, `y`).
    pub fn parse(text: &str) -> (res: Result<Duration, DurationParseError>)
        ensures
            res == parsed_duration(text@),
    {
        match captures_all(DURATION_PATTERN, text) {
            Some(caps) => {
                let ok = captures_are_well_formed(&caps);
                if ok {
                    Duration::from_captures(&caps)
                } else {
                    Err(DurationParseError)
                }
            },
            None => Err(DurationParseError),
        }
    }
}

/// Whether every match carries both of its groups.
fn captures_are_well_formed(caps: &Vec<Vec<Option<String>>>) -> (r: bool)
    ensures
        r == captures_well_formed(caps.deep_view()),
{
    let ghost all = caps.deep_view();
    for i in 0..caps.len()
        invariant
            all == caps.deep_view(),
            forall|j: int| 0 <= j < i ==> capture_well_formed(#[trigger] all[j]),
    {
        let c = &caps[i];
        assert(all[i as int] == c.deep_view());
        if c.len() < 3 || c[1].is_none() || c[2].is_none() {
            return false;
        }
    }
    true
}

impl std::str::FromStr for Duration {
    type Err = DurationParseError;

    fn from_str(text: &str) -> (res: Result<Self, Self::Err>)
        ensures
            res == parsed_duration(text@),
    {
        Duration::parse(text)
    }
}

/// The total of two lists of matches, one after the other, is the sum of their totals.
proof fn lemma_total_concat(a: Seq<Seq<Option<Seq<char>>>>, b: Seq<Seq<Option<Seq<char>>>>)
    requires
        total_seconds(a) is Some,
        total_seconds(b) is Some,
    ensures
        total_seconds(a + b) == Some(total_seconds(a)->0 + total_seconds(b)->0),
    decreases b.len(),
{
    if b.len() == 0 {
        assert(a + b =~= a);
    } else {
        lemma_total_concat(a, b.drop_last());
        assert((a + b).drop_last() =~= a + b.drop_last());
        assert((a + b).last() == b.last());
    }
}

/// Durations add up: the matches of two durations, one list after the other, describe
/// the sum of the two, when it fits in a `u64`; and well-formed lists stay well-formed.
pub proof fn lemma_durations_add(a: Seq<Seq<Option<Seq<char>>>>, b: Seq<Seq<Option<Seq<char>>>>)
    requires
        duration_of(a) is Ok,
        duration_of(b) is Ok,
        (duration_of(a)->Ok_0).0 + (duration_of(b)->Ok_0).0 <= u64::MAX,
    ensures
        duration_of(a + b) == Ok::<Duration, DurationParseError>(
            Duration(((duration_of(a)->Ok_0).0 + (duration_of(b)->Ok_0).0) as u64),
        ),
        captures_well_formed(a) && captures_well_formed(b) ==> captures_well_formed(a + b),
{
    lemma_total_concat(a, b);
    if captures_well_formed(a) && captures_well_formed(b) {
        assert forall|i: int| 0 <= i < (a + b).len() implies capture_well_formed(#[trigger] (a + b)[i]) by {
            if i < a.len() {
                assert((a + b)[i] == a[i]);
            } else {
                assert((a + b)[i] == b[i - a.len()]);
            }
        }
    }
}

/// Every duration that parses is positive.
pub proof fn lemma_parsed_duration_positive(text: Seq<char>)
    ensures
        parsed_duration(text) matches Ok(d) ==> d.0 > 0,
{
}

} // verus!
