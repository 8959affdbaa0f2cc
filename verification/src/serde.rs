//! Timestamps bound to the fixed textual pattern `%Y-%m-%dT%H:%M:%S`:
//! serialization, strict deserialization, and the round-trip law between
//! the two.

use crate::digits::{
    char_digit, digit_char, digit_of, four_digit_string, four_digits, lemma_digit_char_inverse,
    two_digit_string, two_digits,
};
use vstd::arithmetic::div_mod::lemma_fundamental_div_mod_converse;
use vstd::prelude::*;
use vstd::string::{StrSliceExecFns, StringExecFns};

verus! {

broadcast use vstd::string::group_string_axioms;

/// A calendar date with a time of day, without a time zone.
#[derive(Debug, Clone, Copy, PartialEq, Eq, Structural)]
pub struct NaiveDateTime {
    pub year: u16,
    pub month: u8,
    pub day: u8,
    pub hour: u8,
    pub minute: u8,
    pub second: u8,
}

/// Whether `year` is a leap year of the proleptic Gregorian calendar.
pub open spec fn is_leap_year(year: int) -> bool {
    (year % 4 == 0 && year % 100 != 0) || year % 400 == 0
}

/// The number of days in `month` of `year`.
pub open spec fn days_in_month(year: int, month: int) -> int {
    if month == 2 {
        if is_leap_year(year) {
            29
        } else {
            28
        }
    } else if month == 4 || month == 6 || month == 9 || month == 11 {
        30
    } else {
        31
    }
}

impl NaiveDateTime {
    /// A real calendar day and time of day, with the year small enough for
    /// the four-digit year of the fixed pattern.
    pub open spec fn well_formed(self) -> bool {
        &&& self.year <= 9999
        &&& 1 <= self.month <= 12
        &&& 1 <= self.day <= days_in_month(self.year as int, self.month as int)
        &&& self.hour <= 23
        &&& self.minute <= 59
        &&& self.second <= 59
    }
}

impl NaiveDateTime {
    /// Whether this value is a real calendar day and time of day that the
    /// fixed pattern can carry.
    pub fn is_well_formed(&self) -> (r: bool)
        ensures
            r == self.well_formed(),
    {
        self.year <= 9999 && 1 <= self.month && self.month <= 12 && 1 <= self.day && self.day
            <= days_in_month_of(self.year, self.month) && self.hour <= 23 && self.minute <= 59
            && self.second <= 59
    }
}

/// The `YYYY-MM-DDTHH:MM:SS` text for `ts`.
pub open spec fn timestamp_rep(ts: NaiveDateTime) -> Seq<char> {
    four_digits(ts.year as int) + seq!['-'] + two_digits(ts.month as int) + seq!['-']
        + two_digits(ts.day as int) + seq!['T'] + two_digits(ts.hour as int) + seq![':']
        + two_digits(ts.minute as int) + seq![':'] + two_digits(ts.second as int)
}

/// The positions of the fixed separators within the pattern.
pub open spec fn is_separator_position(i: int) -> bool {
    i == 4 || i == 7 || i == 10 || i == 13 || i == 16
}

/// Whether `s` has the shape of the fixed pattern: nineteen characters, the
/// separators `-`, `-`, `T`, `:`, `:` at their places and decimal digits
/// everywhere else.
pub open spec fn matches_pattern(s: Seq<char>) -> bool {
    &&& s.len() == 19
    &&& s[4] == '-'
    &&& s[7] == '-'
    &&& s[10] == 'T'
    &&& s[13] == ':'
    &&& s[16] == ':'
    &&& forall|i: int|
        0 <= i < 19 && !is_separator_position(i) ==> char_digit(#[trigger] s[i]) >= 0
}

/// The field values read from text of the pattern's shape.
pub open spec fn parsed_timestamp(s: Seq<char>) -> NaiveDateTime {
    NaiveDateTime {
        year: (1000 * char_digit(s[0]) + 100 * char_digit(s[1]) + 10 * char_digit(s[2])
            + char_digit(s[3])) as u16,
        month: (10 * char_digit(s[5]) + char_digit(s[6])) as u8,
        day: (10 * char_digit(s[8]) + char_digit(s[9])) as u8,
        hour: (10 * char_digit(s[11]) + char_digit(s[12])) as u8,
        minute: (10 * char_digit(s[14]) + char_digit(s[15])) as u8,
        second: (10 * char_digit(s[17]) + char_digit(s[18])) as u8,
    }
}

/// A two-digit number yields its digits back.
proof fn lemma_two_digits_recover(a: int, b: int)
    requires
        0 <= a <= 9,
        0 <= b <= 9,
    ensures
        two_digits(10 * a + b) == seq![digit_char(a), digit_char(b)],
{
    lemma_fundamental_div_mod_converse(10 * a + b, 10, a, b);
}

/// A four-digit number yields its digits back.
proof fn lemma_four_digits_recover(a: int, b: int, c: int, d: int)
    requires
        0 <= a <= 9,
        0 <= b <= 9,
        0 <= c <= 9,
        0 <= d <= 9,
    ensures
        four_digits(1000 * a + 100 * b + 10 * c + d) == seq![
            digit_char(a),
            digit_char(b),
            digit_char(c),
            digit_char(d),
        ],
{
    let n = 1000 * a + 100 * b + 10 * c + d;
    lemma_fundamental_div_mod_converse(n, 1000, a, 100 * b + 10 * c + d);
    lemma_fundamental_div_mod_converse(n, 100, 10 * a + b, 10 * c + d);
    lemma_fundamental_div_mod_converse(n, 10, 100 * a + 10 * b + c, d);
    lemma_fundamental_div_mod_converse(10 * a + b, 10, a, b);
    lemma_fundamental_div_mod_converse(100 * a + 10 * b + c, 10, 10 * a + b, c);
}

/// The round-trip law of the fixed pattern: serializing the timestamp parsed
/// from any text of the pattern's shape gives that text back, character for
/// character.
#[verifier::rlimit(100)]
pub proof fn lemma_timestamp_round_trip(s: Seq<char>)
    requires
        matches_pattern(s),
    ensures
        timestamp_rep(parsed_timestamp(s)) == s,
{
    let ts = parsed_timestamp(s);
    lemma_four_digits_recover(
        char_digit(s[0]),
        char_digit(s[1]),
        char_digit(s[2]),
        char_digit(s[3]),
    );
    lemma_two_digits_recover(char_digit(s[5]), char_digit(s[6]));
    lemma_two_digits_recover(char_digit(s[8]), char_digit(s[9]));
    lemma_two_digits_recover(char_digit(s[11]), char_digit(s[12]));
    lemma_two_digits_recover(char_digit(s[14]), char_digit(s[15]));
    lemma_two_digits_recover(char_digit(s[17]), char_digit(s[18]));
    assert forall|i: int| 0 <= i < 19 && !is_separator_position(i) implies digit_char(
        char_digit(s[i]),
    ) == s[i] by {
        lemma_digit_char_inverse(s[i]);
    }
    assert(four_digits(ts.year as int) == seq![s[0], s[1], s[2], s[3]]);
    assert(two_digits(ts.month as int) == seq![s[5], s[6]]);
    assert(two_digits(ts.day as int) == seq![s[8], s[9]]);
    assert(two_digits(ts.hour as int) == seq![s[11], s[12]]);
    assert(two_digits(ts.minute as int) == seq![s[14], s[15]]);
    assert(two_digits(ts.second as int) == seq![s[17], s[18]]);
    assert(timestamp_rep(ts) =~= s);
}

/// Serializes `date` with the fixed pattern `%Y-%m-%dT%H:%M:%S`.
pub fn ser_naive_date_time(date: &NaiveDateTime) -> (r: String)
    requires
        date.well_formed(),
    ensures
        r@ == timestamp_rep(*date),
{
    proof {
        reveal_strlit("-");
        reveal_strlit("T");
        reveal_strlit(":");
    }
    let r = four_digit_string(date.year)
        .concat("-")
        .concat(two_digit_string(date.month).as_str())
        .concat("-")
        .concat(two_digit_string(date.day).as_str())
        .concat("T")
        .concat(two_digit_string(date.hour).as_str())
        .concat(":")
        .concat(two_digit_string(date.minute).as_str())
        .concat(":")
        .concat(two_digit_string(date.second).as_str());
    proof {
        assert(r@ =~= timestamp_rep(*date));
    }
    r
}

/// Serializes an optional timestamp: `None` stays `None`.
pub fn ser_opt_naive_date_time(date: &Option<NaiveDateTime>) -> (r: Option<String>)
    requires
        date matches Some(d) ==> d.well_formed(),
    ensures
        match *date {
            Some(d) => r matches Some(t) && t@ == timestamp_rep(d),
            None => r is None,
        },
{
    match date {
        Some(d) => Some(ser_naive_date_time(d)),
        None => None,
    }
}

/// The number of days in `month` of `year`.
fn days_in_month_of(year: u16, month: u8) -> (r: u8)
    requires
        1 <= month <= 12,
    ensures
        r as int == days_in_month(year as int, month as int),
{
    if month == 2 {
        if (year % 4 == 0 && year % 100 != 0) || year % 400 == 0 {
            29
        } else {
            28
        }
    } else if month == 4 || month == 6 || month == 9 || month == 11 {
        30
    } else {
        31
    }
}

/// Parses text of the fixed pattern `%Y-%m-%dT%H:%M:%S`, rejecting any
/// string that does not match it exactly or does not name a real calendar
/// date and time of day.
pub fn deser_naive_date_time(date: &str) -> (r: Option<NaiveDateTime>)
    ensures
        r is Some <==> matches_pattern(date@) && parsed_timestamp(date@).well_formed(),
        r matches Some(ts) ==> ts == parsed_timestamp(date@) && date@ == timestamp_rep(ts),
{
    if date.unicode_len() != 19 {
        return None;
    }
    if date.get_char(4) != '-' || date.get_char(7) != '-' || date.get_char(10) != 'T'
        || date.get_char(13) != ':' || date.get_char(16) != ':' {
        return None;
    }
    let d0 = match digit_of(date.get_char(0)) {
        Some(d) => d,
        None => return None,
    };
    let d1 = match digit_of(date.get_char(1)) {
        Some(d) => d,
        None => return None,
    };
    let d2 = match digit_of(date.get_char(2)) {
        Some(d) => d,
        None => return None,
    };
    let d3 = match digit_of(date.get_char(3)) {
        Some(d) => d,
        None => return None,
    };
    let d5 = match digit_of(date.get_char(5)) {
        Some(d) => d,
        None => return None,
    };
    let d6 = match digit_of(date.get_char(6)) {
        Some(d) => d,
        None => return None,
    };
    let d8 = match digit_of(date.get_char(8)) {
        Some(d) => d,
        None => return None,
    };
    let d9 = match digit_of(date.get_char(9)) {
        Some(d) => d,
        None => return None,
    };
    let d11 = match digit_of(date.get_char(11)) {
        Some(d) => d,
        None => return None,
    };
    let d12 = match digit_of(date.get_char(12)) {
        Some(d) => d,
        None => return None,
    };
    let d14 = match digit_of(date.get_char(14)) {
        Some(d) => d,
        None => return None,
    };
    let d15 = match digit_of(date.get_char(15)) {
        Some(d) => d,
        None => return None,
    };
    let d17 = match digit_of(date.get_char(17)) {
        Some(d) => d,
        None => return None,
    };
    let d18 = match digit_of(date.get_char(18)) {
        Some(d) => d,
        None => return None,
    };
    let year = 1000 * (d0 as u16) + 100 * (d1 as u16) + 10 * (d2 as u16) + (d3 as u16);
    let month = 10 * d5 + d6;
    let day = 10 * d8 + d9;
    let hour = 10 * d11 + d12;
    let minute = 10 * d14 + d15;
    let second = 10 * d17 + d18;
    proof {
        assert(matches_pattern(date@));
    }
    if month < 1 || month > 12 {
        return None;
    }
    if day < 1 || day > days_in_month_of(year, month) {
        return None;
    }
    if hour > 23 || minute > 59 || second > 59 {
        return None;
    }
    let ts = NaiveDateTime { year, month, day, hour, minute, second };
    proof {
        assert(ts == parsed_timestamp(date@));
        lemma_timestamp_round_trip(date@);
    }
    Some(ts)
}

/// Parses an optional timestamp with the fixed pattern: an absent value
/// stays absent, a present one must match the pattern exactly.
pub fn deser_opt_naive_date_time(date: Option<&str>) -> (r: Option<Option<NaiveDateTime>>)
    ensures
        match date {
            None => r == Some(None::<NaiveDateTime>),
            Some(s) => {
                &&& r is Some <==> matches_pattern(s@) && parsed_timestamp(s@).well_formed()
                &&& r matches Some(o) ==> o matches Some(ts) && ts == parsed_timestamp(s@)
                    && s@ == timestamp_rep(ts)
            },
        },
{
    match date {
        None => Some(None),
        Some(s) => match deser_naive_date_time(s) {
            Some(ts) => Some(Some(ts)),
            None => None,
        },
    }
}

} // verus!
