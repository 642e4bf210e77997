//! Calendar timestamps and the two textual formats the licensing core uses.
//!
//! The store persists validity windows as `"YYYY-MM-DD HH:MM:SS"` (UTC,
//! no fractional seconds); the remote authority sends expiry dates as
//! RFC 3339 date-times (`"2099-01-01T00:00:00Z"`, optionally with a
//! fractional-second part and a numeric offset).  Writer and reader share
//! the single store format defined here, so a value written after decoding
//! a grant is always readable by the expiry evaluator; the round-trip lemma
//! at the bottom states exactly that.
//!
//! Ordering is lexicographic on the fields, which for valid timestamps
//! coincides with chronological order, so no epoch conversion is needed.

use vstd::prelude::*;
use vstd::string::StrSliceExecFns;

use crate::strutil::char_is_digit;
use crate::strutil::char_of_digit;
use crate::strutil::digit_char;
use crate::strutil::digit_of_char;
use crate::strutil::digit_val;
use crate::strutil::is_digit;
use crate::strutil::push_char;

verus! {

/// A timestamp in the proleptic Gregorian calendar, implicitly UTC.
#[derive(Debug, Clone, Copy, PartialEq, Eq, Structural)]
pub struct DateTime {
    pub year: u32,
    pub month: u32,
    pub day: u32,
    pub hour: u32,
    pub minute: u32,
    pub second: u32,
}

/// Gregorian leap-year rule.
pub open spec fn is_leap_year(y: int) -> bool {
    (y % 4 == 0 && y % 100 != 0) || y % 400 == 0
}

/// Number of days of month `m` of year `y` (for `1 <= m <= 12`).
pub open spec fn days_in_month(y: int, m: int) -> int {
    if m == 2 {
        if is_leap_year(y) {
            29
        } else {
            28
        }
    } else if m == 4 || m == 6 || m == 9 || m == 11 {
        30
    } else {
        31
    }
}

/// Executable twin of [`days_in_month`].
pub fn days_in_month_of(y: u32, m: u32) -> (r: u32)
    requires
        1 <= m <= 12,
    ensures
        r == days_in_month(y as int, m as int),
{
    if m == 2 {
        if (y % 4 == 0 && y % 100 != 0) || y % 400 == 0 {
            29
        } else {
            28
        }
    } else if m == 4 || m == 6 || m == 9 || m == 11 {
        30
    } else {
        31
    }
}

impl DateTime {
    /// The fields denote a real calendar instant with a four-digit year.
    pub open spec fn valid(self) -> bool {
        &&& self.year <= 9999
        &&& 1 <= self.month <= 12
        &&& 1 <= self.day <= days_in_month(self.year as int, self.month as int)
        &&& self.hour < 24
        &&& self.minute < 60
        &&& self.second < 60
    }

    /// Strict chronological order, lexicographic on the fields.
    pub open spec fn before(self, other: DateTime) -> bool {
        if self.year != other.year {
            self.year < other.year
        } else if self.month != other.month {
            self.month < other.month
        } else if self.day != other.day {
            self.day < other.day
        } else if self.hour != other.hour {
            self.hour < other.hour
        } else if self.minute != other.minute {
            self.minute < other.minute
        } else {
            self.second < other.second
        }
    }

    /// Executable validity check.
    pub fn is_valid(&self) -> (r: bool)
        ensures
            r == self.valid(),
    {
        self.year <= 9999 && 1 <= self.month && self.month <= 12 && 1 <= self.day && self.day
            <= days_in_month_of(self.year, self.month) && self.hour < 24 && self.minute < 60
            && self.second < 60
    }

    /// Executable strict order: `self` is strictly earlier than `other`.
    pub fn is_before(&self, other: &DateTime) -> (r: bool)
        ensures
            r == self.before(*other),
    {
        if self.year != other.year {
            self.year < other.year
        } else if self.month != other.month {
            self.month < other.month
        } else if self.day != other.day {
            self.day < other.day
        } else if self.hour != other.hour {
            self.hour < other.hour
        } else if self.minute != other.minute {
            self.minute < other.minute
        } else {
            self.second < other.second
        }
    }
}

/// Value of the two digits of `s` at `i` and `i + 1`.
pub open spec fn two_digits_val(s: Seq<char>, i: int) -> int {
    digit_val(s[i]) * 10 + digit_val(s[i + 1])
}

/// Value of the four digits of `s` starting at `i`.
pub open spec fn four_digits_val(s: Seq<char>, i: int) -> int {
    digit_val(s[i]) * 1000 + digit_val(s[i + 1]) * 100 + digit_val(s[i + 2]) * 10 + digit_val(
        s[i + 3],
    )
}

/// The characters of `s` at `i .. i + n` are all decimal digits.
pub open spec fn digits_at(s: Seq<char>, i: int, n: int) -> bool {
    forall|k: int| i <= k < i + n ==> is_digit(#[trigger] s[k])
}

/// `s` has the exact shape `"YYYY-MM-DD HH:MM:SS"`.
pub open spec fn store_text_wf(s: Seq<char>) -> bool {
    &&& s.len() == 19
    &&& digits_at(s, 0, 4)
    &&& s[4] == '-'
    &&& digits_at(s, 5, 2)
    &&& s[7] == '-'
    &&& digits_at(s, 8, 2)
    &&& s[10] == ' '
    &&& digits_at(s, 11, 2)
    &&& s[13] == ':'
    &&& digits_at(s, 14, 2)
    &&& s[16] == ':'
    &&& digits_at(s, 17, 2)
}

/// The timestamp spelled by a string of shape `"YYYY-MM-DD HH:MM:SS"`,
/// before any range validation.
pub open spec fn dt_of_store_text(s: Seq<char>) -> DateTime {
    DateTime {
        year: four_digits_val(s, 0) as u32,
        month: two_digits_val(s, 5) as u32,
        day: two_digits_val(s, 8) as u32,
        hour: two_digits_val(s, 11) as u32,
        minute: two_digits_val(s, 14) as u32,
        second: two_digits_val(s, 17) as u32,
    }
}

/// What parsing a persisted window bound yields: the spelled timestamp when
/// the text is well shaped and in calendar range, nothing otherwise.
pub open spec fn parse_store_text(s: Seq<char>) -> Option<DateTime> {
    if store_text_wf(s) && dt_of_store_text(s).valid() {
        Some(dt_of_store_text(s))
    } else {
        None
    }
}

/// Parses a persisted `"YYYY-MM-DD HH:MM:SS"` window bound.
pub fn parse_store(s: &str) -> (r: Option<DateTime>)
    ensures
        r == parse_store_text(s@),
{
    let n = s.unicode_len();
    if n != 19 {
        return None;
    }
    if !(s.get_char(4) == '-' && s.get_char(7) == '-' && s.get_char(10) == ' ' && s.get_char(13)
        == ':' && s.get_char(16) == ':') {
        return None;
    }
    let mut i: usize = 0;
    while i < 19
        invariant
            s@.len() == 19,
            i <= 19,
            forall|k: int|
                0 <= k < i && k != 4 && k != 7 && k != 10 && k != 13 && k != 16 ==> is_digit(
                    #[trigger] s@[k],
                ),
        decreases 19 - i,
    {
        if !(i == 4 || i == 7 || i == 10 || i == 13 || i == 16) {
            if !char_is_digit(s.get_char(i)) {
                return None;
            }
        }
        i = i + 1;
    }
    let dt = DateTime {
        year: read4(s, 0),
        month: read2(s, 5),
        day: read2(s, 8),
        hour: read2(s, 11),
        minute: read2(s, 14),
        second: read2(s, 17),
    };
    assert(dt == dt_of_store_text(s@));
    if dt.is_valid() {
        Some(dt)
    } else {
        None
    }
}

/// Reads the two-digit number of `s` at `i`.
fn read2(s: &str, i: usize) -> (r: u32)
    requires
        i + 2 <= s@.len(),
        i + 2 <= usize::MAX,
        digits_at(s@, i as int, 2),
    ensures
        r == two_digits_val(s@, i as int),
{
    let a = digit_of_char(s.get_char(i));
    let b = digit_of_char(s.get_char(i + 1));
    a * 10 + b
}

/// Reads the four-digit number of `s` at `i`.
fn read4(s: &str, i: usize) -> (r: u32)
    requires
        i + 4 <= s@.len(),
        i + 4 <= usize::MAX,
        digits_at(s@, i as int, 4),
    ensures
        r == four_digits_val(s@, i as int),
{
    let a = digit_of_char(s.get_char(i));
    let b = digit_of_char(s.get_char(i + 1));
    let c = digit_of_char(s.get_char(i + 2));
    let d = digit_of_char(s.get_char(i + 3));
    a * 1000 + b * 100 + c * 10 + d
}

/// The canonical store spelling of a timestamp.
pub open spec fn store_text_of(dt: DateTime) -> Seq<char> {
    seq![
        digit_char(dt.year as int / 1000),
        digit_char((dt.year as int / 100) % 10),
        digit_char((dt.year as int / 10) % 10),
        digit_char(dt.year as int % 10),
        '-',
        digit_char(dt.month as int / 10),
        digit_char(dt.month as int % 10),
        '-',
        digit_char(dt.day as int / 10),
        digit_char(dt.day as int % 10),
        ' ',
        digit_char(dt.hour as int / 10),
        digit_char(dt.hour as int % 10),
        ':',
        digit_char(dt.minute as int / 10),
        digit_char(dt.minute as int % 10),
        ':',
        digit_char(dt.second as int / 10),
        digit_char(dt.second as int % 10),
    ]
}

/// Appends the two-digit zero-padded rendering of `n`.
fn push2(out: &mut String, n: u32)
    requires
        n <= 99,
    ensures
        final(out)@ == old(out)@.push(digit_char(n as int / 10)).push(digit_char(n as int % 10)),
{
    push_char(out, char_of_digit(n / 10));
    push_char(out, char_of_digit(n % 10));
}

/// Formats a timestamp in the canonical store shape
/// `"YYYY-MM-DD HH:MM:SS"`.
pub fn format_store(dt: &DateTime) -> (r: String)
    requires
        dt.valid(),
    ensures
        r@ == store_text_of(*dt),
{
    let mut out = String::new();
    push2(&mut out, dt.year / 100);
    push2(&mut out, dt.year % 100);
    push_char(&mut out, '-');
    push2(&mut out, dt.month);
    push_char(&mut out, '-');
    push2(&mut out, dt.day);
    push_char(&mut out, ' ');
    push2(&mut out, dt.hour);
    push_char(&mut out, ':');
    push2(&mut out, dt.minute);
    push_char(&mut out, ':');
    push2(&mut out, dt.second);
    proof {
        lemma_year_digit_split(dt.year as int);
        assert(out@ =~= store_text_of(*dt));
    }
    out
}

/// Splitting a four-digit year into two two-digit halves reads off the same
/// digits as dividing it place by place.
proof fn lemma_year_digit_split(y: int)
    requires
        0 <= y <= 9999,
    ensures
        (y / 100) / 10 == y / 1000,
        (y / 100) % 10 == (y / 100) % 10,
        (y % 100) / 10 == (y / 10) % 10,
        (y % 100) % 10 == y % 10,
{
    vstd::arithmetic::div_mod::lemma_div_denominator(y, 100, 10);
    assert((y % 100) / 10 == (y / 10) % 10) by (nonlinear_arith)
        requires
            0 <= y,
    ;
    assert((y % 100) % 10 == y % 10) by (nonlinear_arith)
        requires
            0 <= y,
    ;
}

/// A four-digit value is recovered from its decimal digits.
proof fn lemma_decompose4(y: int)
    requires
        0 <= y <= 9999,
    ensures
        (y / 1000) * 1000 + ((y / 100) % 10) * 100 + ((y / 10) % 10) * 10 + y % 10 == y,
        y / 1000 <= 9,
        (y / 100) % 10 <= 9,
        (y / 10) % 10 <= 9,
        y % 10 <= 9,
{
    vstd::arithmetic::div_mod::lemma_div_denominator(y, 10, 10);
    vstd::arithmetic::div_mod::lemma_div_denominator(y, 100, 10);
    assert(y == (y / 10) * 10 + y % 10);
    assert(y / 10 == ((y / 10) / 10) * 10 + (y / 10) % 10);
    assert(y / 100 == ((y / 100) / 10) * 10 + (y / 100) % 10);
}

/// A two-digit value is recovered from its decimal digits.
proof fn lemma_decompose2(n: int)
    requires
        0 <= n <= 99,
    ensures
        (n / 10) * 10 + n % 10 == n,
        n / 10 <= 9,
        n % 10 <= 9,
{
}

/// Writing a valid timestamp in the store format and reading it back gives
/// the same timestamp: the persistence writer and the expiry evaluator agree
/// on one wire format.
pub proof fn lemma_store_round_trip(dt: DateTime)
    requires
        dt.valid(),
    ensures
        parse_store_text(store_text_of(dt)) == Some(dt),
{
    let s = store_text_of(dt);
    lemma_decompose4(dt.year as int);
    lemma_decompose2(dt.month as int);
    lemma_decompose2(dt.day as int);
    lemma_decompose2(dt.hour as int);
    lemma_decompose2(dt.minute as int);
    lemma_decompose2(dt.second as int);
    assert forall|d: int| 0 <= d <= 9 implies is_digit(#[trigger] digit_char(d)) && digit_val(
        digit_char(d),
    ) == d by {
        crate::strutil::lemma_digit_char_val(d);
    }
    assert(store_text_wf(s));
    assert(four_digits_val(s, 0) == dt.year);
    assert(two_digits_val(s, 5) == dt.month);
    assert(two_digits_val(s, 8) == dt.day);
    assert(two_digits_val(s, 11) == dt.hour);
    assert(two_digits_val(s, 14) == dt.minute);
    assert(two_digits_val(s, 17) == dt.second);
    assert(dt_of_store_text(s) == dt);
}

/// The calendar day before `dt`'s, keeping the time of day; nothing below
/// the first representable day.
pub open spec fn prev_day(dt: DateTime) -> Option<DateTime> {
    if dt.day > 1 {
        Some(DateTime { day: (dt.day - 1) as u32, ..dt })
    } else if dt.month > 1 {
        Some(
            DateTime {
                month: (dt.month - 1) as u32,
                day: days_in_month(dt.year as int, dt.month as int - 1) as u32,
                ..dt
            },
        )
    } else if dt.year > 0 {
        Some(DateTime { year: (dt.year - 1) as u32, month: 12, day: 31, ..dt })
    } else {
        None
    }
}

/// The calendar day after `dt`'s, keeping the time of day; nothing above
/// the last representable day.
pub open spec fn next_day(dt: DateTime) -> Option<DateTime> {
    if dt.day < days_in_month(dt.year as int, dt.month as int) {
        Some(DateTime { day: (dt.day + 1) as u32, ..dt })
    } else if dt.month < 12 {
        Some(DateTime { month: (dt.month + 1) as u32, day: 1, ..dt })
    } else if dt.year < 9999 {
        Some(DateTime { year: (dt.year + 1) as u32, month: 1, day: 1, ..dt })
    } else {
        None
    }
}

/// Shifts `dt` by `delta` minutes (at most one day in either direction),
/// carrying into the neighbouring day when the time of day runs over.
pub open spec fn apply_offset_minutes(dt: DateTime, delta: int) -> Option<DateTime> {
    let t = dt.hour * 60 + dt.minute + delta;
    if 0 <= t < 1440 {
        Some(DateTime { hour: (t / 60) as u32, minute: (t % 60) as u32, ..dt })
    } else if t < 0 {
        match prev_day(dt) {
            Some(d) => Some(
                DateTime { hour: ((t + 1440) / 60) as u32, minute: ((t + 1440) % 60) as u32, ..d },
            ),
            None => None,
        }
    } else {
        match next_day(dt) {
            Some(d) => Some(
                DateTime { hour: ((t - 1440) / 60) as u32, minute: ((t - 1440) % 60) as u32, ..d },
            ),
            None => None,
        }
    }
}

/// Shifting a valid timestamp by less than a day stays valid.
pub proof fn lemma_apply_offset_valid(dt: DateTime, delta: int)
    requires
        dt.valid(),
        -1439 <= delta <= 1439,
    ensures
        apply_offset_minutes(dt, delta) matches Some(r) ==> r.valid(),
{
}

/// First index at or after `i` whose character is not a decimal digit
/// (the length of `s` when the digits run to the end).
pub open spec fn digits_end(s: Seq<char>, i: int) -> int
    decreases s.len() - i,
{
    if i < s.len() && is_digit(s[i]) {
        digits_end(s, i + 1)
    } else {
        i
    }
}

/// Index of the zone designator: right after the seconds, or after the
/// optional fractional-second digits.
pub open spec fn zone_index(s: Seq<char>) -> int {
    if s.len() > 19 && s[19] == '.' {
        digits_end(s, 20)
    } else {
        19
    }
}

/// The date and time positions of an RFC 3339 date-time: as the store
/// format, with `T` (or `t`) between date and time.
pub open spec fn rfc_head_wf(s: Seq<char>) -> bool {
    &&& s.len() >= 20
    &&& digits_at(s, 0, 4)
    &&& s[4] == '-'
    &&& digits_at(s, 5, 2)
    &&& s[7] == '-'
    &&& digits_at(s, 8, 2)
    &&& (s[10] == 'T' || s[10] == 't')
    &&& digits_at(s, 11, 2)
    &&& s[13] == ':'
    &&& digits_at(s, 14, 2)
    &&& s[16] == ':'
    &&& digits_at(s, 17, 2)
}

/// The zone designator at index `z`: `Z`/`z`, or a numeric offset
/// `+HH:MM` / `-HH:MM` ending the text.
pub open spec fn zone_wf(s: Seq<char>, z: int) -> bool {
    if z >= s.len() {
        false
    } else if s[z] == 'Z' || s[z] == 'z' {
        s.len() == z + 1
    } else if s[z] == '+' || s[z] == '-' {
        &&& s.len() == z + 6
        &&& digits_at(s, z + 1, 2)
        &&& s[z + 3] == ':'
        &&& digits_at(s, z + 4, 2)
        &&& two_digits_val(s, z + 1) <= 23
        &&& two_digits_val(s, z + 4) <= 59
    } else {
        false
    }
}

/// `s` is an RFC 3339 date-time of the shape the remote authority sends:
/// date, `T`, time, optional fraction, `Z` or numeric offset.
pub open spec fn rfc_text_wf(s: Seq<char>) -> bool {
    &&& rfc_head_wf(s)
    &&& (s[19] == '.' ==> digits_end(s, 20) > 20)
    &&& zone_wf(s, zone_index(s))
}

/// What decoding a grant's expiry text yields: the spelled instant
/// converted to UTC, when the text is well shaped and in range.  The
/// fractional second, if any, is truncated, as the store format keeps
/// whole seconds only.
pub open spec fn parse_rfc3339_text(s: Seq<char>) -> Option<DateTime> {
    if !rfc_text_wf(s) {
        None
    } else {
        let local = dt_of_store_text(s);
        if !local.valid() {
            None
        } else {
            let z = zone_index(s);
            if s[z] == 'Z' || s[z] == 'z' {
                Some(local)
            } else {
                let mins = two_digits_val(s, z + 1) * 60 + two_digits_val(s, z + 4);
                if s[z] == '+' {
                    apply_offset_minutes(local, -mins)
                } else {
                    apply_offset_minutes(local, mins)
                }
            }
        }
    }
}

/// A decoded expiry instant is always a valid timestamp.
pub proof fn lemma_parse_rfc3339_valid(s: Seq<char>)
    ensures
        parse_rfc3339_text(s) matches Some(r) ==> r.valid(),
{
    if rfc_text_wf(s) && dt_of_store_text(s).valid() {
        let z = zone_index(s);
        let local = dt_of_store_text(s);
        if !(s[z] == 'Z' || s[z] == 'z') {
            let mins = two_digits_val(s, z + 1) * 60 + two_digits_val(s, z + 4);
            assert(0 <= mins <= 1439);
            lemma_apply_offset_valid(local, mins);
            lemma_apply_offset_valid(local, -mins);
        }
    }
}

/// Executable twin of [`prev_day`].
fn prev_day_of(dt: &DateTime) -> (r: Option<DateTime>)
    requires
        dt.valid(),
    ensures
        r == prev_day(*dt),
{
    if dt.day > 1 {
        Some(DateTime { day: dt.day - 1, ..*dt })
    } else if dt.month > 1 {
        Some(DateTime { month: dt.month - 1, day: days_in_month_of(dt.year, dt.month - 1), ..*dt })
    } else if dt.year > 0 {
        Some(DateTime { year: dt.year - 1, month: 12, day: 31, ..*dt })
    } else {
        None
    }
}

/// Executable twin of [`next_day`].
fn next_day_of(dt: &DateTime) -> (r: Option<DateTime>)
    requires
        dt.valid(),
    ensures
        r == next_day(*dt),
{
    if dt.day < days_in_month_of(dt.year, dt.month) {
        Some(DateTime { day: dt.day + 1, ..*dt })
    } else if dt.month < 12 {
        Some(DateTime { month: dt.month + 1, day: 1, ..*dt })
    } else if dt.year < 9999 {
        Some(DateTime { year: dt.year + 1, month: 1, day: 1, ..*dt })
    } else {
        None
    }
}

/// Executable twin of [`apply_offset_minutes`]; `delta` is `mins`,
/// negated when `neg` is set.
fn apply_offset_of(dt: &DateTime, neg: bool, mins: u32) -> (r: Option<DateTime>)
    requires
        dt.valid(),
        mins <= 1439,
    ensures
        r == apply_offset_minutes(*dt, if neg { -(mins as int) } else { mins as int }),
{
    let base: u32 = dt.hour * 60 + dt.minute;
    if neg {
        if base >= mins {
            let t = base - mins;
            Some(DateTime { hour: t / 60, minute: t % 60, ..*dt })
        } else {
            match prev_day_of(dt) {
                Some(d) => {
                    let t = base + 1440 - mins;
                    Some(DateTime { hour: t / 60, minute: t % 60, ..d })
                },
                None => None,
            }
        }
    } else {
        let t = base + mins;
        if t < 1440 {
            Some(DateTime { hour: t / 60, minute: t % 60, ..*dt })
        } else {
            match next_day_of(dt) {
                Some(d) => {
                    let t2 = t - 1440;
                    Some(DateTime { hour: t2 / 60, minute: t2 % 60, ..d })
                },
                None => None,
            }
        }
    }
}

/// While the characters from `i0` to `i` are digits, the end of the digit
/// run from `i0` is the end of the run from `i`.
proof fn lemma_digits_end_step(s: Seq<char>, i: int)
    requires
        0 <= i < s.len(),
        is_digit(s[i]),
    ensures
        digits_end(s, i) == digits_end(s, i + 1),
{
}

/// Parses an RFC 3339 date-time as the remote authority sends it and
/// converts it to UTC, truncating any fractional second.
pub fn parse_rfc3339(s: &str) -> (r: Option<DateTime>)
    ensures
        r == parse_rfc3339_text(s@),
{
    let n = s.unicode_len();
    if n < 20 {
        return None;
    }
    let t10 = s.get_char(10);
    if !(s.get_char(4) == '-' && s.get_char(7) == '-' && (t10 == 'T' || t10 == 't') && s.get_char(
        13,
    ) == ':' && s.get_char(16) == ':') {
        return None;
    }
    let mut i: usize = 0;
    while i < 19
        invariant
            s@.len() >= 20,
            i <= 19,
            forall|k: int|
                0 <= k < i && k != 4 && k != 7 && k != 10 && k != 13 && k != 16 ==> is_digit(
                    #[trigger] s@[k],
                ),
        decreases 19 - i,
    {
        if !(i == 4 || i == 7 || i == 10 || i == 13 || i == 16) {
            if !char_is_digit(s.get_char(i)) {
                return None;
            }
        }
        i = i + 1;
    }
    assert(rfc_head_wf(s@));
    let z: usize = if s.get_char(19) == '.' {
        let mut j: usize = 20;
        while j < n && char_is_digit(s.get_char(j))
            invariant
                n == s@.len(),
                20 <= j <= n,
                digits_end(s@, 20) == digits_end(s@, j as int),
            decreases n - j,
        {
            proof {
                lemma_digits_end_step(s@, j as int);
            }
            j = j + 1;
        }
        assert(digits_end(s@, j as int) == j);
        if j == 20 {
            return None;
        }
        j
    } else {
        19
    };
    assert(z == zone_index(s@));
    if z >= n {
        return None;
    }
    let zc = s.get_char(z);
    let local = DateTime {
        year: read4(s, 0),
        month: read2(s, 5),
        day: read2(s, 8),
        hour: read2(s, 11),
        minute: read2(s, 14),
        second: read2(s, 17),
    };
    assert(local == dt_of_store_text(s@));
    if zc == 'Z' || zc == 'z' {
        if n != z + 1 {
            return None;
        }
        if local.is_valid() {
            Some(local)
        } else {
            None
        }
    } else if zc == '+' || zc == '-' {
        if n - z != 6 {
            return None;
        }
        if s.get_char(z + 3) != ':' {
            return None;
        }
        if !(char_is_digit(s.get_char(z + 1)) && char_is_digit(s.get_char(z + 2)) && char_is_digit(
            s.get_char(z + 4),
        ) && char_is_digit(s.get_char(z + 5))) {
            return None;
        }
        let oh = read2(s, z + 1);
        let om = read2(s, z + 4);
        if !(oh <= 23 && om <= 59) {
            return None;
        }
        assert(zone_wf(s@, z as int));
        if !local.is_valid() {
            return None;
        }
        apply_offset_of(&local, zc == '+', oh * 60 + om)
    } else {
        None
    }
}

} // verus!
