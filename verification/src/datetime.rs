//! Calendar times as text: the ISO 8601 bounds of a search window (year to
//! second precision, no zone meaning UTC) and the RFC 3339 UTC rendering of
//! an instant. Instants count from 1970-01-01T00:00:00Z; years run from 1970
//! to 9999.

use vstd::prelude::*;
use crate::chars::chars_of;
use crate::version::{decimal_value, is_digit};

verus! {

/// Whether `y` is a leap year of the Gregorian calendar.
pub open spec fn is_leap(y: nat) -> bool {
    y % 4 == 0 && (y % 100 != 0 || y % 400 == 0)
}

/// The number of days of year `y`.
pub open spec fn year_days(y: nat) -> nat {
    if is_leap(y) {
        366
    } else {
        365
    }
}

/// The number of days of month `m` (1 to 12) of year `y`.
pub open spec fn month_days(y: nat, m: nat) -> nat {
    if m == 2 {
        if is_leap(y) {
            29
        } else {
            28
        }
    } else if m == 4 || m == 6 || m == 9 || m == 11 {
        30
    } else {
        31
    }
}

/// Days from 1970-01-01 to the first day of year `y`.
pub open spec fn days_to_year(y: nat) -> nat
    decreases y,
{
    if y <= 1970 {
        0
    } else {
        days_to_year((y - 1) as nat) + year_days((y - 1) as nat)
    }
}

/// Days from the first day of year `y` to the first day of its month `m`.
pub open spec fn days_to_month(y: nat, m: nat) -> nat
    decreases m,
{
    if m <= 1 {
        0
    } else {
        days_to_month(y, (m - 1) as nat) + month_days(y, (m - 1) as nat)
    }
}

/// A reading of the UTC calendar and clock.
pub struct CalendarTime {
    pub year: nat,
    pub month: nat,
    pub day: nat,
    pub hour: nat,
    pub minute: nat,
    pub second: nat,
}

/// Whether a reading names a real second between 1970 and the end of 9999.
pub open spec fn valid_time(c: CalendarTime) -> bool {
    &&& 1970 <= c.year <= 9999
    &&& 1 <= c.month <= 12
    &&& 1 <= c.day <= month_days(c.year, c.month)
    &&& c.hour < 24
    &&& c.minute < 60
    &&& c.second < 60
}

/// The day of a reading, counted from 1970-01-01.
pub open spec fn epoch_day(c: CalendarTime) -> int {
    days_to_year(c.year) + days_to_month(c.year, c.month) + c.day - 1
}

/// The second of a reading, counted from 1970-01-01T00:00:00Z.
pub open spec fn epoch_seconds(c: CalendarTime) -> int {
    epoch_day(c) * 86400 + c.hour * 3600 + c.minute * 60 + c.second
}

/// The separator that the layout `YYYY-MM-DDTHH:MM:SS` has at position `i`,
/// or `None` where it has a digit.
pub open spec fn separator_at(i: int) -> Option<char> {
    if i == 4 || i == 7 {
        Some('-')
    } else if i == 10 {
        Some('T')
    } else if i == 13 || i == 16 {
        Some(':')
    } else {
        None
    }
}

/// Whether `core` is a prefix of `YYYY-MM-DDTHH:MM:SS` that ends after a
/// whole field: the year, the month, the day, the hour, the minute or the
/// second.
pub open spec fn fits_layout(core: Seq<char>) -> bool {
    &&& (core.len() == 4 || core.len() == 7 || core.len() == 10 || core.len() == 13
        || core.len() == 16 || core.len() == 19)
    &&& forall|i: int|
        0 <= i < core.len() ==> match separator_at(i) {
            Some(s) => #[trigger] core[i] == s,
            None => is_digit(core[i]),
        }
}

/// The number written at `start` (`width` digits), or `absent` when the
/// text ends before it.
pub open spec fn field(core: Seq<char>, start: int, width: int, absent: nat) -> nat {
    if core.len() > start {
        decimal_value(core.subrange(start, start + width))
    } else {
        absent
    }
}

/// The reading a layout prefix names; fields it leaves out are the start
/// of the period it names.
pub open spec fn reading_of(core: Seq<char>) -> CalendarTime {
    CalendarTime {
        year: field(core, 0, 4, 1970),
        month: field(core, 5, 2, 1),
        day: field(core, 8, 2, 1),
        hour: field(core, 11, 2, 0),
        minute: field(core, 14, 2, 0),
        second: field(core, 17, 2, 0),
    }
}

/// Whether `t` ends in a numeric zone `+HH:MM` or `-HH:MM`.
pub open spec fn has_numeric_zone(t: Seq<char>) -> bool {
    &&& t.len() >= 6
    &&& (t[t.len() - 6] == '+' || t[t.len() - 6] == '-')
    &&& t[t.len() - 3] == ':'
}

/// Whether the numeric zone of `t` is well formed: two digits of hours
/// below 24 and two digits of minutes below 60.
pub open spec fn numeric_zone_ok(t: Seq<char>) -> bool {
    let n = t.len() as int;
    &&& is_digit(t[n - 5]) && is_digit(t[n - 4]) && is_digit(t[n - 2]) && is_digit(t[n - 1])
    &&& decimal_value(t.subrange(n - 5, n - 3)) < 24
    &&& decimal_value(t.subrange(n - 2, n)) < 60
}

/// The offset of the numeric zone of `t` east of UTC, in seconds.
pub open spec fn numeric_zone_offset(t: Seq<char>) -> int {
    let n = t.len() as int;
    let magnitude = decimal_value(t.subrange(n - 5, n - 3)) * 3600 + decimal_value(
        t.subrange(n - 2, n),
    ) * 60;
    if t[n - 6] == '+' {
        magnitude as int
    } else {
        -magnitude
    }
}

/// Whether `t` ends in the UTC mark `Z`.
pub open spec fn has_utc_mark(t: Seq<char>) -> bool {
    t.len() >= 1 && t.last() == 'Z'
}

/// The length of the zone at the end of `t`: 1 for `Z`, 6 for a numeric
/// zone, 0 for none.
pub open spec fn zone_len(t: Seq<char>) -> int {
    if has_utc_mark(t) {
        1
    } else if has_numeric_zone(t) {
        6
    } else {
        0
    }
}

/// The offset of the zone of `t` east of UTC, in seconds (0 for `Z` or
/// none).
pub open spec fn zone_offset(t: Seq<char>) -> int {
    if !has_utc_mark(t) && has_numeric_zone(t) {
        numeric_zone_offset(t)
    } else {
        0
    }
}

/// `t` without its zone.
pub open spec fn zone_free(t: Seq<char>) -> Seq<char> {
    t.subrange(0, t.len() - zone_len(t))
}

/// The instant an ISO 8601 text names, in milliseconds since the epoch:
/// `YYYY`, `YYYY-MM`, `YYYY-MM-DD`, `YYYY-MM-DDTHH`, `YYYY-MM-DDTHH:MM` or
/// `YYYY-MM-DDTHH:MM:SS`; after a time of day, `Z` or a numeric zone may
/// follow (none means UTC). `None` when the text has another shape, names
/// no real time, or names a time before the epoch.
pub open spec fn parse_instant(t: Seq<char>) -> Option<u64> {
    let core = zone_free(t);
    let c = reading_of(core);
    if !has_utc_mark(t) && has_numeric_zone(t) && !numeric_zone_ok(t) {
        None
    } else if !fits_layout(core) || (zone_len(t) > 0 && core.len() < 13) {
        None
    } else if !valid_time(c) || epoch_seconds(c) - zone_offset(t) < 0 {
        None
    } else {
        Some(((epoch_seconds(c) - zone_offset(t)) * 1000) as u64)
    }
}

/// Whether `y` is a leap year.
pub fn leap_year(y: u64) -> (b: bool)
    ensures
        b == is_leap(y as nat),
{
    y % 4 == 0 && (y % 100 != 0 || y % 400 == 0)
}

/// The number of days of month `m` of year `y`.
pub fn days_in_month(y: u64, m: u64) -> (r: u64)
    ensures
        r == month_days(y as nat, m as nat),
{
    if m == 2 {
        if leap_year(y) {
            29
        } else {
            28
        }
    } else if m == 4 || m == 6 || m == 9 || m == 11 {
        30
    } else {
        31
    }
}

/// Days from 1970-01-01 to the first day of year `y`.
fn days_before_year(y: u64) -> (r: u64)
    requires
        1970 <= y <= 10000,
    ensures
        r == days_to_year(y as nat),
        r <= 366 * (y - 1970),
{
    let mut i: u64 = 1970;
    let mut r: u64 = 0;
    while i < y
        invariant
            1970 <= i <= y <= 10000,
            r == days_to_year(i as nat),
            r <= 366 * (i - 1970),
        decreases y - i,
    {
        r = r + if leap_year(i) {
            366
        } else {
            365
        };
        i = i + 1;
    }
    r
}

/// Days from the first day of year `y` to the first day of month `m`.
fn days_before_month(y: u64, m: u64) -> (r: u64)
    requires
        1 <= m <= 13,
    ensures
        r == days_to_month(y as nat, m as nat),
        r <= 31 * (m - 1),
{
    let mut i: u64 = 1;
    let mut r: u64 = 0;
    while i < m
        invariant
            1 <= i <= m <= 13,
            r == days_to_month(y as nat, i as nat),
            r <= 31 * (i - 1),
        decreases m - i,
    {
        r = r + days_in_month(y, i);
        i = i + 1;
    }
    r
}

/// The number written with `width` digits at `start` of `v`.
fn read_number(v: &Vec<char>, start: usize, width: usize) -> (r: u64)
    requires
        start + width <= v@.len(),
        width <= 4,
        forall|i: int| start <= i < start + width ==> is_digit(#[trigger] v@[i]),
    ensures
        r == decimal_value(v@.subrange(start as int, start + width)),
        r < 10000,
{
    let mut r: u64 = 0;
    let mut k: usize = 0;
    while k < width
        invariant
            k <= width <= 4,
            start + width <= v.len(),
            forall|i: int| start <= i < start + width ==> is_digit(#[trigger] v@[i]),
            r == decimal_value(v@.subrange(start as int, start + k)),
            r < if k == 0 { 1u64 } else if k == 1 { 10 } else if k == 2 { 100 } else if k == 3 {
                1000
            } else {
                10000
            },
        decreases width - k,
    {
        let c = v[start + k];
        assert(is_digit(v@[start + k]));
        assert(v@.subrange(start as int, start + k + 1).drop_last() =~= v@.subrange(
            start as int,
            start + k,
        ));
        r = r * 10 + ((c as u32) - 48) as u64;
        k = k + 1;
    }
    r
}

/// Whether `v` fits the layout `YYYY-MM-DDTHH:MM:SS` up to `len` characters.
fn layout_matches(v: &Vec<char>, len: usize) -> (b: bool)
    requires
        len <= v@.len(),
    ensures
        b == fits_layout(v@.subrange(0, len as int)),
{
    if !(len == 4 || len == 7 || len == 10 || len == 13 || len == 16 || len == 19) {
        return false;
    }
    let ghost core = v@.subrange(0, len as int);
    let mut i: usize = 0;
    while i < len
        invariant
            i <= len <= v@.len(),
            core == v@.subrange(0, len as int),
            forall|j: int|
                0 <= j < i ==> match separator_at(j) {
                    Some(s) => #[trigger] core[j] == s,
                    None => is_digit(core[j]),
                },
        decreases len - i,
    {
        let c = v[i];
        let ok = if i == 4 || i == 7 {
            c == '-'
        } else if i == 10 {
            c == 'T'
        } else if i == 13 || i == 16 {
            c == ':'
        } else {
            '0' <= c && c <= '9'
        };
        if !ok {
            assert(core[i as int] == c);
            return false;
        }
        i = i + 1;
    }
    true
}

/// Whether the reading fits the calendar, field by field.
fn reading_valid(year: u64, month: u64, day: u64, hour: u64, minute: u64, second: u64) -> (b: bool)
    ensures
        b == valid_time(
            CalendarTime {
                year: year as nat,
                month: month as nat,
                day: day as nat,
                hour: hour as nat,
                minute: minute as nat,
                second: second as nat,
            },
        ),
{
    1970 <= year && year <= 9999 && 1 <= month && month <= 12 && 1 <= day && day
        <= days_in_month(year, month) && hour < 24 && minute < 60 && second < 60
}

/// The zone at the end of `v`: the length of the text before it, and its
/// offset in seconds with whether it lies east of UTC; `None` when a
/// numeric zone is malformed.
fn read_zone(v: &Vec<char>) -> (r: Option<(usize, u64, bool)>)
    ensures
        r is None <==> (!has_utc_mark(v@) && has_numeric_zone(v@) && !numeric_zone_ok(v@)),
        r matches Some((len, off, east)) ==> {
            &&& len == v@.len() - zone_len(v@)
            &&& zone_offset(v@) == if east { off as int } else { -off }
            &&& off < 86400
        },
{
    let n = v.len();
    if n >= 1 && v[n - 1] == 'Z' {
        return Some((n - 1, 0, true));
    }
    if !(n >= 6 && (v[n - 6] == '+' || v[n - 6] == '-') && v[n - 3] == ':') {
        return Some((n, 0, true));
    }
    if !('0' <= v[n - 5] && v[n - 5] <= '9' && '0' <= v[n - 4] && v[n - 4] <= '9' && '0' <= v[n
        - 2] && v[n - 2] <= '9' && '0' <= v[n - 1] && v[n - 1] <= '9') {
        return None;
    }
    let zh = read_number(v, n - 5, 2);
    let zm = read_number(v, n - 2, 2);
    if zh >= 24 || zm >= 60 {
        return None;
    }
    Some((n - 6, zh * 3600 + zm * 60, v[n - 6] == '+'))
}

/// The fields of the layout prefix `v[..len]`, or `None` when it does not
/// fit the layout.
fn read_fields(v: &Vec<char>, len: usize) -> (r: Option<(u64, u64, u64, u64, u64, u64)>)
    requires
        len <= v@.len(),
    ensures
        r is None <==> !fits_layout(v@.subrange(0, len as int)),
        r matches Some((y, mo, d, h, mi, s)) ==> reading_of(v@.subrange(0, len as int))
            == (CalendarTime {
            year: y as nat,
            month: mo as nat,
            day: d as nat,
            hour: h as nat,
            minute: mi as nat,
            second: s as nat,
        }),
{
    if !layout_matches(v, len) {
        return None;
    }
    let ghost core = v@.subrange(0, len as int);
    proof {
        assert forall|i: int| #![trigger v@[i]]
            0 <= i < len && separator_at(i) is None implies is_digit(v@[i]) by {
            assert(core[i] == v@[i]);
        }
    }
    let year = read_number(v, 0, 4);
    let month = if len > 5 {
        read_number(v, 5, 2)
    } else {
        1
    };
    let day = if len > 8 {
        read_number(v, 8, 2)
    } else {
        1
    };
    let hour = if len > 11 {
        read_number(v, 11, 2)
    } else {
        0
    };
    let minute = if len > 14 {
        read_number(v, 14, 2)
    } else {
        0
    };
    let second = if len > 17 {
        read_number(v, 17, 2)
    } else {
        0
    };
    proof {
        assert(core.subrange(0, 4) =~= v@.subrange(0, 4));
        if len > 5 {
            assert(core.subrange(5, 7) =~= v@.subrange(5, 7));
        }
        if len > 8 {
            assert(core.subrange(8, 10) =~= v@.subrange(8, 10));
        }
        if len > 11 {
            assert(core.subrange(11, 13) =~= v@.subrange(11, 13));
        }
        if len > 14 {
            assert(core.subrange(14, 16) =~= v@.subrange(14, 16));
        }
        if len > 17 {
            assert(core.subrange(17, 19) =~= v@.subrange(17, 19));
        }
    }
    Some((year, month, day, hour, minute, second))
}

/// The second since the epoch of a valid reading.
fn reading_seconds(year: u64, month: u64, day: u64, hour: u64, minute: u64, second: u64) -> (r: u64)
    requires
        valid_time(
            CalendarTime {
                year: year as nat,
                month: month as nat,
                day: day as nat,
                hour: hour as nat,
                minute: minute as nat,
                second: second as nat,
            },
        ),
    ensures
        r == epoch_seconds(
            CalendarTime {
                year: year as nat,
                month: month as nat,
                day: day as nat,
                hour: hour as nat,
                minute: minute as nat,
                second: second as nat,
            },
        ),
        r < 254_000_000_000,
{
    let days = days_before_year(year) + days_before_month(year, month) + (day - 1);
    assert(days <= 366 * 8029 + 31 * 11 + 30);
    assert(hour < 24 && minute < 60 && second < 60);
    assert(days * 86400 <= (366 * 8029 + 31 * 11 + 30) * 86400);
    days * 86400 + hour * 3600 + minute * 60 + second
}

/// The instant an ISO 8601 text names, in milliseconds since the epoch
/// (see `parse_instant` for the accepted shapes).
pub fn parse_iso8601_ms(text: &str) -> (r: Option<u64>)
    ensures
        r == parse_instant(text@),
{
    let v = chars_of(text);
    parse_iso8601_chars(&v)
}

/// The instant the characters `v` name as an ISO 8601 text.
pub fn parse_iso8601_chars(v: &Vec<char>) -> (r: Option<u64>)
    ensures
        r == parse_instant(v@),
{
    let (core_len, offset, east) = match read_zone(v) {
        None => return None,
        Some(z) => z,
    };
    let zoned = core_len < v.len();
    if zoned && core_len < 13 {
        return None;
    }
    let (year, month, day, hour, minute, second) = match read_fields(v, core_len) {
        None => return None,
        Some(f) => f,
    };
    if !reading_valid(year, month, day, hour, minute, second) {
        return None;
    }
    let secs = reading_seconds(year, month, day, hour, minute, second);
    let utc = if east {
        if secs < offset {
            return None;
        }
        secs - offset
    } else {
        secs + offset
    };
    Some(utc * 1000)
}

/// Later years start later: `days_to_year` grows by the length of each
/// year passed.
proof fn lemma_days_to_year_grows(a: nat, b: nat)
    requires
        1970 <= a < b,
    ensures
        days_to_year(a) + year_days(a) <= days_to_year(b),
    decreases b - a,
{
    if b > a + 1 {
        lemma_days_to_year_grows(a, (b - 1) as nat);
    }
}

/// Later months of a year start later.
proof fn lemma_days_to_month_grows(y: nat, a: nat, b: nat)
    requires
        1 <= a < b,
    ensures
        days_to_month(y, a) + month_days(y, a) <= days_to_month(y, b),
    decreases b - a,
{
    if b > a + 1 {
        lemma_days_to_month_grows(y, a, (b - 1) as nat);
    }
}

/// The twelve months make up the year.
proof fn lemma_months_fill_year(y: nat)
    ensures
        days_to_month(y, 13) == year_days(y),
{
    reveal_with_fuel(days_to_month, 13);
}

/// The day of a valid reading splits into its year and the day within it.
proof fn lemma_day_within_year(c: CalendarTime)
    requires
        valid_time(c),
    ensures
        days_to_year(c.year) <= epoch_day(c) < days_to_year(c.year) + year_days(c.year),
        days_to_month(c.year, c.month) <= epoch_day(c) - days_to_year(c.year) < days_to_month(
            c.year,
            c.month,
        ) + month_days(c.year, c.month),
{
    lemma_months_fill_year(c.year);
    if c.month < 12 {
        lemma_days_to_month_grows(c.year, c.month, 13);
    }
}

/// Two valid readings of the same second are the same reading.
pub proof fn lemma_reading_unique(a: CalendarTime, b: CalendarTime)
    requires
        valid_time(a),
        valid_time(b),
        epoch_seconds(a) == epoch_seconds(b),
    ensures
        a == b,
{
    let ta = (a.hour * 3600 + a.minute * 60 + a.second) as int;
    let tb = (b.hour * 3600 + b.minute * 60 + b.second) as int;
    let ra = (a.minute * 60 + a.second) as int;
    let rb = (b.minute * 60 + b.second) as int;
    vstd::arithmetic::div_mod::lemma_fundamental_div_mod_converse(
        epoch_seconds(a),
        86400,
        epoch_day(a),
        ta,
    );
    vstd::arithmetic::div_mod::lemma_fundamental_div_mod_converse(
        epoch_seconds(b),
        86400,
        epoch_day(b),
        tb,
    );
    vstd::arithmetic::div_mod::lemma_fundamental_div_mod_converse(ta, 3600, a.hour as int, ra);
    vstd::arithmetic::div_mod::lemma_fundamental_div_mod_converse(tb, 3600, b.hour as int, rb);
    vstd::arithmetic::div_mod::lemma_fundamental_div_mod_converse(
        ra,
        60,
        a.minute as int,
        a.second as int,
    );
    vstd::arithmetic::div_mod::lemma_fundamental_div_mod_converse(
        rb,
        60,
        b.minute as int,
        b.second as int,
    );
    lemma_day_within_year(a);
    lemma_day_within_year(b);
    if a.year < b.year {
        lemma_days_to_year_grows(a.year, b.year);
    } else if b.year < a.year {
        lemma_days_to_year_grows(b.year, a.year);
    }
    assert(a.year == b.year);
    if a.month < b.month {
        lemma_days_to_month_grows(a.year, a.month, b.month);
    } else if b.month < a.month {
        lemma_days_to_month_grows(a.year, b.month, a.month);
    }
}

/// The valid reading of second `secs` since the epoch.
pub open spec fn reading_at(secs: nat) -> CalendarTime {
    choose|c: CalendarTime| valid_time(c) && epoch_seconds(c) == secs
}

/// Seconds from the epoch to 10000-01-01T00:00:00Z, the first second that
/// four year digits cannot hold.
pub open spec fn seconds_limit() -> nat {
    days_to_year(10000) * 86400
}

/// The character of decimal digit `d`.
pub open spec fn digit_char(d: nat) -> char {
    ((d % 10) + 48) as char
}

/// The last `w` decimal digits of `n`, zero-padded on the left.
pub open spec fn padded(n: nat, w: nat) -> Seq<char>
    decreases w,
{
    if w == 0 {
        Seq::empty()
    } else {
        padded(n / 10, (w - 1) as nat).push(digit_char(n % 10))
    }
}

/// A reading as RFC 3339 UTC text: `YYYY-MM-DDTHH:MM:SSZ`.
pub open spec fn rfc3339(c: CalendarTime) -> Seq<char> {
    padded(c.year, 4) + seq!['-'] + padded(c.month, 2) + seq!['-'] + padded(c.day, 2) + seq!['T']
        + padded(c.hour, 2) + seq![':'] + padded(c.minute, 2) + seq![':'] + padded(c.second, 2)
        + seq!['Z']
}

/// The length of year `y`.
fn year_length(y: u64) -> (r: u64)
    ensures
        r == year_days(y as nat),
{
    if leap_year(y) {
        366
    } else {
        365
    }
}

/// Appends the last `w` decimal digits of `n`, zero-padded.
fn push_padded(out: &mut Vec<char>, n: u64, w: usize)
    ensures
        final(out)@ == old(out)@ + padded(n as nat, w as nat),
    decreases w,
{
    if w > 0 {
        push_padded(out, n / 10, w - 1);
        let c = crate::hex::hex_digit((n % 10) as u8);
        out.push(c);
        assert(final(out)@ =~= old(out)@ + padded(n as nat, w as nat));
    } else {
        assert(out@ =~= old(out)@ + padded(n as nat, w as nat));
    }
}

/// The year in which day `days` since the epoch falls, searching from `y`.
proof fn lemma_find_year(days: nat, y: nat) -> (r: nat)
    requires
        1970 <= y < 10000,
        days_to_year(y) <= days < days_to_year(10000),
    ensures
        1970 <= r < 10000,
        days_to_year(r) <= days < days_to_year(r) + year_days(r),
    decreases 10000 - y,
{
    if days < days_to_year(y) + year_days(y) {
        y
    } else {
        assert(days_to_year((y + 1) as nat) == days_to_year(y) + year_days(y));
        lemma_find_year(days, (y + 1) as nat)
    }
}

/// The month of year `y` in which day `rem` of that year falls, searching
/// from `m`.
proof fn lemma_find_month(y: nat, rem: nat, m: nat) -> (r: nat)
    requires
        1 <= m <= 12,
        days_to_month(y, m) <= rem < year_days(y),
    ensures
        1 <= r <= 12,
        days_to_month(y, r) <= rem < days_to_month(y, r) + month_days(y, r),
    decreases 13 - m,
{
    lemma_months_fill_year(y);
    if rem < days_to_month(y, m) + month_days(y, m) {
        m
    } else {
        assert(days_to_month(y, (m + 1) as nat) == days_to_month(y, m) + month_days(y, m));
        lemma_find_month(y, rem, (m + 1) as nat)
    }
}

/// The reading made of a day since the epoch and a second of that day.
proof fn lemma_reading_of_day(days: nat, tod: nat, y: nat, m: nat) -> (c: CalendarTime)
    requires
        tod < 86400,
        1970 <= y < 10000,
        1 <= m <= 12,
        days_to_year(y) + days_to_month(y, m) <= days,
        days < days_to_year(y) + days_to_month(y, m) + month_days(y, m),
    ensures
        valid_time(c),
        epoch_seconds(c) == days * 86400 + tod,
        c.year == y,
        c.month == m,
        c.day == days - days_to_year(y) - days_to_month(y, m) + 1,
        c.hour == tod / 3600,
        c.minute == (tod % 3600) / 60,
        c.second == tod % 60,
{
    let c = CalendarTime {
        year: y,
        month: m,
        day: (days - days_to_year(y) - days_to_month(y, m) + 1) as nat,
        hour: tod / 3600,
        minute: (tod % 3600) / 60,
        second: tod % 60,
    };
    vstd::arithmetic::div_mod::lemma_fundamental_div_mod(tod as int, 3600);
    vstd::arithmetic::div_mod::lemma_fundamental_div_mod((tod % 3600) as int, 60);
    vstd::arithmetic::div_mod::lemma_mod_mod(tod as int, 3600, 60);
    assert(c.hour * 3600 + c.minute * 60 + c.second == tod);
    c
}

/// Every second from the epoch up to the limit has a valid reading.
pub proof fn lemma_reading_exists(secs: nat)
    requires
        secs < seconds_limit(),
    ensures
        valid_time(reading_at(secs)),
        epoch_seconds(reading_at(secs)) == secs,
{
    let days = secs / 86400;
    let tod = secs % 86400;
    vstd::arithmetic::div_mod::lemma_fundamental_div_mod(secs as int, 86400);
    assert(days < days_to_year(10000)) by (nonlinear_arith)
        requires
            secs < days_to_year(10000) * 86400,
            secs == 86400 * days + tod,
            tod >= 0,
    ;
    let y = lemma_find_year(days, 1970);
    let m = lemma_find_month(y, (days - days_to_year(y)) as nat, 1);
    let c = lemma_reading_of_day(days, tod, y, m);
    assert(valid_time(c) && epoch_seconds(c) == secs);
}

/// The second `ms` milliseconds after the epoch falls in, as RFC 3339 UTC
/// text `YYYY-MM-DDTHH:MM:SSZ` (the milliseconds are dropped); `None` from
/// the year 10000 on, which four year digits cannot hold.
pub fn format_rfc3339_utc(ms: u64) -> (r: Option<String>)
    ensures
        r is None <==> ms / 1000 >= seconds_limit(),
        r matches Some(s) ==> s@ == rfc3339(reading_at((ms / 1000) as nat)),
{
    let secs = ms / 1000;
    let days = secs / 86400;
    let tod = secs % 86400;
    proof {
        vstd::arithmetic::div_mod::lemma_fundamental_div_mod(secs as int, 86400);
    }
    let mut y: u64 = 1970;
    let mut rem: u64 = days;
    while y < 10000 && rem >= year_length(y)
        invariant
            1970 <= y <= 10000,
            days_to_year(y as nat) + rem == days,
        decreases rem,
    {
        rem = rem - year_length(y);
        y = y + 1;
    }
    if y == 10000 {
        proof {
            assert(secs >= seconds_limit()) by (nonlinear_arith)
                requires
                    days >= days_to_year(10000),
                    secs == 86400 * days + tod,
                    tod >= 0,
            ;
        }
        return None;
    }
    proof {
        if y + 1 < 10000 {
            lemma_days_to_year_grows((y + 1) as nat, 10000);
        }
        assert(days < days_to_year(10000));
        assert(secs < seconds_limit()) by (nonlinear_arith)
            requires
                days < days_to_year(10000),
                secs == 86400 * days + tod,
                tod < 86400,
        ;
        lemma_months_fill_year(y as nat);
    }
    let ghost year_rem = rem;
    let mut m: u64 = 1;
    while rem >= days_in_month(y, m)
        invariant
            1 <= m <= 12,
            1970 <= y < 10000,
            days_to_month(y as nat, m as nat) + rem == year_rem,
            year_rem < year_days(y as nat),
            days_to_month(y as nat, 13) == year_days(y as nat),
        decreases rem,
    {
        proof {
            assert(days_to_month(y as nat, (m + 1) as nat) == days_to_month(y as nat, m as nat)
                + month_days(y as nat, m as nat));
        }
        rem = rem - days_in_month(y, m);
        m = m + 1;
    }
    let day = rem + 1;
    let hour = tod / 3600;
    let minute = (tod % 3600) / 60;
    let second = tod % 60;
    let ghost c = lemma_reading_of_day(days as nat, tod as nat, y as nat, m as nat);
    proof {
        assert(valid_time(c) && epoch_seconds(c) == secs);
        lemma_reading_unique(c, reading_at(secs as nat));
    }
    let mut out: Vec<char> = Vec::new();
    push_padded(&mut out, y, 4);
    out.push('-');
    push_padded(&mut out, m, 2);
    out.push('-');
    push_padded(&mut out, day, 2);
    out.push('T');
    push_padded(&mut out, hour, 2);
    out.push(':');
    push_padded(&mut out, minute, 2);
    out.push(':');
    push_padded(&mut out, second, 2);
    out.push('Z');
    assert(out@ =~= rfc3339(c));
    Some(crate::chars::string_of(out.as_slice()))
}

/// `10` to the power `w`.
pub open spec fn pow10(w: nat) -> nat
    decreases w,
{
    if w == 0 {
        1
    } else {
        10 * pow10((w - 1) as nat)
    }
}

/// A number below `10^w` written with `w` padded digits reads back as
/// itself.
proof fn lemma_padded_reads_back(n: nat, w: nat)
    requires
        n < pow10(w),
    ensures
        padded(n, w).len() == w,
        forall|i: int| 0 <= i < w ==> is_digit(#[trigger] padded(n, w)[i]),
        decimal_value(padded(n, w)) == n,
    decreases w,
{
    if w > 0 {
        let p = pow10((w - 1) as nat);
        assert(n / 10 < p) by (nonlinear_arith)
            requires
                n < 10 * p,
        ;
        lemma_padded_reads_back(n / 10, (w - 1) as nat);
        let t = padded(n, w);
        assert(t.drop_last() =~= padded(n / 10, (w - 1) as nat));
        vstd::arithmetic::div_mod::lemma_fundamental_div_mod(n as int, 10);
        assert(t.last() == digit_char(n % 10));
        assert((digit_char(n % 10) as int) - 48 == n % 10);
        assert forall|i: int| 0 <= i < w implies is_digit(#[trigger] t[i]) by {
            if i < w - 1 {
                assert(t[i] == padded(n / 10, (w - 1) as nat)[i]);
            }
        }
    }
}

/// Days up to a year are at most 366 for each year since 1970.
proof fn lemma_days_to_year_bound(y: nat)
    requires
        y >= 1970,
    ensures
        days_to_year(y) <= 366 * (y - 1970),
    decreases y,
{
    if y > 1970 {
        lemma_days_to_year_bound((y - 1) as nat);
    }
}

/// RFC 3339 text of a valid reading reads back, as an ISO 8601 bound, as
/// the instant of that reading.
pub proof fn lemma_rfc3339_reads_back(c: CalendarTime)
    requires
        valid_time(c),
    ensures
        parse_instant(rfc3339(c)) == Some((epoch_seconds(c) * 1000) as u64),
        epoch_seconds(c) * 1000 <= u64::MAX,
{
    let t = rfc3339(c);
    let yy = padded(c.year, 4);
    let mo = padded(c.month, 2);
    let dd = padded(c.day, 2);
    let hh = padded(c.hour, 2);
    let mi = padded(c.minute, 2);
    let ss = padded(c.second, 2);
    reveal_with_fuel(pow10, 5);
    lemma_padded_reads_back(c.year, 4);
    lemma_padded_reads_back(c.month, 2);
    lemma_padded_reads_back(c.day, 2);
    lemma_padded_reads_back(c.hour, 2);
    lemma_padded_reads_back(c.minute, 2);
    lemma_padded_reads_back(c.second, 2);
    assert(t.len() == 20);
    assert(t.last() == 'Z');
    let core = zone_free(t);
    assert(core =~= t.subrange(0, 19));
    assert(core.subrange(0, 4) =~= yy);
    assert(core.subrange(5, 7) =~= mo);
    assert(core.subrange(8, 10) =~= dd);
    assert(core.subrange(11, 13) =~= hh);
    assert(core.subrange(14, 16) =~= mi);
    assert(core.subrange(17, 19) =~= ss);
    assert forall|i: int| 0 <= i < core.len() implies match separator_at(i) {
        Some(s) => #[trigger] core[i] == s,
        None => is_digit(core[i]),
    } by {
        if i < 4 {
            assert(core[i] == yy[i]);
        } else if 5 <= i < 7 {
            assert(core[i] == mo[i - 5]);
        } else if 8 <= i < 10 {
            assert(core[i] == dd[i - 8]);
        } else if 11 <= i < 13 {
            assert(core[i] == hh[i - 11]);
        } else if 14 <= i < 16 {
            assert(core[i] == mi[i - 14]);
        } else if 17 <= i < 19 {
            assert(core[i] == ss[i - 17]);
        }
    }
    assert(fits_layout(core));
    assert(reading_of(core) == c);
    lemma_days_to_year_bound(c.year);
    lemma_months_fill_year(c.year);
    lemma_day_within_year(c);
    assert(epoch_day(c) < 366 * 8030);
    assert(epoch_seconds(c) * 1000 <= u64::MAX);
}

/// Every second from the epoch up to the limit, written as RFC 3339 text,
/// reads back as an ISO 8601 bound to that second.
pub proof fn lemma_rendered_second_reads_back(secs: nat)
    requires
        secs < seconds_limit(),
    ensures
        parse_instant(rfc3339(reading_at(secs))) == Some((secs * 1000) as u64),
        secs * 1000 <= u64::MAX,
{
    lemma_reading_exists(secs);
    lemma_rfc3339_reads_back(reading_at(secs));
}

/// A numeric zone `+hh:mm` or `-hh:mm` shifts the instant by that many
/// hours and minutes: a text with the zone names its local reading, taken
/// as UTC (the same text with `Z`), less `hh` hours and `mm` minutes east
/// of UTC, or plus them west of it; east of UTC a reading that would fall
/// before the epoch is refused.
pub proof fn lemma_numeric_zone_shifts(
    core: Seq<char>,
    sign: char,
    h1: char,
    h2: char,
    m1: char,
    m2: char,
    utc: u64,
)
    requires
        sign == '+' || sign == '-',
        '0' <= h1 <= '9',
        '0' <= h2 <= '9',
        '0' <= m1 <= '9',
        '0' <= m2 <= '9',
        ((h1 as int) - 48) * 10 + ((h2 as int) - 48) < 24,
        ((m1 as int) - 48) * 10 + ((m2 as int) - 48) < 60,
        parse_instant(core.push('Z')) == Some(utc),
    ensures
        ({
            let hours = ((h1 as int) - 48) * 10 + ((h2 as int) - 48);
            let minutes = ((m1 as int) - 48) * 10 + ((m2 as int) - 48);
            let shift = (hours * 3600 + minutes * 60) * 1000;
            let zoned = core + seq![sign, h1, h2, ':', m1, m2];
            &&& sign == '+' ==> parse_instant(zoned) == if utc >= shift {
                Some((utc - shift) as u64)
            } else {
                None
            }
            &&& sign == '-' ==> parse_instant(zoned) == Some((utc + shift) as u64)
            &&& utc + shift <= u64::MAX
        }),
{
    let hours = ((h1 as int) - 48) * 10 + ((h2 as int) - 48);
    let minutes = ((m1 as int) - 48) * 10 + ((m2 as int) - 48);
    let zoned = core + seq![sign, h1, h2, ':', m1, m2];
    let marked = core.push('Z');
    let n = zoned.len() as int;
    assert(has_utc_mark(marked));
    assert(zone_free(marked) =~= core);
    let c = reading_of(core);
    assert(fits_layout(core) && core.len() >= 13 && valid_time(c));
    lemma_rfc3339_reads_back(c);
    assert(utc == epoch_seconds(c) * 1000);
    assert(!has_utc_mark(zoned));
    assert(has_numeric_zone(zoned));
    assert(zone_free(zoned) =~= core);
    assert(zoned.subrange(n - 5, n - 3) =~= seq![h1, h2]);
    assert(zoned.subrange(n - 2, n) =~= seq![m1, m2]);
    assert(seq![h1, h2].drop_last() =~= seq![h1]);
    assert(seq![h1].drop_last() =~= Seq::<char>::empty());
    assert(seq![m1, m2].drop_last() =~= seq![m1]);
    assert(seq![m1].drop_last() =~= Seq::<char>::empty());
    assert(decimal_value(Seq::<char>::empty()) == 0);
    assert(seq![h1].last() == h1 && seq![h1, h2].last() == h2);
    assert(seq![m1].last() == m1 && seq![m1, m2].last() == m2);
    assert(decimal_value(seq![h1]) == (h1 as int) - 48);
    assert(decimal_value(seq![h1, h2]) == hours);
    assert(decimal_value(seq![m1]) == (m1 as int) - 48);
    assert(decimal_value(seq![m1, m2]) == minutes);
    assert(numeric_zone_ok(zoned));
    assert(zone_offset(zoned) == if sign == '+' {
        hours * 3600 + minutes * 60
    } else {
        -(hours * 3600 + minutes * 60)
    });
    lemma_epoch_seconds_bound(c);
}

/// The second of a valid reading is below the year 10000's, far within 64
/// bits even in milliseconds and a day later.
proof fn lemma_epoch_seconds_bound(c: CalendarTime)
    requires
        valid_time(c),
    ensures
        epoch_seconds(c) < 366 * 8031 * 86400,
{
    lemma_days_to_year_bound(c.year);
    lemma_months_fill_year(c.year);
    lemma_day_within_year(c);
}

} // verus!
