//! Instants: whole seconds since 1970-01-01T00:00:00Z, their RFC 3339 text in
//! UTC, and reading RFC 3339 texts of any zone.
use vstd::prelude::*;
use vstd::string::*;

use crate::decimal::{all_digits, digits_value, digits_value_leading, is_digit, nat_text_facts};
use crate::text::{chars_of, nat_text, padded_number, zero_padded, zeros};

verus! {

/// An instant, in whole seconds.
#[derive(Clone, Copy, Debug, PartialEq, Eq, PartialOrd, Ord, Structural)]
pub struct Timestamp {
    /// Seconds since 1970-01-01T00:00:00Z.
    pub secs: i64,
}

/// `y` is a leap year of the proleptic Gregorian calendar.
pub open spec fn is_leap(y: int) -> bool {
    y % 4 == 0 && (y % 100 != 0 || y % 400 == 0)
}

/// The number of days of month `m` of year `y`.
pub open spec fn month_days(y: int, m: int) -> int {
    if m == 2 {
        if is_leap(y) {
            29
        } else {
            28
        }
    } else if m == 4 || m == 6 || m == 9 || m == 11 {
        30
    } else {
        31
    }
}

/// The number of days of year `y` before its month `m`.
pub open spec fn days_before_month(y: int, m: int) -> int
    decreases m,
{
    if m <= 1 {
        0
    } else {
        days_before_month(y, m - 1) + month_days(y, m - 1)
    }
}

/// The number of days from the start of year 1 to the start of year `y`.
pub open spec fn days_before_year(y: int) -> int {
    365 * (y - 1) + (y - 1) / 4 - (y - 1) / 100 + (y - 1) / 400
}

/// The day of the calendar date, counted from 1970-01-01.
pub open spec fn day_number(y: int, m: int, d: int) -> int {
    days_before_year(y) + days_before_month(y, m) + (d - 1) - 719162
}

/// `y`, `m`, `d` is a date of the calendar.
pub open spec fn is_date(y: int, m: int, d: int) -> bool {
    1 <= m <= 12 && 1 <= d <= month_days(y, m)
}

/// The calendar date of a day.
pub open spec fn date_of(day: int) -> (int, int, int) {
    choose|t: (int, int, int)| is_date(t.0, t.1, t.2) && #[trigger] day_number(t.0, t.1, t.2) == day
}

/// `n` with at least `width` digits.
pub open spec fn fixed_text(n: int, width: nat) -> Seq<char> {
    zero_padded(nat_text(n as nat), width)
}

/// A year with at least four digits, signed below year zero.
pub open spec fn year_text(y: int) -> Seq<char> {
    if y < 0 {
        seq!['-'] + fixed_text(-y, 4)
    } else {
        fixed_text(y, 4)
    }
}

/// The RFC 3339 text of an instant in UTC: `YYYY-MM-DDThh:mm:ssZ`.
pub open spec fn instant_text(t: Timestamp) -> Seq<char> {
    let (y, m, d) = date_of(t.secs as int / 86400);
    let rest = t.secs as int % 86400;
    year_text(y) + seq!['-'] + fixed_text(m, 2) + seq!['-'] + fixed_text(d, 2) + seq!['T']
        + fixed_text(rest / 3600, 2) + seq![':'] + fixed_text(rest / 60 % 60, 2) + seq![':']
        + fixed_text(rest % 60, 2) + seq!['Z']
}

/// The digits `from..to` of `s`, as a number.
pub open spec fn field(s: Seq<char>, from: int, to: int) -> int {
    digits_value(s.subrange(from, to))
}

/// `s` begins with the shape `dddd-dd-ddTdd:dd:dd`.
pub open spec fn clock_shape(s: Seq<char>) -> bool {
    &&& s.len() >= 19
    &&& s[4] == '-' && s[7] == '-' && (s[10] == 'T' || s[10] == 't') && s[13] == ':' && s[16] == ':'
    &&& all_digits(s.subrange(0, 4)) && all_digits(s.subrange(5, 7)) && all_digits(s.subrange(8, 10))
    &&& all_digits(s.subrange(11, 13)) && all_digits(s.subrange(14, 16)) && all_digits(s.subrange(17, 19))
}

/// Where the run of digits that starts at `i` ends.
pub open spec fn digits_end(s: Seq<char>, i: int) -> int
    decreases s.len() - i,
{
    if 0 <= i < s.len() && is_digit(s[i]) {
        digits_end(s, i + 1)
    } else {
        i
    }
}

/// What stands behind the whole seconds and their fraction, where there is
/// one: a point with at least one digit.
pub open spec fn zone_part(s: Seq<char>) -> Seq<char> {
    if s.len() > 19 && s[19] == '.' && digits_end(s, 20) > 20 {
        s.skip(digits_end(s, 20))
    } else {
        s.skip(19)
    }
}

/// The seconds by which a zone is ahead of UTC: `Z`, or a sign with hours and
/// minutes.
pub open spec fn zone_offset(z: Seq<char>) -> Option<int> {
    if z.len() == 1 && (z[0] == 'Z' || z[0] == 'z') {
        Some(0)
    } else if z.len() == 6 && (z[0] == '+' || z[0] == '-') && all_digits(z.subrange(1, 3)) && z[3]
        == ':' && all_digits(z.subrange(4, 6)) && field(z, 1, 3) < 24 && field(z, 4, 6) < 60 {
        let ahead = field(z, 1, 3) * 3600 + field(z, 4, 6) * 60;
        Some(
            if z[0] == '-' {
                -ahead
            } else {
                ahead
            },
        )
    } else {
        None
    }
}

/// A month starts in UTC at this second: a leap second may come before it.
pub open spec fn starts_month(secs: int) -> bool {
    secs % 86400 == 0 && date_of(secs / 86400).2 == 1
}

/// The instant that `s` writes: an RFC 3339 text in any zone, taken to the
/// whole second in UTC. A leap second counts as the second after it.
pub open spec fn parsed_instant(s: Seq<char>) -> Option<Timestamp> {
    let (y, m, d) = (field(s, 0, 4), field(s, 5, 7), field(s, 8, 10));
    let (h, mi, sec) = (field(s, 11, 13), field(s, 14, 16), field(s, 17, 19));
    let offset = zone_offset(zone_part(s));
    if clock_shape(s) && is_date(y, m, d) && h < 24 && mi < 60 && offset is Some {
        let secs = day_number(y, m, d) * 86400 + h * 3600 + mi * 60 + sec - offset->0;
        if sec < 60 || (sec == 60 && starts_month(secs)) {
            Some(Timestamp { secs: secs as i64 })
        } else {
            None
        }
    } else {
        None
    }
}

/// A year has 365 days, a leap year one more.
proof fn year_length(y: int)
    ensures
        days_before_year(y + 1) == days_before_year(y) + (if is_leap(y) {
            366int
        } else {
            365
        }),
{
    let x = y - 1;
    assert((x + 1) / 4 == x / 4 + (if (x + 1) % 4 == 0 { 1int } else { 0 }));
    assert((x + 1) / 100 == x / 100 + (if (x + 1) % 100 == 0 { 1int } else { 0 }));
    assert((x + 1) / 400 == x / 400 + (if (x + 1) % 400 == 0 { 1int } else { 0 }));
}

proof fn months_add_up(y: int)
    ensures
        days_before_month(y, 13) == (if is_leap(y) { 366int } else { 365 }),
{
    reveal_with_fuel(days_before_month, 14);
}

proof fn months_ascend(y: int, a: int, b: int)
    requires
        1 <= a <= b <= 13,
    ensures
        days_before_month(y, a) <= days_before_month(y, b),
        a < b ==> days_before_month(y, a) + month_days(y, a) <= days_before_month(y, b),
    decreases b - a,
{
    if a < b {
        months_ascend(y, a, b - 1);
        if a < b - 1 {
        }
    }
}

proof fn years_ascend(a: int, b: int)
    requires
        a <= b,
    ensures
        days_before_year(a) <= days_before_year(b),
    decreases b - a,
{
    if a < b {
        years_ascend(a, b - 1);
        year_length(b - 1);
    }
}

/// A day belongs to one date only.
pub proof fn dates_unique(y: int, m: int, d: int, y2: int, m2: int, d2: int)
    requires
        is_date(y, m, d),
        is_date(y2, m2, d2),
        day_number(y, m, d) == day_number(y2, m2, d2),
    ensures
        y == y2,
        m == m2,
        d == d2,
{
    day_in_year(y, m, d);
    day_in_year(y2, m2, d2);
    if y < y2 {
        years_ascend(y + 1, y2);
    } else if y2 < y {
        years_ascend(y2 + 1, y);
    } else if m < m2 {
        months_ascend(y, m, m2);
    } else if m2 < m {
        months_ascend(y, m2, m);
    }
}

proof fn day_in_year(y: int, m: int, d: int)
    requires
        is_date(y, m, d),
    ensures
        days_before_year(y) <= day_number(y, m, d) + 719162 < days_before_year(y + 1),
{
    months_add_up(y);
    year_length(y);
    months_ascend(y, 1, m);
    months_ascend(y, m, 13);
}

/// The date of a day, where it is known.
pub proof fn date_of_is(day: int, y: int, m: int, d: int)
    requires
        is_date(y, m, d),
        day_number(y, m, d) == day,
    ensures
        date_of(day) == (y, m, d),
{
    let w = (y, m, d);
    assert(is_date(w.0, w.1, w.2) && day_number(w.0, w.1, w.2) == day);
    let t = date_of(day);
    dates_unique(t.0, t.1, t.2, y, m, d);
}

fn leap(y: i64) -> (r: bool)
    ensures
        r == is_leap(y as int),
{
    modulo(y, 4) == 0 && (modulo(y, 100) != 0 || modulo(y, 400) == 0)
}

fn quotient(a: i64, b: i64) -> (r: i64)
    requires
        b > 0,
    ensures
        r == a as int / b as int,
{
    proof {
        let x = a as int;
        let d = b as int;
        assert(i64::MIN <= x / d <= i64::MAX) by (nonlinear_arith)
            requires
                d > 0,
                i64::MIN <= x <= i64::MAX,
        ;
    }
    match a.checked_div_euclid(b) {
        Some(q) => q,
        None => 0,
    }
}

fn modulo(a: i64, b: i64) -> (r: i64)
    requires
        b > 0,
    ensures
        r == a as int % b as int,
{
    match a.checked_rem_euclid(b) {
        Some(q) => q,
        None => 0,
    }
}

fn days_in_month(y: i64, m: i64) -> (r: i64)
    ensures
        r == month_days(y as int, m as int),
{
    if m == 2 {
        if leap(y) {
            29
        } else {
            28
        }
    } else if m == 4 || m == 6 || m == 9 || m == 11 {
        30
    } else {
        31
    }
}

fn days_to_year(y: i64) -> (r: i64)
    requires
        -1_000_000_000_000_000 <= y <= 1_000_000_000_000_000,
    ensures
        r == days_before_year(y as int),
{
    let x: i64 = y - 1;
    365 * x + quotient(x, 4) - quotient(x, 100) + quotient(x, 400)
}

fn days_to_month(y: i64, m: i64) -> (r: i64)
    requires
        1 <= m <= 12,
    ensures
        r == days_before_month(y as int, m as int),
        0 <= r <= 31 * (m - 1),
{
    let mut k: i64 = 1;
    let mut total: i64 = 0;
    while k < m
        invariant
            1 <= k <= m <= 12,
            total == days_before_month(y as int, k as int),
            0 <= total <= 31 * (k - 1),
        decreases m - k,
    {
        total = total + days_in_month(y, k);
        k = k + 1;
    }
    total
}

/// The calendar date of a day counted from 1970-01-01.
fn calendar_date(day: i64) -> (r: (i64, i64, i64))
    requires
        -200_000_000_000_000 <= day <= 200_000_000_000_000,
    ensures
        is_date(r.0 as int, r.1 as int, r.2 as int),
        day_number(r.0 as int, r.1 as int, r.2 as int) == day,
        (r.0 as int, r.1 as int, r.2 as int) == date_of(day as int),
{
    let n: i64 = day + 719162;
    let era: i64 = quotient(n, 146097);
    let rem: i64 = n - era * 146097;
    let guess: i64 = rem / 366;
    let mut y: i64 = 400 * era + 1 + guess;
    proof {
        let k = guess as int;
        assert((400 * era + k) / 4 == 100 * era + k / 4);
        assert((400 * era + k) / 100 == 4 * era + k / 100);
        assert((400 * era + k) / 400 == era + k / 400);
        assert(days_before_year(y as int) <= n);
    }
    while days_to_year(y + 1) <= n
        invariant
            days_before_year(y as int) <= n,
            -1_000_000_000_000 <= y <= 1_000_000_000_000,
            -300_000_000_000_000 <= n <= 300_000_000_000_000,
        decreases n - days_before_year(y as int),
    {
        proof {
            year_length(y as int);
        }
        y = y + 1;
    }
    let mut left: i64 = n - days_to_year(y);
    let mut m: i64 = 1;
    proof {
        year_length(y as int);
        months_add_up(y as int);
    }
    while m < 12 && left >= days_in_month(y, m)
        invariant
            1 <= m <= 12,
            0 <= left,
            n == days_before_year(y as int) + days_before_month(y as int, m as int) + left,
            n < days_before_year(y as int) + days_before_month(y as int, 13),
        decreases 12 - m,
    {
        left = left - days_in_month(y, m);
        m = m + 1;
    }
    proof {
        if m == 12 {
            assert(days_before_month(y as int, 13) == days_before_month(y as int, 12) + month_days(
                y as int,
                12,
            ));
        }
        date_of_is(day as int, y as int, m as int, left + 1);
    }
    (y, m, left + 1)
}

/// The number that the digits `from..to` write, where all are digits.
fn number_at(chars: &Vec<char>, from: usize, to: usize) -> (r: Option<i64>)
    requires
        from <= to <= chars.len(),
        to - from <= 4,
    ensures
        match r {
            Some(n) => all_digits(chars@.subrange(from as int, to as int)) && n == field(
                chars@,
                from as int,
                to as int,
            ) && 0 <= n <= 9999,
            None => !all_digits(chars@.subrange(from as int, to as int)),
        },
{
    let ghost part = chars@.subrange(from as int, to as int);
    let mut n: i64 = 0;
    let mut i: usize = from;
    while i < to
        invariant
            from <= i <= to <= chars.len(),
            to - from <= 4,
            part == chars@.subrange(from as int, to as int),
            forall|k: int| 0 <= k < i - from ==> is_digit(#[trigger] part[k]),
            n == digits_value(part.take(i - from)),
            0 <= n,
            i - from == 0 ==> n < 1,
            i - from == 1 ==> n < 10,
            i - from == 2 ==> n < 100,
            i - from == 3 ==> n < 1000,
            i - from == 4 ==> n < 10000,
        decreases to - i,
    {
        let c: char = chars[i];
        assert(part[i - from] == c);
        if !('0' <= c && c <= '9') {
            assert(!is_digit(part[i - from]));
            return None;
        }
        assert(part.take(i - from + 1).drop_last() =~= part.take(i - from));
        n = 10 * n + (c as u32 - 48) as i64;
        i = i + 1;
    }
    assert(part.take(part.len() as int) =~= part);
    Some(n)
}

impl Timestamp {
    /// The instant `secs` seconds after 1970-01-01T00:00:00Z.
    pub fn from_secs(secs: i64) -> (r: Timestamp)
        ensures
            r.secs == secs,
    {
        Timestamp { secs }
    }

    /// Whether this instant is at or before `other`.
    pub fn at_or_before(&self, other: &Timestamp) -> (r: bool)
        ensures
            r == (self.secs <= other.secs),
    {
        self.secs <= other.secs
    }

    /// The RFC 3339 text of the instant in UTC.
    pub fn to_text(&self) -> (r: String)
        ensures
            r@ == instant_text(*self),
    {
        let day: i64 = quotient(self.secs, 86400);
        let rest: i64 = modulo(self.secs, 86400);
        let (y, m, d) = calendar_date(day);
        let mut out: String = String::new();
        proof {
            day_in_year(y as int, m as int, d as int);
            year_in_range(y as int, day as int);
        }
        if y < 0 {
            out.push('-');
            out.append(padded_number((-y) as u128, 4).as_str());
            assert(out@ =~= year_text(y as int));
        } else {
            out.append(padded_number(y as u128, 4).as_str());
            assert(out@ =~= year_text(y as int));
        }
        out.push('-');
        out.append(padded_number(m as u128, 2).as_str());
        out.push('-');
        out.append(padded_number(d as u128, 2).as_str());
        out.push('T');
        out.append(padded_number((rest / 3600) as u128, 2).as_str());
        out.push(':');
        out.append(padded_number((rest / 60 % 60) as u128, 2).as_str());
        out.push(':');
        out.append(padded_number((rest % 60) as u128, 2).as_str());
        out.push('Z');
        assert(out@ =~= instant_text(*self));
        out
    }

    /// Read an RFC 3339 text, to the whole second in UTC.
    pub fn parse(s: &str) -> (r: Option<Timestamp>)
        ensures
            r == parsed_instant(s@),
    {
        let c: Vec<char> = chars_of(s);
        if c.len() < 19 {
            return None;
        }
        if c[4] != '-' || c[7] != '-' || (c[10] != 'T' && c[10] != 't') || c[13] != ':' || c[16] != ':' {
            return None;
        }
        let offset: i64 = match offset_at(&c, zone_start(&c)) {
            Some(o) => o,
            None => return None,
        };
        match (
            number_at(&c, 0, 4),
            number_at(&c, 5, 7),
            number_at(&c, 8, 10),
            number_at(&c, 11, 13),
            number_at(&c, 14, 16),
            number_at(&c, 17, 19),
        ) {
            (Some(y), Some(m), Some(d), Some(h), Some(mi), Some(sec)) => {
                if m < 1 || m > 12 || d < 1 || d > days_in_month(y, m) || h >= 24 || mi >= 60 || sec > 60 {
                    return None;
                }
                let day: i64 = days_to_year(y) + days_to_month(y, m) + (d - 1) - 719162;
                let secs: i64 = day * 86400 + h * 3600 + mi * 60 + sec - offset;
                if sec == 60 {
                    if modulo(secs, 86400) != 0 {
                        return None;
                    }
                    let (_, _, first): (i64, i64, i64) = calendar_date(quotient(secs, 86400));
                    if first != 1 {
                        return None;
                    }
                }
                Some(Timestamp { secs })
            },
            _ => None,
        }
    }
}

/// Where the zone of an instant starts: behind the fraction, or behind the
/// whole seconds.
fn zone_start(chars: &Vec<char>) -> (r: usize)
    requires
        chars.len() >= 19,
    ensures
        r <= chars.len(),
        zone_part(chars@) == chars@.skip(r as int),
{
    if chars.len() == 19 || chars[19] != '.' {
        return 19;
    }
    let mut i: usize = 20;
    while i < chars.len() && '0' <= chars[i] && chars[i] <= '9'
        invariant
            20 <= i <= chars.len(),
            digits_end(chars@, 20) == digits_end(chars@, i as int),
        decreases chars.len() - i,
    {
        i = i + 1;
    }
    if i > 20 {
        i
    } else {
        19
    }
}

/// The seconds by which the zone that starts at `from` is ahead of UTC.
fn offset_at(chars: &Vec<char>, from: usize) -> (r: Option<i64>)
    requires
        from <= chars.len(),
    ensures
        match r {
            Some(o) => zone_offset(chars@.skip(from as int)) == Some(o as int) && -86400 < o < 86400,
            None => zone_offset(chars@.skip(from as int)) is None,
        },
{
    let ghost z = chars@.skip(from as int);
    let n: usize = chars.len() - from;
    if n == 1 && (chars[from] == 'Z' || chars[from] == 'z') {
        return Some(0);
    }
    if n != 6 || (chars[from] != '+' && chars[from] != '-') || chars[from + 3] != ':' {
        return None;
    }
    assert(z.subrange(1, 3) =~= chars@.subrange(from + 1, from + 3));
    assert(z.subrange(4, 6) =~= chars@.subrange(from + 4, from + 6));
    match (number_at(chars, from + 1, from + 3), number_at(chars, from + 4, from + 6)) {
        (Some(h), Some(mi)) => {
            if h >= 24 || mi >= 60 {
                return None;
            }
            let ahead: i64 = h * 3600 + mi * 60;
            Some(
                if chars[from] == '-' {
                    -ahead
                } else {
                    ahead
                },
            )
        },
        _ => None,
    }
}

proof fn year_in_range(y: int, day: int)
    requires
        -200_000_000_000_000 <= day <= 200_000_000_000_000,
        days_before_year(y) <= day + 719162 < days_before_year(y + 1),
    ensures
        -1_000_000_000_000 < y < 1_000_000_000_000,
{
}

proof fn fixed_text_facts(n: int, width: nat)
    requires
        0 <= n,
        width == 2 ==> n < 100,
        width == 4 ==> n < 10000,
        width == 2 || width == 4,
    ensures
        fixed_text(n, width).len() == width,
        all_digits(fixed_text(n, width)),
        digits_value(fixed_text(n, width)) == n,
{
    let t = nat_text(n as nat);
    nat_text_facts(n as nat);
    reveal_with_fuel(nat_text, 5);
    assert(t.len() <= width);
    digits_value_leading(t, (width - t.len()) as nat);
    assert(zeros((width - t.len()) as nat) + t =~= fixed_text(n, width));
}

/// The text of an instant within the years 0 to 9999 reads back as the same
/// instant.
pub proof fn instant_reads_back(t: Timestamp, y: int, m: int, d: int)
    requires
        is_date(y, m, d),
        day_number(y, m, d) == t.secs as int / 86400,
        0 <= y <= 9999,
    ensures
        parsed_instant(instant_text(t)) == Some(t),
{
    date_of_is(t.secs as int / 86400, y, m, d);
    let rest = t.secs as int % 86400;
    let (h, mi, sec) = (rest / 3600, rest / 60 % 60, rest % 60);
    fixed_text_facts(y, 4);
    fixed_text_facts(m, 2);
    fixed_text_facts(d, 2);
    fixed_text_facts(h, 2);
    fixed_text_facts(mi, 2);
    fixed_text_facts(sec, 2);
    let s = instant_text(t);
    assert(s.subrange(0, 4) =~= fixed_text(y, 4));
    assert(s.subrange(5, 7) =~= fixed_text(m, 2));
    assert(s.subrange(8, 10) =~= fixed_text(d, 2));
    assert(s.subrange(11, 13) =~= fixed_text(h, 2));
    assert(s.subrange(14, 16) =~= fixed_text(mi, 2));
    assert(s.subrange(17, 19) =~= fixed_text(sec, 2));
    assert(h * 3600 + mi * 60 + sec == rest);
    assert(zone_part(s) =~= seq!['Z']);
}

/// Days count from 1970-01-01, one by one: behind a day comes the next of
/// its month, behind the last of a month the first of the next, and behind
/// the last of a year the first of the next.
pub proof fn days_follow_each_other(y: int, m: int, d: int)
    requires
        is_date(y, m, d),
    ensures
        day_number(1970, 1, 1) == 0,
        is_date(y, m, d + 1) ==> day_number(y, m, d + 1) == day_number(y, m, d) + 1,
        !is_date(y, m, d + 1) && m < 12 ==> day_number(y, m + 1, 1) == day_number(y, m, d) + 1,
        !is_date(y, m, d + 1) && m == 12 ==> day_number(y + 1, 1, 1) == day_number(y, m, d) + 1,
{
    if m == 12 {
        months_add_up(y);
        year_length(y);
    }
}

/// How long the months are: 30 days in April, June, September and November,
/// 31 in the others but February, which has 29 in a leap year and 28 in any
/// other. A year is a leap year when four divides it, but not when a hundred
/// does and four hundred does not.
pub proof fn months_have_their_lengths(y: int, d: int)
    ensures
        forall|m: int|
            (m == 4 || m == 6 || m == 9 || m == 11) ==> (#[trigger] is_date(y, m, d) <==> 1 <= d <= 30),
        forall|m: int|
            (m == 1 || m == 3 || m == 5 || m == 7 || m == 8 || m == 10 || m == 12) ==> (
            #[trigger] is_date(y, m, d) <==> 1 <= d <= 31),
        forall|m: int| #[trigger] is_date(y, m, d) ==> 1 <= m <= 12,
        y % 4 != 0 ==> (is_date(y, 2, d) <==> 1 <= d <= 28),
        y % 4 == 0 && y % 100 != 0 ==> (is_date(y, 2, d) <==> 1 <= d <= 29),
        y % 100 == 0 && y % 400 != 0 ==> (is_date(y, 2, d) <==> 1 <= d <= 28),
        y % 400 == 0 ==> (is_date(y, 2, d) <==> 1 <= d <= 29),
{
}

/// The text begins with this date and time of day.
pub open spec fn writes_clock(
    s: Seq<char>,
    date: (int, int, int),
    time: (int, int, int),
) -> bool {
    &&& s.len() >= 19
    &&& all_digits(s.subrange(0, 4)) && digits_value(s.subrange(0, 4)) == date.0
    &&& all_digits(s.subrange(5, 7)) && digits_value(s.subrange(5, 7)) == date.1
    &&& all_digits(s.subrange(8, 10)) && digits_value(s.subrange(8, 10)) == date.2
    &&& all_digits(s.subrange(11, 13)) && digits_value(s.subrange(11, 13)) == time.0
    &&& all_digits(s.subrange(14, 16)) && digits_value(s.subrange(14, 16)) == time.1
    &&& all_digits(s.subrange(17, 19)) && digits_value(s.subrange(17, 19)) == time.2
    &&& s[4] == '-' && s[7] == '-' && s[13] == ':' && s[16] == ':' && (s[10] == 'T' || s[10] == 't')
}

/// The second of a date and time of day.
pub open spec fn second_of(date: (int, int, int), time: (int, int, int)) -> int {
    86400 * day_number(date.0, date.1, date.2) + 3600 * time.0 + 60 * time.1 + time.2
}

/// The text of an instant writes its date and time of day, and `Z` behind
/// them.
#[verifier::rlimit(60)]
#[verifier::spinoff_prover]
pub proof fn instant_texts_write_date_and_time(
    t: Timestamp,
    date: (int, int, int),
    time: (int, int, int),
)
    requires
        0 <= date.0 <= 9999,
        is_date(date.0, date.1, date.2),
        0 <= time.0 < 24,
        0 <= time.1 < 60,
        0 <= time.2 < 60,
        t.secs == second_of(date, time),
    ensures
        writes_clock(instant_text(t), date, time),
        instant_text(t).len() == 20,
        instant_text(t)[10] == 'T',
        instant_text(t)[19] == 'Z',
{
    let (y, m, d) = date;
    let (h, mi, sec) = time;
    let of_day = 3600 * h + 60 * mi + sec;
    assert(t.secs as int / 86400 == day_number(y, m, d) && t.secs as int % 86400 == of_day);
    date_of_is(t.secs as int / 86400, y, m, d);
    assert(of_day / 3600 == h && of_day / 60 % 60 == mi && of_day % 60 == sec);
    fixed_text_facts(y, 4);
    fixed_text_facts(m, 2);
    fixed_text_facts(d, 2);
    fixed_text_facts(h, 2);
    fixed_text_facts(mi, 2);
    fixed_text_facts(sec, 2);
    let s = instant_text(t);
    assert(s.subrange(0, 4) =~= fixed_text(y, 4));
    assert(s.subrange(5, 7) =~= fixed_text(m, 2));
    assert(s.subrange(8, 10) =~= fixed_text(d, 2));
    assert(s.subrange(11, 13) =~= fixed_text(h, 2));
    assert(s.subrange(14, 16) =~= fixed_text(mi, 2));
    assert(s.subrange(17, 19) =~= fixed_text(sec, 2));
}

#[verifier::rlimit(60)]
#[verifier::spinoff_prover]
proof fn clock_bounds(s: Seq<char>, date: (int, int, int), time: (int, int, int))
    requires
        writes_clock(s, date, time),
    ensures
        0 <= date.0 <= 9999,
        0 <= time.0 <= 99,
        0 <= time.1 <= 99,
        0 <= time.2 <= 99,
        is_date(date.0, date.1, date.2) ==> -1_000_000 <= day_number(date.0, date.1, date.2)
            <= 4_000_000,
{
    reveal_with_fuel(digits_value, 5);
    let (a, b, c, d) = (s.subrange(0, 4), s.subrange(11, 13), s.subrange(14, 16), s.subrange(17, 19));
    assert(is_digit(a[0]) && is_digit(a[1]) && is_digit(a[2]) && is_digit(a[3]));
    assert(is_digit(b[0]) && is_digit(b[1]) && is_digit(c[0]) && is_digit(c[1]) && is_digit(d[0])
        && is_digit(d[1]));
    let z = a.drop_last();
    assert(z[0] == a[0] && z[1] == a[1] && z[2] == a[2]);
    let zz = z.drop_last();
    assert(zz.drop_last()[0] == a[0]);
    if is_date(date.0, date.1, date.2) {
        day_in_year(date.0, date.1, date.2);
    }
}

/// A time of day in UTC is read as its second; a date that the calendar does
/// not have, and a time of day that the clock does not, is no instant.
pub proof fn clock_texts_are_read(s: Seq<char>, date: (int, int, int), time: (int, int, int))
    requires
        writes_clock(s, date, time),
        s.len() == 20,
        s[19] == 'Z' || s[19] == 'z',
    ensures
        is_date(date.0, date.1, date.2) && time.0 < 24 && time.1 < 60 && time.2 < 60 ==> (
        parsed_instant(s) matches Some(t) && t.secs == second_of(date, time)),
        !is_date(date.0, date.1, date.2) || time.0 >= 24 || time.1 >= 60 || time.2 > 60
            ==> parsed_instant(s) is None,
{
    clock_bounds(s, date, time);
    assert(zone_part(s) =~= seq![s[19]]);
}

/// A leap second counts as the second after it, and only the end of a month
/// in UTC can have one.
#[verifier::rlimit(60)]
#[verifier::spinoff_prover]
pub proof fn leap_seconds_end_a_month(
    s: Seq<char>,
    y: int,
    m: int,
    d: int,
    h: int,
    mi: int,
)
    requires
        writes_clock(s, (y, m, d), (h, mi, 60)),
        s.len() == 20,
        s[19] == 'Z' || s[19] == 'z',
        is_date(y, m, d),
        h < 24,
        mi < 60,
    ensures
        h == 23 && mi == 59 && !is_date(y, m, d + 1) ==> (parsed_instant(s) matches Some(t) && t.secs
            == second_of((y, m, d), (23, 59, 59)) + 1),
        !(h == 23 && mi == 59 && !is_date(y, m, d + 1)) ==> parsed_instant(s) is None,
{
    clock_bounds(s, (y, m, d), (h, mi, 60));
    assert(zone_part(s) =~= seq![s[19]]);
    let day = day_number(y, m, d);
    let secs = second_of((y, m, d), (h, mi, 60));
    if h == 23 && mi == 59 {
        days_follow_each_other(y, m, d);
        assert(secs % 86400 == 0 && secs / 86400 == day + 1);
        if is_date(y, m, d + 1) {
            date_of_is(day + 1, y, m, d + 1);
        } else if m < 12 {
            date_of_is(day + 1, y, m + 1, 1);
        } else {
            date_of_is(day + 1, y + 1, 1, 1);
        }
    } else {
        assert(secs % 86400 != 0) by {
            let of_day = 3600 * h + 60 * mi + 60;
            assert(0 < of_day < 86400);
        }
    }
}

/// A time of day in another zone is earlier by what the zone is ahead of UTC,
/// and later by what it is behind.
pub proof fn zones_shift_the_instant(
    clock: Seq<char>,
    date: (int, int, int),
    time: (int, int, int),
    hours: int,
    minutes: int,
)
    requires
        clock.len() == 19,
        writes_clock(clock, date, time),
        is_date(date.0, date.1, date.2),
        time.0 < 24,
        time.1 < 60,
        time.2 < 60,
        0 <= hours < 24,
        0 <= minutes < 60,
    ensures
        ({
            let zone = fixed_text(hours, 2) + seq![':'] + fixed_text(minutes, 2);
            let utc = second_of(date, time);
            let ahead = 3600 * hours + 60 * minutes;
            &&& parsed_instant(clock + (seq!['+'] + zone)) matches Some(t) && t.secs == utc - ahead
            &&& parsed_instant(clock + (seq!['-'] + zone)) matches Some(t) && t.secs == utc + ahead
        }),
{
    let zone = fixed_text(hours, 2) + seq![':'] + fixed_text(minutes, 2);
    zone_is_read(clock, date, time, '+', hours, minutes);
    zone_is_read(clock, date, time, '-', hours, minutes);
}

proof fn zone_is_read(
    clock: Seq<char>,
    date: (int, int, int),
    time: (int, int, int),
    sign: char,
    hours: int,
    minutes: int,
)
    requires
        clock.len() == 19,
        writes_clock(clock, date, time),
        is_date(date.0, date.1, date.2),
        time.0 < 24,
        time.1 < 60,
        time.2 < 60,
        0 <= hours < 24,
        0 <= minutes < 60,
        sign == '+' || sign == '-',
    ensures
        parsed_instant(
            clock + (seq![sign] + (fixed_text(hours, 2) + seq![':'] + fixed_text(minutes, 2))),
        ) matches Some(t) && t.secs == second_of(date, time) - (if sign == '-' {
            -(3600 * hours + 60 * minutes)
        } else {
            3600 * hours + 60 * minutes
        }),
{
    clock_bounds(clock, date, time);
    fixed_text_facts(hours, 2);
    fixed_text_facts(minutes, 2);
    let zone = seq![sign] + (fixed_text(hours, 2) + seq![':'] + fixed_text(minutes, 2));
    let s = clock + zone;
    same_clock(clock, zone, date, time);
    assert(s[19] == sign);
    assert(zone_part(s) =~= zone);
    assert(zone.subrange(1, 3) =~= fixed_text(hours, 2));
    assert(zone.subrange(4, 6) =~= fixed_text(minutes, 2));
}

proof fn same_clock(clock: Seq<char>, rest: Seq<char>, date: (int, int, int), time: (int, int, int))
    requires
        clock.len() == 19,
        writes_clock(clock, date, time),
    ensures
        writes_clock(clock + rest, date, time),
{
    let s = clock + rest;
    assert(s.subrange(0, 4) =~= clock.subrange(0, 4));
    assert(s.subrange(5, 7) =~= clock.subrange(5, 7));
    assert(s.subrange(8, 10) =~= clock.subrange(8, 10));
    assert(s.subrange(11, 13) =~= clock.subrange(11, 13));
    assert(s.subrange(14, 16) =~= clock.subrange(14, 16));
    assert(s.subrange(17, 19) =~= clock.subrange(17, 19));
}

/// A fraction of a second is dropped: with it the text reads as without it.
#[verifier::rlimit(60)]
#[verifier::spinoff_prover]
pub proof fn fractions_are_dropped(clock: Seq<char>, digits: Seq<char>, zone: Seq<char>)
    requires
        clock.len() == 19,
        digits.len() > 0,
        all_digits(digits),
        zone.len() > 0,
        !is_digit(zone[0]),
        zone[0] != '.',
    ensures
        parsed_instant(clock + seq!['.'] + digits + zone) == parsed_instant(clock + zone),
{
    let a = clock + seq!['.'] + digits + zone;
    let b = clock + zone;
    assert forall|i: int, j: int| 0 <= i <= j <= 19 implies #[trigger] a.subrange(i, j)
        == b.subrange(i, j) by {
        assert(a.subrange(i, j) =~= b.subrange(i, j));
    }
    assert forall|i: int| 0 <= i < 19 implies #[trigger] a[i] == b[i] by {
    }
    assert(clock_shape(a) == clock_shape(b));
    digits_run(a, 20, 20 + digits.len() as int);
    assert(a[19] == '.');
    assert(zone_part(a) =~= zone);
    assert(b[19] == zone[0]);
    assert(zone_part(b) =~= zone);
}

proof fn digits_run(s: Seq<char>, i: int, j: int)
    requires
        0 <= i <= j < s.len(),
        forall|k: int| i <= k < j ==> is_digit(#[trigger] s[k]),
        !is_digit(s[j]),
    ensures
        digits_end(s, i) == j,
    decreases j - i,
{
    if i < j {
        digits_run(s, i + 1, j);
    }
}

/// A text without a zone is no instant, and neither is one with anything
/// but a zone behind its seconds.
pub proof fn instants_need_a_zone(clock: Seq<char>, rest: Seq<char>)
    requires
        clock.len() == 19,
        rest.len() != 1 && rest.len() != 6,
        rest.len() > 0 ==> rest[0] != '.',
    ensures
        parsed_instant(clock + rest) is None,
{
    assert((clock + rest).skip(19) =~= rest);
    if rest.len() > 0 {
        assert((clock + rest)[19] == rest[0]);
    }
}

} // verus!
