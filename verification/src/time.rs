//! Instants and the proleptic Gregorian calendar.
//!
//! A [`Timestamp`] is a count of seconds from 1970-01-01T00:00:00Z, read
//! and written in the RFC 3339 notation. Days are numbered from the same
//! origin.

use vstd::prelude::*;
use crate::text;

verus! {

/// Seconds in a day.
pub const SECS_PER_DAY: i64 = 86_400;

/// Whether `y` is a leap year.
pub open spec fn leap(y: int) -> bool {
    y % 4 == 0 && (y % 100 != 0 || y % 400 == 0)
}

/// The number of days in month `m` of year `y`.
pub open spec fn month_days(y: int, m: int) -> int {
    if m == 2 {
        if leap(y) {
            29
        } else {
            28
        }
    } else if m == 4 || m == 6 || m == 9 || m == 11 {
        30
    } else {
        31
    }
}

/// The days before month `m` within year `y`.
pub open spec fn month_start(y: int, m: int) -> int
    decreases m,
{
    if m <= 1 {
        0
    } else {
        month_start(y, m - 1) + month_days(y, m - 1)
    }
}

/// The day number of January 1 of year `y`.
pub open spec fn year_start(y: int) -> int {
    365 * (y - 1) + (y - 1) / 4 - (y - 1) / 100 + (y - 1) / 400 - 719_162
}

/// The day number of a calendar date.
pub open spec fn day_number(y: int, m: int, d: int) -> int {
    year_start(y) + month_start(y, m) + d - 1
}

/// Whether the date exists.
pub open spec fn valid_date(y: int, m: int, d: int) -> bool {
    1 <= m <= 12 && 1 <= d <= month_days(y, m)
}

/// The calendar date of a day number.
pub open spec fn civil(n: int) -> (int, int, int) {
    choose|c: (int, int, int)| valid_date(c.0, c.1, c.2) && #[trigger] day_number(c.0, c.1, c.2) == n
}

/// A year has 365 days, a leap year one more.
pub proof fn year_length(y: int)
    ensures
        year_start(y + 1) - year_start(y) == if leap(y) { 366int } else { 365int },
{
}

/// The months of a year, one after the other.
proof fn month_table(y: int)
    ensures
        month_start(y, 1) == 0,
        month_start(y, 2) == 31,
        month_start(y, 3) == 31 + month_days(y, 2),
        month_start(y, 4) == 62 + month_days(y, 2),
        month_start(y, 5) == 92 + month_days(y, 2),
        month_start(y, 6) == 123 + month_days(y, 2),
        month_start(y, 7) == 153 + month_days(y, 2),
        month_start(y, 8) == 184 + month_days(y, 2),
        month_start(y, 9) == 215 + month_days(y, 2),
        month_start(y, 10) == 245 + month_days(y, 2),
        month_start(y, 11) == 276 + month_days(y, 2),
        month_start(y, 12) == 306 + month_days(y, 2),
        month_start(y, 13) == 337 + month_days(y, 2),
{
    reveal_with_fuel(month_start, 14);
}

/// A later year starts later, by 365 days a year at least.
proof fn year_start_grows(a: int, b: int)
    requires
        a <= b,
    ensures
        year_start(b) >= year_start(a) + 365 * (b - a),
    decreases b - a,
{
    if a < b {
        year_start_grows(a, b - 1);
        year_length(b - 1);
    }
}

/// No two dates share a day number.
pub proof fn day_number_injective(y: int, m: int, d: int, y2: int, m2: int, d2: int)
    requires
        valid_date(y, m, d),
        valid_date(y2, m2, d2),
        day_number(y, m, d) == day_number(y2, m2, d2),
    ensures
        y == y2 && m == m2 && d == d2,
{
    month_table(y);
    month_table(y2);
    year_length(y);
    year_length(y2);
    if y < y2 {
        year_start_grows(y + 1, y2);
    } else if y2 < y {
        year_start_grows(y2 + 1, y);
    }
}

/// The calendar date of a date's day number is that date.
pub proof fn civil_of_day_number(y: int, m: int, d: int)
    requires
        valid_date(y, m, d),
    ensures
        civil(day_number(y, m, d)) == (y, m, d),
{
    let n = day_number(y, m, d);
    let w = (y, m, d);
    assert(valid_date(w.0, w.1, w.2) && day_number(w.0, w.1, w.2) == n);
    let c = civil(n);
    day_number_injective(c.0, c.1, c.2, y, m, d);
}

/// The number of days in a month.
pub fn days_in_month(year: i64, month: u32) -> (r: u32)
    requires
        1 <= month <= 12,
    ensures
        r == month_days(year as int, month as int),
{
    wide_days_in_month(year as i128, month)
}

/// The number of days in a month, over a wide range of years.
pub(crate) fn wide_days_in_month(year: i128, month: u32) -> (r: u32)
    requires
        -0x1_0000_0000_0000_0000_0000 < year < 0x1_0000_0000_0000_0000_0000,
        1 <= month <= 12,
    ensures
        r == month_days(year as int, month as int),
        28 <= r <= 31,
{
    if month == 2 {
        let (_, r4) = floor_div(year, 4);
        let (_, r100) = floor_div(year, 100);
        let (_, r400) = floor_div(year, 400);
        if r4 == 0 && (r100 != 0 || r400 == 0) {
            29
        } else {
            28
        }
    } else if month == 4 || month == 6 || month == 9 || month == 11 {
        30
    } else {
        31
    }
}

/// A day number is of the order of 366 days a year.
pub(crate) proof fn day_number_bounds(y: int, m: int, d: int)
    requires
        1 <= m <= 12,
        1 <= d <= 31,
    ensures
        y >= 0 ==> -1_000_000 <= day_number(y, m, d) <= 366 * y + 1_000_000,
        y < 0 ==> 366 * y - 1_000_000 <= day_number(y, m, d) <= 1_000_000,
{
    month_table(y);
}

/// Quotient and remainder of the division that rounds down.
pub(crate) fn floor_div(n: i128, d: i128) -> (r: (i128, i128))
    requires
        0 < d <= 1_000_000,
        -0x1_0000_0000_0000_0000_0000_0000 < n < 0x1_0000_0000_0000_0000_0000_0000,
    ensures
        r.0 == n as int / d as int,
        r.1 == n as int % d as int,
{
    if n >= 0 {
        (n / d, n % d)
    } else {
        let m: i128 = -1 - n;
        let q: i128 = m / d;
        let t: i128 = m % d;
        proof {
            vstd::arithmetic::div_mod::lemma_fundamental_div_mod(m as int, d as int);
            assert(n == d * (-1 - q) + (d - 1 - t)) by (nonlinear_arith)
                requires
                    m == -1 - n,
                    m == d * q + t,
            ;
            vstd::arithmetic::div_mod::lemma_fundamental_div_mod_converse(
                n as int,
                d as int,
                -1 - q as int,
                d - 1 - t as int,
            );
        }
        (-1 - q, d - 1 - t)
    }
}

/// The day number of a date, over a wide range of years.
pub(crate) fn wide_days_from_civil(y: i128, m: u32, d: u32) -> (r: i128)
    requires
        -0x1_0000_0000_0000_0000_0000 < y < 0x1_0000_0000_0000_0000_0000,
        1 <= m <= 12,
        1 <= d <= 31,
    ensures
        r == day_number(y as int, m as int, d as int),
{
    let p: i128 = y - 1;
    let (q4, _) = floor_div(p, 4);
    let (q100, _) = floor_div(p, 100);
    let (q400, _) = floor_div(p, 400);
    let (_, r4) = floor_div(y, 4);
    let (_, r100) = floor_div(y, 100);
    let (_, r400) = floor_div(y, 400);
    let feb: i128 = if r4 == 0 && (r100 != 0 || r400 == 0) {
        29
    } else {
        28
    };
    let before: i128 = if m == 1 {
        0
    } else if m == 2 {
        31
    } else if m == 3 {
        31 + feb
    } else if m == 4 {
        62 + feb
    } else if m == 5 {
        92 + feb
    } else if m == 6 {
        123 + feb
    } else if m == 7 {
        153 + feb
    } else if m == 8 {
        184 + feb
    } else if m == 9 {
        215 + feb
    } else if m == 10 {
        245 + feb
    } else if m == 11 {
        276 + feb
    } else {
        306 + feb
    };
    proof {
        month_table(y as int);
    }
    365 * p + q4 - q100 + q400 - 719_162 + before + (d as i128) - 1
}

/// The day number of a date.
pub fn days_from_civil(y: i64, m: u32, d: u32) -> (r: i64)
    requires
        1 <= m <= 12,
        1 <= d <= 31,
        i64::MIN <= day_number(y as int, m as int, d as int) <= i64::MAX,
    ensures
        r == day_number(y as int, m as int, d as int),
{
    wide_days_from_civil(y as i128, m, d) as i64
}

/// The calendar date of a day number: year, month, day.
#[verifier::spinoff_prover]
#[verifier::rlimit(40)]
pub fn civil_from_days(days: i64) -> (r: (i64, u32, u32))
    ensures
        (r.0 as int, r.1 as int, r.2 as int) == civil(days as int),
        valid_date(r.0 as int, r.1 as int, r.2 as int),
        day_number(r.0 as int, r.1 as int, r.2 as int) == days,
{
    let n: i128 = days as i128 + 719_162;
    let (cycle, r) = floor_div(n, 146_097);
    let c: i128 = if r / 36_524 > 3 {
        3
    } else {
        r / 36_524
    };
    let r2: i128 = r - c * 36_524;
    let q: i128 = r2 / 1_461;
    let r3: i128 = r2 - q * 1_461;
    let a: i128 = if r3 / 365 > 3 {
        3
    } else {
        r3 / 365
    };
    let r4: i128 = r3 - a * 365;
    let y: i128 = cycle * 400 + c * 100 + q * 4 + a + 1;
    assert((y - 1) / 4 == cycle * 100 + c * 25 + q);
    assert((y - 1) / 100 == cycle * 4 + c);
    assert((y - 1) / 400 == cycle);
    assert(year_start(y as int) + r4 == days);
    assert(0 <= r4 < if leap(y as int) { 366int } else { 365int });
    let year: i64 = y as i64;
    let mut m: u32 = 1;
    let mut rest: u32 = r4 as u32;
    proof {
        month_table(y as int);
    }
    while m < 12 && rest >= days_in_month(year, m)
        invariant
            1 <= m <= 12,
            year as int == y,
            rest + month_start(y as int, m as int) == r4,
            r4 < month_start(y as int, 13),
            r4 == days - year_start(y as int),
        decreases 12 - m,
    {
        rest = rest - days_in_month(year, m);
        m = m + 1;
    }
    proof {
        month_table(y as int);
        civil_of_day_number(y as int, m as int, rest + 1);
    }
    (year, m, rest + 1)
}

/// Every day number is the day number of its calendar date.
pub proof fn day_number_of_civil(n: int)
    ensures
        valid_date(civil(n).0, civil(n).1, civil(n).2),
        day_number(civil(n).0, civil(n).1, civil(n).2) == n,
{
    let k = n + 719_162;
    let cycle = k / 146_097;
    let r = k % 146_097;
    let c = if r / 36_524 > 3 { 3 } else { r / 36_524 };
    let r2 = r - c * 36_524;
    let q = r2 / 1_461;
    let r3 = r2 - q * 1_461;
    let a = if r3 / 365 > 3 { 3 } else { r3 / 365 };
    let r4 = r3 - a * 365;
    let y = cycle * 400 + c * 100 + q * 4 + a + 1;
    assert((y - 1) / 4 == cycle * 100 + c * 25 + q);
    assert((y - 1) / 100 == cycle * 4 + c);
    assert((y - 1) / 400 == cycle);
    assert(year_start(y) + r4 == n);
    assert(0 <= r4 < if leap(y) { 366int } else { 365int });
    let m = choose_month(y, r4);
    assert(valid_date(y, m, r4 - month_start(y, m) + 1));
    assert(day_number(y, m, r4 - month_start(y, m) + 1) == n);
    let w = (y, m, r4 - month_start(y, m) + 1);
    assert(valid_date(w.0, w.1, w.2) && day_number(w.0, w.1, w.2) == n);
}

/// The month that the given day of the year falls in.
proof fn choose_month(y: int, day: int) -> (m: int)
    requires
        0 <= day < if leap(y) { 366int } else { 365int },
    ensures
        1 <= m <= 12,
        month_start(y, m) <= day < month_start(y, m) + month_days(y, m),
{
    month_table(y);
    if day < month_start(y, 2) {
        1
    } else if day < month_start(y, 3) {
        2
    } else if day < month_start(y, 4) {
        3
    } else if day < month_start(y, 5) {
        4
    } else if day < month_start(y, 6) {
        5
    } else if day < month_start(y, 7) {
        6
    } else if day < month_start(y, 8) {
        7
    } else if day < month_start(y, 9) {
        8
    } else if day < month_start(y, 10) {
        9
    } else if day < month_start(y, 11) {
        10
    } else if day < month_start(y, 12) {
        11
    } else {
        12
    }
}

/// An instant: seconds since 1970-01-01T00:00:00Z.
#[derive(Debug, Clone, Copy, PartialEq, Eq, PartialOrd, Ord, Hash, Structural)]
pub struct Timestamp {
    pub secs: i64,
}

/// `n` as two digits.
pub open spec fn pad2(n: int) -> Seq<char> {
    seq![text::digit((n / 10) as nat), text::digit((n % 10) as nat)]
}

/// A year as four digits, with a sign before Christ and as many digits
/// as it takes from year 10000 on.
pub open spec fn year_text(y: int) -> Seq<char> {
    if 0 <= y <= 9999 {
        pad2(y / 100) + pad2(y % 100)
    } else if y < 0 {
        if -y <= 9999 {
            seq!['-'] + pad2((-y) / 100) + pad2((-y) % 100)
        } else {
            seq!['-'] + text::decimal((-y) as nat)
        }
    } else {
        text::decimal(y as nat)
    }
}

/// The canonical notation of an instant: `2026-09-01T00:00:00Z`.
pub open spec fn stamp_text(secs: int) -> Seq<char> {
    let (y, m, d) = civil(secs / 86_400);
    let t = secs % 86_400;
    year_text(y) + seq!['-'] + pad2(m) + seq!['-'] + pad2(d) + seq!['T'] + pad2(t / 3_600) + seq![
        ':',
    ] + pad2((t / 60) % 60) + seq![':'] + pad2(t % 60) + seq!['Z']
}

/// Whether two digits stand at `i`.
pub open spec fn two_digits(s: Seq<char>, i: int) -> bool {
    i + 2 <= s.len() && text::is_digit(s[i]) && text::is_digit(s[i + 1])
}

/// The number that the two digits at `i` denote.
pub open spec fn two(s: Seq<char>, i: int) -> int {
    10 * (s[i] as int - '0' as int) + (s[i + 1] as int - '0' as int)
}

/// The `YYYY-MM-DDTHH:MM:SS` head of an RFC 3339 instant: its seconds,
/// when well-formed.
pub open spec fn stamp_head(s: Seq<char>) -> Option<int> {
    if two_digits(s, 0) && two_digits(s, 2) && two_digits(s, 5) && two_digits(s, 8) && two_digits(
        s,
        11,
    ) && two_digits(s, 14) && two_digits(s, 17) && s[4] == '-' && s[7] == '-' && (s[10] == 'T'
        || s[10] == 't') && s[13] == ':' && s[16] == ':' && valid_date(
        two(s, 0) * 100 + two(s, 2),
        two(s, 5),
        two(s, 8),
    ) && two(s, 11) <= 23 && two(s, 14) <= 59 && two(s, 17) <= 59 {
        Some(
            day_number(two(s, 0) * 100 + two(s, 2), two(s, 5), two(s, 8)) * 86_400 + two(s, 11)
                * 3_600 + two(s, 14) * 60 + two(s, 17),
        )
    } else {
        None
    }
}

/// The zone at the end of an RFC 3339 instant: its offset in seconds.
pub open spec fn stamp_zone(s: Seq<char>) -> Option<int> {
    if s.len() == 1 && (s[0] == 'Z' || s[0] == 'z') {
        Some(0)
    } else if s.len() == 6 && (s[0] == '+' || s[0] == '-') && two_digits(s, 1) && s[3] == ':'
        && two_digits(s, 4) && two(s, 1) <= 23 && two(s, 4) <= 59 {
        let off = two(s, 1) * 3_600 + two(s, 4) * 60;
        Some(if s[0] == '+' { off } else { -off })
    } else {
        None
    }
}

/// Where the zone starts: past the fraction of a second, if there is one.
pub open spec fn zone_start(s: Seq<char>) -> int {
    if s.len() > 19 && s[19] == '.' {
        20 + text::digit_run(s.skip(20))
    } else {
        19
    }
}

/// Whether a dot after the seconds is followed by a digit.
pub open spec fn fraction_ok(s: Seq<char>) -> bool {
    s.len() > 19 && s[19] == '.' ==> zone_start(s) > 20
}

/// The instant an RFC 3339 text denotes, in whole seconds (a fraction of
/// a second is dropped).
pub open spec fn parsed(s: Seq<char>) -> Option<int> {
    match (stamp_head(s), stamp_zone(s.skip(zone_start(s)))) {
        (Some(t), Some(off)) => if fraction_ok(s) {
            Some(t - off)
        } else {
            None
        },
        _ => None,
    }
}

/// The refusal of a text that is not an RFC 3339 instant.
pub open spec fn parse_error(s: Seq<char>) -> Seq<char> {
    "invalid RFC 3339 timestamp `"@ + s + "`"@
}

/// The two digits at `i`, when they are there.
fn two_at(v: &Vec<char>, i: usize) -> (r: Option<u32>)
    requires
        i + 2 <= usize::MAX,
    ensures
        match r {
            Some(n) => two_digits(v@, i as int) && n == two(v@, i as int) && n <= 99,
            None => !two_digits(v@, i as int),
        },
{
    if i + 2 > v.len() {
        return None;
    }
    let a = v[i];
    let b = v[i + 1];
    if '0' <= a && a <= '9' && '0' <= b && b <= '9' {
        Some(10 * (a as u32 - '0' as u32) + (b as u32 - '0' as u32))
    } else {
        None
    }
}

/// The head of an instant.
fn read_head(v: &Vec<char>) -> (r: Option<i64>)
    ensures
        match r {
            Some(t) => stamp_head(v@) == Some(t as int) && -0x100_0000_0000 < t < 0x100_0000_0000,
            None => stamp_head(v@) is None,
        },
{
    match (two_at(v, 0), two_at(v, 2), two_at(v, 5), two_at(v, 8), two_at(v, 11), two_at(v, 14), two_at(v, 17)) {
        (Some(a), Some(b), Some(m), Some(d), Some(h), Some(mi), Some(sec)) => {
            if v[4] != '-' || v[7] != '-' || (v[10] != 'T' && v[10] != 't') || v[13] != ':' || v[16] != ':' {
                return None;
            }
            let y: i64 = (a * 100 + b) as i64;
            if m < 1 || m > 12 || d < 1 || d > days_in_month(y, m) || h > 23 || mi > 59 || sec > 59 {
                return None;
            }
            proof {
                month_table(y as int);
            }
            let day: i64 = days_from_civil(y, m, d);
            Some(day * 86_400 + (h as i64) * 3_600 + (mi as i64) * 60 + (sec as i64))
        },
        _ => None,
    }
}

/// The zone of an instant, from position `i` to the end.
fn read_zone(v: &Vec<char>, i: usize) -> (r: Option<i64>)
    requires
        i <= v@.len(),
    ensures
        match r {
            Some(off) => stamp_zone(v@.skip(i as int)) == Some(off as int) && -100_000 < off < 100_000,
            None => stamp_zone(v@.skip(i as int)) is None,
        },
{
    let n: usize = v.len() - i;
    let ghost z = v@.skip(i as int);
    if n == 1 {
        if v[i] == 'Z' || v[i] == 'z' {
            return Some(0);
        }
        return None;
    }
    if n != 6 {
        return None;
    }
    assert(z[0] == v@[i as int] && z[1] == v@[i + 1] && z[2] == v@[i + 2] && z[3] == v@[i + 3] && z[4]
        == v@[i + 4] && z[5] == v@[i + 5]);
    if v[i + 3] != ':' || (v[i] != '+' && v[i] != '-') {
        return None;
    }
    match (two_at(v, i + 1), two_at(v, i + 4)) {
        (Some(h), Some(m)) => {
            if h > 23 || m > 59 {
                return None;
            }
            let off: i64 = (h as i64) * 3_600 + (m as i64) * 60;
            if v[i] == '+' {
                Some(off)
            } else {
                Some(-off)
            }
        },
        _ => None,
    }
}

/// Appends `n` as two digits.
fn push_pad2(out: &mut String, n: u32)
    requires
        n <= 99,
    ensures
        final(out)@ == old(out)@ + pad2(n as int),
{
    out.push((48u8 + (n / 10) as u8) as char);
    out.push((48u8 + (n % 10) as u8) as char);
    assert(out@ =~= old(out)@ + pad2(n as int));
}

/// Appends a year.
fn push_year(out: &mut String, y: i64)
    requires
        -0x1000_0000_0000_0000 < y < 0x1000_0000_0000_0000,
    ensures
        final(out)@ == old(out)@ + year_text(y as int),
{
    if 0 <= y && y <= 9999 {
        push_pad2(out, (y / 100) as u32);
        push_pad2(out, (y % 100) as u32);
        assert(out@ =~= old(out)@ + year_text(y as int));
    } else if y < 0 {
        let a: i64 = -y;
        out.push('-');
        if a <= 9999 {
            push_pad2(out, (a / 100) as u32);
            push_pad2(out, (a % 100) as u32);
        } else {
            text::push_decimal(out, a as u64);
        }
        assert(out@ =~= old(out)@ + year_text(y as int));
    } else {
        text::push_decimal(out, y as u64);
    }
}

impl Timestamp {
    /// Reads an RFC 3339 instant.
    pub fn parse(s: &str) -> (r: Result<Timestamp, String>)
        ensures
            match r {
                Ok(t) => parsed(s@) == Some(t.secs as int),
                Err(e) => parsed(s@) is None && e@ == parse_error(s@),
            },
    {
        let v = text::chars(s);
        if let Some(t) = read_head(&v) {
            let mut i: usize = 19;
            let mut ok: bool = true;
            if v.len() > 19 && v[19] == '.' {
                i = text::digits_from(&v, 20);
                ok = i > 20;
            }
            if ok {
                if let Some(off) = read_zone(&v, i) {
                    return Ok(Timestamp { secs: t - off });
                }
            }
        }
        Err(text::cat3("invalid RFC 3339 timestamp `", s, "`"))
    }

    /// The canonical RFC 3339 notation.
    pub fn to_string(&self) -> (r: String)
        ensures
            r@ == stamp_text(self.secs as int),
    {
        let (days, t) = floor_div(self.secs as i128, 86_400);
        let (y, m, d) = civil_from_days(days as i64);
        let t: u32 = t as u32;
        proof {
            if y >= 0x1000_0000_0000_0000 {
                year_start_grows(1970, y as int);
            } else if y <= -0x1000_0000_0000_0000 {
                year_start_grows(y as int, 1970);
            }
            month_table(y as int);
        }
        let mut out = String::new();
        push_year(&mut out, y);
        out.push('-');
        push_pad2(&mut out, m);
        out.push('-');
        push_pad2(&mut out, d);
        out.push('T');
        push_pad2(&mut out, t / 3_600);
        out.push(':');
        push_pad2(&mut out, (t / 60) % 60);
        out.push(':');
        push_pad2(&mut out, t % 60);
        out.push('Z');
        assert(out@ =~= stamp_text(self.secs as int));
        out
    }
}

/// Whether the year of an instant has four digits.
pub open spec fn four_digit_year(secs: int) -> bool {
    0 <= civil(secs / 86_400).0 <= 9999
}

/// The canonical notation of an instant is read back as that instant.
pub proof fn stamp_round_trip(secs: int)
    requires
        four_digit_year(secs),
    ensures
        parsed(stamp_text(secs)) == Some(secs),
        stamp_text(secs).len() == 20,
        text::is_digit(stamp_text(secs)[0]),
        stamp_text(secs).last() == 'Z',
{
    let n = secs / 86_400;
    let (y, m, d) = civil(n);
    let t = secs % 86_400;
    let s = stamp_text(secs);
    day_number_of_civil(n);
    assert(s.len() == 20);
    assert(two(s, 0) == y / 100 && two(s, 2) == y % 100);
    assert(two(s, 5) == m && two(s, 8) == d);
    assert(two(s, 11) == t / 3_600 && two(s, 14) == (t / 60) % 60 && two(s, 17) == t % 60);
    assert(stamp_head(s) == Some(secs));
    assert(s.skip(19) =~= seq!['Z']);
}

/// The calendar is the Gregorian one, counted in days from 1970-01-01: a
/// month has 31 or 30 days, February 28 or, in a leap year, 29, and each
/// day follows the one before it.
pub proof fn days_are_counted_in_calendar_order(y: int, m: int, d: int)
    requires
        1 <= m <= 12,
    ensures
        day_number(1970, 1, 1) == 0,
        day_number(y, m, d + 1) == day_number(y, m, d) + 1,
        m == 1 || m == 3 || m == 5 || m == 7 || m == 8 || m == 10 ==> day_number(y, m + 1, 1)
            == day_number(y, m, 31) + 1,
        m == 4 || m == 6 || m == 9 || m == 11 ==> day_number(y, m + 1, 1) == day_number(y, m, 30) + 1,
        m == 2 && y % 4 == 0 && (y % 100 != 0 || y % 400 == 0) ==> day_number(y, 3, 1)
            == day_number(y, 2, 29) + 1,
        m == 2 && !(y % 4 == 0 && (y % 100 != 0 || y % 400 == 0)) ==> day_number(y, 3, 1)
            == day_number(y, 2, 28) + 1,
        m == 12 ==> day_number(y + 1, 1, 1) == day_number(y, 12, 31) + 1,
        valid_date(y, m, d) <==> d >= 1 && (if m == 12 {
            day_number(y, m, d) < day_number(y + 1, 1, 1)
        } else {
            day_number(y, m, d) < day_number(y, m + 1, 1)
        }),
{
    reveal_with_fuel(month_start, 13);
    month_table(y);
    year_length(y);
}

/// An instant in UTC is read digit by digit: it is accepted exactly when
/// its separators stand in place, its date exists and its time of day is
/// below 24:00:00, and it then falls on that date at that time.
pub proof fn instants_are_read_digit_by_digit(s: Seq<char>)
    requires
        s.len() == 20,
        s[19] == 'Z' || s[19] == 'z',
        forall|i: int|
            0 <= i < 19 && i != 4 && i != 7 && i != 10 && i != 13 && i != 16 ==> '0' <= #[trigger] s[i]
                <= '9',
    ensures
        ({
            let v = |i: int| s[i] as int - '0' as int;
            let y = 1000 * v(0) + 100 * v(1) + 10 * v(2) + v(3);
            let m = 10 * v(5) + v(6);
            let d = 10 * v(8) + v(9);
            let (h, min, sec) = (10 * v(11) + v(12), 10 * v(14) + v(15), 10 * v(17) + v(18));
            let good = s[4] == '-' && s[7] == '-' && (s[10] == 'T' || s[10] == 't') && s[13] == ':'
                && s[16] == ':' && 1 <= m <= 12 && 1 <= d && d <= month_days(y, m) && h <= 23 && min <= 59
                && sec <= 59;
            match parsed(s) {
                Some(x) => good && civil(x / 86_400) == (y, m, d) && x % 86_400 == 3_600 * h + 60 * min
                    + sec,
                None => !good,
            }
        }),
{
    assert(s.skip(19) =~= seq![s[19]]);
    assert(two_digits(s, 0) && two_digits(s, 2) && two_digits(s, 5) && two_digits(s, 8));
    assert(two_digits(s, 11) && two_digits(s, 14) && two_digits(s, 17));
    if parsed(s) is Some {
        civil_of_day_number(two(s, 0) * 100 + two(s, 2), two(s, 5), two(s, 8));
    }
}

/// An offset east of Greenwich is taken off and one west of it is put on.
pub proof fn offsets_shift_the_instant(head: Seq<char>, sign: char, h1: char, h2: char, m1: char, m2: char)
    requires
        head.len() == 19,
        sign == '+' || sign == '-',
        '0' <= h1 <= '9' && '0' <= h2 <= '9' && '0' <= m1 <= '9' && '0' <= m2 <= '9',
    ensures
        ({
            let h = 10 * (h1 as int - '0' as int) + (h2 as int - '0' as int);
            let m = 10 * (m1 as int - '0' as int) + (m2 as int - '0' as int);
            let zoned = head + seq![sign, h1, h2, ':', m1, m2];
            match parsed(head.push('Z')) {
                Some(x) => parsed(zoned) == if h > 23 || m > 59 {
                    None
                } else if sign == '+' {
                    Some(x - 3_600 * h - 60 * m)
                } else {
                    Some(x + 3_600 * h + 60 * m)
                },
                None => parsed(zoned) is None,
            }
        }),
{
    let zone = seq![sign, h1, h2, ':', m1, m2];
    let zoned = head + zone;
    let plain = head.push('Z');
    assert(plain.skip(19) =~= seq!['Z']);
    assert(zoned.skip(19) =~= zone);
    assert(forall|i: int| 0 <= i < 19 ==> #[trigger] zoned[i] == head[i]);
    assert(forall|i: int| 0 <= i < 19 ==> #[trigger] plain[i] == head[i]);
    assert(stamp_head(plain) == stamp_head(zoned));
}

/// A fraction of a second is dropped.
pub proof fn fractions_are_dropped(head: Seq<char>, fraction: Seq<char>)
    requires
        head.len() == 19,
        fraction.len() > 0,
        forall|i: int| 0 <= i < fraction.len() ==> '0' <= #[trigger] fraction[i] <= '9',
    ensures
        parsed(head.push('.') + fraction + seq!['Z']) == parsed(head.push('Z')),
{
    let long = head.push('.') + fraction + seq!['Z'];
    let plain = head.push('Z');
    assert(plain.skip(19) =~= seq!['Z']);
    assert(forall|i: int| 0 <= i < 19 ==> #[trigger] long[i] == head[i]);
    assert(forall|i: int| 0 <= i < 19 ==> #[trigger] plain[i] == head[i]);
    assert(stamp_head(plain) == stamp_head(long));
    assert(long.skip(20) =~= fraction + seq!['Z']);
    text::digits_run_out(fraction, 'Z', seq![]);
    assert(fraction + seq!['Z'] =~= fraction.push('Z') + seq![]);
    assert(long.skip(fraction.len() + 20int) =~= seq!['Z']);
}

/// An instant that a text denotes fits an instant's range.
pub proof fn parsed_instants_fit(s: Seq<char>)
    ensures
        parsed(s) matches Some(x) ==> i64::MIN <= x <= i64::MAX,
{
    if parsed(s) is Some {
        day_number_bounds(two(s, 0) * 100 + two(s, 2), two(s, 5), two(s, 8));
    }
}

/// A dot after the seconds needs a digit behind it.
pub proof fn dots_need_digits(head: Seq<char>, rest: Seq<char>)
    requires
        head.len() == 19,
        rest.len() > 0 ==> !('0' <= rest[0] <= '9'),
    ensures
        parsed(head.push('.') + rest) is None,
{
    let s = head.push('.') + rest;
    assert(s[19] == '.');
    assert(s.skip(20) =~= rest);
}

/// An instant ends with its zone: nothing stands behind a `Z` or an offset.
pub proof fn instants_end_with_their_zone(s: Seq<char>)
    requires
        parsed(s) is Some,
    ensures
        s.len() >= 20,
        s.last() == 'Z' || s.last() == 'z' || (s.len() >= 25 && (s[s.len() - 6] == '+' || s[s.len() - 6]
            == '-') && s[s.len() - 3] == ':'),
{
    let z = s.skip(zone_start(s));
    if s.len() > 19 && s[19] == '.' {
        text::digit_run_fits(s.skip(20));
    }
    if z.len() == 1 {
        assert(z[0] == s.last());
    } else {
        assert(z[0] == s[s.len() - 6] && z[3] == s[s.len() - 3]);
    }
}

} // verus!
