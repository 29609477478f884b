//! Clock predicates: time-based applicability triggers.
//!
//! A profile's trigger may be clock-fired: it fires on the passage of time
//! alone. A time trigger names a subject fact that holds an instant (its
//! basis), an ISO 8601 duration and a comparison operator. It is satisfied
//! at an instant `at` when `at <operator> basis + duration`, where the
//! addition is calendar-aware: a month added to January 31 lands on the
//! last day of February.

use vstd::prelude::*;
use crate::json;
use crate::json::{Json, Tree};
use crate::text;
use crate::time;
use crate::time::Timestamp;

verus! {

/// Fact keys a time predicate may use as its basis.
pub const BASES: [&'static str; 2] = ["manufactured_at", "first_registered_at"];

/// Comparison operators a time predicate may use.
pub const OPERATORS: [&'static str; 4] = [">=", ">", "<=", "<"];

/// An ISO 8601 duration: calendar months plus absolute seconds.
#[derive(Debug, Clone, Copy, PartialEq, Eq, Structural)]
pub struct Duration {
    pub months: i64,
    pub seconds: i64,
}

impl Duration {
    /// No time at all.
    pub fn zero() -> (r: Duration)
        ensures
            r == (Duration { months: 0, seconds: 0 }),
    {
        Duration { months: 0, seconds: 0 }
    }
}

/// Whether `s` begins with digits followed by `unit`.
pub open spec fn has_component(s: Seq<char>, unit: char) -> bool {
    let n = text::digit_run(s);
    0 < n < s.len() && s[n] == unit
}

/// The number of the component that `s` begins with, zero if there is none.
pub open spec fn component(s: Seq<char>, unit: char) -> nat {
    if has_component(s, unit) {
        text::number(s.take(text::digit_run(s)))
    } else {
        0
    }
}

/// `s` past the component that it begins with, if there is one.
pub open spec fn past_component(s: Seq<char>, unit: char) -> Seq<char> {
    if has_component(s, unit) {
        s.skip(text::digit_run(s) + 1)
    } else {
        s
    }
}

/// The `[nY][nM][nW][nD]` part of a duration as months and seconds, if
/// nothing is left over.
pub open spec fn date_part(s: Seq<char>) -> Option<(nat, nat)> {
    let m = past_component(s, 'Y');
    let w = past_component(m, 'M');
    let d = past_component(w, 'W');
    if past_component(d, 'D').len() == 0 {
        Some(
            (
                12 * component(s, 'Y') + component(m, 'M'),
                604_800 * component(w, 'W') + 86_400 * component(d, 'D'),
            ),
        )
    } else {
        None
    }
}

/// The `[nH][nM][nS]` part of a duration as seconds, if nothing is left
/// over.
pub open spec fn time_part(s: Seq<char>) -> Option<nat> {
    let m = past_component(s, 'H');
    let t = past_component(m, 'M');
    if past_component(t, 'S').len() == 0 {
        Some(3_600 * component(s, 'H') + 60 * component(m, 'M') + component(t, 'S'))
    } else {
        None
    }
}

/// The months and seconds that an ISO 8601 duration denotes: a `P`, the
/// date part, and after a `T` the time part, with at least one component.
pub open spec fn duration_of(s: Seq<char>) -> Option<(nat, nat)> {
    if s.len() == 0 || s[0] != 'P' {
        None
    } else {
        let body = s.skip(1);
        let t = text::first_of(body, 'T');
        let date = body.take(t);
        match date_part(date) {
            None => None,
            Some((months, seconds)) => if t == body.len() {
                if date.len() == 0 {
                    None
                } else {
                    Some((months, seconds))
                }
            } else {
                let time = body.skip(t + 1);
                if time.len() == 0 {
                    None
                } else {
                    match time_part(time) {
                        Some(more) => Some((months, seconds + more)),
                        None => None,
                    }
                }
            },
        }
    }
}

/// The refusal of a text that is not a duration.
pub open spec fn duration_error(s: Seq<char>) -> Seq<char> {
    "invalid ISO 8601 duration `"@ + s + "` (expected e.g. P40Y, P1Y6M3D, PT6H30M)"@
}

/// What a text parses to. A duration whose months or seconds do not fit a
/// 64-bit count is refused like a malformed one.
pub open spec fn parsed_duration(s: Seq<char>) -> Result<Duration, Seq<char>> {
    match duration_of(s) {
        Some((m, t)) => if m <= i64::MAX && t <= i64::MAX {
            Ok(Duration { months: m as i64, seconds: t as i64 })
        } else {
            Err(duration_error(s))
        },
        None => Err(duration_error(s)),
    }
}

/// Takes one `<digits><unit>` component from the front of `v[from..]`:
/// its number and the position past it.
fn take_component(v: &Vec<char>, from: usize, unit: char) -> (r: Result<Option<(i64, usize)>, String>)
    requires
        from <= v@.len(),
    ensures
        match r {
            Ok(Some((n, to))) => has_component(v@.skip(from as int), unit) && n == component(
                v@.skip(from as int),
                unit,
            ) && from < to <= v@.len() && v@.skip(to as int) == past_component(
                v@.skip(from as int),
                unit,
            ),
            Ok(None) => !has_component(v@.skip(from as int), unit),
            Err(e) => component(v@.skip(from as int), unit) > i64::MAX && e@
                == "duration component overflows"@,
        },
{
    let end = text::digits_from(v, from);
    let ghost s = v@.skip(from as int);
    if end == from || end >= v.len() || v[end] != unit {
        return Ok(None);
    }
    assert(s.take(end - from) =~= v@.subrange(from as int, end as int));
    match text::number_at(v, from, end) {
        Some(n) => {
            assert(s.skip(end - from + 1) =~= v@.skip(end + 1));
            Ok(Some((n, end + 1)))
        },
        None => Err("duration component overflows".to_owned()),
    }
}

/// Adds `n` units of `per` each to `total`; `None` when the sum does not
/// fit.
fn accumulate(total: i64, n: i64, per: i64) -> (r: Option<i64>)
    requires
        total >= 0,
        n >= 0,
        1 <= per <= 604_800,
    ensures
        match r {
            Some(t) => t == total + per * n,
            None => total + per * n > i64::MAX,
        },
{
    assert(0 <= per * n <= 604_800 * i64::MAX) by (nonlinear_arith)
        requires
            0 <= n <= i64::MAX,
            1 <= per <= 604_800,
    ;
    let wide: i128 = total as i128 + (per as i128) * (n as i128);
    if wide > i64::MAX as i128 {
        None
    } else {
        Some(wide as i64)
    }
}

/// One step over an optional component: the position past it and the new
/// total; `None` when the number or the total does not fit.
fn step(v: &Vec<char>, from: usize, unit: char, total: i64, per: i64) -> (r: Option<(usize, i64)>)
    requires
        from <= v@.len(),
        total >= 0,
        1 <= per <= 604_800,
    ensures
        match r {
            Some((to, t)) => from <= to <= v@.len() && v@.skip(to as int) == past_component(
                v@.skip(from as int),
                unit,
            ) && t == total + per * component(v@.skip(from as int), unit),
            None => total + per * component(v@.skip(from as int), unit) > i64::MAX,
        },
{
    match take_component(v, from, unit) {
        Ok(Some((n, to))) => match accumulate(total, n, per) {
            Some(t) => Some((to, t)),
            None => None,
        },
        Ok(None) => Some((from, total)),
        Err(_) => {
            assert(per * component(v@.skip(from as int), unit) >= component(
                v@.skip(from as int),
                unit,
            )) by (nonlinear_arith)
                requires
                    per >= 1,
            ;
            None
        },
    }
}

/// The characters of `v[from..to]`.
fn slice(v: &Vec<char>, from: usize, to: usize) -> (r: Vec<char>)
    requires
        from <= to <= v@.len(),
    ensures
        r@ == v@.subrange(from as int, to as int),
{
    let s = text::text_of(v, from, to);
    text::chars(s.as_str())
}

/// Reads the date part; `None` when it is malformed or does not fit.
fn read_date(v: &Vec<char>) -> (r: Option<(i64, i64)>)
    ensures
        match r {
            Some((m, t)) => date_part(v@) == Some((m as nat, t as nat)) && m >= 0 && t >= 0,
            None => match date_part(v@) {
                Some((m, t)) => m > i64::MAX || t > i64::MAX,
                None => true,
            },
        },
{
    assert(v@.skip(0) =~= v@);
    let (i, months) = match step(v, 0, 'Y', 0, 12) {
        Some(x) => x,
        None => return None,
    };
    let (i, months) = match step(v, i, 'M', months, 1) {
        Some(x) => x,
        None => return None,
    };
    let (i, seconds) = match step(v, i, 'W', 0, 604_800) {
        Some(x) => x,
        None => return None,
    };
    let (i, seconds) = match step(v, i, 'D', seconds, 86_400) {
        Some(x) => x,
        None => return None,
    };
    if i < v.len() {
        return None;
    }
    Some((months, seconds))
}

/// Reads the time part; `None` when it is malformed or does not fit.
fn read_time(v: &Vec<char>, total: i64) -> (r: Option<i64>)
    requires
        total >= 0,
    ensures
        match r {
            Some(t) => t >= 0 && (time_part(v@) matches Some(more) && t == total + more),
            None => match time_part(v@) {
                Some(more) => total + more > i64::MAX,
                None => true,
            },
        },
{
    assert(v@.skip(0) =~= v@);
    let (i, seconds) = match step(v, 0, 'H', total, 3_600) {
        Some(x) => x,
        None => return None,
    };
    let (i, seconds) = match step(v, i, 'M', seconds, 60) {
        Some(x) => x,
        None => return None,
    };
    let (i, seconds) = match step(v, i, 'S', seconds, 1) {
        Some(x) => x,
        None => return None,
    };
    if i < v.len() {
        return None;
    }
    Some(seconds)
}

/// The months and seconds of a duration; `None` when it is malformed or
/// does not fit.
fn read_duration(v: &Vec<char>) -> (r: Option<Duration>)
    ensures
        match r {
            Some(d) => duration_of(v@) == Some((d.months as nat, d.seconds as nat)) && d.months >= 0
                && d.seconds >= 0,
            None => match duration_of(v@) {
                Some((m, t)) => m > i64::MAX || t > i64::MAX,
                None => true,
            },
        },
{
    if v.len() == 0 || v[0] != 'P' {
        return None;
    }
    let t = text::find_from(v, 1, 'T');
    let date = slice(v, 1, t);
    assert(date@ =~= v@.skip(1).take(t - 1));
    match read_date(&date) {
        None => None,
        Some((months, seconds)) => {
            if t == v.len() {
                if date.len() == 0 {
                    return None;
                }
                return Some(Duration { months, seconds });
            }
            let time = slice(v, t + 1, v.len());
            assert(time@ =~= v@.skip(1).skip(t as int));
            if time.len() == 0 {
                return None;
            }
            match read_time(&time, seconds) {
                Some(seconds) => Some(Duration { months, seconds }),
                None => None,
            }
        },
    }
}

/// Parses an ISO 8601 duration (`P[nY][nM][nW][nD][T[nH][nM][nS]]`, at
/// least one component required). Strict: uppercase designators, ASCII
/// digits, components in calendar order.
pub fn parse_duration(input: &str) -> (r: Result<Duration, String>)
    ensures
        match r {
            Ok(d) => parsed_duration(input@) == Ok::<Duration, Seq<char>>(d),
            Err(e) => parsed_duration(input@) == Err::<Duration, Seq<char>>(e@),
        },
{
    let v = text::chars(input);
    match read_duration(&v) {
        Some(d) => Ok(d),
        None => Err(
            text::cat3(
                "invalid ISO 8601 duration `",
                input,
                "` (expected e.g. P40Y, P1Y6M3D, PT6H30M)",
            ),
        ),
    }
}

/// The instant `months` calendar months and `seconds` seconds after `secs`:
/// the months move the date, its day clamped to the last day of the month
/// it lands in; the time of day stays; then the seconds are added.
pub open spec fn shifted(secs: int, months: int, seconds: int) -> int {
    if months == 0 {
        secs + seconds
    } else {
        let (y, m, d) = time::civil(secs / 86_400);
        let total = y * 12 + (m - 1) + months;
        let (ny, nm) = (total / 12, total % 12 + 1);
        let last = time::month_days(ny, nm);
        time::day_number(ny, nm, if d < last { d } else { last }) * 86_400 + secs % 86_400 + seconds
    }
}

/// The instant after a duration, over a wide range.
fn wide_shift(t: Timestamp, d: &Duration) -> (r: i128)
    ensures
        r == shifted(t.secs as int, d.months as int, d.seconds as int),
{
    if d.months == 0 {
        return t.secs as i128 + d.seconds as i128;
    }
    let (days, time_of_day) = time::floor_div(t.secs as i128, 86_400);
    let (year, month, day) = time::civil_from_days(days as i64);
    let total: i128 = year as i128 * 12 + (month as i128 - 1) + d.months as i128;
    let (new_year, rest) = time::floor_div(total, 12);
    let new_month: u32 = (rest + 1) as u32;
    let last: u32 = time::wide_days_in_month(new_year, new_month);
    let new_day: u32 = if day < last {
        day
    } else {
        last
    };
    let n: i128 = time::wide_days_from_civil(new_year, new_month, new_day);
    proof {
        time::day_number_bounds(new_year as int, new_month as int, new_day as int);
    }
    n * 86_400 + time_of_day + d.seconds as i128
}

/// Adds a duration to an instant, calendar-aware.
pub fn add_duration(t: Timestamp, d: &Duration) -> (r: Timestamp)
    requires
        i64::MIN <= shifted(t.secs as int, d.months as int, d.seconds as int) <= i64::MAX,
    ensures
        r.secs == shifted(t.secs as int, d.months as int, d.seconds as int),
{
    Timestamp { secs: wide_shift(t, d) as i64 }
}

/// Adds a duration to an instant; `None` when the result is out of range.
pub fn checked_add_duration(t: Timestamp, d: &Duration) -> (r: Option<Timestamp>)
    ensures
        match r {
            Some(u) => u.secs == shifted(t.secs as int, d.months as int, d.seconds as int),
            None => !(i64::MIN <= shifted(t.secs as int, d.months as int, d.seconds as int) <= i64::MAX),
        },
{
    let wide = wide_shift(t, d);
    if i64::MIN as i128 <= wide && wide <= i64::MAX as i128 {
        Some(Timestamp { secs: wide as i64 })
    } else {
        None
    }
}

/// A parsed time trigger.
#[derive(Debug, PartialEq, Eq)]
pub struct TimeTrigger {
    pub basis: String,
    pub operator: String,
    pub duration: Duration,
    pub duration_raw: String,
}

/// The content of a time trigger.
pub struct TimeTriggerView {
    pub basis: Seq<char>,
    pub operator: Seq<char>,
    pub duration: Duration,
    pub duration_raw: Seq<char>,
}

impl View for TimeTrigger {
    type V = TimeTriggerView;

    open spec fn view(&self) -> TimeTriggerView {
        TimeTriggerView {
            basis: self.basis@,
            operator: self.operator@,
            duration: self.duration,
            duration_raw: self.duration_raw@,
        }
    }
}

/// The text of the member `key` of a trigger, where it is not empty.
pub open spec fn trigger_field(t: Tree, key: Seq<char>) -> Result<Seq<char>, Seq<char>> {
    match json::get_str(t, key) {
        Some(s) => if s.len() > 0 {
            Ok(s)
        } else {
            Err("time trigger missing `"@ + key + "`"@)
        },
        None => Err("time trigger missing `"@ + key + "`"@),
    }
}

/// What a trigger object parses to.
pub open spec fn parsed_trigger(t: Tree) -> Result<TimeTriggerView, Seq<char>> {
    if json::obj_of(t) is None {
        Err("time trigger must be an object"@)
    } else {
        match trigger_field(t, "basis"@) {
            Err(e) => Err(e),
            Ok(basis) => if !text::is_listed(BASES@, basis) {
                Err(
                    "time trigger `basis` `"@ + basis + "` is not one of "@ + text::joined(
                        text::list_views(BASES@),
                        ", "@,
                    ),
                )
            } else {
                match trigger_field(t, "operator"@) {
                    Err(e) => Err(e),
                    Ok(operator) => if !text::is_listed(OPERATORS@, operator) {
                        Err(
                            "time trigger `operator` `"@ + operator + "` is not one of "@
                                + text::joined(text::list_views(OPERATORS@), ", "@),
                        )
                    } else {
                        match trigger_field(t, "duration"@) {
                            Err(e) => Err(e),
                            Ok(raw) => match parsed_duration(raw) {
                                Err(e) => Err(e),
                                Ok(duration) => Ok(
                                    TimeTriggerView { basis, operator, duration, duration_raw: raw },
                                ),
                            },
                        }
                    },
                }
            },
        }
    }
}

/// Reads the member `key` of a trigger.
fn read_trigger_field(t: &Json, key: &str) -> (r: Result<String, String>)
    ensures
        match r {
            Ok(s) => trigger_field(t@, key@) == Ok::<Seq<char>, Seq<char>>(s@),
            Err(e) => trigger_field(t@, key@) == Err::<Seq<char>, Seq<char>>(e@),
        },
{
    if let Some(s) = t.get_str(key) {
        if !s.is_empty() {
            return Ok(s.to_owned());
        }
    }
    Err(text::cat3("time trigger missing `", key, "`"))
}

/// Parses one trigger object (`{predicate_class: "time", basis, operator,
/// duration}`).
pub fn parse_time_trigger(trigger: &Json) -> (r: Result<TimeTrigger, String>)
    ensures
        match r {
            Ok(t) => parsed_trigger(trigger@) == Ok::<TimeTriggerView, Seq<char>>(t@),
            Err(e) => parsed_trigger(trigger@) == Err::<TimeTriggerView, Seq<char>>(e@),
        },
{
    if trigger.as_object().is_none() {
        return Err("time trigger must be an object".to_owned());
    }
    let basis = match read_trigger_field(trigger, "basis") {
        Ok(s) => s,
        Err(e) => return Err(e),
    };
    if !text::listed(&BASES, basis.as_str()) {
        let list = text::join_list(&BASES, ", ");
        return Err(
            text::cat4(
                "time trigger `basis` `",
                basis.as_str(),
                "` is not one of ",
                list.as_str(),
            ),
        );
    }
    let operator = match read_trigger_field(trigger, "operator") {
        Ok(s) => s,
        Err(e) => return Err(e),
    };
    if !text::listed(&OPERATORS, operator.as_str()) {
        let list = text::join_list(&OPERATORS, ", ");
        return Err(
            text::cat4(
                "time trigger `operator` `",
                operator.as_str(),
                "` is not one of ",
                list.as_str(),
            ),
        );
    }
    let duration_raw = match read_trigger_field(trigger, "duration") {
        Ok(s) => s,
        Err(e) => return Err(e),
    };
    match parse_duration(duration_raw.as_str()) {
        Ok(duration) => Ok(TimeTrigger { basis, operator, duration, duration_raw }),
        Err(e) => Err(e),
    }
}

/// The result of evaluating one time trigger.
#[derive(Debug, Clone, Copy, PartialEq, Eq, Structural)]
pub struct ClockEvaluation {
    /// The instant the trigger's threshold sits at: basis plus duration.
    pub threshold: Timestamp,
    /// Whether the predicate holds at the query instant.
    pub satisfied: bool,
}

/// Whether `at <operator> threshold`, for a known operator.
pub open spec fn compares(operator: Seq<char>, at: int, threshold: int) -> Option<bool> {
    if operator == ">="@ {
        Some(at >= threshold)
    } else if operator == ">"@ {
        Some(at > threshold)
    } else if operator == "<="@ {
        Some(at <= threshold)
    } else if operator == "<"@ {
        Some(at < threshold)
    } else {
        None
    }
}

/// What a trigger evaluates to on the facts of a subject at an instant.
pub open spec fn evaluated(t: TimeTriggerView, facts: Tree, at: int) -> Result<
    ClockEvaluation,
    Seq<char>,
> {
    match json::get_str(facts, t.basis) {
        None => Err("subject facts missing the `"@ + t.basis + "` basis"@),
        Some(raw) => match time::parsed(raw) {
            None => Err("subject fact `"@ + t.basis + "`: "@ + time::parse_error(raw)),
            Some(basis) => {
                let threshold = shifted(
                    basis,
                    t.duration.months as int,
                    t.duration.seconds as int,
                );
                if !(i64::MIN <= threshold <= i64::MAX) {
                    Err("subject fact `"@ + t.basis + "`: threshold out of range"@)
                } else {
                    match compares(t.operator, at, threshold) {
                        Some(satisfied) => Ok(
                            ClockEvaluation {
                                threshold: Timestamp { secs: threshold as i64 },
                                satisfied,
                            },
                        ),
                        None => Err("unsupported operator `"@ + t.operator + "`"@),
                    }
                }
            },
        },
    }
}

/// Evaluates a time trigger against the subject facts at instant `at`. The
/// basis fact must be present and hold an RFC 3339 instant.
pub fn evaluate(trigger: &TimeTrigger, facts: &Json, at: Timestamp) -> (r: Result<
    ClockEvaluation,
    String,
>)
    ensures
        match r {
            Ok(e) => evaluated(trigger@, facts@, at.secs as int) == Ok::<ClockEvaluation, Seq<char>>(e),
            Err(e) => evaluated(trigger@, facts@, at.secs as int) == Err::<ClockEvaluation, Seq<char>>(
                e@,
            ),
        },
{
    let raw = match facts.get_str(trigger.basis.as_str()) {
        Some(s) => s,
        None => return Err(
            text::cat3("subject facts missing the `", trigger.basis.as_str(), "` basis"),
        ),
    };
    let basis = match Timestamp::parse(raw) {
        Ok(t) => t,
        Err(e) => return Err(
            text::cat4("subject fact `", trigger.basis.as_str(), "`: ", e.as_str()),
        ),
    };
    let threshold = match checked_add_duration(basis, &trigger.duration) {
        Some(t) => t,
        None => return Err(
            text::cat3("subject fact `", trigger.basis.as_str(), "`: threshold out of range"),
        ),
    };
    let op = trigger.operator.as_str();
    let satisfied: bool = if text::same(op, ">=") {
        at.secs >= threshold.secs
    } else if text::same(op, ">") {
        at.secs > threshold.secs
    } else if text::same(op, "<=") {
        at.secs <= threshold.secs
    } else if text::same(op, "<") {
        at.secs < threshold.secs
    } else {
        return Err(text::cat3("unsupported operator `", op, "`"));
    };
    Ok(ClockEvaluation { threshold, satisfied })
}

/// The time triggers among the first `n` triggers of a manifest, with
/// their positions; the first malformed one refuses them all.
pub open spec fn collected(ts: Seq<Tree>, n: int) -> Result<Seq<(int, TimeTriggerView)>, Seq<char>>
    decreases n,
{
    if n <= 0 {
        Ok(Seq::empty())
    } else {
        match collected(ts, n - 1) {
            Err(e) => Err(e),
            Ok(got) => if json::get_str(ts[n - 1], "predicate_class"@) == Some("time"@) {
                match parsed_trigger(ts[n - 1]) {
                    Ok(t) => Ok(got.push((n - 1, t))),
                    Err(e) => Err(e),
                }
            } else {
                Ok(got)
            },
        }
    }
}

/// The time triggers of a profile manifest, with their positions in its
/// `triggers` array.
pub open spec fn manifest_triggers(m: Tree) -> Result<Seq<(int, TimeTriggerView)>, Seq<char>> {
    match json::get_arr(m, "triggers"@) {
        Some(ts) => collected(ts, ts.len() as int),
        None => Ok(Seq::empty()),
    }
}

/// The contents of positioned triggers.
pub open spec fn trigger_views(s: Seq<(usize, TimeTrigger)>) -> Seq<(int, TimeTriggerView)> {
    s.map_values(|p: (usize, TimeTrigger)| (p.0 as int, p.1@))
}

/// A malformed trigger refuses every longer prefix.
proof fn collected_fails(ts: Seq<Tree>, n: int, k: int)
    requires
        0 <= n <= k,
        collected(ts, n) is Err,
    ensures
        collected(ts, k) == collected(ts, n),
    decreases k - n,
{
    if n < k {
        collected_fails(ts, n, k - 1);
    }
}

/// Collects the time triggers of a profile manifest. Triggers with another
/// `predicate_class` are skipped.
pub fn time_triggers(manifest: &Json) -> (r: Result<Vec<(usize, TimeTrigger)>, String>)
    ensures
        match r {
            Ok(v) => manifest_triggers(manifest@) == Ok::<Seq<(int, TimeTriggerView)>, Seq<char>>(
                trigger_views(v@),
            ),
            Err(e) => manifest_triggers(manifest@) == Err::<Seq<(int, TimeTriggerView)>, Seq<char>>(
                e@,
            ),
        },
{
    let mut out: Vec<(usize, TimeTrigger)> = Vec::new();
    let triggers = match manifest.get_arr("triggers") {
        Some(a) => a,
        None => {
            assert(trigger_views(out@) =~= Seq::empty());
            return Ok(out);
        },
    };
    let ghost ts = json::trees(triggers@);
    let mut i: usize = 0;
    assert(trigger_views(out@) =~= Seq::empty());
    while i < triggers.len()
        invariant
            i <= triggers@.len(),
            ts == json::trees(triggers@),
            manifest_triggers(manifest@) == collected(ts, ts.len() as int),
            collected(ts, i as int) == Ok::<Seq<(int, TimeTriggerView)>, Seq<char>>(
                trigger_views(out@),
            ),
        decreases triggers@.len() - i,
    {
        let t = &triggers[i];
        assert(ts[i as int] == t@);
        let timed: bool = match t.get_str("predicate_class") {
            Some(c) => text::same(c, "time"),
            None => false,
        };
        if timed {
            match parse_time_trigger(t) {
                Ok(x) => {
                    let ghost before = trigger_views(out@);
                    out.push((i, x));
                    assert(trigger_views(out@) =~= before.push((i as int, x@)));
                },
                Err(e) => {
                    proof {
                        collected_fails(ts, i + 1, ts.len() as int);
                    }
                    return Err(e);
                },
            }
        }
        i = i + 1;
    }
    Ok(out)
}

/// The passage of time alone decides: a trigger that asks for an age fires
/// from its threshold on, and never stops.
pub proof fn fired_triggers_stay_fired(t: TimeTriggerView, facts: Tree, at: int, later: int)
    requires
        at <= later,
        t.operator == ">="@ || t.operator == ">"@,
    ensures
        match (evaluated(t, facts, at), evaluated(t, facts, later)) {
            (Ok(a), Ok(b)) => a.threshold == b.threshold && (a.satisfied ==> b.satisfied),
            (Err(a), Err(b)) => a == b,
            _ => false,
        },
{
    reveal_strlit(">=");
    reveal_strlit(">");
    reveal_strlit("<=");
    reveal_strlit("<");
    assert(">="@[0] == '>' && ">"@[0] == '>' && "<="@[0] == '<' && "<"@[0] == '<');
}

/// Whether a trigger is satisfied follows from its threshold: `>=` and `<=`
/// hold at the threshold itself, `>` and `<` only past and before it.
pub proof fn operators_compare_with_the_threshold(t: TimeTriggerView, facts: Tree, at: int)
    ensures
        evaluated(t, facts, at) matches Ok(e) ==> {
            &&& t.operator == ">="@ ==> (e.satisfied <==> e.threshold.secs <= at)
            &&& t.operator == ">"@ ==> (e.satisfied <==> e.threshold.secs < at)
            &&& t.operator == "<="@ ==> (e.satisfied <==> at <= e.threshold.secs)
            &&& t.operator == "<"@ ==> (e.satisfied <==> at < e.threshold.secs)
            &&& t.operator == ">="@ || t.operator == ">"@ || t.operator == "<="@ || t.operator == "<"@
        },
{
    operators_differ();
}

/// The four operators have different names.
proof fn operators_differ()
    ensures
        ">="@ != ">"@ && ">="@ != "<="@ && ">="@ != "<"@,
        ">"@ != "<="@ && ">"@ != "<"@ && "<="@ != "<"@,
{
    reveal_strlit(">=");
    reveal_strlit(">");
    reveal_strlit("<=");
    reveal_strlit("<");
    assert(">="@[0] == '>' && ">"@[0] == '>' && "<="@[0] == '<' && "<"@[0] == '<');
    assert(">="@.len() == 2 && ">"@.len() == 1 && "<="@.len() == 2 && "<"@.len() == 1);
}

/// On one basis and duration, `<=` holds exactly when `>` does not and `<`
/// exactly when `>=` does not; the operator never moves the threshold.
pub proof fn operators_complement_each_other(t: TimeTriggerView, facts: Tree, at: int)
    ensures
        match (
            evaluated(TimeTriggerView { operator: "<="@, ..t }, facts, at),
            evaluated(TimeTriggerView { operator: ">"@, ..t }, facts, at),
            evaluated(TimeTriggerView { operator: "<"@, ..t }, facts, at),
            evaluated(TimeTriggerView { operator: ">="@, ..t }, facts, at),
        ) {
            (Ok(le), Ok(gt), Ok(lt), Ok(ge)) => {
                &&& le.satisfied <==> !gt.satisfied
                &&& lt.satisfied <==> !ge.satisfied
                &&& le.threshold == gt.threshold && gt.threshold == lt.threshold && lt.threshold
                    == ge.threshold
            },
            (Err(a), Err(b), Err(c), Err(d)) => a == b && b == c && c == d,
            _ => false,
        },
{
    operators_differ();
}

/// A trigger that asks for a young subject stops and never fires again:
/// satisfied at an instant, it was satisfied at every earlier one.
pub proof fn youth_is_lost_for_good(t: TimeTriggerView, facts: Tree, at: int, earlier: int)
    requires
        earlier <= at,
        t.operator == "<="@ || t.operator == "<"@,
    ensures
        match (evaluated(t, facts, at), evaluated(t, facts, earlier)) {
            (Ok(a), Ok(b)) => a.threshold == b.threshold && (a.satisfied ==> b.satisfied),
            (Err(a), Err(b)) => a == b,
            _ => false,
        },
{
    operators_differ();
}

/// A trigger is evaluated only where the facts hold its basis as a text
/// that is an instant.
pub proof fn evaluation_needs_its_basis(t: TimeTriggerView, facts: Tree, at: int)
    requires
        evaluated(t, facts, at) is Ok,
    ensures
        facts matches Tree::Obj(m) && m.dom().contains(t.basis) && (m[t.basis] matches Tree::Str(raw)
            && time::parsed(raw) is Some),
{
}

/// A duration without months is added in seconds: the threshold of a basis
/// in range lies exactly that much later.
pub proof fn seconds_are_added(
    t: TimeTriggerView,
    m: Map<Seq<char>, Tree>,
    raw: Seq<char>,
    x: int,
    at: int,
)
    requires
        m.dom().contains(t.basis),
        m[t.basis] == Tree::Str(raw),
        time::parsed(raw) == Some(x),
        t.duration.months == 0,
        i64::MIN <= x + t.duration.seconds <= i64::MAX,
        t.operator == ">="@ || t.operator == ">"@ || t.operator == "<="@ || t.operator == "<"@,
    ensures
        evaluated(t, Tree::Obj(m), at) matches Ok(e) && e.threshold.secs == x + t.duration.seconds,
{
}

/// Months move the calendar date, not the seconds: the threshold of a basis
/// on a date is that date moved on by the months, its day cut to the last
/// of the month it lands in, at the same time of day, plus the seconds.
pub proof fn months_move_the_date(
    t: TimeTriggerView,
    m: Map<Seq<char>, Tree>,
    raw: Seq<char>,
    x: int,
    at: int,
)
    requires
        m.dom().contains(t.basis),
        m[t.basis] == Tree::Str(raw),
        time::parsed(raw) == Some(x),
        t.duration.months != 0,
    ensures
        evaluated(t, Tree::Obj(m), at) matches Ok(e) ==> {
            let moved = e.threshold.secs - t.duration.seconds;
            let (y, mo, d) = time::civil(x / 86_400);
            let (y2, mo2, d2) = time::civil(moved / 86_400);
            &&& moved % 86_400 == x % 86_400
            &&& 12 * y2 + mo2 == 12 * y + mo + t.duration.months
            &&& d2 <= d
            &&& d2 < d ==> d2 == time::month_days(y2, mo2)
        },
{
    if let Ok(e) = evaluated(t, Tree::Obj(m), at) {
        let (y, mo, d) = time::civil(x / 86_400);
        time::day_number_of_civil(x / 86_400);
        let total = y * 12 + (mo - 1) + t.duration.months;
        let (ny, nm) = (total / 12, total % 12 + 1);
        let last = time::month_days(ny, nm);
        let nd = if d < last { d } else { last };
        time::civil_of_day_number(ny, nm, nd);
        let n = time::day_number(ny, nm, nd);
        let moved = e.threshold.secs - t.duration.seconds;
        assert(moved == n * 86_400 + x % 86_400);
        assert(moved / 86_400 == n && moved % 86_400 == x % 86_400);
    }
}

/// One component of a duration in writing, where it is given.
pub open spec fn written(n: Option<nat>, unit: char) -> Seq<char> {
    match n {
        Some(k) => text::decimal(k).push(unit),
        None => Seq::empty(),
    }
}

/// A written component is taken off the front.
proof fn written_component(k: nat, unit: char, rest: Seq<char>)
    requires
        !('0' <= unit <= '9'),
    ensures
        has_component(text::decimal(k).push(unit) + rest, unit),
        component(text::decimal(k).push(unit) + rest, unit) == k,
        past_component(text::decimal(k).push(unit) + rest, unit) == rest,
        forall|other: char|
            other != unit ==> !#[trigger] has_component(text::decimal(k).push(unit) + rest, other),
{
    let s = text::decimal(k).push(unit) + rest;
    text::number_of_decimal(k);
    assert forall|i: int| 0 <= i < text::decimal(k).len() implies '0' <= #[trigger] text::decimal(
        k,
    )[i] <= '9' by {
        assert(text::is_digit(text::decimal(k)[i]));
    }
    text::digits_run_out(text::decimal(k), unit, rest);
    assert(s.take(text::digit_run(s)) =~= text::decimal(k));
    assert(s.skip(text::digit_run(s) + 1) =~= rest);
}

/// What is written after an optional component is what follows it.
proof fn written_step(n: Option<nat>, unit: char, rest: Seq<char>)
    requires
        !('0' <= unit <= '9'),
        !has_component(rest, unit),
    ensures
        component(written(n, unit) + rest, unit) == (match n {
            Some(k) => k,
            None => 0,
        }),
        past_component(written(n, unit) + rest, unit) == rest,
        forall|other: char|
            other != unit && !has_component(rest, other) ==> !#[trigger] has_component(
                written(n, unit) + rest,
                other,
            ),
{
    match n {
        Some(k) => written_component(k, unit, rest),
        None => assert(written(n, unit) + rest =~= rest),
    }
}

/// Nothing written holds the letter that parts date and time.
proof fn written_without(n: Option<nat>, unit: char, rest: Seq<char>, c: char)
    requires
        c != unit,
        !('0' <= c <= '9'),
        forall|i: int| 0 <= i < rest.len() ==> #[trigger] rest[i] != c,
    ensures
        forall|i: int|
            0 <= i < (written(n, unit) + rest).len() ==> #[trigger] (written(n, unit) + rest)[i] != c,
{
    let s = written(n, unit) + rest;
    assert forall|i: int| 0 <= i < s.len() implies #[trigger] s[i] != c by {
        let w = written(n, unit);
        if i < w.len() {
            let k = n->Some_0;
            text::number_of_decimal(k);
            if i < text::decimal(k).len() {
                assert(text::is_digit(text::decimal(k)[i]));
            }
        } else {
            assert(s[i] == rest[i - w.len()]);
        }
    }
}

/// A duration in writing: years, months, weeks and days, and where there
/// is a time part, hours, minutes and seconds.
pub open spec fn duration_text(
    y: Option<nat>,
    mo: Option<nat>,
    w: Option<nat>,
    d: Option<nat>,
    h: Option<nat>,
    mi: Option<nat>,
    s: Option<nat>,
) -> Seq<char> {
    let date = written(y, 'Y') + (written(mo, 'M') + (written(w, 'W') + (written(d, 'D')
        + Seq::empty())));
    let clock = written(h, 'H') + (written(mi, 'M') + (written(s, 'S') + Seq::empty()));
    if h is None && mi is None && s is None {
        seq!['P'] + date
    } else {
        seq!['P'] + (date + (seq!['T'] + clock))
    }
}

/// A component's amount, nothing where it is absent.
pub open spec fn amount(n: Option<nat>) -> nat {
    match n {
        Some(k) => k,
        None => 0,
    }
}

/// The date part is read as it is written.
proof fn date_is_read_as_written(y: Option<nat>, mo: Option<nat>, w: Option<nat>, d: Option<nat>)
    ensures
        ({
            let date = written(y, 'Y') + (written(mo, 'M') + (written(w, 'W') + (written(d, 'D')
                + Seq::empty())));
            &&& date_part(date) == Some(
                (12 * amount(y) + amount(mo), 604_800 * amount(w) + 86_400 * amount(d)),
            )
            &&& forall|i: int| 0 <= i < date.len() ==> #[trigger] date[i] != 'T'
            &&& date.len() == 0 ==> y is None && mo is None && w is None && d is None
        }),
{
    let none = Seq::<char>::empty();
    let d4 = written(d, 'D') + none;
    let d3 = written(w, 'W') + d4;
    let d2 = written(mo, 'M') + d3;
    written_step(d, 'D', none);
    written_step(w, 'W', d4);
    written_step(mo, 'M', d3);
    written_step(y, 'Y', d2);
    written_without(d, 'D', none, 'T');
    written_without(w, 'W', d4, 'T');
    written_without(mo, 'M', d3, 'T');
    written_without(y, 'Y', d2, 'T');
}

/// The time part is read as it is written.
proof fn time_is_read_as_written(h: Option<nat>, mi: Option<nat>, s: Option<nat>)
    ensures
        ({
            let clock = written(h, 'H') + (written(mi, 'M') + (written(s, 'S') + Seq::empty()));
            &&& time_part(clock) == Some(3_600 * amount(h) + 60 * amount(mi) + amount(s))
            &&& clock.len() == 0 ==> h is None && mi is None && s is None
        }),
{
    let none = Seq::<char>::empty();
    let t3 = written(s, 'S') + none;
    let t2 = written(mi, 'M') + t3;
    written_step(s, 'S', none);
    written_step(mi, 'M', t3);
    written_step(h, 'H', t2);
}

/// A date and a time part make up a duration.
proof fn parts_make_a_duration(date: Seq<char>, clock: Seq<char>)
    requires
        forall|i: int| 0 <= i < date.len() ==> #[trigger] date[i] != 'T',
    ensures
        date.len() > 0 ==> duration_of(seq!['P'] + date) == date_part(date),
        clock.len() > 0 ==> duration_of(seq!['P'] + (date + (seq!['T'] + clock))) == match (
            date_part(date),
            time_part(clock),
        ) {
            (Some((m, t)), Some(more)) => Some((m, t + more)),
            _ => None,
        },
{
    let plain = seq!['P'] + date;
    assert(plain.skip(1) =~= date);
    text::first_of_is(date, 'T', date.len() as int);
    assert(date.take(date.len() as int) =~= date);
    let full = seq!['P'] + (date + (seq!['T'] + clock));
    let body = full.skip(1);
    assert(body =~= date + (seq!['T'] + clock));
    assert forall|j: int| 0 <= j < date.len() implies body[j] != 'T' by {
        assert(body[j] == date[j]);
    }
    text::first_of_is(body, 'T', date.len() as int);
    assert(body.take(date.len() as int) =~= date);
    assert(body.skip(date.len() + 1int) =~= clock);
}

/// A duration with at least one component is read as it is written: a year
/// is twelve months, a week seven days, a day 24 hours, an hour 60 minutes
/// and a minute 60 seconds.
pub proof fn durations_are_read_as_written(
    y: Option<nat>,
    mo: Option<nat>,
    w: Option<nat>,
    d: Option<nat>,
    h: Option<nat>,
    mi: Option<nat>,
    s: Option<nat>,
)
    requires
        y is Some || mo is Some || w is Some || d is Some || h is Some || mi is Some || s is Some,
    ensures
        ({
            let months = 12 * amount(y) + amount(mo);
            let seconds = 7 * 86_400 * amount(w) + 86_400 * amount(d) + 3_600 * amount(h) + 60 * amount(
                mi,
            ) + amount(s);
            match parsed_duration(duration_text(y, mo, w, d, h, mi, s)) {
                Ok(r) => r.months == months && r.seconds == seconds,
                Err(_) => months > i64::MAX || seconds > i64::MAX,
            }
        }),
{
    let date = written(y, 'Y') + (written(mo, 'M') + (written(w, 'W') + (written(d, 'D')
        + Seq::empty())));
    let clock = written(h, 'H') + (written(mi, 'M') + (written(s, 'S') + Seq::empty()));
    date_is_read_as_written(y, mo, w, d);
    time_is_read_as_written(h, mi, s);
    parts_make_a_duration(date, clock);
}

/// Without its leading `P`, or with nothing after it or after the `T`, a
/// text is no duration.
pub proof fn empty_durations_are_refused(s: Seq<char>)
    requires
        s.len() < 2 || s[0] != 'P' || s.last() == 'T',
    ensures
        parsed_duration(s) is Err,
{
    if s.len() >= 2 && s[0] == 'P' {
        let body = s.skip(1);
        text::first_of_found(body, 'T');
        let t = text::first_of(body, 'T');
        assert(body.last() == 'T');
        if t == body.len() {
            assert(body[body.len() - 1] != 'T');
        } else if t < body.len() - 1 {
            let time = body.skip(t + 1);
            assert(time.last() == 'T');
            time_part_has_no_stray(time);
        }
    } else if s.len() == 1 && s[0] == 'P' {
        let body = s.skip(1);
        assert(text::first_of(body, 'T') == 0);
    }
}

/// A text whose last character is none of the units of a time is no time.
proof fn time_part_has_no_stray(s: Seq<char>)
    requires
        s.len() > 0,
        s.last() == 'T',
    ensures
        time_part(s) is None,
{
    past_keeps_the_end(s, 'H', 'T');
    let m = past_component(s, 'H');
    past_keeps_the_end(m, 'M', 'T');
    past_keeps_the_end(past_component(m, 'M'), 'S', 'T');
}

/// Taking a component off the front keeps a last character that is not its
/// unit.
proof fn past_keeps_the_end(s: Seq<char>, unit: char, c: char)
    requires
        s.len() > 0,
        s.last() == c,
        c != unit,
    ensures
        past_component(s, unit).len() > 0,
        past_component(s, unit).last() == c,
{
}

/// A trigger is read from the members of its object: a known basis, a known
/// operator and a duration, each a text that is not empty.
pub proof fn triggers_are_read_from_their_members(t: Tree)
    ensures
        parsed_trigger(t) matches Ok(x) ==> {
            &&& t matches Tree::Obj(m)
            &&& m.dom().contains("basis"@) && m["basis"@] == Tree::Str(x.basis)
            &&& x.basis == "manufactured_at"@ || x.basis == "first_registered_at"@
            &&& m.dom().contains("operator"@) && m["operator"@] == Tree::Str(x.operator)
            &&& x.operator == ">="@ || x.operator == ">"@ || x.operator == "<="@ || x.operator == "<"@
            &&& m.dom().contains("duration"@) && m["duration"@] == Tree::Str(x.duration_raw)
            &&& parsed_duration(x.duration_raw) == Ok::<Duration, Seq<char>>(x.duration)
        },
        forall|basis: Seq<char>, operator: Seq<char>, raw: Seq<char>|
            #![trigger text::trimmed(basis), text::trimmed(operator), text::trimmed(raw)]
            {
                &&& t matches Tree::Obj(m)
                &&& m.dom().contains("basis"@) && m["basis"@] == Tree::Str(basis)
                &&& basis == "manufactured_at"@ || basis == "first_registered_at"@
                &&& m.dom().contains("operator"@) && m["operator"@] == Tree::Str(operator)
                &&& operator == ">="@ || operator == ">"@ || operator == "<="@ || operator == "<"@
                &&& m.dom().contains("duration"@) && m["duration"@] == Tree::Str(raw)
                &&& raw.len() > 0
                &&& parsed_duration(raw) is Ok
            } ==> parsed_trigger(t) is Ok,
{
    reveal_strlit("manufactured_at");
    reveal_strlit("first_registered_at");
    reveal_strlit(">=");
    reveal_strlit(">");
    reveal_strlit("<=");
    reveal_strlit("<");
    assert(BASES@[0] == "manufactured_at" && BASES@[1] == "first_registered_at");
    assert(OPERATORS@[0] == ">=" && OPERATORS@[1] == ">" && OPERATORS@[2] == "<=" && OPERATORS@[3]
        == "<");
}

/// The time triggers of a manifest are those whose predicate class is
/// `time`, all of them, each at its own place.
proof fn collected_are_the_time_triggers(ts: Seq<Tree>, n: int)
    requires
        0 <= n <= ts.len(),
    ensures
        collected(ts, n) matches Ok(got) ==> {
            &&& forall|k: int|
                0 <= k < got.len() ==> 0 <= (#[trigger] got[k]).0 < n && json::get_str(
                    ts[got[k].0],
                    "predicate_class"@,
                ) == Some("time"@) && parsed_trigger(ts[got[k].0]) == Ok::<TimeTriggerView, Seq<char>>(
                    got[k].1,
                )
            &&& forall|i: int|
                0 <= i < n && json::get_str(#[trigger] ts[i], "predicate_class"@) == Some("time"@)
                    ==> parsed_trigger(ts[i]) is Ok && got.contains((i, parsed_trigger(ts[i])->Ok_0))
        },
    decreases n,
{
    if n > 0 {
        collected_are_the_time_triggers(ts, n - 1);
        if let Ok(all) = collected(ts, n) {
            let got = collected(ts, n - 1)->Ok_0;
            assert forall|i: int|
                0 <= i < n && json::get_str(#[trigger] ts[i], "predicate_class"@) == Some(
                    "time"@,
                ) implies parsed_trigger(ts[i]) is Ok && all.contains(
                (i, parsed_trigger(ts[i])->Ok_0),
            ) by {
                if i < n - 1 {
                    let x = (i, parsed_trigger(ts[i])->Ok_0);
                    assert(got.contains(x));
                    assert(all[got.index_of(x)] == x);
                } else {
                    assert(all[got.len() as int] == (i, parsed_trigger(ts[i])->Ok_0));
                }
            }
        }
    }
}

/// What a manifest's `triggers` hold under the predicate class `time` are
/// its time triggers; it has none where it holds no such list, and one that
/// is malformed refuses them all.
pub proof fn time_triggers_of_a_manifest(m: Map<Seq<char>, Tree>, ts: Seq<Tree>, i: int, k: int)
    requires
        m.dom().contains("triggers"@),
        m["triggers"@] == Tree::Arr(ts),
    ensures
        manifest_triggers(Tree::Obj(m)) matches Ok(got) ==> {
            &&& 0 <= k < got.len() ==> 0 <= got[k].0 < ts.len() && (ts[got[k].0] matches Tree::Obj(o)
                && o.dom().contains("predicate_class"@) && o["predicate_class"@] == Tree::Str("time"@))
                && parsed_trigger(ts[got[k].0]) == Ok::<TimeTriggerView, Seq<char>>(got[k].1)
            &&& 0 <= i < ts.len() && (ts[i] matches Tree::Obj(o) && o.dom().contains(
                "predicate_class"@,
            ) && o["predicate_class"@] == Tree::Str("time"@)) ==> parsed_trigger(ts[i]) is Ok
                && got.contains((i, parsed_trigger(ts[i])->Ok_0))
        },
{
    collected_are_the_time_triggers(ts, ts.len() as int);
}

} // verus!
