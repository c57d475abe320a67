//! Clock readings, local time labels and integer conversions.
use vstd::prelude::*;
use crate::text::{
    chars_of, decimal, decimal_chars, parse_u64, parsed_unsigned, starts_with, str_eq,
    string_of_range,
};
use crate::window::push_str;

verus! {

broadcast use vstd::string::group_string_axioms;

#[verifier::external_type_specification]
#[verifier::external_body]
pub struct ExSystemTime(std::time::SystemTime);

/// `SystemTime::now`: the current wall-clock time; nothing is promised of it.
#[verifier::external_body]
fn system_time_now() -> std::time::SystemTime {
    std::time::SystemTime::now()
}

/// `SystemTime::duration_since(UNIX_EPOCH)`, `None` for a time before the epoch.
/// Nothing is stated of the duration: the time it is taken from is opaque here.
#[verifier::external_body]
fn since_unix_epoch(t: &std::time::SystemTime) -> Option<std::time::Duration> {
    t.duration_since(std::time::UNIX_EPOCH).ok()
}

/// `Duration::as_millis`; the duration is opaque here, so nothing is stated of the result.
#[verifier::external_body]
fn duration_millis(d: &std::time::Duration) -> u128 {
    d.as_millis()
}

/// Milliseconds since the Unix epoch, or 0 when the clock is before it.
pub fn now_ms() -> u128 {
    let now = system_time_now();
    match since_unix_epoch(&now) {
        Some(d) => duration_millis(&d),
        None => 0,
    }
}

/// Milliseconds in a day.
pub open spec fn day_ms() -> int {
    86_400_000int
}

/// The start of the local day (offset `offset_seconds` east of UTC) containing `ts`.
pub open spec fn day_start(ts: u128, offset_seconds: u64) -> int {
    let o = offset_seconds * 1000;
    ((ts + o) / day_ms()) * day_ms() - o
}

/// Start of the local day containing `timestamp_ms`, in milliseconds.
///
/// The arithmetic must stay within `u128`: the sum `timestamp + offset` must fit
/// and the local midnight must not lie before the epoch.
pub fn day_start_ms(timestamp_ms: u128, offset_seconds: u64) -> (r: u128)
    requires
        timestamp_ms + offset_seconds * 1000 <= u128::MAX,
        day_start(timestamp_ms, offset_seconds) >= 0,
    ensures
        r == day_start(timestamp_ms, offset_seconds),
{
    let offset_ms = (offset_seconds as u128) * 1000;
    let shifted = timestamp_ms + offset_ms;
    let days = shifted / 86_400_000;
    assert(days * 86_400_000 <= shifted) by (nonlinear_arith)
        requires
            days == shifted / 86_400_000,
    ;
    days * 86_400_000 - offset_ms
}

/// `value` clamped to `i64::MAX`.
pub fn i64_from_u128(value: u128) -> (r: i64)
    ensures
        r == (if value <= i64::MAX { value as int } else { i64::MAX as int }),
{
    if value > i64::MAX as u128 {
        i64::MAX
    } else {
        value as i64
    }
}

/// `value` when it is not negative, 0 otherwise.
pub fn u128_from_i64(value: i64) -> (r: u128)
    ensures
        r == (if value >= 0 { value as int } else { 0 }),
{
    if value < 0 {
        0
    } else {
        value as u128
    }
}

/// `n` with two digits at least.
pub open spec fn two_digits(n: nat) -> Seq<char> {
    if n < 10 {
        "0"@ + decimal(n)
    } else {
        decimal(n)
    }
}

/// Seconds since local midnight for `ts`, with the local offset applied; the
/// sum wraps around past `u64::MAX`, as the release build's addition does.
pub open spec fn local_seconds_of_day(ts: u128, offset_seconds: u64) -> int {
    let total = ((ts / 1000) as u64) as int;
    (((total % 86_400) + offset_seconds) % 0x1_0000_0000_0000_0000int) % 86_400
}

/// `HH:MM` of a timestamp in local time.
pub open spec fn time_label_of(ts: u128, offset_seconds: u64) -> Seq<char> {
    let s = local_seconds_of_day(ts, offset_seconds);
    two_digits((s / 3600) as nat) + ":"@ + two_digits(((s % 3600) / 60) as nat)
}

/// Appends `n` with at least two digits.
fn push_two_digits(v: &mut Vec<char>, n: u64)
    requires
        n < 100,
    ensures
        final(v)@ == old(v)@ + two_digits(n as nat),
{
    if n < 10 {
        push_str(v, "0");
    }
    let d = decimal_chars(n as u128);
    let ghost before = v@;
    let mut i: usize = 0;
    while i < d.len()
        invariant
            i <= d.len(),
            v@ == before + d@.take(i as int),
        decreases d.len() - i,
    {
        v.push(d[i]);
        i = i + 1;
        assert(v@ =~= before + d@.take(i as int));
    }
    assert(d@.take(d.len() as int) =~= d@);
    assert(v@ =~= old(v)@ + two_digits(n as nat));
}

/// Local `HH:MM` of a timestamp, for a zone `offset_seconds` east of UTC.
pub fn time_label(timestamp_ms: u128, offset_seconds: u64) -> (r: String)
    ensures
        r@ == time_label_of(timestamp_ms, offset_seconds),
{
    let total_seconds = (timestamp_ms / 1000) as u64;
    let seconds_in_day = (total_seconds % 86_400).wrapping_add(offset_seconds);
    let seconds_in_day = seconds_in_day % 86_400;
    let hours = seconds_in_day / 3600;
    let minutes = (seconds_in_day % 3600) / 60;
    let mut v: Vec<char> = Vec::new();
    push_two_digits(&mut v, hours);
    push_str(&mut v, ":");
    push_two_digits(&mut v, minutes);
    assert(v@.subrange(0, v.len() as int) =~= v@);
    string_of_range(&v, 0, v.len())
}

/// A short age: milliseconds, seconds, minutes or hours.
pub open spec fn age_label(age: nat) -> Seq<char> {
    if age < 1000 {
        decimal(age) + "ms"@
    } else if age / 1000 < 60 {
        decimal(age / 1000) + "s"@
    } else if age / 60_000 < 60 {
        decimal(age / 60_000) + "m"@
    } else {
        decimal(age / 3_600_000) + "h"@
    }
}

/// A short age label such as `850ms`, `12s`, `5m` or `3h`.
pub fn short_age_label(age_ms: u128) -> (r: String)
    ensures
        r@ == age_label(age_ms as nat),
{
    let (n, unit) = if age_ms < 1_000 {
        (age_ms, "ms")
    } else if age_ms / 1_000 < 60 {
        (age_ms / 1_000, "s")
    } else if age_ms / 1_000 / 60 < 60 {
        (age_ms / 1_000 / 60, "m")
    } else {
        (age_ms / 1_000 / 60 / 60, "h")
    };
    assert(age_ms / 1000 / 60 == age_ms / 60_000);
    assert(age_ms / 1000 / 60 / 60 == age_ms / 3_600_000);
    let mut v = decimal_chars(n);
    push_str(&mut v, unit);
    assert(v@.subrange(0, v.len() as int) =~= v@);
    string_of_range(&v, 0, v.len())
}

/// The fixed offset, in seconds east of UTC, that a `TZ` value names:
/// `UTC` is 0, `UTC+<hours>` is that many hours (saturating); other values name none.
pub open spec fn fixed_timezone_offset(tz: Seq<char>) -> Option<u64> {
    if tz == "UTC"@ {
        Some(0)
    } else if starts_with(tz, "UTC+"@) {
        match parsed_unsigned(tz.skip(4), u64::MAX as nat) {
            Some(h) => Some(
                if h * 3600 <= u64::MAX {
                    (h * 3600) as u64
                } else {
                    u64::MAX
                },
            ),
            None => None,
        }
    } else {
        None
    }
}

/// Parses `UTC` or `UTC+<hours>` into an offset in seconds.
pub fn parse_fixed_timezone_offset(tz: &str) -> (r: Option<u64>)
    ensures
        r == fixed_timezone_offset(tz@),
{
    if str_eq(tz, "UTC") {
        return Some(0);
    }
    let v = chars_of(tz);
    let prefix = chars_of("UTC+");
    proof {
        reveal_strlit("UTC+");
    }
    if !(v.len() >= 4 && v[0] == 'U' && v[1] == 'T' && v[2] == 'C' && v[3] == '+') {
        proof {
            if starts_with(v@, "UTC+"@) {
                assert(v@[0] == v@.take(4)[0]);
                assert(v@[1] == v@.take(4)[1]);
                assert(v@[2] == v@.take(4)[2]);
                assert(v@[3] == v@.take(4)[3]);
            }
        }
        return None;
    }
    assert(v@.take(4) =~= prefix@);
    let rest = string_of_range(&v, 4, v.len());
    assert(rest@ =~= v@.skip(4));
    match parse_u64(rest.as_str()) {
        Some(hours) => Some(
            match hours.checked_mul(3600) {
                Some(seconds) => seconds,
                None => u64::MAX,
            },
        ),
        None => None,
    }
}

/// The local zone offset: the fixed offset the `TZ` value names, else UTC+8.
pub open spec fn timezone_offset(tz: Option<Seq<char>>) -> u64 {
    match tz {
        Some(t) => match fixed_timezone_offset(t) {
            Some(o) => o,
            None => 28800u64,
        },
        None => 28800u64,
    }
}

/// The local zone offset in seconds for a `TZ` environment value.
pub fn local_timezone_offset_seconds(tz: &Option<String>) -> (r: u64)
    ensures
        r == timezone_offset(tz.deep_view()),
{
    match tz {
        Some(t) => match parse_fixed_timezone_offset(t.as_str()) {
            Some(o) => o,
            None => 8 * 3600,
        },
        None => 8 * 3600,
    }
}

} // verus!
