//! Calendar arithmetic for UTC timestamps counted from the Unix epoch.
use vstd::prelude::*;

use crate::text::{decimal, push_char, push_padded_decimal, zero_pad};

verus! {

/// Gregorian leap-year rule.
pub open spec fn spec_is_leap(y: int) -> bool {
    (y % 4 == 0 && y % 100 != 0) || y % 400 == 0
}

/// Number of days in year `y`.
pub open spec fn year_length(y: int) -> int {
    if spec_is_leap(y) {
        366
    } else {
        365
    }
}

/// Number of days in month `m` (1-based) of year `y`.
pub open spec fn month_length(y: int, m: int) -> int {
    if m == 2 {
        if spec_is_leap(y) {
            29
        } else {
            28
        }
    } else if m == 4 || m == 6 || m == 9 || m == 11 {
        30
    } else {
        31
    }
}

/// Days from 1970-01-01 up to the first day of year `y`.
pub open spec fn days_before_year(y: int) -> int
    decreases y - 1970,
{
    if y <= 1970 {
        0
    } else {
        days_before_year(y - 1) + year_length(y - 1)
    }
}

/// Days from the first day of year `y` up to the first day of month `m`.
pub open spec fn days_before_month(y: int, m: int) -> int
    decreases m,
{
    if m <= 1 {
        0
    } else {
        days_before_month(y, m - 1) + month_length(y, m - 1)
    }
}

/// A calendar date on or after 1970-01-01.
pub open spec fn is_valid_date(y: int, m: int, d: int) -> bool {
    &&& y >= 1970
    &&& 1 <= m <= 12
    &&& 1 <= d <= month_length(y, m)
}

/// Number of whole days between 1970-01-01 and the given date.
pub open spec fn days_since_epoch(y: int, m: int, d: int) -> int {
    days_before_year(y) + days_before_month(y, m) + d - 1
}

/// Text of a timestamp in the form `YYYY-MM-DDTHH:MM:SSZ`, each field padded with zeros.
pub open spec fn iso_text(y: nat, mo: nat, d: nat, h: nat, mi: nat, s: nat) -> Seq<char> {
    zero_pad(decimal(y), 4) + seq!['-'] + zero_pad(decimal(mo), 2) + seq!['-'] + zero_pad(
        decimal(d),
        2,
    ) + seq!['T'] + zero_pad(decimal(h), 2) + seq![':'] + zero_pad(decimal(mi), 2) + seq![':']
        + zero_pad(decimal(s), 2) + seq!['Z']
}

/// The timestamp text of the instant `secs` seconds after the epoch.
pub open spec fn is_iso_timestamp_of(t: Seq<char>, secs: nat) -> bool {
    let days = secs / 86400;
    let tod = secs % 86400;
    exists|y: nat, m: nat, d: nat|
        #![trigger iso_text(y, m, d, tod / 3600, (tod % 3600) / 60, tod % 60)]
        is_valid_date(y as int, m as int, d as int) && days_since_epoch(y as int, m as int, d as int)
            == days && t == iso_text(y, m, d, tod / 3600, (tod % 3600) / 60, tod % 60)
}

proof fn lemma_days_before_year_lower(y: int)
    requires
        y >= 1970,
    ensures
        days_before_year(y) >= 365 * (y - 1970),
    decreases y - 1970,
{
    if y > 1970 {
        lemma_days_before_year_lower(y - 1);
    }
}

proof fn lemma_days_before_year_mono(a: int, b: int)
    requires
        1970 <= a <= b,
    ensures
        days_before_year(a) + (b - a) * 365 <= days_before_year(b),
    decreases b - a,
{
    if a < b {
        lemma_days_before_year_mono(a, b - 1);
    }
}

proof fn lemma_year_of_months(y: int)
    ensures
        days_before_month(y, 13) == year_length(y),
        days_before_month(y, 12) + month_length(y, 12) == year_length(y),
{
    reveal_with_fuel(days_before_month, 13);
}

proof fn lemma_days_before_month_mono(y: int, a: int, b: int)
    requires
        1 <= a <= b,
    ensures
        days_before_month(y, a) + (b - a) * 28 <= days_before_month(y, b),
    decreases b - a,
{
    if a < b {
        lemma_days_before_month_mono(y, a, b - 1);
    }
}

/// Within a valid date, the day of the year lies inside the year.
proof fn lemma_day_of_year_bounds(y: int, m: int, d: int)
    requires
        is_valid_date(y, m, d),
    ensures
        0 <= days_before_month(y, m) + d - 1 < year_length(y),
{
    lemma_days_before_month_mono(y, 1, m);
    lemma_days_before_month_mono(y, m + 1, 13);
    lemma_year_of_months(y);
}

/// Every day count names at most one calendar date: two valid dates with the same
/// number of days since the epoch are the same date.
pub proof fn law_days_since_epoch_injective(y1: int, m1: int, d1: int, y2: int, m2: int, d2: int)
    requires
        is_valid_date(y1, m1, d1),
        is_valid_date(y2, m2, d2),
        days_since_epoch(y1, m1, d1) == days_since_epoch(y2, m2, d2),
    ensures
        y1 == y2,
        m1 == m2,
        d1 == d2,
{
    lemma_day_of_year_bounds(y1, m1, d1);
    lemma_day_of_year_bounds(y2, m2, d2);
    if y1 < y2 {
        lemma_days_before_year_mono(y1 + 1, y2);
    } else if y2 < y1 {
        lemma_days_before_year_mono(y2 + 1, y1);
    }
    assert(y1 == y2);
    if m1 < m2 {
        lemma_days_before_month_mono(y1, m1 + 1, m2);
    } else if m2 < m1 {
        lemma_days_before_month_mono(y1, m2 + 1, m1);
    }
}

/// Whether `y` is a leap year in the Gregorian calendar.
pub fn is_leap(y: u64) -> (r: bool)
    ensures
        r == spec_is_leap(y as int),
{
    (y % 4 == 0 && y % 100 != 0) || y % 400 == 0
}

fn year_length_of(y: u64) -> (r: u64)
    ensures
        r == year_length(y as int),
{
    if is_leap(y) {
        366
    } else {
        365
    }
}

fn month_length_of(y: u64, m: u64) -> (r: u64)
    ensures
        r == month_length(y as int, m as int),
{
    if m == 2 {
        if is_leap(y) {
            29
        } else {
            28
        }
    } else if m == 4 || m == 6 || m == 9 || m == 11 {
        30
    } else {
        31
    }
}

/// The calendar date (year, month, day) lying `days` days after 1970-01-01.
pub fn days_to_ymd(days: u64) -> (r: (u64, u64, u64))
    ensures
        is_valid_date(r.0 as int, r.1 as int, r.2 as int),
        days_since_epoch(r.0 as int, r.1 as int, r.2 as int) == days,
{
    let mut rem = days;
    let mut year: u64 = 1970;
    let mut len = year_length_of(year);
    while rem >= len
        invariant
            1970 <= year,
            days_before_year(year as int) + rem == days,
            len == year_length(year as int),
        decreases rem,
    {
        rem = rem - len;
        proof {
            lemma_days_before_year_lower(year + 1);
        }
        year = year + 1;
        len = year_length_of(year);
    }
    let ghost in_year = rem;
    let mut month: u64 = 1;
    let mut mlen = month_length_of(year, month);
    while month < 12 && rem >= mlen
        invariant
            1 <= month <= 12,
            days_before_month(year as int, month as int) + rem == in_year,
            in_year < year_length(year as int),
            mlen == month_length(year as int, month as int),
        decreases 12 - month,
    {
        rem = rem - mlen;
        month = month + 1;
        mlen = month_length_of(year, month);
    }
    proof {
        lemma_year_of_months(year as int);
    }
    (year, month, rem + 1)
}

/// The `YYYY-MM-DDTHH:MM:SSZ` text of the instant `secs` seconds after the epoch.
pub fn iso_timestamp(secs: u64) -> (r: String)
    ensures
        is_iso_timestamp_of(r@, secs as nat),
{
    let days = secs / 86400;
    let time_of_day = secs % 86400;
    let hours = time_of_day / 3600;
    let minutes = (time_of_day % 3600) / 60;
    let seconds = time_of_day % 60;
    let (year, month, day) = days_to_ymd(days);
    let mut out = String::new();
    push_padded_decimal(&mut out, year as u128, 4);
    push_char(&mut out, '-');
    push_padded_decimal(&mut out, month as u128, 2);
    push_char(&mut out, '-');
    push_padded_decimal(&mut out, day as u128, 2);
    push_char(&mut out, 'T');
    push_padded_decimal(&mut out, hours as u128, 2);
    push_char(&mut out, ':');
    push_padded_decimal(&mut out, minutes as u128, 2);
    push_char(&mut out, ':');
    push_padded_decimal(&mut out, seconds as u128, 2);
    push_char(&mut out, 'Z');
    proof {
        let tod = secs as nat % 86400;
        assert(out@ =~= iso_text(
            year as nat,
            month as nat,
            day as nat,
            tod / 3600,
            (tod % 3600) / 60,
            tod % 60,
        ));
    }
    out
}

/// Every timestamp has a `T` between the date and the time and ends with `Z`.
pub proof fn law_timestamp_shape(t: Seq<char>, secs: nat)
    requires
        is_iso_timestamp_of(t, secs),
    ensures
        t.len() > 0 && t.last() == 'Z',
        t.contains('T'),
{
    let days = secs / 86400;
    let tod = secs % 86400;
    let (y, m, d) = choose|y: nat, m: nat, d: nat|
        #![trigger iso_text(y, m, d, tod / 3600, (tod % 3600) / 60, tod % 60)]
        is_valid_date(y as int, m as int, d as int) && days_since_epoch(y as int, m as int, d as int)
            == days && t == iso_text(y, m, d, tod / 3600, (tod % 3600) / 60, tod % 60);
    let date = zero_pad(decimal(y), 4) + seq!['-'] + zero_pad(decimal(m), 2) + seq!['-'] + zero_pad(
        decimal(d),
        2,
    );
    let rest = zero_pad(decimal(tod / 3600), 2) + seq![':'] + zero_pad(decimal((tod % 3600) / 60), 2)
        + seq![':'] + zero_pad(decimal(tod % 60), 2) + seq!['Z'];
    assert(t =~= date + seq!['T'] + rest);
    assert(t[date.len() as int] == 'T');
}

/// A reading of the system clock.
#[verifier::external_type_specification]
#[verifier::external_body]
pub struct ExSystemTime(std::time::SystemTime);

/// `SystemTime::now`: the current reading of the system clock. Nothing is promised
/// of it: it is the time.
#[verifier::external_body]
fn system_now() -> std::time::SystemTime {
    std::time::SystemTime::now()
}

/// `SystemTime::duration_since(UNIX_EPOCH)`: how long after the Unix epoch the
/// reading `t` lies, `None` where it lies before (the call's `Err`). Nothing more is
/// promised: it depends on the clock.
#[verifier::external_body]
fn since_epoch(t: &std::time::SystemTime) -> Option<core::time::Duration> {
    t.duration_since(std::time::UNIX_EPOCH).ok()
}

/// `Duration::default`: the zero duration.
#[verifier::external_body]
fn zero_duration() -> core::time::Duration {
    core::time::Duration::default()
}

/// `Duration::as_secs`: the whole seconds of `d`.
#[verifier::external_body]
fn whole_seconds(d: &core::time::Duration) -> u64 {
    d.as_secs()
}

/// `Duration::as_millis`: the whole milliseconds of `d`.
#[verifier::external_body]
fn whole_millis(d: &core::time::Duration) -> u128 {
    d.as_millis()
}

/// `Duration::subsec_nanos`: the nanoseconds of `d` past its whole seconds, which
/// its documentation bounds below one billion.
#[verifier::external_body]
fn nanos_past_second(d: &core::time::Duration) -> (r: u32)
    ensures
        r < 1_000_000_000,
{
    d.subsec_nanos()
}

/// Time elapsed since the Unix epoch by the system clock, zero if the clock stands
/// before the epoch.
fn elapsed() -> core::time::Duration {
    match since_epoch(&system_now()) {
        Some(d) => d,
        None => zero_duration(),
    }
}

/// Whole seconds elapsed since the Unix epoch by the system clock.
pub(crate) fn unix_seconds() -> u64 {
    whole_seconds(&elapsed())
}

/// Whole milliseconds elapsed since the Unix epoch by the system clock.
pub(crate) fn unix_millis() -> u128 {
    whole_millis(&elapsed())
}

/// Nanoseconds past the current second of the system clock.
pub(crate) fn unix_subsec_nanos() -> (r: u32)
    ensures
        r < 1_000_000_000,
{
    nanos_past_second(&elapsed())
}

/// `t` is the timestamp text of some instant.
pub open spec fn is_timestamp(t: Seq<char>) -> bool {
    exists|secs: u64| is_iso_timestamp_of(t, secs as nat)
}

/// The current UTC time as `YYYY-MM-DDTHH:MM:SSZ`.
pub fn now_iso() -> (r: String)
    ensures
        is_timestamp(r@),
{
    let secs = unix_seconds();
    iso_timestamp(secs)
}

} // verus!
