//! RFC 3339 UTC timestamps, computed from the seconds since the Unix epoch.
use vstd::prelude::*;

use crate::hashcache::digits_value;
use crate::prepare::{lemma_decimal_shape, pow10};
use crate::saved_folder::lemma_value_of_padded;
use crate::text::{decimal, is_digit, padded_decimal, push_char, push_str, zero_pad};

verus! {

/// Gregorian leap years.
pub open spec fn leap(y: int) -> bool {
    (y % 4 == 0 && y % 100 != 0) || y % 400 == 0
}

/// Whether `y` is a leap year of the Gregorian calendar.
pub fn is_leap_year(y: i32) -> (res: bool)
    ensures
        res == leap(y as int),
{
    let n: u64 = if y < 0 {
        (-(y as i64)) as u64
    } else {
        y as u64
    };
    let res = (n % 4 == 0 && n % 100 != 0) || n % 400 == 0;
    proof {
        let m = y as int;
        assert(n as int == m || n as int == -m);
        assert((n as int) % 4 == 0 <==> m % 4 == 0);
        assert((n as int) % 100 == 0 <==> m % 100 == 0);
        assert((n as int) % 400 == 0 <==> m % 400 == 0);
    }
    res
}

pub open spec fn year_length(y: int) -> nat {
    if leap(y) {
        366
    } else {
        365
    }
}

/// The year that day `days` (counted from the first day of year `y`) falls
/// in, and the day within that year.
pub open spec fn year_and_day(days: nat, y: int) -> (int, nat)
    decreases days,
{
    if days < year_length(y) {
        (y, days)
    } else {
        year_and_day((days - year_length(y)) as nat, y + 1)
    }
}

/// The length of month `m` (1-based).
pub open spec fn month_length(m: nat, is_leap: bool) -> nat {
    if m == 2 {
        if is_leap {
            29
        } else {
            28
        }
    } else if m == 4 || m == 6 || m == 9 || m == 11 {
        30
    } else {
        31
    }
}

/// The month (from `m` on) and the day within it (0-based) of day `d` of a year.
pub open spec fn month_and_day(d: nat, is_leap: bool, m: nat) -> (nat, nat)
    decreases 13 - m,
{
    if m >= 12 || d < month_length(m, is_leap) {
        (m, d)
    } else {
        month_and_day((d - month_length(m, is_leap)) as nat, is_leap, m + 1)
    }
}

/// The civil date (year, month, day of month) of a day since 1970-01-01.
pub open spec fn civil_date(days: nat) -> (int, nat, nat) {
    let (y, d) = year_and_day(days, 1970);
    let (m, dd) = month_and_day(d, leap(y), 1);
    (y, m, dd + 1)
}

/// `YYYY-MM-DDThh:mm:ss.ffffffZ` for `secs` seconds and `micros`
/// microseconds past the Unix epoch.
pub open spec fn iso_timestamp(secs: nat, micros: nat) -> Seq<char> {
    let (y, m, d) = civil_date(secs / 86400);
    zero_pad(decimal(y as nat), 4) + "-"@ + zero_pad(decimal(m), 2) + "-"@ + zero_pad(
        decimal(d),
        2,
    ) + "T"@ + zero_pad(decimal((secs / 3600) % 24), 2) + ":"@ + zero_pad(
        decimal((secs / 60) % 60),
        2,
    ) + ":"@ + zero_pad(decimal(secs % 60), 2) + "."@ + zero_pad(decimal(micros), 6) + "Z"@
}

proof fn lemma_year_and_day_bounds(days: nat, y: int)
    requires
        y >= 1970,
    ensures
        year_and_day(days, y).0 >= y,
        year_and_day(days, y).0 <= y + days / 365,
        year_and_day(days, y).1 < year_length(year_and_day(days, y).0),
    decreases days,
{
    if days >= year_length(y) {
        lemma_year_and_day_bounds((days - year_length(y)) as nat, y + 1);
    }
}

proof fn lemma_month_bounds(d: nat, is_leap: bool, m: nat)
    requires
        1 <= m <= 12,
        d < 366,
    ensures
        m <= month_and_day(d, is_leap, m).0 <= 12,
        month_and_day(d, is_leap, m).1 <= d,
    decreases 13 - m,
{
    if !(m >= 12 || d < month_length(m, is_leap)) {
        lemma_month_bounds((d - month_length(m, is_leap)) as nat, is_leap, m + 1);
    }
}

/// The civil date of day `days` since 1970-01-01, as (year, month, day).
pub fn civil_from_days(days: u64) -> (res: (u64, u64, u64))
    ensures
        res.0 as int == civil_date(days as nat).0,
        res.1 as nat == civil_date(days as nat).1,
        res.2 as nat == civil_date(days as nat).2,
{
    let mut d: u64 = days;
    let mut year: u64 = 1970;
    proof {
        lemma_year_and_day_bounds(days as nat, 1970);
    }
    loop
        invariant
            1970 <= year,
            year as int + d as int / 365 <= 1970 + days as int / 365,
            year_and_day(d as nat, year as int) == year_and_day(days as nat, 1970),
        ensures
            1970 <= year,
            d < year_length(year as int),
            year_and_day(d as nat, year as int) == year_and_day(days as nat, 1970),
        decreases d,
    {
        let leap_year = is_leap_year_u64(year);
        let len: u64 = if leap_year {
            366
        } else {
            365
        };
        if d < len {
            break;
        }
        d = d - len;
        year = year + 1;
    }
    assert(year_and_day(d as nat, year as int) == (year as int, d as nat));
    let leap_year = is_leap_year_u64(year);
    proof {
        lemma_year_and_day_bounds(days as nat, 1970);
        lemma_month_bounds(d as nat, leap_year, 1);
    }
    let mut month: u64 = 1;
    let mut rest: u64 = d;
    while month < 12
        invariant
            1 <= month <= 12,
            rest < 366,
            month_and_day(rest as nat, leap_year, month as nat) == month_and_day(
                d as nat,
                leap_year,
                1,
            ),
        ensures
            1 <= month <= 12,
            month_and_day(rest as nat, leap_year, month as nat) == (month as nat, rest as nat),
            month_and_day(rest as nat, leap_year, month as nat) == month_and_day(
                d as nat,
                leap_year,
                1,
            ),
        decreases 12 - month,
    {
        let len: u64 = if month == 2 {
            if leap_year {
                29
            } else {
                28
            }
        } else if month == 4 || month == 6 || month == 9 || month == 11 {
            30
        } else {
            31
        };
        if rest < len {
            break;
        }
        rest = rest - len;
        month = month + 1;
    }
    (year, month, rest + 1)
}

fn is_leap_year_u64(y: u64) -> (res: bool)
    ensures
        res == leap(y as int),
{
    (y % 4 == 0 && y % 100 != 0) || y % 400 == 0
}

/// Formats `secs` seconds and `micros` microseconds past the Unix epoch as
/// `YYYY-MM-DDThh:mm:ss.ffffffZ`.
pub fn format_iso8601(secs: u64, micros: u32) -> (res: String)
    ensures
        res@ == iso_timestamp(secs as nat, micros as nat),
{
    let (year, month, day) = civil_from_days(secs / 86400);
    let mut out = padded_decimal(year, 4);
    push_char(&mut out, '-');
    let m = padded_decimal(month, 2);
    push_str(&mut out, m.as_str());
    push_char(&mut out, '-');
    let d = padded_decimal(day, 2);
    push_str(&mut out, d.as_str());
    push_char(&mut out, 'T');
    let h = padded_decimal((secs / 3600) % 24, 2);
    push_str(&mut out, h.as_str());
    push_char(&mut out, ':');
    let mi = padded_decimal((secs / 60) % 60, 2);
    push_str(&mut out, mi.as_str());
    push_char(&mut out, ':');
    let s = padded_decimal(secs % 60, 2);
    push_str(&mut out, s.as_str());
    push_char(&mut out, '.');
    let us = padded_decimal(micros as u64, 6);
    push_str(&mut out, us.as_str());
    push_char(&mut out, 'Z');
    proof {
        reveal_strlit("-");
        reveal_strlit("T");
        reveal_strlit(":");
        reveal_strlit(".");
        reveal_strlit("Z");
        assert(out@ =~= iso_timestamp(secs as nat, micros as nat));
    }
    out
}

/// std's wall-clock instant, carried through opaquely.
#[verifier::external_type_specification]
#[verifier::external_body]
pub struct ExSystemTime(std::time::SystemTime);

/// The machine's clock now (std's `SystemTime::now`). Trusted, with nothing
/// stated: the reading is the machine's.
#[verifier::external_body]
fn system_now() -> std::time::SystemTime {
    std::time::SystemTime::now()
}

/// How long after the Unix epoch `t` is (`SystemTime::duration_since` with
/// `UNIX_EPOCH`), or nothing for an instant before it. Trusted, with nothing
/// stated: the answer depends on the clock reading.
#[verifier::external_body]
fn since_epoch(t: &std::time::SystemTime) -> Option<std::time::Duration> {
    match t.duration_since(std::time::UNIX_EPOCH) {
        Ok(d) => Some(d),
        Err(_) => None,
    }
}

/// The whole seconds of `d` (`Duration::as_secs`). Trusted, with nothing
/// stated: a duration is opaque to the crate.
#[verifier::external_body]
fn whole_secs(d: &std::time::Duration) -> u64 {
    d.as_secs()
}

/// The microseconds of `d`'s last partial second
/// (`Duration::subsec_micros`). Trusted: below one million, as std
/// documents.
#[verifier::external_body]
fn sub_micros(d: &std::time::Duration) -> (res: u32)
    ensures
        res < 1_000_000,
{
    d.subsec_micros()
}

/// The time since the Unix epoch, in whole seconds and the microseconds of
/// the current second; a clock before the epoch reads as zero.
fn now_since_epoch() -> (res: (u64, u32))
    ensures
        res.1 < 1_000_000,
{
    let now = system_now();
    match since_epoch(&now) {
        Some(d) => (whole_secs(&d), sub_micros(&d)),
        None => (0, 0),
    }
}

/// The current time as RFC 3339 UTC with microseconds.
pub fn chrono_now_iso8601() -> (res: String)
    ensures
        exists|secs: u64, micros: u32|
            micros < 1_000_000 && res@ == iso_timestamp(secs as nat, micros as nat),
{
    let (secs, micros) = now_since_epoch();
    format_iso8601(secs, micros)
}

} // verus!

verus! {

/// The days of a year from the start of month `m` to its end.
pub open spec fn days_from(m: nat, is_leap: bool) -> nat
    decreases 13 - m,
{
    if m > 12 {
        0
    } else {
        month_length(m, is_leap) + days_from(m + 1, is_leap)
    }
}

proof fn lemma_day_in_month(d: nat, is_leap: bool, m: nat)
    requires
        1 <= m <= 12,
        d < days_from(m, is_leap),
    ensures
        month_and_day(d, is_leap, m).1 < month_length(month_and_day(d, is_leap, m).0, is_leap),
        m <= month_and_day(d, is_leap, m).0 <= 12,
    decreases 13 - m,
{
    if m == 12 {
        assert(days_from(13, is_leap) == 0);
    } else if d >= month_length(m, is_leap) {
        lemma_day_in_month((d - month_length(m, is_leap)) as nat, is_leap, m + 1);
    }
}

/// Every day since 1970-01-01 has a valid civil date: a year from 1970 on,
/// a month from 1 to 12, and a day within that month's length.
pub proof fn lemma_civil_date_valid(days: nat)
    ensures
        civil_date(days).0 >= 1970,
        1 <= civil_date(days).1 <= 12,
        1 <= civil_date(days).2 <= month_length(civil_date(days).1, leap(civil_date(days).0)),
{
    lemma_year_and_day_bounds(days, 1970);
    let (y, d) = year_and_day(days, 1970);
    reveal_with_fuel(days_from, 13);
    assert(days_from(1, leap(y)) == year_length(y));
    lemma_day_in_month(d, leap(y), 1);
}

} // verus!

verus! {

/// The leap years from year 1 through year `x`.
pub open spec fn leaps_through(x: int) -> int {
    x / 4 - x / 100 + x / 400
}

/// The days from 1970-01-01 to the first day of year `y`.
pub open spec fn days_before_year(y: int) -> int {
    365 * (y - 1970) + leaps_through(y - 1) - leaps_through(1969)
}

/// The days of a year before the first day of month `m`.
pub open spec fn days_before_month(m: nat, is_leap: bool) -> int {
    days_from(1, is_leap) - days_from(m, is_leap)
}

/// The day since 1970-01-01 of the civil date `y-m-d`.
pub open spec fn epoch_day(y: int, m: nat, d: nat) -> int {
    days_before_year(y) + days_before_month(m, leap(y)) + d - 1
}

proof fn lemma_year_step(y: int)
    requires
        y >= 1970,
    ensures
        days_before_year(y + 1) == days_before_year(y) + year_length(y),
{
    assert(y / 4 - (y - 1) / 4 == (if y % 4 == 0 { 1int } else { 0int })) by (nonlinear_arith)
        requires
            y >= 1,
    ;
    assert(y / 100 - (y - 1) / 100 == (if y % 100 == 0 { 1int } else { 0int })) by (nonlinear_arith)
        requires
            y >= 1,
    ;
    assert(y / 400 - (y - 1) / 400 == (if y % 400 == 0 { 1int } else { 0int })) by (nonlinear_arith)
        requires
            y >= 1,
    ;
    assert(y % 400 == 0 ==> y % 100 == 0 && y % 4 == 0) by (nonlinear_arith);
    assert(y % 100 == 0 ==> y % 4 == 0) by (nonlinear_arith);
}

proof fn lemma_years_monotone(a: int, b: int)
    requires
        1970 <= a <= b,
    ensures
        days_before_year(a) <= days_before_year(b),
    decreases b - a,
{
    if a < b {
        lemma_years_monotone(a, b - 1);
        lemma_year_step(b - 1);
    }
}

proof fn lemma_year_and_day_sum(days: nat, y: int)
    requires
        y >= 1970,
    ensures
        days_before_year(y) + days == days_before_year(year_and_day(days, y).0) + year_and_day(days, y).1,
    decreases days,
{
    if days >= year_length(y) {
        lemma_year_step(y);
        lemma_year_and_day_sum((days - year_length(y)) as nat, y + 1);
    }
}

proof fn lemma_month_and_day_sum(d: nat, is_leap: bool, m: nat)
    requires
        1 <= m <= 12,
    ensures
        days_before_month(m, is_leap) + d == days_before_month(month_and_day(d, is_leap, m).0, is_leap)
            + month_and_day(d, is_leap, m).1,
    decreases 13 - m,
{
    if !(m >= 12 || d < month_length(m, is_leap)) {
        assert(days_from(m, is_leap) == month_length(m, is_leap) + days_from(m + 1, is_leap));
        lemma_month_and_day_sum((d - month_length(m, is_leap)) as nat, is_leap, m + 1);
    }
}

/// The civil date of a day reads back as that day, and a day before
/// 10000-01-01 falls in a year below 10000.
pub proof fn lemma_civil_date_round_trip(days: nat)
    ensures
        epoch_day(civil_date(days).0, civil_date(days).1, civil_date(days).2) == days,
        days < 2_932_897 ==> civil_date(days).0 < 10000,
{
    lemma_civil_date_valid(days);
    lemma_year_and_day_sum(days, 1970);
    let (y, r) = year_and_day(days, 1970);
    assert(days_before_year(1970) == 0);
    lemma_month_and_day_sum(r, leap(y), 1);
    assert(days_before_month(1, leap(y)) == 0);
    if days < 2_932_897 && y >= 10000 {
        lemma_years_monotone(10000, y);
        assert(days_before_year(10000) == 2_932_897);
    }
}

} // verus!

verus! {

/// Whether position `i` of a timestamp `YYYY-MM-DDThh:mm:ss.ffffffZ` holds a digit.
pub open spec fn is_digit_position(i: int) -> bool {
    (0 <= i < 4) || (5 <= i < 7) || (8 <= i < 10) || (11 <= i < 13) || (14 <= i < 16) || (17 <= i < 19)
        || (20 <= i < 26)
}

/// `ts` has the shape `YYYY-MM-DDThh:mm:ss.ffffffZ`.
pub open spec fn is_timestamp_shape(ts: Seq<char>) -> bool {
    &&& ts.len() == 27
    &&& ts[4] == '-' && ts[7] == '-' && ts[10] == 'T' && ts[13] == ':' && ts[16] == ':'
    &&& ts[19] == '.' && ts[26] == 'Z'
    &&& forall|i: int| 0 <= i < 27 && is_digit_position(i) ==> is_digit(#[trigger] ts[i])
}

/// The number that positions `a` to `b` of `ts` spell.
pub open spec fn field(ts: Seq<char>, a: int, b: int) -> nat {
    digits_value(ts.subrange(a, b))
}

/// The instant, in seconds since the Unix epoch and microseconds, that a
/// timestamp of that shape reads as.
pub open spec fn read_instant(ts: Seq<char>) -> (int, nat) {
    (
        epoch_day(field(ts, 0, 4) as int, field(ts, 5, 7), field(ts, 8, 10)) * 86400 + field(ts, 11, 13)
            * 3600 + field(ts, 14, 16) * 60 + field(ts, 17, 19),
        field(ts, 20, 26),
    )
}

proof fn lemma_padded_field(v: nat, k: nat)
    requires
        1 <= k,
        v < pow10(k),
    ensures
        zero_pad(decimal(v), k).len() == k,
        forall|i: int| 0 <= i < k ==> is_digit(#[trigger] zero_pad(decimal(v), k)[i]),
        digits_value(zero_pad(decimal(v), k)) == v,
{
    lemma_decimal_shape(v, k);
    lemma_value_of_padded(v, k);
    let d = decimal(v);
    let z = zero_pad(d, k);
    if d.len() < k {
        let pad = Seq::new((k - d.len()) as nat, |i: int| '0');
        assert(z == pad + d);
        assert forall|i: int| 0 <= i < k implies is_digit(#[trigger] z[i]) by {
            if i < pad.len() {
                assert(z[i] == pad[i]);
            } else {
                assert(z[i] == d[i - pad.len()]);
            }
        }
    }
}

/// Every timestamp before the year 10000 is 27 characters of the RFC 3339
/// shape `YYYY-MM-DDThh:mm:ss.ffffffZ`, and reads back as the instant it was
/// made from (to the microsecond).
pub proof fn lemma_timestamp_shape(secs: nat, micros: nat)
    requires
        secs < 253_402_300_800,
        micros < 1_000_000,
    ensures
        is_timestamp_shape(iso_timestamp(secs, micros)),
        read_instant(iso_timestamp(secs, micros)) == (secs as int, micros),
{
    reveal_with_fuel(pow10, 7);
    let days = secs / 86400;
    lemma_civil_date_round_trip(days);
    lemma_civil_date_valid(days);
    let (y, m, d) = civil_date(days);
    let h = (secs / 3600) % 24;
    let mi = (secs / 60) % 60;
    let s = secs % 60;
    assert(month_length(m, leap(y)) <= 31);
    lemma_padded_field(y as nat, 4);
    lemma_padded_field(m, 2);
    lemma_padded_field(d, 2);
    lemma_padded_field(h, 2);
    lemma_padded_field(mi, 2);
    lemma_padded_field(s, 2);
    lemma_padded_field(micros, 6);
    let fy = zero_pad(decimal(y as nat), 4);
    let fm = zero_pad(decimal(m), 2);
    let fd = zero_pad(decimal(d), 2);
    let fh = zero_pad(decimal(h), 2);
    let fmi = zero_pad(decimal(mi), 2);
    let fs = zero_pad(decimal(s), 2);
    let fu = zero_pad(decimal(micros), 6);
    reveal_strlit("-");
    reveal_strlit("T");
    reveal_strlit(":");
    reveal_strlit(".");
    reveal_strlit("Z");
    let ts = iso_timestamp(secs, micros);
    assert(ts == fy + "-"@ + fm + "-"@ + fd + "T"@ + fh + ":"@ + fmi + ":"@ + fs + "."@ + fu + "Z"@);
    assert(ts.len() == 27);
    assert(ts.subrange(0, 4) =~= fy);
    assert(ts.subrange(5, 7) =~= fm);
    assert(ts.subrange(8, 10) =~= fd);
    assert(ts.subrange(11, 13) =~= fh);
    assert(ts.subrange(14, 16) =~= fmi);
    assert(ts.subrange(17, 19) =~= fs);
    assert(ts.subrange(20, 26) =~= fu);
    assert forall|i: int| 0 <= i < 27 && is_digit_position(i) implies is_digit(#[trigger] ts[i]) by {
        if i < 4 {
            assert(ts[i] == fy[i]);
        } else if i < 7 {
            assert(ts[i] == fm[i - 5]);
        } else if i < 10 {
            assert(ts[i] == fd[i - 8]);
        } else if i < 13 {
            assert(ts[i] == fh[i - 11]);
        } else if i < 16 {
            assert(ts[i] == fmi[i - 14]);
        } else if i < 19 {
            assert(ts[i] == fs[i - 17]);
        } else {
            assert(ts[i] == fu[i - 20]);
        }
    }
    assert(days * 86400 + h * 3600 + mi * 60 + s == secs) by (nonlinear_arith)
        requires
            days == secs / 86400,
            h == (secs / 3600) % 24,
            mi == (secs / 60) % 60,
            s == secs % 60,
    ;
}

} // verus!
