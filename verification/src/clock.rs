//! The time of day.

use std::time::SystemTime;
use vstd::prelude::*;
use crate::calendar::{
    civil, day_number, days_before_month, law_dates_are_determined, lemma_years_grow, valid_date,
};
use crate::numbers::{decimal, digits_value, law_padding_keeps_the_value, padded, push_padded};

verus! {

// ---------------------------------------------------------------------------
// The system clock
// ---------------------------------------------------------------------------

/// A point in time of the system clock.
#[verifier::external_type_specification]
#[verifier::external_body]
pub struct ExSystemTime(SystemTime);

/// `SystemTime::now` reads the clock. Nothing is claimed of the result, which is
/// another one at every call.
pub assume_specification[ SystemTime::now ]() -> (r: SystemTime)
;

/// `SystemTime::duration_since` with `SystemTime::UNIX_EPOCH`: the time from the
/// start of 1970 to `t` in seconds and nanoseconds, or nothing where `t` is
/// earlier. Claimed is only that the nanoseconds make up less than a second: `t`
/// comes from the clock, and how long after 1970 it is depends on nothing else.
#[verifier::external_body]
fn since_epoch(t: SystemTime) -> (r: Option<(u64, u32)>)
    ensures
        r matches Some(d) ==> d.1 < 1_000_000_000,
{
    match t.duration_since(SystemTime::UNIX_EPOCH) {
        Ok(d) => Some((d.as_secs(), d.subsec_nanos())),
        Err(_) => None,
    }
}

/// The whole seconds of a time since 1970; 0 where it is before that.
pub fn whole_seconds(since: Option<(u64, u32)>) -> (r: u64)
    ensures
        r == match since {
            Some(d) => d.0,
            None => 0,
        },
{
    match since {
        Some(d) => d.0,
        None => 0,
    }
}

/// The nanoseconds in a time since 1970, given in seconds and nanoseconds; 0 where
/// it is before that.
pub open spec fn nanos_in(since: Option<(u64, u32)>) -> int {
    match since {
        Some(d) => d.0 * 1_000_000_000 + d.1,
        None => 0,
    }
}

/// The nanoseconds of a time since 1970; 0 where it is before that.
pub fn total_nanos(since: Option<(u64, u32)>) -> (r: u128)
    ensures
        r == nanos_in(since),
{
    match since {
        Some(d) => d.0 as u128 * 1_000_000_000 + d.1 as u128,
        None => 0,
    }
}

/// The current time in nanoseconds since 1970.
pub fn nanos_now() -> (r: u128)
    ensures
        exists|since: Option<(u64, u32)>| #[trigger]
            nanos_in(since) == r && (since matches Some(d) ==> d.1 < 1_000_000_000),
{
    let since = since_epoch(SystemTime::now());
    let r = total_nanos(since);
    assert(r == nanos_in(since));
    r
}

// ---------------------------------------------------------------------------
// Timestamps
// ---------------------------------------------------------------------------

/// The Julian Day Number of 1 January 1970.
pub const EPOCH_DAY: u64 = 2_440_588;

/// Date and time in ISO 8601.
pub open spec fn iso_text(
    year: int,
    month: int,
    day: int,
    hour: int,
    minute: int,
    second: int,
) -> Seq<char> {
    padded(year as nat, 4) + "-"@ + padded(month as nat, 2) + "-"@ + padded(day as nat, 2) + "T"@
        + padded(hour as nat, 2) + ":"@ + padded(minute as nat, 2) + ":"@ + padded(
        second as nat,
        2,
    ) + "Z"@
}

/// Whether `year`, `month` and `day` are the date `secs` seconds after the start
/// of 1970.
pub open spec fn date_at(secs: int, year: int, month: int, day: int) -> bool {
    valid_date(year, month, day) && day_number(year, month, day) == secs / 86_400 + EPOCH_DAY
}

/// Whether `t` is the UTC timestamp of the time `secs` seconds after the start of
/// 1970.
pub open spec fn is_timestamp(t: Seq<char>, secs: int) -> bool {
    exists|year: int, month: int, day: int|
        #![trigger date_at(secs, year, month, day)]
        date_at(secs, year, month, day) && t == iso_text(
            year,
            month,
            day,
            (secs / 3_600) % 24,
            (secs / 60) % 60,
            secs % 60,
        )
}

/// The UTC timestamp of a time in seconds since 1970.
pub fn iso8601(secs: u64) -> (r: String)
    ensures
        is_timestamp(r@, secs as int),
{
    let s: u64 = secs % 60;
    let m: u64 = (secs / 60) % 60;
    let h: u64 = (secs / 3_600) % 24;
    let (year, month, day) = civil(secs / 86_400 + EPOCH_DAY);
    let mut out = String::new();
    push_padded(&mut out, year, 4);
    out.append("-");
    push_padded(&mut out, month, 2);
    out.append("-");
    push_padded(&mut out, day, 2);
    out.append("T");
    push_padded(&mut out, h, 2);
    out.append(":");
    push_padded(&mut out, m, 2);
    out.append(":");
    push_padded(&mut out, s, 2);
    out.append("Z");
    proof {
        assert(date_at(secs as int, year as int, month as int, day as int));
        assert(out@ =~= iso_text(
            year as int,
            month as int,
            day as int,
            h as int,
            m as int,
            s as int,
        ));
    }
    out
}

/// The current UTC time as a timestamp.
pub fn now_iso8601() -> (r: String)
    ensures
        exists|secs: u64| #[trigger] is_timestamp(r@, secs as int),
{
    let secs = whole_seconds(since_epoch(SystemTime::now()));
    let r = iso8601(secs);
    assert(is_timestamp(r@, secs as int));
    r
}

/// A time has one timestamp only.
pub proof fn law_timestamps_are_determined(a: Seq<char>, b: Seq<char>, secs: int)
    requires
        is_timestamp(a, secs),
        is_timestamp(b, secs),
    ensures
        a == b,
{
    let (y1, m1, d1) = choose|year: int, month: int, day: int|
        #![trigger date_at(secs, year, month, day)]
        date_at(secs, year, month, day) && a == iso_text(
            year,
            month,
            day,
            (secs / 3_600) % 24,
            (secs / 60) % 60,
            secs % 60,
        );
    let (y2, m2, d2) = choose|year: int, month: int, day: int|
        #![trigger date_at(secs, year, month, day)]
        date_at(secs, year, month, day) && b == iso_text(
            year,
            month,
            day,
            (secs / 3_600) % 24,
            (secs / 60) % 60,
            secs % 60,
        );
    law_dates_are_determined(y1, m1, d1, y2, m2, d2);
}

/// Small numbers are as wide as they are padded to.
proof fn lemma_padded_width(n: nat, width: nat)
    requires
        (width == 2 && n < 100) || (width == 4 && n < 10_000),
    ensures
        padded(n, width).len() == width,
{
    reveal_with_fuel(decimal, 5);
}

/// Until the end of the year 9999, a timestamp has 20 characters.
pub proof fn law_timestamps_have_fixed_width(t: Seq<char>, secs: int)
    requires
        is_timestamp(t, secs),
        0 <= secs < 253_402_300_800,
    ensures
        t.len() == 20,
{
    let (year, month, day) = choose|year: int, month: int, day: int|
        #![trigger date_at(secs, year, month, day)]
        date_at(secs, year, month, day) && t == iso_text(
            year,
            month,
            day,
            (secs / 3_600) % 24,
            (secs / 60) % 60,
            secs % 60,
        );
    if year >= 10_000 {
        if year > 10_000 {
            lemma_years_grow(10_000, year);
        }
        lemma_month_start(year, month);
    }
    lemma_padded_width(year as nat, 4);
    lemma_padded_width(month as nat, 2);
    lemma_padded_width(day as nat, 2);
    lemma_padded_width(((secs / 3_600) % 24) as nat, 2);
    lemma_padded_width(((secs / 60) % 60) as nat, 2);
    lemma_padded_width((secs % 60) as nat, 2);
    reveal_strlit("-");
    reveal_strlit("T");
    reveal_strlit(":");
    reveal_strlit("Z");
}

/// No month starts before its year.
proof fn lemma_month_start(year: int, month: int)
    requires
        1 <= month <= 12,
    ensures
        days_before_month(year, month) >= 0,
    decreases month,
{
    if month > 1 {
        lemma_month_start(year, month - 1);
    }
}

/// The date of the day with a Julian Day Number.
pub fn jdn_to_ymd(jdn: u32) -> (r: (u32, u32, u32))
    requires
        1_721_120 <= jdn,
    ensures
        valid_date(r.0 as int, r.1 as int, r.2 as int),
        day_number(r.0 as int, r.1 as int, r.2 as int) == jdn,
        forall|year: int, month: int, day: int|
            valid_date(year, month, day) && #[trigger] day_number(year, month, day) == jdn ==> year
                == r.0 && month == r.1 && day == r.2,
{
    let (year, month, day) = civil(jdn as u64);
    proof {
        assert forall|y: int, m: int, d: int|
            valid_date(y, m, d) && #[trigger] day_number(y, m, d) == jdn implies y == year && m
            == month && d == day by {
            law_dates_are_determined(y, m, d, year as int, month as int, day as int);
        }
    }
    (year as u32, month as u32, day as u32)
}

/// Where the parts of a timestamp stand.
proof fn lemma_parts_of_a_timestamp(
    a: Seq<char>,
    b: Seq<char>,
    c: Seq<char>,
    d: Seq<char>,
    e: Seq<char>,
    f: Seq<char>,
)
    requires
        a.len() == 4,
        b.len() == 2,
        c.len() == 2,
        d.len() == 2,
        e.len() == 2,
        f.len() == 2,
    ensures
        ({
            let t = a + "-"@ + b + "-"@ + c + "T"@ + d + ":"@ + e + ":"@ + f + "Z"@;
            &&& t.len() == 20
            &&& t[4] == '-' && t[7] == '-' && t[10] == 'T' && t[13] == ':' && t[16] == ':' && t[19]
                == 'Z'
            &&& t.subrange(0, 4) == a
            &&& t.subrange(5, 7) == b
            &&& t.subrange(8, 10) == c
            &&& t.subrange(11, 13) == d
            &&& t.subrange(14, 16) == e
            &&& t.subrange(17, 19) == f
        }),
{
    reveal_strlit("-");
    reveal_strlit("T");
    reveal_strlit(":");
    reveal_strlit("Z");
    let t = a + "-"@ + b + "-"@ + c + "T"@ + d + ":"@ + e + ":"@ + f + "Z"@;
    assert(t.subrange(0, 4) =~= a);
    assert(t.subrange(5, 7) =~= b);
    assert(t.subrange(8, 10) =~= c);
    assert(t.subrange(11, 13) =~= d);
    assert(t.subrange(14, 16) =~= e);
    assert(t.subrange(17, 19) =~= f);
}

/// The time of day, in two ways of counting.
proof fn lemma_time_of_day(secs: int)
    requires
        0 <= secs,
    ensures
        (secs / 3_600) % 24 == (secs % 86_400) / 3_600,
        (secs / 60) % 60 == (secs % 3_600) / 60,
{
}

/// A timestamp before the year 10000 can be read back: its digits are the date and the
/// time of day, with the separators of ISO 8601 between them.
pub proof fn law_timestamp_can_be_read_back(t: Seq<char>, secs: int)
    requires
        is_timestamp(t, secs),
        0 <= secs < 253_402_300_800,
    ensures
        t.len() == 20,
        t[4] == '-' && t[7] == '-' && t[10] == 'T' && t[13] == ':' && t[16] == ':' && t[19] == 'Z',
        valid_date(
            digits_value(t.subrange(0, 4)) as int,
            digits_value(t.subrange(5, 7)) as int,
            digits_value(t.subrange(8, 10)) as int,
        ),
        day_number(
            digits_value(t.subrange(0, 4)) as int,
            digits_value(t.subrange(5, 7)) as int,
            digits_value(t.subrange(8, 10)) as int,
        ) == secs / 86_400 + 2_440_588,
        digits_value(t.subrange(11, 13)) == (secs % 86_400) / 3_600,
        digits_value(t.subrange(14, 16)) == (secs % 3_600) / 60,
        digits_value(t.subrange(17, 19)) == secs % 60,
{
    let (year, month, day) = choose|year: int, month: int, day: int|
        #![trigger date_at(secs, year, month, day)]
        date_at(secs, year, month, day) && t == iso_text(
            year,
            month,
            day,
            (secs / 3_600) % 24,
            (secs / 60) % 60,
            secs % 60,
        );
    let h = (secs / 3_600) % 24;
    let m = (secs / 60) % 60;
    let s = secs % 60;
    if year >= 10_000 {
        if year > 10_000 {
            lemma_years_grow(10_000, year);
        }
        lemma_month_start(year, month);
    }
    lemma_padded_width(year as nat, 4);
    lemma_padded_width(month as nat, 2);
    lemma_padded_width(day as nat, 2);
    lemma_padded_width(h as nat, 2);
    lemma_padded_width(m as nat, 2);
    lemma_padded_width(s as nat, 2);
    law_padding_keeps_the_value(year as nat, 4);
    law_padding_keeps_the_value(month as nat, 2);
    law_padding_keeps_the_value(day as nat, 2);
    law_padding_keeps_the_value(h as nat, 2);
    law_padding_keeps_the_value(m as nat, 2);
    law_padding_keeps_the_value(s as nat, 2);
    lemma_parts_of_a_timestamp(
        padded(year as nat, 4),
        padded(month as nat, 2),
        padded(day as nat, 2),
        padded(h as nat, 2),
        padded(m as nat, 2),
        padded(s as nat, 2),
    );
    lemma_time_of_day(secs);
}

/// A time has a thousand million nanoseconds for each second, and its own.
pub proof fn law_seconds_are_counted_in_nanoseconds(secs: u64, nanos: u32)
    ensures
        nanos_in(Some((secs, nanos))) == secs * 1_000_000_000 + nanos,
        nanos_in(None) == 0,
{
}

} // verus!
