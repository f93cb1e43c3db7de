//! Calendar dates of timestamps, through the `time` crate.
use vstd::prelude::*;

use crate::text::{dec, fmt_u64_padded, push_char, zero_pad};

verus! {

/// Earliest Unix timestamp (seconds) that `time` turns into a date: -9999-01-01 00:00:00 UTC.
pub const MIN_UNIX_SECONDS: i64 = -377_705_116_800;

/// Latest Unix timestamp (seconds) that `time` turns into a date: 9999-12-31 23:59:59 UTC.
pub const MAX_UNIX_SECONDS: i64 = 253_402_300_799;

/// The proleptic Gregorian (year, month, day) in UTC of a Unix timestamp in seconds: the
/// day `secs / 86400` (rounded down) counted from 1970-01-01, turned into a civil date by
/// the usual era-of-400-years reckoning (March-based years, so that leap days come last).
pub open spec fn civil_date(secs: i64) -> (int, int, int) {
    let days = (secs as int) / 86400;
    let z = days + 719468;
    let era = z / 146097;
    let doe = z - era * 146097;
    let yoe = (doe - doe / 1460 + doe / 36524 - doe / 146096) / 365;
    let doy = doe - (365 * yoe + yoe / 4 - yoe / 100);
    let mp = (5 * doy + 2) / 153;
    let d = doy - (153 * mp + 2) / 5 + 1;
    let m = if mp < 10 { mp + 3 } else { mp - 9 };
    let y = yoe + era * 400 + if m <= 2 { 1int } else { 0int };
    (y, m, d)
}

/// `time::OffsetDateTime::from_unix_timestamp`, then `year`, `month` and `day`.
/// Claimed: it succeeds exactly on `MIN_UNIX_SECONDS..=MAX_UNIX_SECONDS` (the range of
/// `time`'s dates without its `large-dates` feature), and then yields [`civil_date`] of the
/// timestamp (`time` counts in the proleptic Gregorian calendar, UTC), with the year in
/// -9999..=9999, the month in 1..=12 and the day in 1..=31.
#[verifier::external_body]
fn utc_date(secs: i64) -> (res: Option<(i32, u8, u8)>)
    ensures
        res is Some <==> MIN_UNIX_SECONDS <= secs <= MAX_UNIX_SECONDS,
        res matches Some(d) ==> {
            &&& (d.0 as int, d.1 as int, d.2 as int) == civil_date(secs)
            &&& -9999 <= d.0 <= 9999
            &&& 1 <= d.1 <= 12
            &&& 1 <= d.2 <= 31
        },
{
    time::OffsetDateTime::from_unix_timestamp(secs).ok().map(
        |t| (t.year(), u8::from(t.month()), t.day()),
    )
}

/// Integer division truncating toward zero, as Rust's `/` on signed integers.
pub open spec fn div_trunc(a: int, b: int) -> int {
    if a >= 0 {
        a / b
    } else {
        -((-a) / b)
    }
}

/// A year as `format!("{:04}", year)` writes it: four digits, or a sign and three.
pub open spec fn year_text(y: int) -> Seq<char> {
    if y < 0 {
        seq!['-'] + zero_pad(dec((-y) as nat), 3)
    } else {
        zero_pad(dec(y as nat), 4)
    }
}

/// `YYYY-MM-DD` of a timestamp in milliseconds, or nothing when it is out of range.
pub open spec fn date_of(ts_millis: i64) -> Seq<char> {
    let secs = div_trunc(ts_millis as int, 1000);
    if MIN_UNIX_SECONDS <= secs <= MAX_UNIX_SECONDS {
        let d = civil_date(secs as i64);
        year_text(d.0) + seq!['-'] + zero_pad(dec(d.1 as nat), 2) + seq!['-'] + zero_pad(
            dec(d.2 as nat),
            2,
        )
    } else {
        Seq::empty()
    }
}

/// The UTC date `YYYY-MM-DD` of a timestamp in milliseconds; empty when the timestamp lies
/// outside the years -9999..=9999.
pub fn date(ts_millis: i64) -> (res: String)
    ensures
        res@ == date_of(ts_millis),
{
    let secs = ts_millis / 1000;
    match utc_date(secs) {
        Some((y, m, d)) => {
            let mut s = String::new();
            if y < 0 {
                push_char(&mut s, '-');
                let digits = fmt_u64_padded((-y) as u64, 3);
                s.append(digits.as_str());
            } else {
                let digits = fmt_u64_padded(y as u64, 4);
                s.append(digits.as_str());
            }
            push_char(&mut s, '-');
            let mm = fmt_u64_padded(m as u64, 2);
            s.append(mm.as_str());
            push_char(&mut s, '-');
            let dd = fmt_u64_padded(d as u64, 2);
            s.append(dd.as_str());
            assert(s@ =~= date_of(ts_millis));
            s
        },
        None => String::new(),
    }
}

} // verus!
