//! Ephemeris epoch arithmetic: the proleptic-Gregorian leap rule, day-of-year
//! computation, seconds from 1970 to a year's January 1, and parsing of the
//! two epoch formats an ephemeris feed uses ("YYYY-DDD.FFFFFFFF" and ISO
//! "YYYY-MM-DDTHH:MM:SS[.sss]"). Times are carried as whole Unix seconds plus
//! nanoseconds so that no floating point is needed.

use crate::chars::all_digits;
use crate::chars::digits_val;
use crate::chars::find_char;
use crate::chars::find_char_at;
use crate::chars::frac_val_e9;
use crate::chars::is_u32_digits;
use crate::chars::is_u64_digits;
use crate::chars::parse_frac_e9;
use crate::chars::parse_u32_chars;
use crate::chars::parse_u64_chars;
use crate::chars::slice_after;
use crate::chars::slice_range;
use crate::chars::spec_trim;
use crate::chars::str_to_chars;
use crate::chars::trim_chars;
use vstd::prelude::*;

verus! {

/// Gregorian leap rule: divisible by 4, except centuries unless divisible
/// by 400.
pub open spec fn spec_is_leap_year(year: int) -> bool {
    (year % 4 == 0 && year % 100 != 0) || year % 400 == 0
}

/// Returns true if the given year is a Gregorian leap year.
pub fn is_leap_year(year: u64) -> (leap: bool)
    ensures
        leap == spec_is_leap_year(year as int),
{
    (year % 4 == 0 && year % 100 != 0) || year % 400 == 0
}

/// Days in `year`: 366 in a leap year, 365 otherwise.
pub open spec fn spec_days_in_year(year: int) -> int {
    if spec_is_leap_year(year) {
        366
    } else {
        365
    }
}

/// Days elapsed from 1970-01-01 to January 1 of `year` (0 for 1970).
pub open spec fn spec_days_from_1970(year: int) -> int
    decreases (if year <= 1970 { 0 } else { year - 1970 }),
{
    if year <= 1970 {
        0
    } else {
        spec_days_from_1970(year - 1) + spec_days_in_year(year - 1)
    }
}

/// The day count to a year in [1970, 2100] lies between 365 and 366 days
/// per elapsed year.
proof fn lemma_days_from_1970_bounds(year: int)
    requires
        year >= 1970,
    ensures
        365 * (year - 1970) <= spec_days_from_1970(year) <= 366 * (year - 1970),
    decreases year - 1970,
{
    if year > 1970 {
        lemma_days_from_1970_bounds(year - 1);
    }
}

/// Unix timestamp (seconds) of midnight UTC, January 1 of `year`, for years
/// 1970 through 2100; `None` outside that span.
pub fn years_to_unix(year: u64) -> (r: Option<i64>)
    ensures
        r is Some <==> 1970 <= year <= 2100,
        r is Some ==> r->0 == 86400 * spec_days_from_1970(year as int),
{
    if year < 1970 || year > 2100 {
        return None;
    }
    let mut days: i64 = 0;
    let mut y: u64 = 1970;
    while y < year
        invariant
            1970 <= y <= year <= 2100,
            days == spec_days_from_1970(y as int),
        decreases year - y,
    {
        proof {
            lemma_days_from_1970_bounds(y as int);
        }
        days = days + if is_leap_year(y) { 366 } else { 365 };
        y = y + 1;
    }
    proof {
        lemma_days_from_1970_bounds(year as int);
    }
    Some(days * 86400)
}

/// Days in `month` of `year` (1 = January), counting the leap day.
pub open spec fn spec_days_in_month(year: int, month: int) -> int {
    if month == 2 {
        if spec_is_leap_year(year) {
            29
        } else {
            28
        }
    } else if month == 4 || month == 6 || month == 9 || month == 11 {
        30
    } else {
        31
    }
}

/// Days of `year` that precede the first of `month`.
pub open spec fn spec_days_before_month(year: int, month: int) -> int
    decreases (if month <= 1 { 0 } else { month - 1 }),
{
    if month <= 1 {
        0
    } else {
        spec_days_before_month(year, month - 1) + spec_days_in_month(year, month - 1)
    }
}

/// 1-indexed day of year for a calendar date.
pub open spec fn spec_day_of_year(year: int, month: int, day: int) -> int {
    spec_days_before_month(year, month) + day
}

/// Days before a month stay below 31 days per elapsed month.
proof fn lemma_days_before_month_bound(year: int, month: int)
    ensures
        0 <= spec_days_before_month(year, month) <= 31 * (if month <= 1 {
            0
        } else {
            month - 1
        }),
    decreases (if month <= 1 { 0 } else { month - 1 }),
{
    if month > 1 {
        lemma_days_before_month_bound(year, month - 1);
    }
}

/// Return the 1-indexed day-of-year for a given (year, month [1-12], day).
/// `None` if the month is out of range, or if the result would not fit.
pub fn day_of_year(year: u64, month: u32, day: u32) -> (r: Option<u32>)
    ensures
        r is Some <==> (1 <= month <= 12 && spec_day_of_year(
            year as int,
            month as int,
            day as int,
        ) <= u32::MAX),
        r is Some ==> r->0 == spec_day_of_year(year as int, month as int, day as int),
{
    if month < 1 || month > 12 {
        return None;
    }
    let mut before: u32 = 0;
    let mut m: u32 = 1;
    while m < month
        invariant
            1 <= m <= month <= 12,
            before == spec_days_before_month(year as int, m as int),
        decreases month - m,
    {
        proof {
            lemma_days_before_month_bound(year as int, m as int);
        }
        let dm: u32 = if m == 2 {
            if is_leap_year(year) {
                29
            } else {
                28
            }
        } else if m == 4 || m == 6 || m == 9 || m == 11 {
            30
        } else {
            31
        };
        before = before + dm;
        m = m + 1;
    }
    proof {
        lemma_days_before_month_bound(year as int, month as int);
    }
    if day > u32::MAX - before {
        return None;
    }
    Some(before + day)
}

/// A parsed ephemeris epoch: 2-digit year, whole day-of-year, nanoseconds
/// into (or past) that day, and the resolved Unix timestamp split into whole
/// seconds and nanoseconds.
#[derive(Debug, Clone, Copy, PartialEq, Eq, Structural)]
pub struct ParsedEpoch {
    /// Year modulo 100.
    pub year2: u64,
    /// Whole 1-indexed day of year, as written in the feed.
    pub doy: u64,
    /// Nanoseconds past midnight of that day (may exceed one day when the
    /// feed writes an out-of-range time of day).
    pub nanos_of_day: u64,
    /// Whole Unix seconds of the epoch.
    pub unix_secs: i64,
    /// Nanoseconds past `unix_secs`.
    pub unix_nanos: u32,
}

impl ParsedEpoch {
    /// The fields a parse can produce: a 2-digit year and a sub-second
    /// remainder consistent with the time of day.
    pub open spec fn wf(self) -> bool {
        &&& self.year2 < 100
        &&& self.unix_nanos < 1_000_000_000
        &&& self.unix_nanos == self.nanos_of_day % 1_000_000_000
    }
}

/// Unix seconds and nanoseconds of `nanos` nanoseconds past midnight of the
/// `doy`-th day (1-indexed) of `year`; `None` when the year lies outside
/// 1970..=2100 or the seconds leave the `i64` range.
pub open spec fn spec_epoch_unix(year: int, doy: int, nanos: int) -> Option<(i64, u32)> {
    if !(1970 <= year <= 2100) {
        None
    } else {
        let total = 86400 * spec_days_from_1970(year) + (doy - 1) * 86400 + nanos
            / 1_000_000_000;
        if i64::MIN <= total <= i64::MAX {
            Some((total as i64, (nanos % 1_000_000_000) as u32))
        } else {
            None
        }
    }
}

/// The `ParsedEpoch` built from a year, whole day-of-year and nanoseconds of
/// day, when the timestamp resolves.
pub open spec fn spec_epoch_fields(year: int, doy: int, nanos: int) -> Option<ParsedEpoch> {
    match spec_epoch_unix(year, doy, nanos) {
        None => None,
        Some(p) => Some(
            ParsedEpoch {
                year2: (year % 100) as u64,
                doy: doy as u64,
                nanos_of_day: nanos as u64,
                unix_secs: p.0,
                unix_nanos: p.1,
            },
        ),
    }
}

/// Convert (year, whole day-of-year, nanoseconds of day) to a Unix timestamp
/// as whole seconds plus nanoseconds. Day-of-year is 1-indexed: day 1 at
/// 0 ns is January 1, midnight.
pub fn doy_and_year_to_unix(year: u64, doy: u64, nanos_of_day: u64) -> (r: Option<(i64, u32)>)
    ensures
        r == spec_epoch_unix(year as int, doy as int, nanos_of_day as int),
{
    let base = match years_to_unix(year) {
        Some(b) => b,
        None => {
            return None;
        },
    };
    proof {
        lemma_days_from_1970_bounds(year as int);
    }
    let q: u64 = nanos_of_day / 1_000_000_000;
    let ns: u32 = (nanos_of_day % 1_000_000_000) as u32;
    let total_wide: i128 = base as i128 + (doy as i128 - 1) * 86400 + q as i128;
    if total_wide > i64::MAX as i128 || total_wide < i64::MIN as i128 {
        return None;
    }
    Some((total_wide as i64, ns))
}

/// A seconds field "SS" or "SS.sss": whole seconds and nanoseconds.
pub open spec fn spec_parse_secs(s: Seq<char>) -> Option<(int, int)> {
    let dot = find_char(s, '.');
    let whole = if dot < 0 {
        s
    } else {
        s.subrange(0, dot)
    };
    let frac = if dot < 0 {
        Seq::<char>::empty()
    } else {
        s.subrange(dot + 1, s.len() as int)
    };
    if !is_u64_digits(whole) || !all_digits(frac) {
        None
    } else {
        Some((digits_val(whole), frac_val_e9(frac)))
    }
}

/// The "YYYY-DDD.FFFFFFFF" format: a year, then a fractional 1-indexed
/// day-of-year, separated by a dash. Each part tolerates surrounding
/// whitespace. The fraction is kept to nanosecond resolution.
pub open spec fn spec_parse_doy(t: Seq<char>) -> Option<ParsedEpoch> {
    let dash = find_char(t, '-');
    if dash < 0 {
        None
    } else {
        let ys = spec_trim(t.subrange(0, dash));
        let ds = spec_trim(t.subrange(dash + 1, t.len() as int));
        if !is_u64_digits(ys) {
            None
        } else {
            let dot = find_char(ds, '.');
            let whole = if dot < 0 {
                ds
            } else {
                ds.subrange(0, dot)
            };
            let frac = if dot < 0 {
                Seq::<char>::empty()
            } else {
                ds.subrange(dot + 1, ds.len() as int)
            };
            if !is_u64_digits(whole) || !all_digits(frac) {
                None
            } else {
                spec_epoch_fields(digits_val(ys), digits_val(whole), frac_val_e9(frac) * 86400)
            }
        }
    }
}

/// The ISO "YYYY-MM-DDTHH:MM:SS[.sss]" format. A missing seconds field
/// ("YYYY-MM-DDTHH:MM") reads as zero seconds; out-of-range field values
/// are carried through arithmetically rather than rejected.
pub open spec fn spec_parse_iso(t: Seq<char>) -> Option<ParsedEpoch> {
    let tp = find_char(t, 'T');
    if tp < 0 {
        None
    } else {
        let date = spec_trim(t.subrange(0, tp));
        let time = spec_trim(t.subrange(tp + 1, t.len() as int));
        let d1 = find_char(date, '-');
        if d1 < 0 {
            None
        } else {
            let ypart = date.subrange(0, d1);
            let drest = date.subrange(d1 + 1, date.len() as int);
            let d2 = find_char(drest, '-');
            if d2 < 0 {
                None
            } else {
                let mpart = drest.subrange(0, d2);
                let dpart = drest.subrange(d2 + 1, drest.len() as int);
                if !is_u64_digits(ypart) || !is_u32_digits(mpart) || !is_u32_digits(dpart) {
                    None
                } else {
                    let c1 = find_char(time, ':');
                    if c1 < 0 {
                        None
                    } else {
                        let hpart = time.subrange(0, c1);
                        let trest = time.subrange(c1 + 1, time.len() as int);
                        let c2 = find_char(trest, ':');
                        let mmpart = if c2 < 0 {
                            trest
                        } else {
                            trest.subrange(0, c2)
                        };
                        let sec = if c2 < 0 {
                            Some((0int, 0int))
                        } else {
                            spec_parse_secs(trest.subrange(c2 + 1, trest.len() as int))
                        };
                        if !is_u64_digits(hpart) || !is_u64_digits(mmpart) || sec is None {
                            None
                        } else {
                            let year = digits_val(ypart);
                            let month = digits_val(mpart);
                            let day = digits_val(dpart);
                            if !(1 <= month <= 12) || spec_day_of_year(year, month, day)
                                > u32::MAX {
                                None
                            } else {
                                let nanos = (digits_val(hpart) * 3600 + digits_val(mmpart) * 60
                                    + (sec->0).0) * 1_000_000_000 + (sec->0).1;
                                if nanos > u64::MAX {
                                    None
                                } else {
                                    spec_epoch_fields(
                                        year,
                                        spec_day_of_year(year, month, day),
                                        nanos,
                                    )
                                }
                            }
                        }
                    }
                }
            }
        }
    }
}

/// What `parse_epoch` returns: the input is trimmed, read as ISO when it
/// contains a 'T' and as fractional day-of-year otherwise.
pub open spec fn spec_parse_epoch(s: Seq<char>) -> Option<ParsedEpoch> {
    let t = spec_trim(s);
    if find_char(t, 'T') >= 0 {
        spec_parse_iso(t)
    } else {
        spec_parse_doy(t)
    }
}

/// Parse the "YYYY-DDD.FFFFFFFF" epoch format.
fn parse_doy_chars(t: &Vec<char>) -> (r: Option<ParsedEpoch>)
    ensures
        r == spec_parse_doy(t@),
        r is Some ==> r->0.wf(),
{
    let dash = match find_char_at(t, '-') {
        Some(d) => d,
        None => {
            return None;
        },
    };
    let ys = trim_chars(&slice_range(t, 0, dash));
    let year = match parse_u64_chars(&ys) {
        Some(y) => y,
        None => {
            return None;
        },
    };
    let ds = trim_chars(&slice_after(t, dash));
    let (whole, frac): (Vec<char>, Vec<char>) = match find_char_at(&ds, '.') {
        Some(d) => (slice_range(&ds, 0, d), slice_after(&ds, d)),
        None => {
            let w = slice_range(&ds, 0, ds.len());
            assert(w@ =~= ds@);
            (w, Vec::new())
        },
    };
    let doy = match parse_u64_chars(&whole) {
        Some(d) => d,
        None => {
            return None;
        },
    };
    let frac9 = match parse_frac_e9(&frac) {
        Some(f) => f,
        None => {
            return None;
        },
    };
    let nanos: u64 = frac9 * 86400;
    match doy_and_year_to_unix(year, doy, nanos) {
        Some((secs, ns)) => Some(
            ParsedEpoch { year2: year % 100, doy, nanos_of_day: nanos, unix_secs: secs, unix_nanos: ns },
        ),
        None => None,
    }
}

/// Parse the ISO "YYYY-MM-DDTHH:MM:SS[.sss]" epoch format.
fn parse_iso_chars(t: &Vec<char>) -> (r: Option<ParsedEpoch>)
    ensures
        r == spec_parse_iso(t@),
        r is Some ==> r->0.wf(),
{
    let tp = match find_char_at(t, 'T') {
        Some(p) => p,
        None => {
            return None;
        },
    };
    let date = trim_chars(&slice_range(t, 0, tp));
    let time = trim_chars(&slice_after(t, tp));
    let d1 = match find_char_at(&date, '-') {
        Some(d) => d,
        None => {
            return None;
        },
    };
    let ypart = slice_range(&date, 0, d1);
    let drest = slice_after(&date, d1);
    let d2 = match find_char_at(&drest, '-') {
        Some(d) => d,
        None => {
            return None;
        },
    };
    let mpart = slice_range(&drest, 0, d2);
    let dpart = slice_after(&drest, d2);
    let year = match parse_u64_chars(&ypart) {
        Some(y) => y,
        None => {
            return None;
        },
    };
    let month = match parse_u32_chars(&mpart) {
        Some(m) => m,
        None => {
            return None;
        },
    };
    let day = match parse_u32_chars(&dpart) {
        Some(d) => d,
        None => {
            return None;
        },
    };
    let c1 = match find_char_at(&time, ':') {
        Some(c) => c,
        None => {
            return None;
        },
    };
    let hpart = slice_range(&time, 0, c1);
    let trest = slice_after(&time, c1);
    let (mmpart, secs_whole, secs_frac9): (Vec<char>, u64, u64) = match find_char_at(&trest, ':') {
        Some(c2) => {
            let mp = slice_range(&trest, 0, c2);
            let spart = slice_after(&trest, c2);
            let (sw, sf): (Vec<char>, Vec<char>) = match find_char_at(&spart, '.') {
                Some(d) => (slice_range(&spart, 0, d), slice_after(&spart, d)),
                None => {
                    let w = slice_range(&spart, 0, spart.len());
                    assert(w@ =~= spart@);
                    (w, Vec::new())
                },
            };
            let swv = match parse_u64_chars(&sw) {
                Some(v) => v,
                None => {
                    return None;
                },
            };
            let sfv = match parse_frac_e9(&sf) {
                Some(v) => v,
                None => {
                    return None;
                },
            };
            (mp, swv, sfv)
        },
        None => {
            let mp = slice_range(&trest, 0, trest.len());
            assert(mp@ =~= trest@);
            (mp, 0, 0)
        },
    };
    let hh = match parse_u64_chars(&hpart) {
        Some(h) => h,
        None => {
            return None;
        },
    };
    let mm = match parse_u64_chars(&mmpart) {
        Some(m) => m,
        None => {
            return None;
        },
    };
    let doy = match day_of_year(year, month, day) {
        Some(d) => d,
        None => {
            return None;
        },
    };
    let nanos_wide: u128 = ((hh as u128) * 3600 + (mm as u128) * 60 + (secs_whole as u128))
        * 1_000_000_000 + (secs_frac9 as u128);
    if nanos_wide > u64::MAX as u128 {
        return None;
    }
    let nanos: u64 = nanos_wide as u64;
    match doy_and_year_to_unix(year, doy as u64, nanos) {
        Some((secs, ns)) => Some(
            ParsedEpoch {
                year2: year % 100,
                doy: doy as u64,
                nanos_of_day: nanos,
                unix_secs: secs,
                unix_nanos: ns,
            },
        ),
        None => None,
    }
}

/// Parse an ephemeris epoch string, in either supported format, into a
/// 2-digit year, day-of-year and Unix timestamp; `None` exactly on strings
/// outside the two grammars (the record is then skipped by callers).
pub fn parse_epoch(s: &str) -> (r: Option<ParsedEpoch>)
    ensures
        r == spec_parse_epoch(s@),
        r is Some ==> r->0.wf(),
{
    let cs = str_to_chars(s);
    let t = trim_chars(&cs);
    let r = match find_char_at(&t, 'T') {
        Some(_) => parse_iso_chars(&t),
        None => parse_doy_chars(&t),
    };
    r
}

/// Parse the "YYYY-DDD.FFFFFFFF" epoch format from a string.
pub fn parse_epoch_doy(s: &str) -> (r: Option<ParsedEpoch>)
    ensures
        r == spec_parse_doy(s@),
{
    parse_doy_chars(&str_to_chars(s))
}

/// Parse the ISO "YYYY-MM-DDTHH:MM:SS[.sss]" epoch format from a string.
pub fn parse_epoch_iso(s: &str) -> (r: Option<ParsedEpoch>)
    ensures
        r == spec_parse_iso(s@),
{
    parse_iso_chars(&str_to_chars(s))
}

} // verus!
