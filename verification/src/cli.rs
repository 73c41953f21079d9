//! What the command line decides and prints, apart from the camera, the
//! files and the clock: reading `set` assignments and choosing what they
//! write, the listings of controls, cameras' readings and saved profiles, the
//! messages for unknown names, and the daemon's polling and log lines.

use vstd::prelude::*;
use crate::controls::{all_controls, choices_spec, deref_controls, every_spec, find, first_named, is_opaque, Control, Kind, Reading};
use crate::profile::{get_spec, key_text, opt_str, pairs_view, render, setting_text, ApplyReport, Profile, ProfileView, SettingView};
use crate::usb::{cam_controls, Cam, NOT_RESPONDING};
use crate::text::{
    append_int, append_padded_left, append_padded_right, append_str, append_zero_padded, chars_of,
    find_chars, find_from, fmt_u64, from_chars, int_digits, join, joined, lemma_find_from,
    lowercase, nat_digits, pad_left, pad_right, str_eq, to_lowercase, trim, trimmed, zero_padded,
};
use crate::tui::str_views;

verus! {

/// Whether `y` is a leap year of the proleptic Gregorian calendar.
pub open spec fn is_leap(y: int) -> bool {
    (y % 4 == 0 && y % 100 != 0) || y % 400 == 0
}

/// The number of days in month `m` of year `y`.
pub open spec fn month_length(y: int, m: int) -> int {
    if m == 2 {
        if is_leap(y) { 29 } else { 28 }
    } else if m == 4 || m == 6 || m == 9 || m == 11 {
        30
    } else {
        31
    }
}

/// The leap years in `[0, y)`; for a negative `y`, minus those in `[y, 0)`.
pub open spec fn leaps_before(y: int) -> int {
    (y + 3) / 4 - (y + 99) / 100 + (y + 399) / 400
}

/// The days of year `y` before the first of month `m`.
pub open spec fn days_before_month(y: int, m: int) -> int {
    let common: int = if m <= 1 {
        0
    } else if m == 2 {
        31
    } else if m == 3 {
        59
    } else if m == 4 {
        90
    } else if m == 5 {
        120
    } else if m == 6 {
        151
    } else if m == 7 {
        181
    } else if m == 8 {
        212
    } else if m == 9 {
        243
    } else if m == 10 {
        273
    } else if m == 11 {
        304
    } else {
        334
    };
    common + if m > 2 && is_leap(y) { 1int } else { 0int }
}

/// The day number of `y-m-d` counted from 1970-01-01, in the proleptic
/// Gregorian calendar.
pub open spec fn days_from_civil(y: int, m: int, d: int) -> int {
    365 * y + leaps_before(y) + days_before_month(y, m) + d - 1 - 719528
}

/// A real date: a month of the year and a day of that month.
pub open spec fn valid_date(y: int, m: int, d: int) -> bool {
    1 <= m <= 12 && 1 <= d <= month_length(y, m)
}

proof fn lemma_year_of_cycle(doe: u32)
    requires
        doe < 146097,
    ensures
        (doe - doe / 1460 + doe / 36524 - doe / 146096) / 365 < 400,
        365 * ((doe - doe / 1460 + doe / 36524 - doe / 146096) / 365)
            + ((doe - doe / 1460 + doe / 36524 - doe / 146096) / 365) / 4
            - ((doe - doe / 1460 + doe / 36524 - doe / 146096) / 365) / 100 <= doe,
        doe < 365 * ((doe - doe / 1460 + doe / 36524 - doe / 146096) / 365 + 1)
            + ((doe - doe / 1460 + doe / 36524 - doe / 146096) / 365 + 1) / 4
            - ((doe - doe / 1460 + doe / 36524 - doe / 146096) / 365 + 1) / 100
            + ((doe - doe / 1460 + doe / 36524 - doe / 146096) / 365 + 1) / 400,
{
    assert((doe - doe / 1460 + doe / 36524 - doe / 146096) / 365 < 400) by (bit_vector)
        requires
            doe < 146097,
    ;
    assert(365 * ((doe - doe / 1460 + doe / 36524 - doe / 146096) / 365)
            + ((doe - doe / 1460 + doe / 36524 - doe / 146096) / 365) / 4
            - ((doe - doe / 1460 + doe / 36524 - doe / 146096) / 365) / 100 <= doe) by (bit_vector)
        requires
            doe < 146097,
    ;
    assert(doe < 365 * ((doe - doe / 1460 + doe / 36524 - doe / 146096) / 365 + 1)
            + ((doe - doe / 1460 + doe / 36524 - doe / 146096) / 365 + 1) / 4
            - ((doe - doe / 1460 + doe / 36524 - doe / 146096) / 365 + 1) / 100
            + ((doe - doe / 1460 + doe / 36524 - doe / 146096) / 365 + 1) / 400) by (bit_vector)
        requires
            doe < 146097,
    ;
}

proof fn lemma_year_length(yoe: u32)
    requires
        yoe < 400,
    ensures
        ((yoe + 1) % 4 == 0 && (yoe + 1) % 100 != 0) || (yoe + 1) % 400 == 0
            ==> (365 * (yoe + 1) + (yoe + 1) / 4 - (yoe + 1) / 100 + (yoe + 1) / 400) - (365 * yoe + yoe / 4 - yoe / 100) == 366,
        !(((yoe + 1) % 4 == 0 && (yoe + 1) % 100 != 0) || (yoe + 1) % 400 == 0)
            ==> (365 * (yoe + 1) + (yoe + 1) / 4 - (yoe + 1) / 100 + (yoe + 1) / 400) - (365 * yoe + yoe / 4 - yoe / 100) == 365,
{
    assert(((yoe + 1) % 4 == 0 && (yoe + 1) % 100 != 0) || (yoe + 1) % 400 == 0
            ==> (365 * (yoe + 1) + (yoe + 1) / 4 - (yoe + 1) / 100 + (yoe + 1) / 400) - (365 * yoe + yoe / 4 - yoe / 100) == 366) by (bit_vector)
        requires
            yoe < 400,
    ;
    assert(!(((yoe + 1) % 4 == 0 && (yoe + 1) % 100 != 0) || (yoe + 1) % 400 == 0)
            ==> (365 * (yoe + 1) + (yoe + 1) / 4 - (yoe + 1) / 100 + (yoe + 1) / 400) - (365 * yoe + yoe / 4 - yoe / 100) == 365) by (bit_vector)
        requires
            yoe < 400,
    ;
}

proof fn lemma_month_of_year(doy: u32)
    requires
        doy < 366,
    ensures
        (5 * doy + 2) / 153 < 12,
        (153 * ((5 * doy + 2) / 153) + 2) / 5 <= doy,
        doy - (153 * ((5 * doy + 2) / 153) + 2) / 5 < 31,
        (5 * doy + 2) / 153 == 1 || (5 * doy + 2) / 153 == 3 || (5 * doy + 2) / 153 == 6 || (5 * doy + 2) / 153 == 8
            ==> doy - (153 * ((5 * doy + 2) / 153) + 2) / 5 < 30,
        (5 * doy + 2) / 153 == 11 ==> (doy - (153 * ((5 * doy + 2) / 153) + 2) / 5 < 28 || doy == 365),
{
    assert((5 * doy + 2) / 153 < 12) by (bit_vector)
        requires
            doy < 366,
    ;
    assert((153 * ((5 * doy + 2) / 153) + 2) / 5 <= doy) by (bit_vector)
        requires
            doy < 366,
    ;
    assert(doy - (153 * ((5 * doy + 2) / 153) + 2) / 5 < 31) by (bit_vector)
        requires
            doy < 366,
    ;
    assert((5 * doy + 2) / 153 == 1 || (5 * doy + 2) / 153 == 3 || (5 * doy + 2) / 153 == 6 || (5 * doy + 2) / 153 == 8
            ==> doy - (153 * ((5 * doy + 2) / 153) + 2) / 5 < 30) by (bit_vector)
        requires
            doy < 366,
    ;
    assert((5 * doy + 2) / 153 == 11 ==> (doy - (153 * ((5 * doy + 2) / 153) + 2) / 5 < 28 || doy == 365)) by (bit_vector)
        requires
            doy < 366,
    ;
}

proof fn lemma_cycle_leaps(k: u32)
    requires
        k < 400,
    ensures
        ((k % 4 == 0 && k % 100 != 0) || k % 400 == 0)
            ==> (k + 3) / 4 - (k + 99) / 100 + (k + 399) / 400 + 1 == k / 4 - k / 100 + 1,
        !((k % 4 == 0 && k % 100 != 0) || k % 400 == 0)
            ==> (k + 3) / 4 - (k + 99) / 100 + (k + 399) / 400 == k / 4 - k / 100 + 1,
        (k + 4) / 4 - (k + 100) / 100 + (k + 400) / 400 == k / 4 - k / 100 + 1,
{
    assert(((k % 4 == 0 && k % 100 != 0) || k % 400 == 0)
            ==> (k + 3) / 4 - (k + 99) / 100 + (k + 399) / 400 + 1 == k / 4 - k / 100 + 1) by (bit_vector)
        requires
            k < 400,
    ;
    assert(!((k % 4 == 0 && k % 100 != 0) || k % 400 == 0)
            ==> (k + 3) / 4 - (k + 99) / 100 + (k + 399) / 400 == k / 4 - k / 100 + 1) by (bit_vector)
        requires
            k < 400,
    ;
    assert((k + 4) / 4 - (k + 100) / 100 + (k + 400) / 400 == k / 4 - k / 100 + 1) by (bit_vector)
        requires
            k < 400,
    ;
}

/// `(d * x + b) / d` is `x + b / d`, and the remainder is that of `b`.
proof fn lemma_div_shift(x: int, b: int, d: int)
    requires
        d > 0,
    ensures
        (d * x + b) / d == x + b / d,
        (d * x + b) % d == b % d,
{
    vstd::arithmetic::div_mod::lemma_fundamental_div_mod(b, d);
    vstd::arithmetic::div_mod::lemma_mod_bound(b, d);
    assert(d * x + b == (x + b / d) * d + b % d) by (nonlinear_arith)
        requires
            b == d * (b / d) + b % d,
    ;
    vstd::arithmetic::div_mod::lemma_fundamental_div_mod_converse(d * x + b, d, x + b / d, b % d);
}

/// Shifting a year by whole 400-year cycles shifts its leap years by 97 a
/// cycle and leaves whether it is a leap year alone.
proof fn lemma_cycles(e: int, n: int)
    ensures
        leaps_before(400 * e + n) == 97 * e + leaps_before(n),
        is_leap(400 * e + n) == is_leap(n),
{
    lemma_div_shift(100 * e, n + 3, 4);
    lemma_div_shift(4 * e, n + 99, 100);
    lemma_div_shift(e, n + 399, 400);
    lemma_div_shift(100 * e, n, 4);
    lemma_div_shift(4 * e, n, 100);
    lemma_div_shift(e, n, 400);
    assert(4 * (100 * e) + (n + 3) == 400 * e + n + 3);
    assert(100 * (4 * e) + (n + 99) == 400 * e + n + 99);
    assert(4 * (100 * e) + n == 400 * e + n);
    assert(100 * (4 * e) + n == 400 * e + n);
}

/// The year of a 400-year cycle (counted from March) that day `doe` of the
/// cycle falls in.
pub open spec fn cycle_year(doe: int) -> int {
    (doe - doe / 1460 + doe / 36524 - doe / 146096) / 365
}

/// The day of that year (counted from the first of March).
pub open spec fn cycle_day_of_year(doe: int) -> int {
    doe - (365 * cycle_year(doe) + cycle_year(doe) / 4 - cycle_year(doe) / 100)
}

/// The month of a March-based year that day `doy` falls in, March being 0.
pub open spec fn march_month(doy: int) -> int {
    (5 * doy + 2) / 153
}

pub open spec fn march_day(doy: int) -> int {
    doy - (153 * march_month(doy) + 2) / 5 + 1
}

pub open spec fn civil_month(mp: int) -> int {
    if mp < 10 {
        mp + 3
    } else {
        mp - 9
    }
}

/// Leap years before the next year: one more exactly when this one is a
/// leap year.
proof fn lemma_leap_step(y: int)
    ensures
        leaps_before(y + 1) == leaps_before(y) + (if is_leap(y) { 1int } else { 0int }),
{
    let e = y / 400;
    let n = y % 400;
    vstd::arithmetic::div_mod::lemma_fundamental_div_mod(y, 400);
    vstd::arithmetic::div_mod::lemma_mod_bound(y, 400);
    assert(y == 400 * e + n);
    lemma_cycles(e, n);
    lemma_cycles(e, n + 1);
    assert(400 * e + (n + 1) == y + 1);
    lemma_cycle_leaps(n as u32);
    assert(leaps_before(n + 1) == (n + 4) / 4 - (n + 100) / 100 + (n + 400) / 400);
    assert(is_leap(n) == ((n as u32 % 4 == 0 && n as u32 % 100 != 0) || n as u32 % 400 == 0));
}

/// The day count of the first of January of `y`, less the epoch.
pub open spec fn year_start(y: int) -> int {
    365 * y + leaps_before(y)
}

proof fn lemma_year_start_grows(a: int, b: int)
    requires
        a < b,
    ensures
        year_start(b) >= year_start(a) + 365 + (if is_leap(a) { 1int } else { 0int }),
    decreases b - a,
{
    lemma_leap_step(a);
    if b > a + 1 {
        lemma_year_start_grows(a + 1, b);
        lemma_leap_step(a + 1);
    }
}

/// Within a year, a later valid date has a later day of the year; and every
/// valid date falls within its year.
proof fn lemma_day_of_year(y: int, m1: int, d1: int, m2: int, d2: int)
    requires
        valid_date(y, m1, d1),
        valid_date(y, m2, d2),
    ensures
        0 <= days_before_month(y, m1) + d1 - 1 < 365 + (if is_leap(y) { 1int } else { 0int }),
        (m1 < m2 || (m1 == m2 && d1 < d2)) ==> days_before_month(y, m1) + d1 < days_before_month(y, m2) + d2,
{
}

/// Each day number names exactly one date: two valid dates with the same
/// day number are the same date.
pub proof fn lemma_civil_dates_are_distinct(y1: int, m1: int, d1: int, y2: int, m2: int, d2: int)
    requires
        valid_date(y1, m1, d1),
        valid_date(y2, m2, d2),
        days_from_civil(y1, m1, d1) == days_from_civil(y2, m2, d2),
    ensures
        y1 == y2 && m1 == m2 && d1 == d2,
{
    lemma_day_of_year(y1, m1, d1, m1, d1);
    lemma_day_of_year(y2, m2, d2, m2, d2);
    if y1 < y2 {
        lemma_year_start_grows(y1, y2);
    } else if y2 < y1 {
        lemma_year_start_grows(y2, y1);
    } else {
        lemma_day_of_year(y1, m1, d1, m2, d2);
        lemma_day_of_year(y1, m2, d2, m1, d1);
    }
}

/// The civil date of day `doe` of a 400-year cycle that starts on the first
/// of March of its year 0.
proof fn lemma_cycle_date(doe: u32)
    requires
        doe < 146097,
    ensures
        ({
            let yoe = cycle_year(doe as int);
            let doy = cycle_day_of_year(doe as int);
            let m = civil_month(march_month(doy));
            let d = march_day(doy);
            let n = yoe + (if m <= 2 { 1int } else { 0int });
            &&& 0 <= yoe < 400
            &&& 0 <= doy < 366
            &&& valid_date(n, m, d)
            &&& 365 * n + leaps_before(n) + days_before_month(n, m) + d - 1 == doe + 60
        }),
{
    lemma_year_of_cycle(doe);
    let yoe = cycle_year(doe as int);
    let doy = cycle_day_of_year(doe as int);
    lemma_year_length(yoe as u32);
    lemma_month_of_year(doy as u32);
    lemma_cycle_leaps(yoe as u32);
    let mp = march_month(doy);
    if mp == 0 {
    } else if mp == 1 {
    } else if mp == 2 {
    } else if mp == 3 {
    } else if mp == 4 {
    } else if mp == 5 {
    } else if mp == 6 {
    } else if mp == 7 {
    } else if mp == 8 {
    } else if mp == 9 {
    } else if mp == 10 {
    } else {
        assert(mp == 11);
    }
}

/// Days since 1970-01-01 to a civil date (Howard Hinnant's algorithm).
pub fn civil_from_days(days: i64) -> (r: (i64, u32, u32))
    requires
        days <= i64::MAX - 719468,
    ensures
        valid_date(r.0 as int, r.1 as int, r.2 as int),
        days_from_civil(r.0 as int, r.1 as int, r.2 as int) == days,
{
    let z: i64 = days + 719468;
    let era: i64 = if z >= 0 { z } else { z - 146096 } / 146097;
    proof {
        let zi = z as int;
        vstd::arithmetic::div_mod::lemma_fundamental_div_mod(zi, 146097);
        vstd::arithmetic::div_mod::lemma_mod_bound(zi, 146097);
        if z < 0 {
            let q = zi / 146097;
            let r = zi % 146097;
            assert(146096 - zi == (-q) * 146097 + (146096 - r)) by (nonlinear_arith)
                requires
                    zi == 146097 * q + r,
            ;
            vstd::arithmetic::div_mod::lemma_fundamental_div_mod_converse(146096 - zi, 146097, -q, 146096 - r);
        }
        assert(era as int == zi / 146097);
    }
    let doe: i64 = z - era * 146097;
    proof {
        assert(doe as int == (z as int) % 146097);
        lemma_cycle_date(doe as u32);
    }
    let yoe: i64 = (doe - doe / 1460 + doe / 36524 - doe / 146096) / 365;
    let y: i64 = yoe + era * 400;
    let doy: i64 = doe - (365 * yoe + yoe / 4 - yoe / 100);
    let mp: i64 = (5 * doy + 2) / 153;
    let d: u32 = (doy - (153 * mp + 2) / 5 + 1) as u32;
    let m: u32 = if mp < 10 { mp + 3 } else { mp - 9 } as u32;
    let year: i64 = if m <= 2 { y + 1 } else { y };
    proof {
        let e = era as int;
        let n = yoe + (if m <= 2 { 1int } else { 0int });
        lemma_cycles(e, n);
        assert(year == 400 * e + n);
        assert(365 * (400 * e + n) == 146000 * e + 365 * n) by (nonlinear_arith);
    }
    (year, m, d)
}

/// One `name=value` assignment: the name trimmed and lower-cased, the value
/// trimmed.
pub open spec fn assignment(a: Seq<char>) -> Option<(Seq<char>, Seq<char>)> {
    match find_from(a, seq!['='], 0) {
        Some(k) => Some((lowercase(trimmed(a.subrange(0, k))), trimmed(a.subrange(k + 1, a.len() as int)))),
        None => None,
    }
}

/// Every argument as an assignment, or the first that is not one.
pub open spec fn all_assignments(args: Seq<Seq<char>>) -> Result<Seq<(Seq<char>, Seq<char>)>, Seq<char>>
    decreases args.len(),
{
    if args.len() == 0 {
        Ok(seq![])
    } else {
        match assignment(args[0]) {
            None => Err("expected name=value, got '"@ + args[0] + "'"@),
            Some(p) => match all_assignments(args.drop_first()) {
                Ok(rest) => Ok(seq![p] + rest),
                Err(e) => Err(e),
            },
        }
    }
}

/// The assignments of `kiyoctl set`: `set hdr on` (a name and a value) is
/// the common case; `set hdr=on brightness=140` scales up.
pub open spec fn assignments_spec(args: Seq<Seq<char>>) -> Result<Seq<(Seq<char>, Seq<char>)>, Seq<char>> {
    if args.len() == 2 && find_from(args[0], seq!['='], 0) is None {
        Ok(seq![(lowercase(args[0]), args[1])])
    } else {
        all_assignments(args)
    }
}

pub open spec fn assignments_view(r: Result<Vec<(String, String)>, String>) -> Result<Seq<(Seq<char>, Seq<char>)>, Seq<char>> {
    match r {
        Ok(v) => Ok(v@.map_values(|p: (String, String)| (p.0@, p.1@))),
        Err(e) => Err(e@),
    }
}

pub fn parse_assignments(args: &Vec<String>) -> (r: Result<Vec<(String, String)>, String>)
    ensures
        assignments_view(r) == assignments_spec(str_views(args@)),
{
    let eq = chars_of("=");
    proof {
        reveal_strlit("=");
        assert(eq@ =~= seq!['=']);
    }
    let ghost views = str_views(args@);
    if args.len() == 2 {
        let a0 = chars_of(args[0].as_str());
        if find_chars(&a0, &eq, 0).is_none() {
            let mut v: Vec<(String, String)> = Vec::new();
            v.push((to_lowercase(args[0].as_str()), args[1].clone()));
            proof {
                assert(v@.map_values(|p: (String, String)| (p.0@, p.1@)) =~= seq![(lowercase(views[0]), views[1])]);
            }
            return Ok(v);
        }
    }
    let mut out: Vec<(String, String)> = Vec::new();
    let mut i: usize = 0;
    proof {
        assert(assignments_spec(views) == all_assignments(views));
        assert(views.subrange(0, views.len() as int) =~= views);
        assert(out@.map_values(|p: (String, String)| (p.0@, p.1@)) =~= Seq::<(Seq<char>, Seq<char>)>::empty());
        match all_assignments(views) {
            Ok(rest) => {
                assert(Seq::<(Seq<char>, Seq<char>)>::empty() + rest =~= rest);
            },
            Err(_) => {},
        }
    }
    while i < args.len()
        invariant
            i <= args@.len(),
            views == str_views(args@),
            eq@ == seq!['='],
            assignments_spec(views) == all_assignments(views),
            all_assignments(views) == (match all_assignments(views.subrange(i as int, views.len() as int)) {
                Ok(rest) => Ok(out@.map_values(|p: (String, String)| (p.0@, p.1@)) + rest),
                Err(e) => Err(e),
            }),
        decreases args.len() - i,
    {
        let ghost rest = views.subrange(i as int, views.len() as int);
        proof {
            assert(rest.drop_first() =~= views.subrange(i + 1, views.len() as int));
            assert(rest[0] == args@[i as int]@);
        }
        let a = chars_of(args[i].as_str());
        match find_chars(&a, &eq, 0) {
            Some(k) => {
                proof {
                    lemma_find_from(a@, eq@, 0);
                }
                let alen = a.len();
                let left = from_chars(&sub_vec(&a, 0, k));
                let right = from_chars(&sub_vec(&a, k + 1, alen));
                let name = to_lowercase(trim(left.as_str()).as_str());
                let value = trim(right.as_str());
                let ghost before = out@.map_values(|p: (String, String)| (p.0@, p.1@));
                out.push((name, value));
                proof {
                    assert(out@.map_values(|p: (String, String)| (p.0@, p.1@)) =~= before.push(assignment(rest[0])->0));
                    match all_assignments(rest.drop_first()) {
                        Ok(r2) => {
                            assert(before.push(assignment(rest[0])->0) + r2 =~= before + (seq![assignment(rest[0])->0] + r2));
                        },
                        Err(_) => {},
                    }
                }
            },
            None => {
                let mut e = String::from_str("expected name=value, got '");
                append_str(&mut e, args[i].as_str());
                append_str(&mut e, "'");
                return Err(e);
            },
        }
        i = i + 1;
    }
    proof {
        assert(views.subrange(args@.len() as int, views.len() as int) =~= Seq::<Seq<char>>::empty());
        assert(out@.map_values(|p: (String, String)| (p.0@, p.1@)) + Seq::<(Seq<char>, Seq<char>)>::empty()
            =~= out@.map_values(|p: (String, String)| (p.0@, p.1@)));
    }
    Ok(out)
}

fn sub_vec(s: &Vec<char>, a: usize, b: usize) -> (r: Vec<char>)
    requires
        a <= b <= s@.len(),
    ensures
        r@ == s@.subrange(a as int, b as int),
{
    let mut r: Vec<char> = Vec::new();
    let mut k = a;
    while k < b
        invariant
            a <= k <= b,
            b <= s@.len(),
            r@ == s@.subrange(a as int, k as int),
        decreases b - k,
    {
        r.push(s[k]);
        k = k + 1;
        proof {
            assert(r@ =~= s@.subrange(a as int, k as int));
        }
    }
    r
}

/// The names of `cs`.
pub open spec fn control_names(cs: Seq<Control>) -> Seq<Seq<char>> {
    cs.map_values(|c: Control| c.name@)
}

/// The message for a control name nobody has heard of, listing every known
/// one.
pub fn unknown_control(name: &str) -> (r: String)
    ensures
        r@ == "unknown control '"@ + name@ + "'. Known controls: "@ + joined(control_names(every_spec()), ", "@),
{
    let all = all_controls();
    let mut names: Vec<&str> = Vec::new();
    let mut i: usize = 0;
    while i < all.len()
        invariant
            i <= all@.len(),
            names@.len() == i,
            forall|j: int| 0 <= j < i ==> (#[trigger] names@[j])@ == all@[j].name@,
        decreases all.len() - i,
    {
        names.push(all[i].name);
        i = i + 1;
    }
    proof {
        assert(names@.map_values(|p: &str| p@) =~= control_names(every_spec()));
    }
    let known = join(&names, ", ");
    let mut r = String::from_str("unknown control '");
    append_str(&mut r, name);
    append_str(&mut r, "'. Known controls: ");
    append_str(&mut r, known.as_str());
    r
}

/// The control `set` writes for `name`, or why it cannot: nobody has heard
/// of the name, or it belongs to a Model this camera (called `cam_name`,
/// with or without one) does not have.
pub open spec fn set_target_spec(name: Seq<char>, has_model: bool, cam_name: Seq<char>) -> Result<Control, Seq<char>> {
    match first_named(every_spec(), name) {
        None => Err("unknown control '"@ + name + "'. Known controls: "@ + joined(control_names(every_spec()), ", "@)),
        Some(c) => if is_opaque(c.kind) && !has_model {
            Err(cam_name + " has no Razer extension unit, so "@ + name + " is unavailable"@)
        } else {
            Ok(c)
        },
    }
}

/// Which control `set` writes for `name` on `cam`.
pub fn set_target(cam: &Cam, name: &str) -> (r: Result<&'static Control, String>)
    ensures
        match r {
            Ok(c) => set_target_spec(name@, cam.model is Some, cam.name@) == Ok::<Control, Seq<char>>(*c),
            Err(e) => set_target_spec(name@, cam.model is Some, cam.name@) == Err::<Control, Seq<char>>(e@),
        },
{
    match find(name) {
        None => Err(unknown_control(name)),
        Some(c) => {
            if c.is_razer() && !cam.has_razer_unit() {
                let mut e = String::from_str(cam.name.as_str());
                append_str(&mut e, " has no Razer extension unit, so ");
                append_str(&mut e, name);
                append_str(&mut e, " is unavailable");
                Err(e)
            } else {
                Ok(c)
            }
        },
    }
}

/// The control `get` reads for `name`, or why it cannot: nobody has heard
/// of the name, or the camera cannot report it.
pub open spec fn get_target_spec(name: Seq<char>) -> Result<Control, Seq<char>> {
    match first_named(every_spec(), name) {
        None => Err("unknown control '"@ + name + "'. Known controls: "@ + joined(control_names(every_spec()), ", "@)),
        Some(c) => if is_opaque(c.kind) {
            Err(name + " is write-only; the camera cannot report it. Its last value is in the profile — see `kiyoctl profiles`."@)
        } else {
            Ok(c)
        },
    }
}

/// Which control `get` reads for `name`.
pub fn get_target(name: &str) -> (r: Result<&'static Control, String>)
    ensures
        match r {
            Ok(c) => get_target_spec(name@) == Ok::<Control, Seq<char>>(*c),
            Err(e) => get_target_spec(name@) == Err::<Control, Seq<char>>(e@),
        },
{
    match find(name) {
        None => Err(unknown_control(name)),
        Some(c) => {
            if c.is_razer() {
                let mut e = String::from_str(name);
                append_str(&mut e, " is write-only; the camera cannot report it. Its last value is in the profile — see `kiyoctl profiles`.");
                Err(e)
            } else {
                Ok(c)
            }
        },
    }
}

/// The write-only controls among `cs` whose values `p` remembers.
pub open spec fn remembered(cs: Seq<Control>, p: ProfileView) -> Seq<Seq<char>>
    decreases cs.len(),
{
    if cs.len() == 0 {
        seq![]
    } else {
        let rest = remembered(cs.drop_last(), p);
        let c = cs.last();
        if is_opaque(c.kind) && get_spec(p, c.name@) is Some {
            rest.push(c.name@)
        } else {
            rest
        }
    }
}

/// What `save` adds for a camera with a Model: which write-only values the
/// profile remembers, or how to make it remember them, since they cannot be
/// read back.
pub open spec fn save_note_spec(has_model: bool, kept: Seq<Seq<char>>) -> Option<Seq<char>> {
    if !has_model {
        None
    } else if kept.len() == 0 {
        Some("Note: HDR and other Razer settings cannot be read back. Set them once with `kiyoctl set hdr on` and they will be remembered from then on."@)
    } else {
        Some("Remembered Razer settings: "@ + joined(kept, ", "@))
    }
}

/// The note `save` prints after saving `profile` from `cam`.
pub fn save_note(cam: &Cam, profile: &Profile) -> (r: Option<String>)
    ensures
        opt_str(r) == save_note_spec(cam.model is Some, remembered(cam_controls(cam.model), profile@)),
{
    if !cam.has_razer_unit() {
        return None;
    }
    let cs = cam.controls();
    let ghost cv = cs@.map_values(|c: &'static Control| *c);
    let mut kept: Vec<&'static str> = Vec::new();
    let mut i: usize = 0;
    while i < cs.len()
        invariant
            i <= cs@.len(),
            cv == cs@.map_values(|c: &'static Control| *c),
            kept@.map_values(|p: &str| p@) == remembered(cv.subrange(0, i as int), profile@),
        decreases cs.len() - i,
    {
        let ghost pre = cv.subrange(0, i + 1);
        proof {
            assert(pre.drop_last() =~= cv.subrange(0, i as int));
            assert(pre.last() == *cs@[i as int]);
        }
        let ghost before = kept@.map_values(|p: &str| p@);
        if cs[i].is_razer() && profile.get(cs[i].name).is_some() {
            kept.push(cs[i].name);
            proof {
                assert(kept@.map_values(|p: &str| p@) =~= before.push(cs@[i as int].name@));
            }
        }
        i = i + 1;
    }
    proof {
        assert(cv.subrange(0, cs@.len() as int) =~= cv);
    }
    if kept.len() == 0 {
        Some(String::from_str("Note: HDR and other Razer settings cannot be read back. Set them once with `kiyoctl set hdr on` and they will be remembered from then on."))
    } else {
        let mut r = String::from_str("Remembered Razer settings: ");
        let j = join(&kept, ", ");
        append_str(&mut r, j.as_str());
        Some(r)
    }
}

/// The warning for a capture onto a profile last captured from another
/// camera, `previous`.
pub open spec fn foreign_note_spec(previous: Seq<char>, key: Seq<char>) -> Seq<char> {
    "Note: this profile was last captured from camera "@ + previous + ", not "@ + key
        + "; that camera's own settings are kept in their own section."@
}

pub fn foreign_note(previous: &str, cam: &Cam) -> (r: String)
    ensures
        r@ == foreign_note_spec(previous@, key_text(cam.vid, cam.pid)),
{
    let mut r = String::from_str("Note: this profile was last captured from camera ");
    append_str(&mut r, previous);
    append_str(&mut r, ", not ");
    let k = Profile::key(cam.vid, cam.pid);
    append_str(&mut r, k.as_str());
    append_str(&mut r, "; that camera's own settings are kept in their own section.");
    r
}

/// What `controls` says a control accepts.
pub open spec fn values_text(k: Kind) -> Seq<char> {
    match choices_spec(k) {
        Some(c) => joined(c, " | "@),
        None => "a number (range depends on the camera)"@,
    }
}

/// The two lines `controls` prints for one control, names padded to `w`.
pub open spec fn control_block(c: Control, w: int) -> Seq<Seq<char>> {
    seq!["  "@ + pad_right(c.name@, w) + "  "@ + c.help@, "  "@ + pad_right(Seq::<char>::empty(), w) + "  values: "@ + values_text(c.kind)]
}

/// The note `controls` prints before the first write-only control of a run.
pub open spec fn write_only_heading() -> Seq<Seq<char>> {
    seq![Seq::<char>::empty(), "  -- Razer Kiyo Pro only, and write-only --"@]
}

/// The description of every control in `cs`, blocks separated by a blank
/// line, with a heading where a run of write-only controls starts.
pub open spec fn listing_lines(cs: Seq<Control>, w: int) -> Seq<Seq<char>>
    decreases cs.len(),
{
    if cs.len() == 0 {
        seq![]
    } else {
        let c = cs.last();
        let starts_run = is_opaque(c.kind) && !(cs.len() >= 2 && is_opaque(cs[cs.len() - 2].kind));
        listing_lines(cs.drop_last(), w) + (if cs.len() >= 2 { seq![Seq::<char>::empty()] } else { seq![] })
            + (if starts_run { write_only_heading() } else { seq![] }) + control_block(c, w)
    }
}

/// Everything `controls` prints: each known control, its help and the
/// values it accepts, then a pointer to `show`.
pub open spec fn listing_spec(cs: Seq<Control>) -> Seq<Seq<char>> {
    listing_lines(cs, widest(control_names(cs))) + seq![
        Seq::<char>::empty(),
        "Not every camera implements every control; `kiyoctl show` lists what yours does."@,
    ]
}

fn values_of(c: &Control) -> (r: String)
    ensures
        r@ == values_text(c.kind),
{
    match c.choices() {
        Some(v) => {
            let r = join(&v, " | ");
            r
        },
        None => String::from_str("a number (range depends on the camera)"),
    }
}

/// The lines `controls` prints, describing every control the library knows.
pub fn controls_listing() -> (r: Vec<String>)
    ensures
        str_views(r@) == listing_spec(every_spec()),
{
    let all = all_controls();
    let ghost cs = deref_controls(all@);
    let mut names: Vec<String> = Vec::new();
    let mut i: usize = 0;
    while i < all.len()
        invariant
            i <= all@.len(),
            str_views(names@) == control_names(cs.subrange(0, i as int)),
            cs == deref_controls(all@),
        decreases all.len() - i,
    {
        proof {
            assert(cs.subrange(0, i + 1).drop_last() =~= cs.subrange(0, i as int));
        }
        let ghost before = str_views(names@);
        names.push(String::from_str(all[i].name));
        proof {
            assert(str_views(names@) =~= before.push(all@[i as int].name@));
            assert(control_names(cs.subrange(0, i + 1)) =~= control_names(cs.subrange(0, i as int)).push(cs[i as int].name@));
        }
        i = i + 1;
    }
    proof {
        assert(cs.subrange(0, all@.len() as int) =~= cs);
    }
    let w = widest_of(&names);
    let mut out: Vec<String> = Vec::new();
    let mut k: usize = 0;
    while k < all.len()
        invariant
            k <= all@.len(),
            cs == deref_controls(all@),
            w as int == widest(control_names(cs)),
            str_views(out@) == listing_lines(cs.subrange(0, k as int), w as int),
        decreases all.len() - k,
    {
        let ghost pre = cs.subrange(0, k + 1);
        let ghost before = str_views(out@);
        proof {
            assert(pre.drop_last() =~= cs.subrange(0, k as int));
            assert(pre.last() == *all@[k as int]);
            if k >= 1 {
                assert(pre[pre.len() - 2] == *all@[k - 1]);
            }
        }
        let c = all[k];
        if k >= 1 {
            out.push(String::new());
        }
        let ghost after_sep = str_views(out@);
        let run = c.is_razer() && !(k >= 1 && all[k - 1].is_razer());
        if run {
            out.push(String::new());
            out.push(String::from_str("  -- Razer Kiyo Pro only, and write-only --"));
        }
        let ghost after_head = str_views(out@);
        let mut first = String::from_str("  ");
        append_padded_right(&mut first, c.name, w);
        append_str(&mut first, "  ");
        append_str(&mut first, c.help);
        let mut second = String::from_str("  ");
        append_padded_right(&mut second, "", w);
        append_str(&mut second, "  values: ");
        let v = values_of(c);
        append_str(&mut second, v.as_str());
        out.push(first);
        out.push(second);
        proof {
            reveal_strlit("");
            assert(pad_right(""@, w as int) =~= pad_right(Seq::<char>::empty(), w as int));
            assert(after_sep =~= before + (if k >= 1 { seq![Seq::<char>::empty()] } else { Seq::<Seq<char>>::empty() }));
            assert(after_head =~= after_sep + (if run { write_only_heading() } else { Seq::<Seq<char>>::empty() }));
            assert(str_views(out@) =~= after_head + control_block(*c, w as int));
            assert(str_views(out@) =~= listing_lines(pre, w as int));
        }
        k = k + 1;
    }
    proof {
        assert(cs.subrange(0, all@.len() as int) =~= cs);
    }
    let ghost body = str_views(out@);
    out.push(String::new());
    out.push(String::from_str("Not every camera implements every control; `kiyoctl show` lists what yours does."));
    proof {
        assert(str_views(out@) =~= listing_spec(cs));
    }
    out
}

/// What `profiles` lists for one saved profile: its name, the camera it was
/// captured from and how many portable values it holds, marked when it is
/// the one in use; then each portable value.
pub open spec fn summary_spec(name: Seq<char>, camera: Option<Seq<char>>, pairs: Seq<(Seq<char>, SettingView)>, active: Seq<char>) -> Seq<Seq<char>> {
    seq![name + "  ("@ + (match camera {
        Some(c) => c,
        None => "unknown camera"@,
    }) + ", "@ + nat_digits(pairs.len()) + " settings)"@ + (if name == active {
        " * in use"@
    } else {
        Seq::<char>::empty()
    })] + pairs.map_values(|e: (Seq<char>, SettingView)| "    "@ + e.0 + " = "@ + setting_text(e.1))
}

/// The lines `profiles` prints for the profile saved as `name`, given the
/// name of the profile in use.
pub fn profile_summary(name: &str, profile: &Profile, active: &str) -> (r: Vec<String>)
    ensures
        str_views(r@) == summary_spec(name@, opt_str(profile.name), profile.controls.pairs(), active@),
{
    let n = profile.controls.len();
    let mut head = String::from_str(name);
    append_str(&mut head, "  (");
    match &profile.name {
        Some(c) => append_str(&mut head, c.as_str()),
        None => append_str(&mut head, "unknown camera"),
    }
    append_str(&mut head, ", ");
    let count = fmt_u64(n as u64);
    append_str(&mut head, count.as_str());
    append_str(&mut head, " settings)");
    if str_eq(name, active) {
        append_str(&mut head, " * in use");
    }
    let mut out: Vec<String> = Vec::new();
    out.push(head);
    let ghost ps = profile.controls.pairs();
    let ghost want = summary_spec(name@, opt_str(profile.name), ps, active@);
    let mut i: usize = 0;
    while i < n
        invariant
            i <= n,
            n == ps.len(),
            ps == profile.controls.pairs(),
            want == summary_spec(name@, opt_str(profile.name), ps, active@),
            str_views(out@) == want.subrange(0, i + 1),
        decreases n - i,
    {
        let (k, v) = profile.controls.entry_at(i);
        let mut line = String::from_str("    ");
        append_str(&mut line, k.as_str());
        append_str(&mut line, " = ");
        let t = render(v);
        append_str(&mut line, t.as_str());
        let ghost before = str_views(out@);
        out.push(line);
        proof {
            assert(want[i + 1] == "    "@ + ps[i as int].0 + " = "@ + setting_text(ps[i as int].1));
            assert(str_views(out@) =~= before.push(want[i + 1]));
            assert(want.subrange(0, i + 2) =~= want.subrange(0, i + 1).push(want[i + 1]));
        }
        i = i + 1;
    }
    proof {
        assert(want.subrange(0, n + 1) =~= want);
    }
    out
}

/// A log timestamp: the UTC date and time of day, as
/// `yyyy-mm-dd hh:mm:ssZ`.
pub open spec fn timestamp_text(y: int, m: int, d: int, tod: int) -> Seq<char> {
    zero_padded(y, 4) + "-"@ + zero_padded(m, 2) + "-"@ + zero_padded(d, 2) + " "@ + zero_padded(tod / 3600, 2) + ":"@
        + zero_padded((tod % 3600) / 60, 2) + ":"@ + zero_padded(tod % 60, 2) + "Z"@
}

/// The log timestamp for `secs` seconds after 1970-01-01 00:00:00 UTC.
pub fn timestamp(secs: u64) -> (r: String)
    ensures
        exists|y: int, m: int, d: int| valid_date(y, m, d) && days_from_civil(y, m, d) == secs / 86400
            && r@ == timestamp_text(y, m, d, (secs % 86400) as int),
{
    let days = (secs / 86400) as i64;
    let (y, m, d) = civil_from_days(days);
    let tod = secs % 86400;
    let mut r = String::new();
    append_zero_padded(&mut r, y, 4);
    append_str(&mut r, "-");
    append_zero_padded(&mut r, m as i64, 2);
    append_str(&mut r, "-");
    append_zero_padded(&mut r, d as i64, 2);
    append_str(&mut r, " ");
    append_zero_padded(&mut r, (tod / 3600) as i64, 2);
    append_str(&mut r, ":");
    append_zero_padded(&mut r, ((tod % 3600) / 60) as i64, 2);
    append_str(&mut r, ":");
    append_zero_padded(&mut r, (tod % 60) as i64, 2);
    append_str(&mut r, "Z");
    proof {
        assert(r@ =~= timestamp_text(y as int, m as int, d as int, tod as int));
    }
    r
}

/// What `show` lists after a control's value: its range, and its resolution
/// when that is more than one, or else its named values; its default; and
/// whether it is read-only.
pub open spec fn show_detail_spec(kind: Kind, range: Option<(i64, i64)>, step: Option<i64>, default: Option<Seq<char>>, writable: bool) -> Seq<char> {
    let base = match range {
        Some((lo, hi)) => int_digits(lo as int) + ".."@ + int_digits(hi as int) + (match step {
            Some(s) => if s > 1 { " step "@ + int_digits(s as int) } else { Seq::<char>::empty() },
            None => Seq::<char>::empty(),
        }),
        None => match choices_spec(kind) {
            Some(c) => joined(c, "|"@),
            None => Seq::<char>::empty(),
        },
    };
    let with_default = match default {
        Some(d) => (if base.len() == 0 { base } else { base + ", "@ }) + "default "@ + d,
        None => base,
    };
    if writable {
        with_default
    } else {
        with_default + " (read-only)"@
    }
}

pub fn show_detail(ctrl: &Control, reading: &Reading) -> (r: String)
    ensures
        r@ == show_detail_spec(ctrl.kind, reading.range, reading.step, opt_str(reading.default), reading.writable),
{
    let mut detail = String::new();
    match reading.range {
        Some((lo, hi)) => {
            append_int(&mut detail, lo);
            append_str(&mut detail, "..");
            append_int(&mut detail, hi);
            match reading.step {
                Some(step) => {
                    if step > 1 {
                        append_str(&mut detail, " step ");
                        append_int(&mut detail, step);
                    }
                },
                None => {},
            }
        },
        None => match ctrl.choices() {
            Some(c) => {
                let j = join(&c, "|");
                append_str(&mut detail, j.as_str());
            },
            None => {},
        },
    }
    match &reading.default {
        Some(d) => {
            if detail.unicode_len() != 0 {
                append_str(&mut detail, ", ");
            }
            append_str(&mut detail, "default ");
            append_str(&mut detail, d.as_str());
        },
        None => {},
    }
    if !reading.writable {
        append_str(&mut detail, " (read-only)");
    }
    proof {
        assert(detail@ =~= show_detail_spec(ctrl.kind, reading.range, reading.step, opt_str(reading.default), reading.writable));
    }
    detail
}

/// The longest of `s`, in characters; 0 when there are none.
pub open spec fn widest(s: Seq<Seq<char>>) -> int
    decreases s.len(),
{
    if s.len() == 0 {
        0
    } else {
        let w = widest(s.drop_last());
        if s.last().len() > w { s.last().len() as int } else { w }
    }
}

pub(crate) fn widest_of(v: &Vec<String>) -> (r: usize)
    ensures
        r as int == widest(str_views(v@)),
{
    let ghost views = str_views(v@);
    let mut w: usize = 0;
    let mut i: usize = 0;
    while i < v.len()
        invariant
            i <= v@.len(),
            views == str_views(v@),
            w as int == widest(views.subrange(0, i as int)),
        decreases v.len() - i,
    {
        let ghost pre = views.subrange(0, i + 1);
        proof {
            assert(pre.drop_last() =~= views.subrange(0, i as int));
        }
        let n = v[i].unicode_len();
        if n > w {
            w = n;
        }
        i = i + 1;
    }
    proof {
        assert(views.subrange(0, v@.len() as int) =~= views);
    }
    w
}

/// One line of `show`: the name, the value right-aligned, then the detail.
pub open spec fn show_line(name: Seq<char>, value: Seq<char>, detail: Seq<char>, w: int, vw: int) -> Seq<char> {
    "  "@ + pad_right(name, w) + "  "@ + pad_left(value, vw) + "   "@ + detail
}

pub open spec fn row_fields(rows: Seq<(String, String, String)>) -> (Seq<Seq<char>>, Seq<Seq<char>>) {
    (rows.map_values(|r: (String, String, String)| r.0@), rows.map_values(|r: (String, String, String)| r.1@))
}

/// The lines `show` prints under the camera's name: one per readable control
/// (`rows` holds name, value and detail), columns aligned; then, for a
/// camera with a Model, its write-only controls, whose values are unknown.
/// A camera that answered nothing at all is a fault, not a plain camera.
pub open spec fn show_spec(rows: Seq<(String, String, String)>, write_only: Seq<Control>, has_model: bool, responding: bool) -> Result<Seq<Seq<char>>, Seq<char>> {
    if rows.len() == 0 && !responding {
        Err(NOT_RESPONDING@)
    } else {
        let w = widest(row_fields(rows).0);
        let vw = widest(row_fields(rows).1);
        let main = rows.map_values(|r: (String, String, String)| show_line(r.0@, r.1@, r.2@, w, vw));
        if has_model {
            Ok(main + seq![Seq::<char>::empty(), "Razer extension unit (write-only — the camera does not report these back):"@]
                + write_only.map_values(|c: Control| show_line(c.name@, "?"@, match choices_spec(c.kind) {
                    Some(cs) => joined(cs, "|"@),
                    None => Seq::<char>::empty(),
                }, w, vw)))
        } else {
            Ok(main)
        }
    }
}

pub open spec fn lines_view(r: Result<Vec<String>, String>) -> Result<Seq<Seq<char>>, Seq<char>> {
    match r {
        Ok(v) => Ok(str_views(v@)),
        Err(e) => Err(e@),
    }
}

pub fn show_lines(rows: &Vec<(String, String, String)>, write_only: &Vec<&'static Control>, has_model: bool, responding: bool) -> (r: Result<Vec<String>, String>)
    ensures
        lines_view(r) == show_spec(rows@, deref_controls(write_only@), has_model, responding),
{
    if rows.len() == 0 && !responding {
        return Err(String::from_str(NOT_RESPONDING));
    }
    let mut names: Vec<String> = Vec::new();
    let mut values: Vec<String> = Vec::new();
    let mut i: usize = 0;
    while i < rows.len()
        invariant
            i <= rows@.len(),
            names@.len() == i,
            values@.len() == i,
            forall|j: int| 0 <= j < i ==> (#[trigger] names@[j])@ == rows@[j].0@,
            forall|j: int| 0 <= j < i ==> (#[trigger] values@[j])@ == rows@[j].1@,
        decreases rows.len() - i,
    {
        names.push(rows[i].0.clone());
        values.push(rows[i].1.clone());
        i = i + 1;
    }
    proof {
        assert(str_views(names@) =~= row_fields(rows@).0);
        assert(str_views(values@) =~= row_fields(rows@).1);
    }
    let w = widest_of(&names);
    let vw = widest_of(&values);
    let mut out: Vec<String> = Vec::new();
    let mut k: usize = 0;
    while k < rows.len()
        invariant
            k <= rows@.len(),
            w as int == widest(row_fields(rows@).0),
            vw as int == widest(row_fields(rows@).1),
            out@.len() == k,
            forall|j: int| 0 <= j < k ==> (#[trigger] out@[j])@ == show_line(rows@[j].0@, rows@[j].1@, rows@[j].2@, w as int, vw as int),
        decreases rows.len() - k,
    {
        let mut line = String::from_str("  ");
        append_padded_right(&mut line, rows[k].0.as_str(), w);
        append_str(&mut line, "  ");
        append_padded_left(&mut line, rows[k].1.as_str(), vw);
        append_str(&mut line, "   ");
        append_str(&mut line, rows[k].2.as_str());
        out.push(line);
        k = k + 1;
    }
    let ghost main = str_views(out@);
    proof {
        assert(main =~= rows@.map_values(|r: (String, String, String)| show_line(r.0@, r.1@, r.2@, w as int, vw as int)));
    }
    if !has_model {
        return Ok(out);
    }
    out.push(String::new());
    out.push(String::from_str("Razer extension unit (write-only — the camera does not report these back):"));
    let n0 = out.len();
    let mut c: usize = 0;
    while c < write_only.len()
        invariant
            c <= write_only@.len(),
            n0 == main.len() + 2,
            out@.len() == n0 + c,
            forall|j: int| 0 <= j < main.len() ==> (#[trigger] out@[j])@ == main[j],
            out@[main.len() as int]@ == Seq::<char>::empty(),
            out@[main.len() as int + 1]@ == "Razer extension unit (write-only — the camera does not report these back):"@,
            forall|j: int| 0 <= j < c ==> (#[trigger] out@[n0 + j])@ == show_line(
                write_only@[j].name@,
                "?"@,
                match choices_spec(write_only@[j].kind) {
                    Some(cs) => joined(cs, "|"@),
                    None => Seq::<char>::empty(),
                },
                w as int,
                vw as int,
            ),
        decreases write_only.len() - c,
    {
        let ctrl = write_only[c];
        let choices = match ctrl.choices() {
            Some(v) => join(&v, "|"),
            None => String::new(),
        };
        let mut line = String::from_str("  ");
        append_padded_right(&mut line, ctrl.name, w);
        append_str(&mut line, "  ");
        append_padded_left(&mut line, "?", vw);
        append_str(&mut line, "   ");
        append_str(&mut line, choices.as_str());
        out.push(line);
        c = c + 1;
    }
    proof {
        let wo = deref_controls(write_only@);
        let tail = wo.map_values(|c: Control| show_line(c.name@, "?"@, match choices_spec(c.kind) {
            Some(cs) => joined(cs, "|"@),
            None => Seq::<char>::empty(),
        }, w as int, vw as int));
        let head = seq![Seq::<char>::empty(), "Razer extension unit (write-only — the camera does not report these back):"@];
        let expected = main + head + tail;
        assert(expected.len() == out@.len());
        assert forall|j: int| 0 <= j < expected.len() implies #[trigger] str_views(out@)[j] == expected[j] by {
            if j < main.len() {
            } else if j < main.len() + 2 {
            } else {
                let t = j - n0;
                assert(out@[n0 + t]@ == tail[t]);
            }
        }
        assert(str_views(out@) =~= expected);
    }
    Ok(out)
}

/// The daemon's log lines for one pass of applying a profile to the camera
/// called `cam_name`.
pub open spec fn apply_log_spec(cam_name: Seq<char>, applied: nat, skipped: Seq<(Seq<char>, Seq<char>)>) -> Seq<Seq<char>> {
    seq![cam_name + " present; applied "@ + nat_digits(applied) + " settings"@ + (if skipped.len() == 0 {
        Seq::<char>::empty()
    } else {
        ", skipped "@ + nat_digits(skipped.len())
    })] + skipped.map_values(|s: (Seq<char>, Seq<char>)| "  skipped "@ + s.0 + ": "@ + s.1)
}

pub fn apply_log(cam_name: &str, report: &ApplyReport) -> (r: Vec<String>)
    ensures
        str_views(r@) == apply_log_spec(cam_name@, report.applied@.len(), pairs_view(report.skipped@)),
{
    let mut first = String::from_str(cam_name);
    append_str(&mut first, " present; applied ");
    let a = fmt_u64(report.applied.len() as u64);
    append_str(&mut first, a.as_str());
    append_str(&mut first, " settings");
    if report.skipped.len() != 0 {
        append_str(&mut first, ", skipped ");
        let s = fmt_u64(report.skipped.len() as u64);
        append_str(&mut first, s.as_str());
    }
    let mut out: Vec<String> = Vec::new();
    out.push(first);
    let mut i: usize = 0;
    while i < report.skipped.len()
        invariant
            i <= report.skipped@.len(),
            out@.len() == i + 1,
            out@[0]@ == apply_log_spec(cam_name@, report.applied@.len(), pairs_view(report.skipped@))[0],
            forall|j: int| 0 <= j < i ==> (#[trigger] out@[j + 1])@ == "  skipped "@ + report.skipped@[j].0@ + ": "@ + report.skipped@[j].1@,
        decreases report.skipped.len() - i,
    {
        let mut line = String::from_str("  skipped ");
        append_str(&mut line, report.skipped[i].0.as_str());
        append_str(&mut line, ": ");
        append_str(&mut line, report.skipped[i].1.as_str());
        out.push(line);
        i = i + 1;
    }
    proof {
        let expected = apply_log_spec(cam_name@, report.applied@.len(), pairs_view(report.skipped@));
        assert(expected.len() == out@.len());
        assert forall|j: int| 0 <= j < expected.len() implies #[trigger] str_views(out@)[j] == expected[j] by {
            if j > 0 {
                assert(out@[(j - 1) + 1]@ == "  skipped "@ + report.skipped@[j - 1].0@ + ": "@ + report.skipped@[j - 1].1@);
            }
        }
        assert(str_views(out@) =~= expected);
    }
    out
}

/// The first line the daemon logs.
pub fn watch_banner(interval: u64, wanted: &str, pinned: bool) -> (r: String)
    ensures
        r@ == "watching for camera every "@ + nat_digits(interval as nat) + "s, profile '"@ + wanted@ + "'"@
            + (if pinned { " (pinned)"@ } else { Seq::<char>::empty() }),
{
    let mut r = String::from_str("watching for camera every ");
    let n = fmt_u64(interval);
    append_str(&mut r, n.as_str());
    append_str(&mut r, "s, profile '");
    append_str(&mut r, wanted);
    append_str(&mut r, "'");
    if pinned {
        append_str(&mut r, " (pinned)");
    }
    r
}

/// The daemon's memory between polls: the profile it applies, and the
/// signature of the cameras it last saw.
pub struct Watch {
    pub wanted: String,
    pub last: String,
    /// The profile was named on the command line, so the one chosen in the
    /// UI is not followed.
    pub pinned: bool,
}

/// What one poll asks for: lines to log, and whether to apply the profile
/// (after letting a freshly attached camera settle).
pub struct Tick {
    pub logs: Vec<String>,
    pub apply: bool,
    pub settle: bool,
}

pub open spec fn follows(w: Watch, chosen: Option<String>) -> bool {
    !w.pinned && (chosen matches Some(c) && c@ != w.wanted@)
}

impl Watch {
    pub fn new(wanted: String, pinned: bool) -> (r: Watch)
        ensures
            r.wanted@ == wanted@,
            r.last@ == "<start>"@,
            r.pinned == pinned,
    {
        Watch { wanted, last: String::from_str("<start>"), pinned }
    }

    /// One poll: `current` is the signature of the cameras attached now,
    /// `reload` whether a reload was asked for since the last poll, and
    /// `chosen` the profile in use now. An unpinned daemon follows the
    /// profile chosen elsewhere without writing anything; the profile is
    /// applied when asked to reload or when the attached cameras change, and
    /// a fresh camera is given a moment to settle first.
    pub fn tick(&mut self, current: &str, reload: bool, chosen: Option<String>) -> (r: Tick)
        ensures
            final(self).pinned == old(self).pinned,
            final(self).wanted@ == (if follows(*old(self), chosen) { chosen->0@ } else { old(self).wanted@ }),
            final(self).last@ == (if reload || current@ != old(self).last@ { current@ } else { old(self).last@ }),
            r.apply == ((reload || current@ != old(self).last@) && current@.len() > 0),
            r.settle == (r.apply && !reload),
            str_views(r.logs@) == (if reload { seq!["reload requested"@] } else { Seq::<Seq<char>>::empty() })
                + (if follows(*old(self), chosen) { seq!["now following profile '"@ + chosen->0@ + "'"@] } else { Seq::<Seq<char>>::empty() })
                + (if (reload || current@ != old(self).last@) && current@.len() == 0 { seq!["no camera attached"@] } else { Seq::<Seq<char>>::empty() }),
    {
        let mut logs: Vec<String> = Vec::new();
        if reload {
            logs.push(String::from_str("reload requested"));
        }
        let ghost l1 = str_views(logs@);
        if !self.pinned {
            match chosen {
                Some(c) => {
                    if !str_eq(c.as_str(), self.wanted.as_str()) {
                        let mut m = String::from_str("now following profile '");
                        append_str(&mut m, c.as_str());
                        append_str(&mut m, "'");
                        logs.push(m);
                        self.wanted = c;
                    }
                },
                None => {},
            }
        }
        let ghost l2 = str_views(logs@);
        let changed = reload || !str_eq(current, self.last.as_str());
        let empty = current.unicode_len() == 0;
        if changed && empty {
            logs.push(String::from_str("no camera attached"));
        }
        if changed {
            self.last = String::from_str(current);
        }
        proof {
            assert(str_views(logs@) =~= (if reload { seq!["reload requested"@] } else { Seq::<Seq<char>>::empty() })
                + (if follows(*old(self), chosen) { seq!["now following profile '"@ + chosen->0@ + "'"@] } else { Seq::<Seq<char>>::empty() })
                + (if (reload || current@ != old(self).last@) && current@.len() == 0 { seq!["no camera attached"@] } else { Seq::<Seq<char>>::empty() }));
        }
        Tick { logs, apply: changed && !empty, settle: changed && !empty && !reload }
    }
}

} // verus!
