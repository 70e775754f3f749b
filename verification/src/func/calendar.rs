//! Week numbers, year fractions, working days and clock times: `WEEKNUM`, `YEARFRAC`, `WORKDAY`,
//! `NETWORKDAYS`, `HOUR`, `MINUTE`, `SECOND` and `TIME`, all over the 1900 date-serial system of
//! [`crate::func::date`].

use vstd::prelude::*;
use crate::eval::{coerce_num, less_than, num_coercion, restored, spec_scalarize, EvalCtx};
use crate::expr::{args_size, lemma_arg_size, Expr, Resolver};
use crate::func::date::{
    date_int_arg, date_serial_arg, days_in_month, is_leap, serial_from_ymd, serial_to_ymd,
    int_value, spec_date_int, spec_days_in_month, spec_is_leap, spec_serial_arg, spec_serial_from_ymd, spec_weekday, spec_weekday_sun1, spec_ymd, MAX_SERIAL,
};
use crate::func::helpers::{arg_value, finite_or_num, lit_arg, lit_num, one_num, room, spec_finite_or_num};
use crate::value::{ErrKind, Number, Order, Value};

verus! {

/// The weekday phase of year `y`'s last day: 4 for a Thursday, 3 for a Wednesday.
pub open spec fn iso_phase(y: int) -> int {
    (y + y / 4 - y / 100 + y / 400) % 7
}

/// The number of ISO-8601 weeks in year `y`: 53 when it ends on a Thursday or the year before
/// ends on a Wednesday, else 52.
pub open spec fn spec_iso_weeks_in_year(y: int) -> int {
    if iso_phase(y) == 4 || iso_phase(y - 1) == 3 { 53 } else { 52 }
}

/// Count the ISO-8601 weeks of a year (see [`spec_iso_weeks_in_year`]).
pub fn iso_weeks_in_year(y: i64) -> (r: i64)
    requires
        1 <= y <= 10000,
    ensures
        r == spec_iso_weeks_in_year(y as int),
{
    let z: i64 = y - 1;
    let p: i64 = (y + y / 4 - y / 100 + y / 400) % 7;
    let q: i64 = (z + z / 4 - z / 100 + z / 400) % 7;
    if p == 4 || q == 3 { 53 } else { 52 }
}

/// The serial of January 1st of the year a serial falls in.
pub open spec fn year_start(s: int) -> int {
    spec_serial_from_ymd(spec_ymd(s).0, 1, 1)
}

/// The ISO-8601 week number of a serial: weeks start on Monday and week 1 holds the year's first
/// Thursday; the days before it belong to the last week of the previous year, and the days after
/// the last full week may open week 1 of the next.
pub open spec fn spec_iso_weeknum(s: int) -> int {
    let y = spec_ymd(s).0;
    let ordinal = s - year_start(s) + 1;
    let iso_day = (spec_weekday_sun1(s) + 5) % 7 + 1;
    let week = (ordinal - iso_day + 10) / 7;
    if week < 1 {
        spec_iso_weeks_in_year(y - 1)
    } else if week > spec_iso_weeks_in_year(y) {
        1
    } else {
        week
    }
}

/// The first day of week (1 = Sunday … 7 = Saturday) of a `WEEKNUM` return type: 1 and 17 Sunday,
/// 2 and 11 Monday, 12…16 Tuesday…Saturday; any other type has none.
pub open spec fn week_start(rtype: int) -> Option<int> {
    if rtype == 1 || rtype == 17 {
        Some(1)
    } else if rtype == 2 || rtype == 11 {
        Some(2)
    } else if 12 <= rtype <= 16 {
        Some(rtype - 9)
    } else {
        None
    }
}

/// The `WEEKNUM` of a serial: type 21 is the ISO week; the other types count weeks starting on
/// their first day, week 1 being the one that holds January 1st. An unsupported type is `None`.
pub open spec fn spec_weeknum(s: int, rtype: int) -> Option<int> {
    if rtype == 21 {
        Some(spec_iso_weeknum(s))
    } else {
        match week_start(rtype) {
            None => None,
            Some(start) => {
                let j = year_start(s);
                let offset = (spec_weekday_sun1(j) - start) % 7;
                Some((s - j + offset) / 7 + 1)
            },
        }
    }
}

/// The year, and the serial of January 1st of the year, of a serial in the band.
fn year_and_start(s: i64) -> (r: (i64, i64))
    requires
        1 <= s <= MAX_SERIAL,
    ensures
        r.0 == spec_ymd(s as int).0,
        r.1 == year_start(s as int),
        1900 <= r.0 <= 9999,
        -800_000 <= r.1 <= 3_000_000,
{
    let (y, _m, _d) = serial_to_ymd(s);
    let j = serial_from_ymd(y, 1, 1);
    (y, j)
}

/// Floor division by 7 of a value that is at least `-7_000_000`.
fn div7(x: i64) -> (r: i64)
    requires
        -7_000_000 <= x <= 7_000_000,
    ensures
        r == x / 7,
{
    let shifted: i64 = x + 7_000_000;
    assert(shifted / 7 - 1_000_000 == x / 7);
    shifted / 7 - 1_000_000
}

/// Compute the ISO-8601 week number of a serial (see [`spec_iso_weeknum`]).
pub fn iso_weeknum(s: i64) -> (r: i64)
    requires
        1 <= s <= MAX_SERIAL,
    ensures
        r == spec_iso_weeknum(s as int),
{
    let (y, j) = year_and_start(s);
    let ordinal: i64 = s - j + 1;
    let wd: i64 = (s - 1) % 7 + 1;
    let iso_day: i64 = (wd + 5) % 7 + 1;
    let week = div7(ordinal - iso_day + 10);
    if week < 1 {
        iso_weeks_in_year(y - 1)
    } else if week > iso_weeks_in_year(y) {
        1
    } else {
        week
    }
}

/// Compute a `WEEKNUM` (see [`spec_weeknum`]).
pub fn weeknum_value(s: i64, rtype: i64) -> (r: Option<i64>)
    requires
        1 <= s <= MAX_SERIAL,
    ensures
        match r {
            Some(v) => spec_weeknum(s as int, rtype as int) == Some(v as int),
            None => spec_weeknum(s as int, rtype as int) is None,
        },
{
    if rtype == 21 {
        return Some(iso_weeknum(s));
    }
    let start: i64 = if rtype == 1 || rtype == 17 {
        1
    } else if rtype == 2 || rtype == 11 {
        2
    } else if 12 <= rtype && rtype <= 16 {
        rtype - 9
    } else {
        return None;
    };
    let (_y, j) = year_and_start(s);
    let wdj: i64 = if j >= 1 { (j - 1) % 7 + 1 } else { (j - 1 + 7_000_000) % 7 + 1 };
    assert(wdj == spec_weekday_sun1(j as int));
    let offset: i64 = (wdj - start + 7) % 7;
    Some(div7(s - j + offset) + 1)
}

/// Resolve an optional integer argument (truncated toward zero), or `default` when omitted.
fn opt_int_arg<N: Number, R: Resolver<N>>(ctx: &mut EvalCtx<R>, args: &[Expr<N>], i: usize, default: i64) -> (r: Result<i64, ErrKind>)
    ensures
        restored(*old(ctx), *final(ctx)),
        i >= args.len() ==> r == Ok::<i64, ErrKind>(default),
        room(*old(ctx)) && i < args.len() ==> (lit_num(args[i as int]) matches Some(x) ==> r == Ok::<i64, ErrKind>(x.spec_trunc_int())),
    decreases args_size(args@), 4nat,
{
    if i >= args.len() {
        return Ok(default);
    }
    proof {
        lemma_arg_size(args@, i as int);
    }
    match one_num(ctx, &args[i]) {
        Ok(n) => Ok(n.trunc_int()),
        Err(k) => Err(k),
    }
}

/// What [`weeknum_fn`] is stated to give, for a context `ctx` and arguments `args`.
pub open spec fn weeknum_fn_gives<'r, N: Number, R: Resolver<N>>(ctx: EvalCtx<'r, R>, args: Seq<Expr<N>>, r: Value<N>) -> bool {
    &&& r is Number || r is Error
    &&& room(ctx) ==> (lit_num(args[0]) matches Some(x) ==> (lit_arg(args, 1, N::spec_from_int(1)) matches Some(y) ==> r == match spec_serial_arg(x) {
        Err(k) => Value::<N>::Error(k),
        Ok(s) => match spec_weeknum(s as int, (if args.len() == 2 { y.spec_trunc_int() } else { 1i64 }) as int) {
            Some(w) => Value::Number(N::spec_from_int(w as i64)),
            None => Value::Error(ErrKind::Num),
        },
    }))
}

/// `WEEKNUM(serial, [return_type])` — the week of the year (see [`spec_weeknum`]); the type
/// defaults to 1 and an unsupported one is `#NUM!`.
pub fn weeknum_fn<N: Number, R: Resolver<N>>(ctx: &mut EvalCtx<R>, args: &[Expr<N>]) -> (r: Value<N>)
    requires
        1 <= args.len() <= 2,
    ensures
        restored(*old(ctx), *final(ctx)),
        r is Number || r is Error,
        room(*old(ctx)) ==> (lit_num(args[0]) matches Some(x) ==> (lit_arg(args@, 1, N::spec_from_int(1)) matches Some(y) ==> r == match spec_serial_arg(x) {
            Err(k) => Value::<N>::Error(k),
            Ok(s) => match spec_weeknum(s as int, (if args@.len() == 2 { y.spec_trunc_int() } else { 1i64 }) as int) {
                Some(w) => Value::Number(N::spec_from_int(w as i64)),
                None => Value::Error(ErrKind::Num),
            },
        })),
    decreases args_size(args@), 7nat,
{
    proof {
        lemma_arg_size(args@, 0);
    }
    let serial = match date_serial_arg(ctx, &args[0]) {
        Ok(v) => v,
        Err(k) => {
            return Value::Error(k);
        },
    };
    let rtype = match opt_int_arg(ctx, args, 1, 1) {
        Ok(v) => v,
        Err(k) => {
            return Value::Error(k);
        },
    };
    match weeknum_value(serial, rtype) {
        Some(w) => Value::Number(N::from_int(w)),
        None => Value::Error(ErrKind::Num),
    }
}

/// The 30/360 day count between two serials. `european` (30E/360) clamps a 31st to the 30th on
/// both ends; the US (NASD) form first moves a last-of-February start (and, with it, a
/// last-of-February end) to the 30th, clamps a start on the 31st, and clamps an end on the 31st
/// only when the start is then the 30th.
pub open spec fn spec_yf_30_360_days(s: int, e: int, european: bool) -> int {
    let a = spec_ymd(s);
    let b = spec_ymd(e);
    let d1 = if european {
        if a.2 == 31 { 30 } else { a.2 }
    } else {
        let feb_end1 = a.1 == 2 && a.2 == spec_days_in_month(a.0, a.1);
        let d1a = if feb_end1 { 30 } else { a.2 };
        if d1a == 31 { 30 } else { d1a }
    };
    let d2 = if european {
        if b.2 == 31 { 30 } else { b.2 }
    } else {
        let feb_end1 = a.1 == 2 && a.2 == spec_days_in_month(a.0, a.1);
        let feb_end2 = b.1 == 2 && b.2 == spec_days_in_month(b.0, b.1);
        let d2a = if feb_end1 && feb_end2 { 30 } else { b.2 };
        if d2a == 31 && d1 == 30 { 30 } else { d2a }
    };
    360 * (b.0 - a.0) + 30 * (b.1 - a.1) + (d2 - d1)
}

/// Compute the 30/360 day count (see [`spec_yf_30_360_days`]).
pub fn yf_30_360_days(s: i64, e: i64, european: bool) -> (r: i64)
    requires
        1 <= s <= MAX_SERIAL,
        1 <= e <= MAX_SERIAL,
    ensures
        r == spec_yf_30_360_days(s as int, e as int, european),
{
    let (y1, m1, d1r) = serial_to_ymd(s);
    let (y2, m2, d2r) = serial_to_ymd(e);
    let mut d1: i64 = d1r as i64;
    let mut d2: i64 = d2r as i64;
    if european {
        if d1 == 31 {
            d1 = 30;
        }
        if d2 == 31 {
            d2 = 30;
        }
    } else {
        let last1 = d1r == days_in_month(y1, m1);
        let last2 = d2r == days_in_month(y2, m2);
        if m1 == 2 && last1 && m2 == 2 && last2 {
            d2 = 30;
        }
        if m1 == 2 && last1 {
            d1 = 30;
        }
        if d1 == 31 {
            d1 = 30;
        }
        if d2 == 31 && d1 == 30 {
            d2 = 30;
        }
    }
    360 * (y2 - y1) + 30 * (m2 as i64 - m1 as i64) + (d2 - d1)
}

/// The number of days in year `y`.
pub open spec fn spec_days_in_year(y: int) -> int {
    if spec_is_leap(y) { 366 } else { 365 }
}

/// The total number of days in the years `y1..=y2`.
pub open spec fn year_days_total(y1: int, y2: int) -> int
    decreases y2 - y1 + 1,
{
    if y2 < y1 {
        0
    } else {
        year_days_total(y1, y2 - 1) + spec_days_in_year(y2)
    }
}

/// Year `y` has a February 29th within the serial range `[s, e]`.
pub open spec fn leap_day_within(s: int, e: int, y: int) -> bool {
    spec_is_leap(y) && s <= spec_serial_from_ymd(y, 2, 29) <= e
}

/// The actual/actual year length between two serials `s <= e`, as a ratio `(total, years)`: the
/// year's own length when both lie in one year; 366 or 365 for a span of at most a year across one
/// year boundary (366 when a February 29th lies in it); otherwise the average length of the
/// spanned calendar years.
pub open spec fn spec_yf_actual_year(s: int, e: int) -> (int, int) {
    let a = spec_ymd(s);
    let b = spec_ymd(e);
    if a.0 == b.0 {
        (spec_days_in_year(a.0), 1)
    } else if b.0 - a.0 == 1 && (a.1 > b.1 || (a.1 == b.1 && a.2 >= b.2)) {
        (if leap_day_within(s, e, a.0) || leap_day_within(s, e, b.0) { 366 } else { 365 }, 1)
    } else {
        (year_days_total(a.0, b.0), b.0 - a.0 + 1)
    }
}

/// Whether year `y` has a February 29th within `[s, e]` (see [`leap_day_within`]).
fn leap_day_in(s: i64, e: i64, y: i64) -> (r: bool)
    requires
        1900 <= y <= 9999,
    ensures
        r == leap_day_within(s as int, e as int, y as int),
{
    if !is_leap(y) {
        return false;
    }
    let feb29 = serial_from_ymd(y, 2, 29);
    s <= feb29 && feb29 <= e
}

/// Compute the actual/actual year length (see [`spec_yf_actual_year`]).
pub fn yf_actual_year(s: i64, e: i64) -> (r: (i64, i64))
    requires
        1 <= s <= e <= MAX_SERIAL,
    ensures
        (r.0 as int, r.1 as int) == spec_yf_actual_year(s as int, e as int),
        r.1 >= 1,
{
    let (y1, m1, d1) = serial_to_ymd(s);
    let (y2, m2, d2) = serial_to_ymd(e);
    if y1 == y2 {
        (if is_leap(y1) { 366 } else { 365 }, 1)
    } else if y2 - y1 == 1 && (m1 > m2 || (m1 == m2 && d1 >= d2)) {
        (if leap_day_in(s, e, y1) || leap_day_in(s, e, y2) { 366 } else { 365 }, 1)
    } else {
        let mut total: i64 = 0;
        let mut y: i64 = y1;
        while y <= y2
            invariant
                1900 <= y1 <= y <= y2 + 1,
                y2 <= 9999,
                total == year_days_total(y1 as int, y - 1),
                0 <= total <= 366 * (y - y1),
            decreases y2 + 1 - y,
        {
            total = total + if is_leap(y) { 366 } else { 365 };
            y = y + 1;
        }
        (total, y2 - y1 + 1)
    }
}

/// What `YEARFRAC` gives for two ordered serials `s <= e` and a basis (see [`yearfrac_value`]).
pub open spec fn spec_yearfrac<N: Number>(s: int, e: int, basis: i64) -> Value<N> {
    if basis == 0 || basis == 4 {
        spec_finite_or_num(N::spec_from_int(spec_yf_30_360_days(s, e, basis == 4) as i64).spec_over(N::spec_from_int(360)))
    } else if basis == 1 {
        if s == e {
            Value::Number(N::spec_from_int(0))
        } else {
            let total = spec_yf_actual_year(s, e).0;
            let years = spec_yf_actual_year(s, e).1;
            let year_len = if years == 1 {
                N::spec_from_int(total as i64)
            } else {
                N::spec_from_int(total as i64).spec_over(N::spec_from_int(years as i64))
            };
            spec_finite_or_num(N::spec_from_int((e - s) as i64).spec_over(year_len))
        }
    } else if basis == 2 {
        spec_finite_or_num(N::spec_from_int((e - s) as i64).spec_over(N::spec_from_int(360)))
    } else if basis == 3 {
        spec_finite_or_num(N::spec_from_int((e - s) as i64).spec_over(N::spec_from_int(365)))
    } else {
        Value::Error(ErrKind::Num)
    }
}

/// The `YEARFRAC` of two ordered serials `s <= e` under a day-count basis: 0 30/360 US, 1
/// actual/actual, 2 actual/360, 3 actual/365, 4 30E/360 — the day count (see
/// [`spec_yf_30_360_days`], or the actual elapsed days) over the year length (360, 365, or
/// [`spec_yf_actual_year`]), computed in the number domain. Any other basis is `#NUM!`.
pub fn yearfrac_value<N: Number>(s: i64, e: i64, basis: i64) -> (r: Value<N>)
    requires
        1 <= s <= e <= MAX_SERIAL,
    ensures
        !(0 <= basis <= 4) ==> r == Value::<N>::Error(ErrKind::Num),
        0 <= basis <= 4 ==> (r is Number || r == Value::<N>::Error(ErrKind::Num)),
        basis == 1 && s == e ==> r == Value::<N>::Number(N::spec_from_int(0)),
        r == spec_yearfrac::<N>(s as int, e as int, basis),
{
    let frac: N = if basis == 0 || basis == 4 {
        N::from_int(yf_30_360_days(s, e, basis == 4)).over(N::from_int(360))
    } else if basis == 1 {
        if s == e {
            return Value::Number(N::from_int(0));
        }
        let (total, years) = yf_actual_year(s, e);
        let year_len = if years == 1 { N::from_int(total) } else { N::from_int(total).over(N::from_int(years)) };
        N::from_int(e - s).over(year_len)
    } else if basis == 2 {
        N::from_int(e - s).over(N::from_int(360))
    } else if basis == 3 {
        N::from_int(e - s).over(N::from_int(365))
    } else {
        return Value::Error(ErrKind::Num);
    };
    finite_or_num(frac)
}

/// What [`yearfrac_fn`] is stated to give, for a context `ctx` and arguments `args`.
pub open spec fn yearfrac_fn_gives<'r, N: Number, R: Resolver<N>>(ctx: EvalCtx<'r, R>, args: Seq<Expr<N>>, r: Value<N>) -> bool {
    &&& r is Number || r is Error
    &&& room(ctx) ==> (lit_num(args[0]) matches Some(x) ==> (lit_num(args[1]) matches Some(y)
        ==> (lit_arg(args, 2, N::spec_from_int(0)) matches Some(z) ==> r == match (spec_serial_arg(x), spec_serial_arg(y)) {
        (Err(k), _) => Value::<N>::Error(k),
        (Ok(_), Err(k)) => Value::<N>::Error(k),
        (Ok(a), Ok(b)) => {
            let basis = if args.len() == 3 { z.spec_trunc_int() } else { 0i64 };
            if a <= b { spec_yearfrac::<N>(a as int, b as int, basis) } else { spec_yearfrac::<N>(b as int, a as int, basis) }
        },
    })))
}

/// `YEARFRAC(start_date, end_date, [basis])` — the fraction of a year between two dates, in either
/// order (see [`yearfrac_value`]); the basis defaults to 0.
pub fn yearfrac_fn<N: Number, R: Resolver<N>>(ctx: &mut EvalCtx<R>, args: &[Expr<N>]) -> (r: Value<N>)
    requires
        2 <= args.len() <= 3,
    ensures
        restored(*old(ctx), *final(ctx)),
        r is Number || r is Error,
        room(*old(ctx)) ==> (lit_num(args[0]) matches Some(x) ==> (lit_num(args[1]) matches Some(y)
            ==> (lit_arg(args@, 2, N::spec_from_int(0)) matches Some(z) ==> r == match (spec_serial_arg(x), spec_serial_arg(y)) {
            (Err(k), _) => Value::<N>::Error(k),
            (Ok(_), Err(k)) => Value::<N>::Error(k),
            (Ok(a), Ok(b)) => {
                let basis = if args@.len() == 3 { z.spec_trunc_int() } else { 0i64 };
                if a <= b { spec_yearfrac::<N>(a as int, b as int, basis) } else { spec_yearfrac::<N>(b as int, a as int, basis) }
            },
        }))),
    decreases args_size(args@), 7nat,
{
    proof {
        lemma_arg_size(args@, 0);
        lemma_arg_size(args@, 1);
    }
    let a = match date_serial_arg(ctx, &args[0]) {
        Ok(v) => v,
        Err(k) => {
            return Value::Error(k);
        },
    };
    let b = match date_serial_arg(ctx, &args[1]) {
        Ok(v) => v,
        Err(k) => {
            return Value::Error(k);
        },
    };
    let basis = match opt_int_arg(ctx, args, 2, 0) {
        Ok(v) => v,
        Err(k) => {
            return Value::Error(k);
        },
    };
    if a <= b {
        yearfrac_value(a, b, basis)
    } else {
        yearfrac_value(b, a, basis)
    }
}

/// A serial is not a working day: a Saturday, a Sunday or a holiday.
pub open spec fn day_off(d: int, holidays: Seq<i64>) -> bool {
    spec_weekday_sun1(d) == 1 || spec_weekday_sun1(d) == 7 || holidays.contains(d as i64)
}

/// Walk from `cur` one serial at a time (up or down) until `remaining` working days have been
/// passed; stepping out of the serial band is `#NUM!`.
pub open spec fn workday_walk(cur: int, remaining: nat, up: bool, holidays: Seq<i64>) -> Result<int, ErrKind>
    decreases remaining, (if up { MAX_SERIAL + 1 - cur } else { cur }),
{
    if remaining == 0 {
        Ok(cur)
    } else {
        let next = if up { cur + 1 } else { cur - 1 };
        if !(1 <= next <= MAX_SERIAL) {
            Err(ErrKind::Num)
        } else if day_off(next, holidays) {
            workday_walk(next, remaining, up, holidays)
        } else {
            workday_walk(next, (remaining - 1) as nat, up, holidays)
        }
    }
}

/// The serial `days` working days after `start` (before it when `days` is negative), skipping
/// weekends and `holidays` (see [`workday_walk`]).
pub open spec fn spec_workday(start: int, days: int, holidays: Seq<i64>) -> Result<int, ErrKind> {
    workday_walk(start, (if days >= 0 { days } else { -days }) as nat, days >= 0, holidays)
}

/// Whether `holidays` lists `d`.
fn is_holiday(holidays: &Vec<i64>, d: i64) -> (r: bool)
    ensures
        r == holidays@.contains(d),
{
    let mut i: usize = 0;
    while i < holidays.len()
        invariant
            i <= holidays@.len(),
            forall|k: int| 0 <= k < i ==> holidays@[k] != d,
        decreases holidays@.len() - i,
    {
        if holidays[i] == d {
            return true;
        }
        i = i + 1;
    }
    false
}

/// Whether serial `d` is not a working day (see [`day_off`]).
fn is_day_off(d: i64, holidays: &Vec<i64>) -> (r: bool)
    requires
        1 <= d <= MAX_SERIAL,
    ensures
        r == day_off(d as int, holidays@),
{
    let wd: i64 = (d - 1) % 7 + 1;
    wd == 1 || wd == 7 || is_holiday(holidays, d)
}

/// Compute a `WORKDAY` (see [`spec_workday`]).
pub fn workday_value(start: i64, days: i64, holidays: &Vec<i64>) -> (r: Result<i64, ErrKind>)
    requires
        1 <= start <= MAX_SERIAL,
        -1_000_000_000_000_000 <= days <= 1_000_000_000_000_000,
    ensures
        match r {
            Ok(v) => spec_workday(start as int, days as int, holidays@) == Ok::<int, ErrKind>(v as int),
            Err(k) => spec_workday(start as int, days as int, holidays@) == Err::<int, ErrKind>(k),
        },
{
    let up = days >= 0;
    let mut remaining: i64 = if up { days } else { -days };
    let mut cur: i64 = start;
    while remaining > 0
        invariant
            1 <= cur <= MAX_SERIAL,
            0 <= remaining,
            up == (days >= 0),
            workday_walk(cur as int, remaining as nat, up, holidays@) == spec_workday(start as int, days as int, holidays@),
        decreases remaining, (if up { MAX_SERIAL + 1 - cur } else { cur as int }),
    {
        let next = if up { cur + 1 } else { cur - 1 };
        if next < 1 || next > MAX_SERIAL {
            return Err(ErrKind::Num);
        }
        if !is_day_off(next, holidays) {
            remaining = remaining - 1;
        }
        cur = next;
    }
    Ok(cur)
}

/// The number of working days among the serials `lo..=hi`.
pub open spec fn working_days(lo: int, hi: int, holidays: Seq<i64>) -> int
    decreases hi - lo + 1,
{
    if hi < lo {
        0
    } else {
        working_days(lo, hi - 1, holidays) + if day_off(hi, holidays) { 0int } else { 1int }
    }
}

/// The `NETWORKDAYS` between two serials: the working days of the inclusive interval, negated
/// when `end` precedes `start`.
pub open spec fn spec_networkdays(start: int, end: int, holidays: Seq<i64>) -> int {
    if start <= end { working_days(start, end, holidays) } else { -working_days(end, start, holidays) }
}

/// Compute a `NETWORKDAYS` (see [`spec_networkdays`]).
pub fn networkdays_value(start: i64, end: i64, holidays: &Vec<i64>) -> (r: i64)
    requires
        1 <= start <= MAX_SERIAL,
        1 <= end <= MAX_SERIAL,
    ensures
        r == spec_networkdays(start as int, end as int, holidays@),
{
    let (lo, hi) = if start <= end { (start, end) } else { (end, start) };
    let mut count: i64 = 0;
    let mut cur: i64 = lo;
    while cur <= hi
        invariant
            1 <= lo <= cur <= hi + 1,
            hi <= MAX_SERIAL,
            0 <= count <= cur - lo,
            count == working_days(lo as int, cur - 1, holidays@),
        decreases hi + 1 - cur,
    {
        if !is_day_off(cur, holidays) {
            count = count + 1;
        }
        cur = cur + 1;
    }
    if start <= end { count } else { -count }
}

/// Add one `holidays` cell to the list: a blank is skipped, an error propagates, anything else is
/// coerced to a number and floored to its serial.
fn push_holiday<N: Number>(v: &Value<N>, list: &mut Vec<i64>) -> (r: Result<(), ErrKind>)
    ensures
        *v is Blank ==> r is Ok && final(list)@ == old(list)@,
        *v matches Value::Error(k) ==> r == Err::<(), ErrKind>(k),
        *v matches Value::Number(n) ==> r is Ok && final(list)@ == old(list)@.push(n.spec_floor_int()),
        r is Ok ==> final(list)@.len() <= old(list)@.len() + 1,
{
    match v {
        Value::Blank => Ok(()),
        Value::Error(k) => Err(*k),
        _ => match coerce_num(v) {
            Ok(n) => {
                list.push(n.floor_int());
                Ok(())
            },
            Err(k) => Err(k),
        },
    }
}

/// Evaluate the optional `holidays` argument (a scalar, range or array) to the serials it lists.
fn opt_holidays<N: Number, R: Resolver<N>>(ctx: &mut EvalCtx<R>, args: &[Expr<N>], i: usize) -> (r: Result<Vec<i64>, ErrKind>)
    ensures
        restored(*old(ctx), *final(ctx)),
        i >= args.len() ==> (r matches Ok(h) && h@.len() == 0),
        room(*old(ctx)) && i < args@.len() ==> match args[i as int] {
            Expr::Lit(Value::Number(x)) => r matches Ok(h) && h@ == seq![x.spec_floor_int()],
            Expr::Lit(Value::Blank) => r matches Ok(h) && h@.len() == 0,
            Expr::Lit(Value::Error(k)) => r == Err::<Vec<i64>, ErrKind>(k),
            _ => true,
        },
    decreases args_size(args@), 4nat,
{
    let mut list: Vec<i64> = Vec::new();
    if i >= args.len() {
        return Ok(list);
    }
    proof {
        lemma_arg_size(args@, i as int);
    }
    match ctx.eval(&args[i]) {
        Value::Array(_, cells) => {
            let mut k: usize = 0;
            while k < cells.len()
                invariant
                    k <= cells@.len(),
                    i < args.len(),
                    restored(*old(ctx), *ctx),
                    room(*old(ctx)) ==> !(args@[i as int] matches Expr::Lit(v) && (v is Number || v is Blank || v is Error)),
                decreases cells@.len() - k,
            {
                match push_holiday(&cells[k], &mut list) {
                    Ok(()) => {},
                    Err(e) => {
                        return Err(e);
                    },
                }
                k = k + 1;
            }
        },
        other => {
            match push_holiday(&other, &mut list) {
                Ok(()) => {},
                Err(e) => {
                    return Err(e);
                },
            }
        },
    }
    Ok(list)
}

/// What [`workday_fn`] is stated to give, for a context `ctx` and arguments `args`.
pub open spec fn workday_fn_gives<'r, N: Number, R: Resolver<N>>(ctx: EvalCtx<'r, R>, args: Seq<Expr<N>>, r: Value<N>) -> bool {
    &&& r is Number || r is Error
    &&& room(ctx) && args.len() == 2 ==> (lit_num(args[0]) matches Some(x) ==> (lit_num(args[1]) matches Some(y) ==> r == match (spec_serial_arg(x), spec_date_int(y)) {
        (Err(k), _) => Value::<N>::Error(k),
        (Ok(_), Err(k)) => Value::<N>::Error(k),
        (Ok(s), Ok(d)) => int_value(spec_workday(s as int, d as int, Seq::empty())),
    }))
}

/// `WORKDAY(start_date, days, [holidays])` — the date `days` working days away (see
/// [`workday_value`]); leaving the serial band is `#NUM!`.
pub fn workday_fn<N: Number, R: Resolver<N>>(ctx: &mut EvalCtx<R>, args: &[Expr<N>]) -> (r: Value<N>)
    requires
        2 <= args.len() <= 3,
    ensures
        restored(*old(ctx), *final(ctx)),
        r is Number || r is Error,
        room(*old(ctx)) && args@.len() == 2 ==> (lit_num(args[0]) matches Some(x) ==> (lit_num(args[1]) matches Some(y) ==> r == match (spec_serial_arg(x), spec_date_int(y)) {
            (Err(k), _) => Value::<N>::Error(k),
            (Ok(_), Err(k)) => Value::<N>::Error(k),
            (Ok(s), Ok(d)) => int_value(spec_workday(s as int, d as int, Seq::empty())),
        })),
    decreases args_size(args@), 7nat,
{
    proof {
        lemma_arg_size(args@, 0);
        lemma_arg_size(args@, 1);
    }
    let start = match date_serial_arg(ctx, &args[0]) {
        Ok(v) => v,
        Err(k) => {
            return Value::Error(k);
        },
    };
    let days = match date_int_arg(ctx, &args[1]) {
        Ok(v) => v,
        Err(k) => {
            return Value::Error(k);
        },
    };
    let holidays = match opt_holidays(ctx, args, 2) {
        Ok(h) => h,
        Err(k) => {
            return Value::Error(k);
        },
    };
    proof {
        if args.len() == 2 {
            assert(holidays@ =~= Seq::<i64>::empty());
        }
    }
    match workday_value(start, days, &holidays) {
        Ok(v) => Value::Number(N::from_int(v)),
        Err(k) => Value::Error(k),
    }
}

/// What [`networkdays_fn`] is stated to give, for a context `ctx` and arguments `args`.
pub open spec fn networkdays_fn_gives<'r, N: Number, R: Resolver<N>>(ctx: EvalCtx<'r, R>, args: Seq<Expr<N>>, r: Value<N>) -> bool {
    &&& r is Number || r is Error
    &&& room(ctx) && args.len() == 2 ==> (lit_num(args[0]) matches Some(x) ==> (lit_num(args[1]) matches Some(y) ==> r == match (spec_serial_arg(x), spec_serial_arg(y)) {
        (Err(k), _) => Value::<N>::Error(k),
        (Ok(_), Err(k)) => Value::<N>::Error(k),
        (Ok(s), Ok(e)) => Value::Number(N::spec_from_int(spec_networkdays(s as int, e as int, Seq::empty()) as i64)),
    }))
}

/// `NETWORKDAYS(start_date, end_date, [holidays])` — the signed count of working days between two
/// dates, inclusive (see [`networkdays_value`]).
pub fn networkdays_fn<N: Number, R: Resolver<N>>(ctx: &mut EvalCtx<R>, args: &[Expr<N>]) -> (r: Value<N>)
    requires
        2 <= args.len() <= 3,
    ensures
        restored(*old(ctx), *final(ctx)),
        r is Number || r is Error,
        room(*old(ctx)) && args@.len() == 2 ==> (lit_num(args[0]) matches Some(x) ==> (lit_num(args[1]) matches Some(y) ==> r == match (spec_serial_arg(x), spec_serial_arg(y)) {
            (Err(k), _) => Value::<N>::Error(k),
            (Ok(_), Err(k)) => Value::<N>::Error(k),
            (Ok(s), Ok(e)) => Value::Number(N::spec_from_int(spec_networkdays(s as int, e as int, Seq::empty()) as i64)),
        })),
    decreases args_size(args@), 7nat,
{
    proof {
        lemma_arg_size(args@, 0);
        lemma_arg_size(args@, 1);
    }
    let s = match date_serial_arg(ctx, &args[0]) {
        Ok(v) => v,
        Err(k) => {
            return Value::Error(k);
        },
    };
    let e = match date_serial_arg(ctx, &args[1]) {
        Ok(v) => v,
        Err(k) => {
            return Value::Error(k);
        },
    };
    let holidays = match opt_holidays(ctx, args, 2) {
        Ok(h) => h,
        Err(k) => {
            return Value::Error(k);
        },
    };
    proof {
        if args.len() == 2 {
            assert(holidays@ =~= Seq::<i64>::empty());
        }
    }
    Value::Number(N::from_int(networkdays_value(s, e, &holidays)))
}

/// The time of day, in whole seconds, of a serial (see [`time_of_day_seconds`]).
pub open spec fn spec_time_of_day<N: Number>(n: N) -> Result<i64, ErrKind> {
    if n.spec_order(N::spec_from_int(0)) == Some(Order::Less) || n.spec_order(N::spec_from_int((MAX_SERIAL + 1) as i64)) != Some(Order::Less) {
        Err(ErrKind::Num)
    } else {
        let secs = n.spec_minus(n.spec_floor_of()).spec_times(N::spec_from_int(86400)).spec_round_of().spec_trunc_int();
        let m = secs % 86400;
        Ok(if m < 0 { (m + 86400) as i64 } else { m as i64 })
    }
}

/// A `TIME` component from its number (see [`time_component_arg`]).
pub open spec fn spec_time_component<N: Number>(x: N) -> Result<i64, ErrKind> {
    let n = x.spec_trunc_of();
    let t = n.spec_trunc_int();
    if n.spec_order(N::spec_from_int(0)) == Some(Order::Less) || N::spec_from_int(32767).spec_order(n) == Some(Order::Less)
        || !n.spec_finite() || t < 0 || t > 32767 {
        Err(ErrKind::Num)
    } else {
        Ok(t)
    }
}

/// Evaluate a serial argument to its time of day in whole seconds, `0..86400`: the fraction of the
/// day, rounded to the nearest second (a hair under midnight rolls over to 0). A serial outside
/// `[0, MAX_SERIAL + 1)` is `#NUM!`.
fn time_of_day_seconds<N: Number, R: Resolver<N>>(ctx: &mut EvalCtx<R>, e: &Expr<N>) -> (r: Result<i64, ErrKind>)
    ensures
        restored(*old(ctx), *final(ctx)),
        r matches Ok(v) ==> 0 <= v < 86400,
        room(*old(ctx)) ==> (lit_num(*e) matches Some(x) ==> r == spec_time_of_day(x)),
        exists|v: Value<N>, c: Result<N, ErrKind>| #![trigger arg_value(*old(ctx), *e, v), num_coercion(spec_scalarize(v), c)]
            arg_value(*old(ctx), *e, v) && num_coercion(spec_scalarize(v), c) && r == match c {
                Err(k) => Err::<i64, ErrKind>(k),
                Ok(n) => spec_time_of_day(n),
            },
    decreases crate::expr::expr_size(*e), 4nat,
{
    let res = one_num(ctx, e);
    let n = match res {
        Ok(n) => n,
        Err(k) => {
            return Err(k);
        },
    };
    if less_than(n, N::from_int(0)) || !less_than(n, N::from_int(MAX_SERIAL + 1)) {
        return Err(ErrKind::Num);
    }
    let frac = n.minus(n.floor_of());
    let secs = frac.times(N::from_int(86400)).round_of().trunc_int();
    let m: i64 = secs % 86400;
    if m < 0 { Ok(m + 86400) } else { Ok(m) }
}

/// A part of a time of day, read from its seconds.
#[derive(Clone, Copy, Debug, PartialEq, Eq)]
pub enum ClockPart {
    Hour,
    Minute,
    Second,
}

/// The hour (0–23), minute (0–59) or second (0–59) of a time of day in seconds.
pub open spec fn spec_clock_part(secs: int, part: ClockPart) -> int {
    match part {
        ClockPart::Hour => secs / 3600,
        ClockPart::Minute => secs / 60 % 60,
        ClockPart::Second => secs % 60,
    }
}

/// The clock part a coerced serial gives: its error, the `#NUM!` of a serial out of band, or the
/// part of its time of day (see [`spec_time_of_day`], [`spec_clock_part`]).
pub open spec fn clock_value<N: Number>(c: Result<N, ErrKind>, part: ClockPart) -> Value<N> {
    match c {
        Err(k) => Value::Error(k),
        Ok(n) => match spec_time_of_day(n) {
            Err(k) => Value::Error(k),
            Ok(secs) => Value::Number(N::spec_from_int(spec_clock_part(secs as int, part) as i64)),
        },
    }
}

/// `HOUR`/`MINUTE`/`SECOND` of a serial's time of day (see [`spec_clock_part`]).
fn clock_fn<N: Number, R: Resolver<N>>(ctx: &mut EvalCtx<R>, args: &[Expr<N>], part: ClockPart) -> (r: Value<N>)
    requires
        args.len() == 1,
    ensures
        restored(*old(ctx), *final(ctx)),
        r is Number || r is Error,
        r matches Value::Number(x) ==> exists|secs: int| 0 <= secs < 86400
            && x == N::spec_from_int(#[trigger] spec_clock_part(secs, part) as i64),
        exists|v: Value<N>, c: Result<N, ErrKind>| #![trigger arg_value(*old(ctx), args@[0], v), num_coercion(spec_scalarize(v), c)]
            arg_value(*old(ctx), args@[0], v) && num_coercion(spec_scalarize(v), c) && r == clock_value(c, part),
    decreases args_size(args@), 6nat,
{
    proof {
        lemma_arg_size(args@, 0);
    }
    match time_of_day_seconds(ctx, &args[0]) {
        Ok(secs) => {
            let v: i64 = match part {
                ClockPart::Hour => secs / 3600,
                ClockPart::Minute => secs / 60 % 60,
                ClockPart::Second => secs % 60,
            };
            assert(v == spec_clock_part(secs as int, part));
            Value::Number(N::from_int(v))
        },
        Err(k) => Value::Error(k),
    }
}

/// What [`hour_fn`] is stated to give, for a context `ctx` and arguments `args`.
pub open spec fn hour_fn_gives<'r, N: Number, R: Resolver<N>>(ctx: EvalCtx<'r, R>, args: Seq<Expr<N>>, r: Value<N>) -> bool {
    &&& r matches Value::Number(x) ==> exists|secs: int| 0 <= secs < 86400
        && x == N::spec_from_int(#[trigger] spec_clock_part(secs, ClockPart::Hour) as i64)
    &&& r is Number || r is Error
}

/// What [`hour_fn`] is stated to give for the values its arguments evaluate to in `ctx`.
pub open spec fn hour_fn_reads<'r, N: Number, R: Resolver<N>>(ctx: EvalCtx<'r, R>, args: Seq<Expr<N>>, r: Value<N>) -> bool {
    &&& exists|v: Value<N>, c: Result<N, ErrKind>| #![trigger arg_value(ctx, args[0], v), num_coercion(spec_scalarize(v), c)]
        arg_value(ctx, args[0], v) && num_coercion(spec_scalarize(v), c) && r == clock_value(c, ClockPart::Hour)
}

/// `HOUR(serial)` — the hour (0–23) of a serial's time of day.
pub fn hour_fn<N: Number, R: Resolver<N>>(ctx: &mut EvalCtx<R>, args: &[Expr<N>]) -> (r: Value<N>)
    requires
        args.len() == 1,
    ensures
        restored(*old(ctx), *final(ctx)),
        r matches Value::Number(x) ==> exists|secs: int| 0 <= secs < 86400
            && x == N::spec_from_int(#[trigger] spec_clock_part(secs, ClockPart::Hour) as i64),
        r is Number || r is Error,
        exists|v: Value<N>, c: Result<N, ErrKind>| #![trigger arg_value(*old(ctx), args@[0], v), num_coercion(spec_scalarize(v), c)]
            arg_value(*old(ctx), args@[0], v) && num_coercion(spec_scalarize(v), c) && r == clock_value(c, ClockPart::Hour),
    decreases args_size(args@), 7nat,
{
    clock_fn(ctx, args, ClockPart::Hour)
}

/// What [`minute_fn`] is stated to give, for a context `ctx` and arguments `args`.
pub open spec fn minute_fn_gives<'r, N: Number, R: Resolver<N>>(ctx: EvalCtx<'r, R>, args: Seq<Expr<N>>, r: Value<N>) -> bool {
    &&& r matches Value::Number(x) ==> exists|secs: int| 0 <= secs < 86400
        && x == N::spec_from_int(#[trigger] spec_clock_part(secs, ClockPart::Minute) as i64)
    &&& r is Number || r is Error
}

/// What [`minute_fn`] is stated to give for the values its arguments evaluate to in `ctx`.
pub open spec fn minute_fn_reads<'r, N: Number, R: Resolver<N>>(ctx: EvalCtx<'r, R>, args: Seq<Expr<N>>, r: Value<N>) -> bool {
    &&& exists|v: Value<N>, c: Result<N, ErrKind>| #![trigger arg_value(ctx, args[0], v), num_coercion(spec_scalarize(v), c)]
        arg_value(ctx, args[0], v) && num_coercion(spec_scalarize(v), c) && r == clock_value(c, ClockPart::Minute)
}

/// `MINUTE(serial)` — the minute (0–59) of a serial's time of day.
pub fn minute_fn<N: Number, R: Resolver<N>>(ctx: &mut EvalCtx<R>, args: &[Expr<N>]) -> (r: Value<N>)
    requires
        args.len() == 1,
    ensures
        restored(*old(ctx), *final(ctx)),
        r matches Value::Number(x) ==> exists|secs: int| 0 <= secs < 86400
            && x == N::spec_from_int(#[trigger] spec_clock_part(secs, ClockPart::Minute) as i64),
        r is Number || r is Error,
        exists|v: Value<N>, c: Result<N, ErrKind>| #![trigger arg_value(*old(ctx), args@[0], v), num_coercion(spec_scalarize(v), c)]
            arg_value(*old(ctx), args@[0], v) && num_coercion(spec_scalarize(v), c) && r == clock_value(c, ClockPart::Minute),
    decreases args_size(args@), 7nat,
{
    clock_fn(ctx, args, ClockPart::Minute)
}

/// What [`second_fn`] is stated to give, for a context `ctx` and arguments `args`.
pub open spec fn second_fn_gives<'r, N: Number, R: Resolver<N>>(ctx: EvalCtx<'r, R>, args: Seq<Expr<N>>, r: Value<N>) -> bool {
    &&& r matches Value::Number(x) ==> exists|secs: int| 0 <= secs < 86400
        && x == N::spec_from_int(#[trigger] spec_clock_part(secs, ClockPart::Second) as i64)
    &&& r is Number || r is Error
}

/// What [`second_fn`] is stated to give for the values its arguments evaluate to in `ctx`.
pub open spec fn second_fn_reads<'r, N: Number, R: Resolver<N>>(ctx: EvalCtx<'r, R>, args: Seq<Expr<N>>, r: Value<N>) -> bool {
    &&& exists|v: Value<N>, c: Result<N, ErrKind>| #![trigger arg_value(ctx, args[0], v), num_coercion(spec_scalarize(v), c)]
        arg_value(ctx, args[0], v) && num_coercion(spec_scalarize(v), c) && r == clock_value(c, ClockPart::Second)
}

/// `SECOND(serial)` — the second (0–59) of a serial's time of day.
pub fn second_fn<N: Number, R: Resolver<N>>(ctx: &mut EvalCtx<R>, args: &[Expr<N>]) -> (r: Value<N>)
    requires
        args.len() == 1,
    ensures
        restored(*old(ctx), *final(ctx)),
        r matches Value::Number(x) ==> exists|secs: int| 0 <= secs < 86400
            && x == N::spec_from_int(#[trigger] spec_clock_part(secs, ClockPart::Second) as i64),
        r is Number || r is Error,
        exists|v: Value<N>, c: Result<N, ErrKind>| #![trigger arg_value(*old(ctx), args@[0], v), num_coercion(spec_scalarize(v), c)]
            arg_value(*old(ctx), args@[0], v) && num_coercion(spec_scalarize(v), c) && r == clock_value(c, ClockPart::Second),
    decreases args_size(args@), 7nat,
{
    clock_fn(ctx, args, ClockPart::Second)
}

/// Evaluate a `TIME` component: truncated toward zero; outside `0..=32767` is `#NUM!`.
fn time_component_arg<N: Number, R: Resolver<N>>(ctx: &mut EvalCtx<R>, e: &Expr<N>) -> (r: Result<i64, ErrKind>)
    ensures
        restored(*old(ctx), *final(ctx)),
        r matches Ok(v) ==> 0 <= v <= 32767,
        room(*old(ctx)) ==> (lit_num(*e) matches Some(x) ==> r == spec_time_component(x)),
    decreases crate::expr::expr_size(*e), 4nat,
{
    let n = one_num(ctx, e)?.trunc_of();
    if less_than(n, N::from_int(0)) || less_than(N::from_int(32767), n) || !n.finite() {
        return Err(ErrKind::Num);
    }
    let t = n.trunc_int();
    if t < 0 || t > 32767 {
        return Err(ErrKind::Num);
    }
    Ok(t)
}

/// The time of day, in seconds, of `h` hours, `m` minutes and `s` seconds, rolled over a 24-hour
/// day.
pub fn time_seconds(h: i64, m: i64, s: i64) -> (r: i64)
    requires
        0 <= h <= 32767,
        0 <= m <= 32767,
        0 <= s <= 32767,
    ensures
        r == (h * 3600 + m * 60 + s) % 86400,
        0 <= r < 86400,
{
    (h * 3600 + m * 60 + s) % 86400
}

/// What [`time_fn`] is stated to give, for a context `ctx` and arguments `args`.
pub open spec fn time_fn_gives<'r, N: Number, R: Resolver<N>>(ctx: EvalCtx<'r, R>, args: Seq<Expr<N>>, r: Value<N>) -> bool {
    &&& r is Number || r is Error
    &&& room(ctx) ==> (lit_num(args[0]) matches Some(x) ==> (lit_num(args[1]) matches Some(y) ==> (lit_num(args[2]) matches Some(z) ==> r == match (spec_time_component(x), spec_time_component(y), spec_time_component(z)) {
        (Err(k), _, _) => Value::<N>::Error(k),
        (Ok(_), Err(k), _) => Value::<N>::Error(k),
        (Ok(_), Ok(_), Err(k)) => Value::<N>::Error(k),
        (Ok(h), Ok(m), Ok(s)) => Value::Number(N::spec_from_int(((h * 3600 + m * 60 + s) % 86400) as i64).spec_over(N::spec_from_int(86400))),
    })))
}

/// `TIME(hour, minute, second)` — the day fraction of a time of day (see [`time_seconds`]): the
/// seconds over 86400, computed in the number domain.
pub fn time_fn<N: Number, R: Resolver<N>>(ctx: &mut EvalCtx<R>, args: &[Expr<N>]) -> (r: Value<N>)
    requires
        args.len() == 3,
    ensures
        restored(*old(ctx), *final(ctx)),
        r is Number || r is Error,
        room(*old(ctx)) ==> (lit_num(args[0]) matches Some(x) ==> (lit_num(args[1]) matches Some(y) ==> (lit_num(args[2]) matches Some(z) ==> r == match (spec_time_component(x), spec_time_component(y), spec_time_component(z)) {
            (Err(k), _, _) => Value::<N>::Error(k),
            (Ok(_), Err(k), _) => Value::<N>::Error(k),
            (Ok(_), Ok(_), Err(k)) => Value::<N>::Error(k),
            (Ok(h), Ok(m), Ok(s)) => Value::Number(N::spec_from_int(((h * 3600 + m * 60 + s) % 86400) as i64).spec_over(N::spec_from_int(86400))),
        }))),
    decreases args_size(args@), 7nat,
{
    proof {
        lemma_arg_size(args@, 0);
        lemma_arg_size(args@, 1);
        lemma_arg_size(args@, 2);
    }
    let h = match time_component_arg(ctx, &args[0]) {
        Ok(v) => v,
        Err(k) => {
            return Value::Error(k);
        },
    };
    let m = match time_component_arg(ctx, &args[1]) {
        Ok(v) => v,
        Err(k) => {
            return Value::Error(k);
        },
    };
    let s = match time_component_arg(ctx, &args[2]) {
        Ok(v) => v,
        Err(k) => {
            return Value::Error(k);
        },
    };
    Value::Number(N::from_int(time_seconds(h, m, s)).over(N::from_int(86400)))
}

/// Counting working days from the front: the first serial of the interval counts unless it is a
/// day off, then the rest.
proof fn lemma_working_days_front(lo: int, hi: int, holidays: Seq<i64>)
    requires
        lo <= hi,
    ensures
        working_days(lo, hi, holidays) == (if day_off(lo, holidays) { 0int } else { 1int }) + working_days(lo + 1, hi, holidays),
    decreases hi - lo,
{
    let x = if day_off(hi, holidays) { 0int } else { 1int };
    assert(working_days(lo, hi, holidays) == working_days(lo, hi - 1, holidays) + x);
    if hi > lo {
        lemma_working_days_front(lo, hi - 1, holidays);
        assert(working_days(lo + 1, hi, holidays) == working_days(lo + 1, hi - 1, holidays) + x);
    } else {
        assert(working_days(lo, hi - 1, holidays) == 0);
        assert(working_days(lo + 1, hi, holidays) == 0);
    }
}

/// A forward walk passes exactly `remaining` working days after `cur`.
proof fn lemma_walk_counts_up(cur: int, remaining: nat, holidays: Seq<i64>)
    requires
        workday_walk(cur, remaining, true, holidays) is Ok,
    ensures
        cur <= workday_walk(cur, remaining, true, holidays)->Ok_0,
        remaining > 0 ==> cur < workday_walk(cur, remaining, true, holidays)->Ok_0,
        working_days(cur + 1, workday_walk(cur, remaining, true, holidays)->Ok_0, holidays) == remaining,
    decreases remaining, MAX_SERIAL + 1 - cur,
{
    if remaining > 0 {
        let next = cur + 1;
        let r = workday_walk(cur, remaining, true, holidays)->Ok_0;
        if day_off(next, holidays) {
            lemma_walk_counts_up(next, remaining, holidays);
        } else {
            lemma_walk_counts_up(next, (remaining - 1) as nat, holidays);
        }
        lemma_working_days_front(next, r, holidays);
    }
}

/// A backward walk passes exactly `remaining` working days before `cur`.
proof fn lemma_walk_counts_down(cur: int, remaining: nat, holidays: Seq<i64>)
    requires
        workday_walk(cur, remaining, false, holidays) is Ok,
    ensures
        workday_walk(cur, remaining, false, holidays)->Ok_0 <= cur,
        remaining > 0 ==> workday_walk(cur, remaining, false, holidays)->Ok_0 < cur,
        working_days(workday_walk(cur, remaining, false, holidays)->Ok_0, cur - 1, holidays) == remaining,
    decreases remaining, cur,
{
    if remaining > 0 {
        let next = cur - 1;
        if day_off(next, holidays) {
            lemma_walk_counts_down(next, remaining, holidays);
        } else {
            lemma_walk_counts_down(next, (remaining - 1) as nat, holidays);
        }
    }
}

/// `WORKDAY` and `NETWORKDAYS` agree: `WORKDAY(start, n)` for `n > 0` is a later serial with exactly
/// `n` working days from the day after `start` through it (`NETWORKDAYS(start + 1, result) = n`);
/// for `n < 0` an earlier serial with exactly `−n` working days from it through the day before
/// `start`; for `n = 0` it is `start`.
pub proof fn law_workday_counts_working_days(start: int, days: int, holidays: Seq<i64>)
    requires
        spec_workday(start, days, holidays) is Ok,
    ensures
        days == 0 ==> spec_workday(start, days, holidays)->Ok_0 == start,
        days > 0 ==> start < spec_workday(start, days, holidays)->Ok_0
            && spec_networkdays(start + 1, spec_workday(start, days, holidays)->Ok_0, holidays) == days,
        days < 0 ==> spec_workday(start, days, holidays)->Ok_0 < start
            && spec_networkdays(spec_workday(start, days, holidays)->Ok_0, start - 1, holidays) == -days,
{
    if days >= 0 {
        lemma_walk_counts_up(start, days as nat, holidays);
    } else {
        lemma_walk_counts_down(start, (-days) as nat, holidays);
    }
}

/// The days `WORKDAY` and `NETWORKDAYS` skip are the weekend `WEEKDAY` names and the holidays: a
/// serial is a day off exactly when `WEEKDAY(serial, 2)` is 6 or 7 (Saturday or Sunday) or it is
/// listed as a holiday; so a week of seven consecutive serials without holidays holds exactly five
/// working days.
pub proof fn law_days_off_are_weekends(d: int, holidays: Seq<i64>)
    ensures
        day_off(d, holidays) <==> (spec_weekday(d, 2) == Some(6int) || spec_weekday(d, 2) == Some(7int)
            || holidays.contains(d as i64)),
        working_days(d, d + 6, Seq::<i64>::empty()) == 5,
{
    let e = Seq::<i64>::empty();
    assert forall|k: int| d <= k <= d + 6 implies !#[trigger] e.contains(k as i64) by {}
    assert(working_days(d, d - 1, e) == 0);
    assert(working_days(d, d, e) == working_days(d, d - 1, e) + if day_off(d, e) { 0int } else { 1int });
    assert(working_days(d, d + 1, e) == working_days(d, d, e) + if day_off(d + 1, e) { 0int } else { 1int });
    assert(working_days(d, d + 2, e) == working_days(d, d + 1, e) + if day_off(d + 2, e) { 0int } else { 1int });
    assert(working_days(d, d + 3, e) == working_days(d, d + 2, e) + if day_off(d + 3, e) { 0int } else { 1int });
    assert(working_days(d, d + 4, e) == working_days(d, d + 3, e) + if day_off(d + 4, e) { 0int } else { 1int });
    assert(working_days(d, d + 5, e) == working_days(d, d + 4, e) + if day_off(d + 5, e) { 0int } else { 1int });
    assert(working_days(d, d + 6, e) == working_days(d, d + 5, e) + if day_off(d + 6, e) { 0int } else { 1int });
    let w = (d - 1) % 7;
    assert(spec_weekday_sun1(d + 1) == (w + 1) % 7 + 1);
    assert(spec_weekday_sun1(d + 2) == (w + 2) % 7 + 1);
    assert(spec_weekday_sun1(d + 3) == (w + 3) % 7 + 1);
    assert(spec_weekday_sun1(d + 4) == (w + 4) % 7 + 1);
    assert(spec_weekday_sun1(d + 5) == (w + 5) % 7 + 1);
    assert(spec_weekday_sun1(d + 6) == (w + 6) % 7 + 1);
}

/// `HOUR`, `MINUTE` and `SECOND` split a time of day: for whole seconds `0 ≤ t < 86400` the hour
/// is within `0…23`, the minute and second within `0…59`, and `3600·hour + 60·minute + second = t`.
pub proof fn law_clock_parts_recompose(secs: int)
    requires
        0 <= secs < 86400,
    ensures
        0 <= spec_clock_part(secs, ClockPart::Hour) < 24,
        0 <= spec_clock_part(secs, ClockPart::Minute) < 60,
        0 <= spec_clock_part(secs, ClockPart::Second) < 60,
        3600 * spec_clock_part(secs, ClockPart::Hour) + 60 * spec_clock_part(secs, ClockPart::Minute)
            + spec_clock_part(secs, ClockPart::Second) == secs,
{
}

/// `NETWORKDAYS` is antisymmetric: swapping two different dates negates the count.
pub proof fn law_networkdays_swap(start: int, end: int, holidays: Seq<i64>)
    requires
        start != end,
    ensures
        spec_networkdays(end, start, holidays) == -spec_networkdays(start, end, holidays),
{
}

/// A walk that still has working days to pass ends on a working day.
proof fn lemma_walk_lands_on_working_day(cur: int, remaining: nat, up: bool, holidays: Seq<i64>)
    requires
        remaining > 0,
        workday_walk(cur, remaining, up, holidays) is Ok,
    ensures
        !day_off(workday_walk(cur, remaining, up, holidays)->Ok_0, holidays),
    decreases remaining, (if up { MAX_SERIAL + 1 - cur } else { cur }),
{
    let next = if up { cur + 1 } else { cur - 1 };
    if 1 <= next <= MAX_SERIAL {
        if day_off(next, holidays) {
            lemma_walk_lands_on_working_day(next, remaining, up, holidays);
        } else if remaining > 1 {
            lemma_walk_lands_on_working_day(next, (remaining - 1) as nat, up, holidays);
        }
    }
}

/// `WORKDAY` with a non-zero count lands on a working day: never a weekend or a holiday.
pub proof fn law_workday_lands_on_working_day(start: int, days: int, holidays: Seq<i64>)
    requires
        days != 0,
        spec_workday(start, days, holidays) is Ok,
    ensures
        !day_off(spec_workday(start, days, holidays)->Ok_0, holidays),
{
    lemma_walk_lands_on_working_day(start, (if days >= 0 { days } else { -days }) as nat, days >= 0, holidays);
}

} // verus!
